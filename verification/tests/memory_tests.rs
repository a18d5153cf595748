use nova_agent::memory::recall_limit;
use nova_agent::memory::{query_keywords, record_file_text, record_lines, uuid_v4, MemoryStore};

fn kw(q: &str) -> Vec<String> {
    query_keywords(q).into_iter().map(|k| k.into_iter().collect()).collect()
}

#[test]
fn keywords_of_a_query() {
    assert_eq!(kw("深色主题"), vec!["深色主题"]);
    assert_eq!(kw("Deploy, linux-server!"), vec!["deploy", "linux", "server"]);
    assert_eq!(kw("snake_case  42"), vec!["snake_case", "42"]);
    assert!(kw("").is_empty());
    assert!(kw(" ,.- ").is_empty());
}

#[test]
fn add_recall_forget_in_memory() {
    let mut store = MemoryStore::from_entries(Vec::new());
    let e1 = MemoryStore::new_entry("preference", "用户喜欢深色主题", &vec!["theme".to_string()]);
    let e1_id = e1.id.clone();
    store.push(e1);
    store.push(MemoryStore::new_entry("fact", "项目部署在 Linux 服务器上", &vec!["deploy".to_string()]));

    let plan = store.recall_plan("深色主题", "");
    assert_eq!(plan.keyword_count, 1);
    assert_eq!(plan.candidates.len(), 1);
    assert_eq!(store.entries()[plan.candidates[0].index].id, e1_id);
    assert_eq!(plan.candidates[0].matched, 1);

    assert!(store.forget(&e1_id));
    assert!(!store.forget(&e1_id));
    assert!(store.recall_plan("深色主题", "").candidates.is_empty());
    assert_eq!(store.list(10).len(), 1);
}

#[test]
fn recall_by_tag_category_and_case() {
    let mut store = MemoryStore::from_entries(Vec::new());
    store.push(MemoryStore::new_entry("fact", "Runs on UBUNTU", &vec!["Server".to_string(), "ops".to_string()]));
    store.push(MemoryStore::new_entry("", "备忘", &Vec::new()));
    // matching is case-insensitive and covers the tags
    let plan = store.recall_plan("ubuntu SERVER missing", "");
    assert_eq!(plan.keyword_count, 3);
    assert_eq!(plan.candidates.len(), 1);
    assert_eq!(plan.candidates[0].index, 0);
    assert_eq!(plan.candidates[0].matched, 2);
    // a category filter
    assert!(store.recall_plan("ubuntu", "other").candidates.is_empty());
    // no keywords: every entry in the category
    let all = store.recall_plan("", "");
    assert_eq!(all.keyword_count, 0);
    assert_eq!(all.candidates.len(), 2);
    let others = store.recall_plan("", "other");
    assert_eq!(others.candidates.len(), 1);
    assert_eq!(others.candidates[0].index, 1);
}

#[test]
fn new_entries_and_listing() {
    let e = MemoryStore::new_entry("", "x", &vec!["a".to_string(), "b".to_string()]);
    assert_eq!(e.category, "other");
    assert_eq!(e.content, "x");
    assert_eq!(e.tags, vec!["a".to_string(), "b".to_string()]);
    assert_eq!(e.id.len(), 36);
    let d = e.duplicate();
    assert_eq!(d.id, e.id);
    assert_eq!(d.ts, e.ts);

    let mut store = MemoryStore::from_entries(vec![e]);
    store.push(MemoryStore::new_entry("task", "y", &Vec::new()));
    store.push(MemoryStore::new_entry("task", "z", &Vec::new()));
    let listed = store.list(2);
    assert_eq!(listed.len(), 2);
    assert_eq!(listed[0].content, "z");
    assert_eq!(listed[1].content, "y");
    assert_eq!(store.list(10).len(), 3);
    assert_eq!(store.list(0).len(), 0);
}

#[test]
fn ids_are_uuid_shaped() {
    let a = uuid_v4();
    let b = uuid_v4();
    assert_ne!(a, b);
    assert_eq!(a.len(), 36);
    for (i, c) in a.chars().enumerate() {
        if i == 8 || i == 13 || i == 18 || i == 23 {
            assert_eq!(c, '-');
        } else {
            assert!(c.is_ascii_hexdigit());
        }
    }
    assert_eq!(a.chars().nth(14), Some('4'));
}

#[test]
fn recall_limits() {
    assert_eq!(recall_limit(None), 5);
    assert_eq!(recall_limit(Some(0)), 1);
    assert_eq!(recall_limit(Some(12)), 12);
}

#[test]
fn memory_file_framing() {
    assert_eq!(record_lines("a\n\n  b  \r\n\n"), vec!["a".to_string(), "b".to_string()]);
    assert!(record_lines("").is_empty());
    assert!(record_lines("\n \n").is_empty());
    assert_eq!(record_file_text(&Vec::new()), "\n");
    let recs = vec!["{\"id\":\"1\"}".to_string(), "{\"id\":\"2\"}".to_string()];
    let file = record_file_text(&recs);
    assert_eq!(file, "{\"id\":\"1\"}\n{\"id\":\"2\"}\n");
    // a rewritten file loads back as the same records, and an append adds one
    assert_eq!(record_lines(&file), recs);
    let appended = format!("{file}{}\n", "{\"id\":\"3\"}");
    assert_eq!(record_lines(&appended).len(), 3);
    assert!(record_lines(&record_file_text(&Vec::new())).is_empty());
}

/// Forgetting the entry just added gives back the entries held before.
#[test]
fn forget_undoes_add() {
    let a = MemoryStore::new_entry("fact", "a", &Vec::new());
    let b = MemoryStore::new_entry("fact", "b", &Vec::new());
    let ids_before = vec![a.id.clone(), b.id.clone()];
    let mut store = MemoryStore::from_entries(vec![a, b]);
    let c = MemoryStore::new_entry("task", "c", &Vec::new());
    let c_id = c.id.clone();
    store.push(c);
    assert!(store.forget(&c_id));
    let ids_after: Vec<String> = store.entries().iter().map(|e| e.id.clone()).collect();
    assert_eq!(ids_after, ids_before);
}
