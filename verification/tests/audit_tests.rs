use nova_agent::audit::audit_page;
use nova_agent::audit::{build_query, truncate, QUERY_BASE, QUERY_TAIL};

#[test]
fn truncation_by_characters() {
    assert_eq!(truncate("abc", 3), "abc");
    assert_eq!(truncate("abcd", 3), "abc...");
    assert_eq!(truncate("中文字符", 2), "中文...");
    assert_eq!(truncate("", 0), "");
    assert_eq!(truncate("x", 0), "...");
}

#[test]
fn query_without_filters() {
    let q = build_query("", "", "");
    assert_eq!(q.sql, format!("{QUERY_BASE}{QUERY_TAIL}"));
    assert!(q.binds.is_empty());
}

#[test]
fn query_with_filters() {
    let q = build_query("", "", "denied");
    assert_eq!(
        q.sql,
        "SELECT id, ts, type, tool, args, result_summary, status, session_id, duration_ms FROM events WHERE 1=1 AND status = ? ORDER BY id DESC LIMIT ? OFFSET ?"
    );
    assert_eq!(q.binds, vec!["denied".to_string()]);

    let q = build_query("tool_call", "sys", "ok");
    assert_eq!(
        q.sql,
        format!("{QUERY_BASE} AND type = ? AND tool LIKE ? AND status = ?{QUERY_TAIL}")
    );
    assert_eq!(q.binds, vec!["tool_call".to_string(), "%sys%".to_string(), "ok".to_string()]);
    // every filter placeholder has its value, then limit and offset
    assert_eq!(q.sql.matches('?').count(), q.binds.len() + 2);
}

#[test]
fn paging_limits() {
    assert_eq!(audit_page(None, None), (100, 0));
    assert_eq!(audit_page(Some(0), Some(-5)), (1, 0));
    assert_eq!(audit_page(Some(5000), Some(40)), (1000, 40));
    assert_eq!(audit_page(Some(20), None), (20, 0));
}
