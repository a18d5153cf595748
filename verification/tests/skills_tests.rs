use nova_agent::skills::{find_skill, index_for_instruction, parse_frontmatter, sort_by_name, strip_field, Skill};

#[test]
fn frontmatter_parsing() {
    let raw = "---\nname: code-review\ndescription: 代码审查专家\n---\n# 正文";
    let (name, desc) = parse_frontmatter(raw, "/tmp/x/SKILL.md");
    assert_eq!(name, "code-review");
    assert_eq!(desc, "代码审查专家");

    let (name2, _) = parse_frontmatter("# 标题\n内容", "/tmp/mydir/SKILL.md");
    assert_eq!(name2, "mydir");
}

#[test]
fn frontmatter_fallbacks() {
    // no name field: the directory's name; no description: empty
    let (name, desc) = parse_frontmatter("---\ntitle: x\n---\nbody", "/a/b/skill-dir/SKILL.md");
    assert_eq!(name, "skill-dir");
    assert_eq!(desc, "");
    // quoted values lose their quotes; leading blank lines are skipped
    let (name, desc) = parse_frontmatter("\n\n---\nname: \"quoted\"\ndescription: 'single'\n---\n", "/x/SKILL.md");
    assert_eq!(name, "quoted");
    assert_eq!(desc, "single");
    // no front matter: first non-blank line without its leading '#'
    let (name, desc) = parse_frontmatter("\n  \n## 安全审计  \n正文", "/s/audit/SKILL.md");
    assert_eq!(name, "audit");
    assert_eq!(desc, "安全审计");
    // an unterminated front matter counts as none
    let (_, desc) = parse_frontmatter("---\nname: x\n", "/s/d/SKILL.md");
    assert_eq!(desc, "---");
    // a path without a parent directory name
    let (name, _) = parse_frontmatter("text", "SKILL.md");
    assert_eq!(name, "unnamed");
}

#[test]
fn field_lines() {
    assert_eq!(strip_field("  name:  demo  ", "name"), Some("demo".to_string()));
    assert_eq!(strip_field("name:", "name"), None);
    assert_eq!(strip_field("name: \"\"", "name"), None);
    assert_eq!(strip_field("names: x", "name"), None);
    assert_eq!(strip_field("description: a: b", "description"), Some("a: b".to_string()));
}

fn skill(name: &str, description: &str) -> Skill {
    Skill { name: name.to_string(), description: description.to_string(), path: format!("/s/{name}/SKILL.md") }
}

#[test]
fn skill_index_text() {
    assert_eq!(index_for_instruction(&Vec::new()), "");
    let skills = vec![skill("a", "first"), skill("b", "second")];
    assert_eq!(
        index_for_instruction(&skills),
        "可用技能（SKILLS）：当用户需求与某技能相关时，先用 load_skill 加载其完整内容并严格遵循。\n- a: first\n- b: second\n"
    );
}

#[test]
fn skill_lookup() {
    let skills = vec![skill("a", "1"), skill("b", "2"), skill("b", "3")];
    assert_eq!(find_skill(&skills, "b"), Some(1));
    assert_eq!(find_skill(&skills, "a"), Some(0));
    assert_eq!(find_skill(&skills, "c"), None);
}

#[test]
fn skills_sorted_by_name_stably() {
    let mut a2 = skill("beta", "second beta");
    a2.path = "/other/beta/SKILL.md".to_string();
    let skills = vec![skill("beta", "first beta"), skill("alpha", "a"), a2, skill("Zed", "z"), skill("中文", "c")];
    let sorted = sort_by_name(&skills);
    let names: Vec<&str> = sorted.iter().map(|s| s.name.as_str()).collect();
    assert_eq!(names, vec!["Zed", "alpha", "beta", "beta", "中文"]);
    assert_eq!(sorted[2].description, "first beta");
    assert_eq!(sorted[3].description, "second beta");
    assert!(sort_by_name(&Vec::new()).is_empty());
    // the same order std's stable sort by name gives
    let mut expected = skills.iter().map(|s| (s.name.clone(), s.description.clone())).collect::<Vec<_>>();
    expected.sort_by(|a, b| a.0.cmp(&b.0));
    let got = sorted.iter().map(|s| (s.name.clone(), s.description.clone())).collect::<Vec<_>>();
    assert_eq!(got, expected);
}

#[test]
fn character_order() {
    let v = |s: &str| s.chars().collect::<Vec<char>>();
    assert!(nova_agent::text::lex_lt_chars(&v("abc"), &v("abd")));
    assert!(nova_agent::text::lex_lt_chars(&v("ab"), &v("abc")));
    assert!(!nova_agent::text::lex_lt_chars(&v("abc"), &v("abc")));
    assert!(!nova_agent::text::lex_lt_chars(&v("b"), &v("abc")));
    assert!(nova_agent::text::lex_lt_chars(&v(""), &v("a")));
    assert!(!nova_agent::text::lex_lt_chars(&v(""), &v("")));
}
