use nova_agent::tools::system::{plan_call, SysCall, exec_timeout_secs, read_cap};
use nova_agent::intent::IntentVerdict;
use nova_agent::tools::system::{
    clip_output, command_contains_delete, decimal_chars, execute_checks, plan_edit, ExecCheck, ExecIntent,
    MAX_OUTPUT_CHARS,
};

#[test]
fn detect_delete_commands() {
    assert!(command_contains_delete("rm -rf /tmp/x"));
    assert!(command_contains_delete("cd /tmp && rm a.txt"));
    assert!(command_contains_delete("/bin/rm file"));
    assert!(command_contains_delete("find . -name '*.log' -delete"));
    assert!(command_contains_delete("ls | xargs rmdir"));
    assert!(!command_contains_delete("ls -la"));
    assert!(!command_contains_delete("cat alarm.txt"));
    assert!(!command_contains_delete("echo perform format"));
    assert!(!command_contains_delete("grep -r 'format' src/"));
}

#[test]
fn delete_words_in_other_forms() {
    assert!(command_contains_delete("unlink /tmp/a"));
    assert!(command_contains_delete("shred -u secret"));
    assert!(command_contains_delete("RM -r x"));
    assert!(command_contains_delete("echo $(rm x)"));
    assert!(command_contains_delete("a;rm b"));
    assert!(command_contains_delete("x=`rmdir d`"));
    assert!(!command_contains_delete("rmx file"));
    assert!(!command_contains_delete("/usr/bin/rmate file"));
    assert!(!command_contains_delete(""));
}

#[test]
fn clip_short_and_long_output() {
    assert_eq!(clip_output("short"), "short");
    let exact = "b".repeat(MAX_OUTPUT_CHARS);
    assert_eq!(clip_output(&exact), exact);
    let half = MAX_OUTPUT_CHARS / 2;
    let long = format!("{}{}{}", "h".repeat(half), "m".repeat(10), "t".repeat(half));
    let clipped = clip_output(&long);
    assert_eq!(clipped, format!("{}\n...[输出过长已截断]...\n{}", "h".repeat(half), "t".repeat(half)));
    // clipping counts characters, not bytes
    let wide = "中".repeat(MAX_OUTPUT_CHARS + 1);
    let c = clip_output(&wide);
    assert_eq!(c.chars().count(), MAX_OUTPUT_CHARS + "\n...[输出过长已截断]...\n".chars().count());
}

fn verdict(caps: &[&str], dangerous: bool, reason: &str) -> ExecIntent {
    ExecIntent::Verdict(IntentVerdict {
        capabilities: caps.iter().map(|c| c.to_string()).collect(),
        dangerous,
        reason: reason.to_string(),
    })
}

#[test]
fn checks_for_a_dangerous_verdict() {
    let checks = execute_checks(&verdict(&["delete", "write"], true, "删库"), "rm -rf /data");
    assert_eq!(checks.len(), 3);
    match &checks[0] {
        ExecCheck::Approve { summary, refusal } => {
            assert_eq!(summary, "破坏性意图需审批：删库\n命令：rm -rf /data");
            assert_eq!(refusal, "操作被拒绝：用户未批准该破坏性命令");
        }
        _ => panic!("a dangerous verdict asks a person first"),
    }
    match &checks[1] {
        ExecCheck::Authorize { capability, summary } => {
            assert_eq!(capability, "delete");
            assert_eq!(summary, "意图判定触及 delete 能力（删库）：rm -rf /data");
        }
        _ => panic!("then each capability's gate"),
    }
    match &checks[2] {
        ExecCheck::Authorize { capability, .. } => assert_eq!(capability, "write"),
        _ => panic!("then each capability's gate"),
    }
}

#[test]
fn checks_for_a_harmless_verdict() {
    assert!(execute_checks(&verdict(&[], false, "仅查看"), "rm -rf /").is_empty());
    let checks = execute_checks(&verdict(&["read"], false, "读"), "cat a");
    assert_eq!(checks.len(), 1);
    assert!(matches!(&checks[0], ExecCheck::Authorize { capability, .. } if capability == "read"));
}

#[test]
fn checks_without_a_judge() {
    let unavailable = ExecIntent::Unavailable("超时".to_string());
    let checks = execute_checks(&unavailable, "rm a.txt");
    assert_eq!(checks.len(), 1);
    match &checks[0] {
        ExecCheck::Authorize { capability, summary } => {
            assert_eq!(capability, "delete");
            assert_eq!(summary, "命令含删除操作: rm a.txt");
        }
        _ => panic!("a deleting command goes through the delete gate"),
    }
    let checks = execute_checks(&unavailable, "ls");
    match &checks[0] {
        ExecCheck::Approve { summary, refusal } => {
            assert_eq!(summary, "意图判定不可用（超时），请人工确认命令：ls");
            assert_eq!(refusal, "操作被拒绝：用户未批准该命令");
        }
        _ => panic!("any other command asks a person"),
    }
    assert!(execute_checks(&ExecIntent::Disabled, "ls").is_empty());
    assert_eq!(execute_checks(&ExecIntent::Disabled, "rm x").len(), 1);
}

#[test]
fn edit_replaces_first_occurrence() {
    let (text, n) = plan_edit("a=1\nb=2\n", "=1", "=3", false).unwrap();
    assert_eq!(text, "a=3\nb=2\n");
    assert_eq!(n, 1);
    // a single occurrence replaced with replace_all counts once too
    assert_eq!(plan_edit("a=1", "=1", "", true), Ok(("a".to_string(), 1)));
}

#[test]
fn edit_errors_and_replace_all() {
    assert_eq!(plan_edit("abc", "", "x", false), Err("缺少参数 path 或 old_text".to_string()));
    assert_eq!(
        plan_edit("abc", "zz", "x", false),
        Err("old_text 在文件中不存在（必须精确匹配，包含空白与缩进）".to_string())
    );
    assert_eq!(
        plan_edit("x x x", "x", "y", false),
        Err("old_text 在文件中出现 3 次，不唯一。请提供更多上下文使其唯一，或设置 replace_all = true".to_string())
    );
    assert_eq!(plan_edit("x x x", "x", "yy", true), Ok(("yy yy yy".to_string(), 3)));
    // occurrences do not overlap
    assert_eq!(plan_edit("aaaa", "aa", "b", true), Ok(("bb".to_string(), 2)));
    assert_eq!(plan_edit("aaa", "aa", "b", true), Ok(("ba".to_string(), 1)));
    // the length changes by the difference once per replacement
    let (t, c) = plan_edit("中文中文", "中", "汉字", true).unwrap();
    assert_eq!(t, "汉字文汉字文");
    assert_eq!(t.chars().count() + c, 4 + 2 * c);
}

#[test]
fn decimal_text() {
    let s: String = decimal_chars(0).into_iter().collect();
    assert_eq!(s, "0");
    let s: String = decimal_chars(1207).into_iter().collect();
    assert_eq!(s, "1207");
}

#[test]
fn argument_defaults() {
    assert_eq!(read_cap(None), 65536);
    assert_eq!(read_cap(Some(10)), 10);
    assert_eq!(read_cap(Some(1 << 40)), 65536);
    assert_eq!(exec_timeout_secs(None), 120);
    assert_eq!(exec_timeout_secs(Some(30)), 30);
    assert_eq!(exec_timeout_secs(Some(601)), 600);
    assert_eq!(exec_timeout_secs(Some(0)), 0);
}

#[test]
fn tool_call_plans() {
    let p = plan_call(&SysCall::Read { path: "/tmp".to_string() }).unwrap();
    assert_eq!((p.capability.as_str(), p.tool.as_str(), p.summary.as_str()), ("read", "sys_read", "读取 /tmp"));
    let p = plan_call(&SysCall::Write { path: "/o/a.txt".to_string(), bytes: 12 }).unwrap();
    assert_eq!((p.capability.as_str(), p.tool.as_str()), ("write", "sys_write"));
    assert_eq!(p.summary, "写入文件 /o/a.txt (12 字节)");
    let p = plan_call(&SysCall::Edit { path: "/a".to_string(), has_old_text: true }).unwrap();
    assert_eq!((p.capability.as_str(), p.summary.as_str()), ("edit", "修改文件 /a"));
    let p = plan_call(&SysCall::Delete { path: "/d".to_string(), recursive: true }).unwrap();
    assert_eq!((p.capability.as_str(), p.tool.as_str(), p.summary.as_str()), ("delete", "sys_delete", "删除 /d（递归）"));
    let p = plan_call(&SysCall::Delete { path: "/d".to_string(), recursive: false }).unwrap();
    assert_eq!(p.summary, "删除 /d");
    let p = plan_call(&SysCall::Execute { command: "ls".to_string() }).unwrap();
    assert_eq!((p.capability.as_str(), p.tool.as_str(), p.summary.as_str()), ("execute", "sys_execute", "执行命令: ls"));
    assert_eq!(plan_call(&SysCall::Read { path: String::new() }).err(), Some("缺少参数 path".to_string()));
    assert_eq!(plan_call(&SysCall::Write { path: String::new(), bytes: 0 }).err(), Some("缺少参数 path".to_string()));
    assert_eq!(
        plan_call(&SysCall::Edit { path: "/a".to_string(), has_old_text: false }).err(),
        Some("缺少参数 path 或 old_text".to_string())
    );
    assert_eq!(plan_call(&SysCall::Delete { path: String::new(), recursive: true }).err(), Some("缺少参数 path".to_string()));
    assert_eq!(plan_call(&SysCall::Execute { command: String::new() }).err(), Some("缺少参数 command".to_string()));
}
