use nova_agent::intent::{json_tail, sanitize_capabilities, verdict_from_parse, IntentVerdict, VerdictParse};

/// Reads a verdict the way the judge does: the tail from the first '{', its
/// first JSON value, then the library's cleaning.
fn parse_verdict(raw: &str) -> Result<IntentVerdict, String> {
    let tail = match json_tail(raw) {
        Some(t) => t,
        None => return verdict_from_parse(VerdictParse::NoJson),
    };
    let mut values = serde_json::Deserializer::from_str(&tail).into_iter::<serde_json::Value>();
    let outcome = match values.next() {
        Some(Ok(v)) => VerdictParse::Parsed(IntentVerdict {
            capabilities: v
                .get("capabilities")
                .and_then(|c| c.as_array())
                .map(|a| a.iter().filter_map(|x| x.as_str().map(String::from)).collect())
                .unwrap_or_default(),
            dangerous: v.get("dangerous").and_then(|d| d.as_bool()).unwrap_or(false),
            reason: v.get("reason").and_then(|r| r.as_str()).unwrap_or_default().to_string(),
        }),
        Some(Err(e)) => VerdictParse::Failed(e.to_string()),
        None => VerdictParse::Incomplete,
    };
    verdict_from_parse(outcome)
}

#[test]
fn parse_verdict_tolerant() {
    let raw = "好的，判定如下：\n```json\n{\"capabilities\": [\"delete\", \"delete\", \"hack\"], \"dangerous\": true, \"reason\": \"删除文件\"}\n```";
    let v = parse_verdict(raw).unwrap();
    assert_eq!(v.capabilities, vec!["delete"]);
    assert!(v.dangerous);
    assert_eq!(v.reason, "删除文件");
}

#[test]
fn parse_verdict_benign() {
    let raw = "{\"capabilities\": [], \"dangerous\": false, \"reason\": \"仅查看目录\"}";
    let v = parse_verdict(raw).unwrap();
    assert!(v.capabilities.is_empty());
    assert!(!v.dangerous);
}

#[test]
fn parse_verdict_invalid() {
    assert!(parse_verdict("没有任何 JSON").is_err());
    assert!(parse_verdict("{\"capabilities\": ").is_err());
}

#[test]
fn parse_verdict_trailing_content() {
    let raw = "{\"capabilities\":[\"write\"],\"dangerous\":false,\"reason\":\"下载并写入 /tmp 文件\"} 补充说明：该命令还会读取网络内容";
    let v = parse_verdict(raw).unwrap();
    assert_eq!(v.capabilities, vec!["write"]);
    assert!(!v.dangerous);

    let raw2 = "{\"capabilities\":[],\"dangerous\":false,\"reason\":\"仅查看\"}\n{\"capabilities\":[\"delete\"],\"dangerous\":true,\"reason\":\"第二个 JSON\"}";
    let v2 = parse_verdict(raw2).unwrap();
    assert!(v2.capabilities.is_empty());
}

#[test]
fn tail_from_first_brace() {
    assert_eq!(json_tail("abc {x} {y}"), Some("{x} {y}".to_string()));
    assert_eq!(json_tail("{"), Some("{".to_string()));
    assert_eq!(json_tail("none"), None);
    assert_eq!(json_tail(""), None);
}

#[test]
fn capability_cleaning() {
    let caps: Vec<String> = ["write", "hack", "delete", "read", "write", "edit", "Delete"]
        .iter()
        .map(|s| s.to_string())
        .collect();
    assert_eq!(sanitize_capabilities(&caps), vec!["delete", "edit", "read", "write"]);
    assert!(sanitize_capabilities(&vec!["execute".to_string()]).is_empty());
}

#[test]
fn parse_errors_have_their_messages() {
    assert_eq!(verdict_from_parse(VerdictParse::NoJson).err(), Some("模型未输出 JSON".to_string()));
    assert_eq!(
        verdict_from_parse(VerdictParse::Incomplete).err(),
        Some("模型输出的 JSON 不完整".to_string())
    );
    assert_eq!(
        verdict_from_parse(VerdictParse::Failed("bad".to_string())).err(),
        Some("判定 JSON 解析失败: bad".to_string())
    );
}
