use nova_agent::config::{
    retain_named_servers, ApprovalConfig, Config, GatesConfig, McpServerConfig, ModelConfig, DEFAULT_PORT,
};

#[test]
fn gate_matrix() {
    let gates = GatesConfig::default();
    assert!(gates.is_enabled("read"));
    assert!(!gates.is_enabled("delete"));
    assert!(!gates.is_enabled("execute"));
    let approval = ApprovalConfig::default();
    assert!(approval.requires_approval("delete"));
    assert!(approval.requires_approval("execute"));
    assert!(!approval.requires_approval("read"));
}

#[test]
fn unknown_capability_is_never_enabled() {
    let gates = GatesConfig { read: true, write: true, edit: true, delete: true, execute: true };
    assert!(gates.is_enabled("write"));
    assert!(gates.is_enabled("edit"));
    assert!(!gates.is_enabled("format"));
    assert!(!gates.is_enabled(""));
    assert!(!gates.is_enabled("READ"));
}

#[test]
fn default_config_values() {
    let cfg = Config::default();
    assert_eq!(cfg.server.host, "127.0.0.1");
    assert_eq!(cfg.server.port, DEFAULT_PORT);
    assert_eq!(cfg.server.port, 8899);
    assert_eq!(cfg.model.provider, "deepseek");
    assert_eq!(cfg.model.model, "deepseek-chat");
    assert_eq!(cfg.model.max_iterations, 30);
    assert_eq!(cfg.approval.timeout_secs, 300);
    assert!(cfg.intent.enabled);
    assert_eq!(cfg.intent.timeout_secs, 45);
    assert_eq!(cfg.paths.data_dir, "data");
    assert_eq!(cfg.paths.skills_dir, "skills");
    assert!(cfg.agent.extra_instruction.is_empty());
    assert!(cfg.mcp_servers.is_empty());
    let m = ModelConfig::default();
    assert!(m.api_key.is_empty() && m.base_url.is_empty());
}

#[test]
fn unnamed_servers_are_dropped() {
    let named = |n: &str| McpServerConfig { name: n.to_string(), enabled: true, ..Default::default() };
    let servers = vec![named("fs"), named(""), named("git"), McpServerConfig::default()];
    let kept = retain_named_servers(servers);
    assert_eq!(kept.len(), 2);
    assert_eq!(kept[0].name, "fs");
    assert_eq!(kept[1].name, "git");
}
