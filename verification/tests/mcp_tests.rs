use nova_agent::config::McpServerConfig;
use nova_agent::mcp::{connect_check, mcp_status, mcp_target, servers_to_connect, transport_of, McpTransport};

fn stdio(name: &str, command: &str, args: &[&str], enabled: bool) -> McpServerConfig {
    McpServerConfig {
        name: name.to_string(),
        transport: "stdio".to_string(),
        command: command.to_string(),
        args: args.iter().map(|a| a.to_string()).collect(),
        enabled,
        ..Default::default()
    }
}

fn http(name: &str, url: &str) -> McpServerConfig {
    McpServerConfig {
        name: name.to_string(),
        transport: "http".to_string(),
        url: url.to_string(),
        enabled: true,
        ..Default::default()
    }
}

#[test]
fn which_servers_connect() {
    let cfgs = vec![
        stdio("fs", "npx", &["-y"], true),
        stdio("", "npx", &[], true),
        stdio("off", "npx", &[], false),
        http("web", "http://localhost:1"),
    ];
    assert_eq!(servers_to_connect(&cfgs), vec![0, 3]);
    assert!(matches!(transport_of(&cfgs[3]), McpTransport::Http));
    assert!(matches!(transport_of(&cfgs[0]), McpTransport::Stdio));
    // an unknown transport name is reached over stdio
    let mut odd = stdio("x", "cmd", &[], true);
    odd.transport = "sse".to_string();
    assert!(matches!(transport_of(&odd), McpTransport::Stdio));
}

#[test]
fn targets_and_checks() {
    assert_eq!(mcp_target(&stdio("fs", "npx", &["-y", "server"], true)), "npx -y server");
    assert_eq!(mcp_target(&stdio("fs", "npx", &[], true)), "npx ");
    assert_eq!(mcp_target(&http("w", "http://h:1/mcp")), "http://h:1/mcp");
    assert!(connect_check(&stdio("fs", "npx", &[], true)).is_ok());
    assert_eq!(connect_check(&stdio("fs", "", &[], true)), Err("stdio 服务器缺少 command".to_string()));
    assert_eq!(connect_check(&http("w", "")), Err("http 服务器缺少 url".to_string()));
}

#[test]
fn status_lines() {
    let cfg = stdio("fs", "npx", &["-y"], true);
    let ok = mcp_status(&cfg, Ok(()));
    assert!(ok.connected);
    assert_eq!(ok.name, "fs");
    assert_eq!(ok.transport, "stdio");
    assert_eq!(ok.target, "npx -y");
    assert!(ok.error.is_empty());
    let bad = mcp_status(&cfg, Err("MCP 握手失败: x".to_string()));
    assert!(!bad.connected);
    assert_eq!(bad.error, "MCP 握手失败: x");
}
