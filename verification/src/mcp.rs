//! MCP servers: which configured servers are connected, over which transport,
//! and the status line each one shows.
use vstd::prelude::*;
use crate::config::McpServerConfig;
use crate::text::{chars_of, push_chars, push_str, string_from_chars, str_eq, to_owned_string};

verus! {

broadcast use vstd::string::group_string_axioms;

/// A server's connection status as shown in the settings page.
pub struct McpStatus {
    pub name: String,
    pub transport: String,
    pub target: String,
    pub connected: bool,
    pub error: String,
}

/// How a server is reached: "http" means HTTP, anything else a child process over stdio.
pub enum McpTransport {
    Http,
    Stdio,
}

pub open spec fn is_http(cfg: McpServerConfig) -> bool {
    cfg.transport@ == "http"@
}

/// Whether a configured server is connected at all: it has a name and is enabled.
pub open spec fn wanted(cfg: McpServerConfig) -> bool {
    cfg.name@.len() > 0 && cfg.enabled
}

/// The positions of the servers to connect, in configuration order.
pub open spec fn wanted_indices(cfgs: Seq<McpServerConfig>) -> Seq<int>
    decreases cfgs.len(),
{
    if cfgs.len() == 0 {
        Seq::empty()
    } else {
        wanted_indices(cfgs.drop_last()) + if wanted(cfgs.last()) {
            seq![cfgs.len() - 1]
        } else {
            Seq::empty()
        }
    }
}

/// `parts` joined with single spaces.
pub open spec fn joined(parts: Seq<String>) -> Seq<char>
    decreases parts.len(),
{
    if parts.len() == 0 {
        Seq::empty()
    } else if parts.len() == 1 {
        parts[0]@
    } else {
        joined(parts.drop_last()) + " "@ + parts.last()@
    }
}

/// What a server's status names as its target: the URL for HTTP, else
/// the command followed by a space and its arguments joined with spaces.
pub open spec fn target_of(cfg: McpServerConfig) -> Seq<char> {
    if is_http(cfg) {
        cfg.url@
    } else {
        cfg.command@ + " "@ + joined(cfg.args@)
    }
}

/// The reason a server cannot even be tried, if any: a stdio server needs a
/// command, an HTTP server a URL.
pub open spec fn connect_problem(cfg: McpServerConfig) -> Option<Seq<char>> {
    if is_http(cfg) {
        if cfg.url@.len() == 0 {
            Some("http 服务器缺少 url"@)
        } else {
            None
        }
    } else if cfg.command@.len() == 0 {
        Some("stdio 服务器缺少 command"@)
    } else {
        None
    }
}

/// The transport of a server.
pub fn transport_of(cfg: &McpServerConfig) -> (r: McpTransport)
    ensures
        r == if is_http(*cfg) { McpTransport::Http } else { McpTransport::Stdio },
{
    if str_eq(cfg.transport.as_str(), "http") {
        McpTransport::Http
    } else {
        McpTransport::Stdio
    }
}

/// The positions of the servers that a rebuild connects, in order.
pub fn servers_to_connect(cfgs: &Vec<McpServerConfig>) -> (r: Vec<usize>)
    ensures
        r@.map_values(|i: usize| i as int) == wanted_indices(cfgs@),
{
    let mut r: Vec<usize> = Vec::new();
    let mut i: usize = 0;
    assert(cfgs@.take(0) =~= Seq::<McpServerConfig>::empty());
    while i < cfgs.len()
        invariant
            i <= cfgs.len(),
            r@.map_values(|k: usize| k as int) == wanted_indices(cfgs@.take(i as int)),
        decreases cfgs.len() - i,
    {
        let ghost before = r@.map_values(|k: usize| k as int);
        proof {
            assert(cfgs@.take(i + 1).drop_last() =~= cfgs@.take(i as int));
            assert(cfgs@.take(i + 1).last() == cfgs@[i as int]);
        }
        if !cfgs[i].name.as_str().is_empty() && cfgs[i].enabled {
            r.push(i);
            assert(r@.map_values(|k: usize| k as int) =~= before.push(i as int));
        } else {
            assert(r@.map_values(|k: usize| k as int) =~= before);
        }
        i = i + 1;
    }
    assert(cfgs@.take(i as int) =~= cfgs@);
    r
}

/// The target shown for a server.
pub fn mcp_target(cfg: &McpServerConfig) -> (r: String)
    ensures
        r@ == target_of(*cfg),
{
    if str_eq(cfg.transport.as_str(), "http") {
        return cfg.url.clone();
    }
    let mut out = chars_of(cfg.command.as_str());
    push_str(&mut out, " ");
    let ghost pre = out@;
    let mut i: usize = 0;
    assert(cfg.args@.take(0) =~= Seq::<String>::empty());
    while i < cfg.args.len()
        invariant
            i <= cfg.args.len(),
            out@ == pre + joined(cfg.args@.take(i as int)),
        decreases cfg.args.len() - i,
    {
        if i > 0 {
            push_str(&mut out, " ");
        }
        push_chars(&mut out, &chars_of(cfg.args[i].as_str()));
        proof {
            let a = cfg.args@.take(i + 1);
            assert(a.drop_last() =~= cfg.args@.take(i as int));
            assert(a.last() == cfg.args@[i as int]);
            if i == 0 {
                assert(a =~= seq![cfg.args@[0]]);
                assert(joined(cfg.args@.take(0)) =~= Seq::<char>::empty());
            }
            assert(out@ =~= pre + joined(a));
        }
        i = i + 1;
    }
    assert(cfg.args@.take(i as int) =~= cfg.args@);
    string_from_chars(out.as_slice())
}

/// Checks that a server can be tried: the error text when its command or URL is missing.
pub fn connect_check(cfg: &McpServerConfig) -> (r: Result<(), String>)
    ensures
        match connect_problem(*cfg) {
            Some(m) => r matches Err(e) && e@ == m,
            None => r is Ok,
        },
{
    if str_eq(cfg.transport.as_str(), "http") {
        if cfg.url.as_str().is_empty() {
            return Err(to_owned_string("http 服务器缺少 url"));
        }
    } else if cfg.command.as_str().is_empty() {
        return Err(to_owned_string("stdio 服务器缺少 command"));
    }
    Ok(())
}

/// The status of a server once a connection was tried: connected with no error,
/// or not connected with the error's text.
pub fn mcp_status(cfg: &McpServerConfig, outcome: Result<(), String>) -> (r: McpStatus)
    ensures
        r.name@ == cfg.name@,
        r.transport@ == cfg.transport@,
        r.target@ == target_of(*cfg),
        match outcome {
            Ok(()) => r.connected && r.error@.len() == 0,
            Err(e) => !r.connected && r.error@ == e@,
        },
{
    let target = mcp_target(cfg);
    match outcome {
        Ok(()) => McpStatus {
            name: cfg.name.clone(),
            transport: cfg.transport.clone(),
            target,
            connected: true,
            error: String::new(),
        },
        Err(e) => McpStatus {
            name: cfg.name.clone(),
            transport: cfg.transport.clone(),
            target,
            connected: false,
            error: e,
        },
    }
}

} // verus!
