//! Configuration: every item persisted in config.toml, with its defaults and
//! the capability switches and approval policy that the guard reads.
use vstd::prelude::*;
use std::collections::HashMap;
use crate::text::{str_eq, to_owned_string};

verus! {

broadcast use vstd::string::group_string_axioms;

pub const DEFAULT_PORT: u16 = 8899;

pub struct ServerConfig {
    pub host: String,
    pub port: u16,
}

impl Default for ServerConfig {
    fn default() -> (r: Self)
        ensures
            r.host@ == "127.0.0.1"@,
            r.port == DEFAULT_PORT,
    {
        ServerConfig { host: to_owned_string("127.0.0.1"), port: DEFAULT_PORT }
    }
}

pub struct ModelConfig {
    /// gemini | openai_compatible | deepseek | ollama | anthropic
    pub provider: String,
    pub api_key: String,
    pub model: String,
    /// Used by OpenAI-compatible endpoints and as the Ollama host.
    pub base_url: String,
    pub max_iterations: u32,
}

impl Default for ModelConfig {
    fn default() -> (r: Self)
        ensures
            r.provider@ == "deepseek"@,
            r.api_key@ == Seq::<char>::empty(),
            r.model@ == "deepseek-chat"@,
            r.base_url@ == Seq::<char>::empty(),
            r.max_iterations == 30,
    {
        ModelConfig {
            provider: to_owned_string("deepseek"),
            api_key: String::new(),
            model: to_owned_string("deepseek-chat"),
            base_url: String::new(),
            max_iterations: 30,
        }
    }
}

/// One switch per system capability.
pub struct GatesConfig {
    pub read: bool,
    pub write: bool,
    pub edit: bool,
    pub delete: bool,
    pub execute: bool,
}

impl Default for GatesConfig {
    /// Read, write and edit on; delete and execute off.
    fn default() -> (r: Self)
        ensures
            r.read && r.write && r.edit,
            !r.delete && !r.execute,
    {
        GatesConfig { read: true, write: true, edit: true, delete: false, execute: false }
    }
}

/// Whether the switch of `capability` is on; an unknown capability is never enabled.
pub open spec fn gate_enabled(g: GatesConfig, capability: Seq<char>) -> bool {
    if capability == "read"@ {
        g.read
    } else if capability == "write"@ {
        g.write
    } else if capability == "edit"@ {
        g.edit
    } else if capability == "delete"@ {
        g.delete
    } else if capability == "execute"@ {
        g.execute
    } else {
        false
    }
}

impl GatesConfig {
    pub fn is_enabled(&self, capability: &str) -> (r: bool)
        ensures
            r == gate_enabled(*self, capability@),
    {
        if str_eq(capability, "read") {
            self.read
        } else if str_eq(capability, "write") {
            self.write
        } else if str_eq(capability, "edit") {
            self.edit
        } else if str_eq(capability, "delete") {
            self.delete
        } else if str_eq(capability, "execute") {
            self.execute
        } else {
            false
        }
    }
}

pub struct ApprovalConfig {
    /// The capabilities that need a person's approval, e.g. ["delete", "execute"].
    pub require_for: Vec<String>,
    pub timeout_secs: u64,
}

impl Default for ApprovalConfig {
    fn default() -> (r: Self)
        ensures
            r.require_for@.len() == 2,
            r.require_for@[0]@ == "delete"@,
            r.require_for@[1]@ == "execute"@,
            r.timeout_secs == 300,
    {
        let mut v: Vec<String> = Vec::new();
        v.push(to_owned_string("delete"));
        v.push(to_owned_string("execute"));
        ApprovalConfig { require_for: v, timeout_secs: 300 }
    }
}

/// Whether `capability` is listed as needing approval.
pub open spec fn approval_required(a: ApprovalConfig, capability: Seq<char>) -> bool {
    exists|i: int| 0 <= i < a.require_for@.len() && #[trigger] a.require_for@[i]@ == capability
}

impl ApprovalConfig {
    pub fn requires_approval(&self, capability: &str) -> (r: bool)
        ensures
            r == approval_required(*self, capability@),
    {
        let mut i: usize = 0;
        while i < self.require_for.len()
            invariant
                i <= self.require_for.len(),
                forall|j: int| 0 <= j < i ==> #[trigger] self.require_for@[j]@ != capability@,
            decreases self.require_for.len() - i,
        {
            if str_eq(self.require_for[i].as_str(), capability) {
                return true;
            }
            i = i + 1;
        }
        false
    }
}

pub struct IntentConfig {
    /// Whether commands get an intent verdict; when off, a keyword check is used
    /// (deleting commands still pass the delete guard).
    pub enabled: bool,
    /// Time allowed for one verdict, in seconds.
    pub timeout_secs: u64,
}

impl Default for IntentConfig {
    fn default() -> (r: Self)
        ensures
            r.enabled,
            r.timeout_secs == 45,
    {
        IntentConfig { enabled: true, timeout_secs: 45 }
    }
}

pub struct PathsConfig {
    pub data_dir: String,
    pub skills_dir: String,
}

impl Default for PathsConfig {
    fn default() -> (r: Self)
        ensures
            r.data_dir@ == "data"@,
            r.skills_dir@ == "skills"@,
    {
        PathsConfig { data_dir: to_owned_string("data"), skills_dir: to_owned_string("skills") }
    }
}

pub struct McpServerConfig {
    pub name: String,
    /// stdio | http
    pub transport: String,
    /// stdio: the executable; http: empty.
    pub command: String,
    pub args: Vec<String>,
    pub env: HashMap<String, String>,
    /// http: the server's address.
    pub url: String,
    pub enabled: bool,
}

impl Default for McpServerConfig {
    fn default() -> (r: Self)
        ensures
            r.name@ == Seq::<char>::empty(),
            r.transport@ == Seq::<char>::empty(),
            r.command@ == Seq::<char>::empty(),
            r.args@.len() == 0,
            r.env@ == Map::<String, String>::empty(),
            r.url@ == Seq::<char>::empty(),
            !r.enabled,
    {
        McpServerConfig {
            name: String::new(),
            transport: String::new(),
            command: String::new(),
            args: Vec::new(),
            env: HashMap::new(),
            url: String::new(),
            enabled: false,
        }
    }
}

pub struct AgentBehavior {
    /// Extra system instruction.
    pub extra_instruction: String,
}

impl Default for AgentBehavior {
    fn default() -> (r: Self)
        ensures
            r.extra_instruction@ == Seq::<char>::empty(),
    {
        AgentBehavior { extra_instruction: String::new() }
    }
}

pub struct Config {
    pub server: ServerConfig,
    pub model: ModelConfig,
    pub gates: GatesConfig,
    pub approval: ApprovalConfig,
    pub intent: IntentConfig,
    pub paths: PathsConfig,
    pub agent: AgentBehavior,
    pub mcp_servers: Vec<McpServerConfig>,
}

impl Default for Config {
    /// Every section at its own default, and no MCP server.
    fn default() -> (r: Self)
        ensures
            r.server.host@ == "127.0.0.1"@ && r.server.port == DEFAULT_PORT,
            r.model.provider@ == "deepseek"@ && r.model.model@ == "deepseek-chat"@,
            r.model.api_key@.len() == 0 && r.model.base_url@.len() == 0,
            r.model.max_iterations == 30,
            r.gates.read && r.gates.write && r.gates.edit && !r.gates.delete && !r.gates.execute,
            r.approval.require_for@.len() == 2 && r.approval.require_for@[0]@ == "delete"@
                && r.approval.require_for@[1]@ == "execute"@ && r.approval.timeout_secs == 300,
            r.intent.enabled && r.intent.timeout_secs == 45,
            r.paths.data_dir@ == "data"@ && r.paths.skills_dir@ == "skills"@,
            r.agent.extra_instruction@.len() == 0,
            r.mcp_servers@.len() == 0,
    {
        Config {
            server: ServerConfig::default(),
            model: ModelConfig::default(),
            gates: GatesConfig::default(),
            approval: ApprovalConfig::default(),
            intent: IntentConfig::default(),
            paths: PathsConfig::default(),
            agent: AgentBehavior::default(),
            mcp_servers: Vec::new(),
        }
    }
}

/// Whether a server entry has a name.
pub open spec fn named_server() -> spec_fn(McpServerConfig) -> bool {
    |s: McpServerConfig| s.name@.len() > 0
}

/// Keeps the MCP servers that have a name, in order (a loaded file may hold unnamed leftovers).
pub fn retain_named_servers(servers: Vec<McpServerConfig>) -> (r: Vec<McpServerConfig>)
    ensures
        r@ == servers@.filter(named_server()),
{
    let ghost pred = named_server();
    let mut r: Vec<McpServerConfig> = Vec::new();
    let mut rest = servers;
    let ghost all = rest@;
    assert(all.len() == rest.len());
    let mut taken: usize = 0;
    proof {
        assert(all.take(0).filter(pred) =~= Seq::<McpServerConfig>::empty());
        assert(all.skip(0) =~= all);
    }
    while rest.len() > 0
        invariant
            taken + rest@.len() == all.len(),
            all.len() <= usize::MAX,
            pred == named_server(),
            rest@ == all.skip(taken as int),
            r@ == all.take(taken as int).filter(pred),
        decreases rest.len(),
    {
        let s = rest.remove(0);
        proof {
            assert(s == all[taken as int]);
            assert(all.take(taken + 1).drop_last() =~= all.take(taken as int));
            assert(all.take(taken + 1).last() == s);
            assert(rest@ =~= all.skip(taken + 1));
        }
        let keep = !s.name.as_str().is_empty();
        assert(keep == pred(s));
        let ghost before = r@;
        let ghost sv = s;
        if keep {
            r.push(s);
        }
        proof {
            reveal(Seq::filter);
            assert(r@ == if pred(sv) { before.push(sv) } else { before });
            assert(all.take(taken + 1).filter(pred) == if pred(sv) {
                all.take(taken as int).filter(pred).push(sv)
            } else {
                all.take(taken as int).filter(pred)
            });
        }
        taken = taken + 1;
    }
    assert(all.take(taken as int) =~= all);
    r
}


/// Law of the switches: each capability is governed by its own switch and by no
/// other — read by `read`, write by `write`, edit by `edit`, delete by `delete`,
/// execute by `execute` — and any other name is never enabled.
pub proof fn law_each_switch_governs_its_capability(g: GatesConfig, other: Seq<char>)
    ensures
        gate_enabled(g, "read"@) == g.read,
        gate_enabled(g, "write"@) == g.write,
        gate_enabled(g, "edit"@) == g.edit,
        gate_enabled(g, "delete"@) == g.delete,
        gate_enabled(g, "execute"@) == g.execute,
        other != "read"@ && other != "write"@ && other != "edit"@ && other != "delete"@ && other
            != "execute"@ ==> !gate_enabled(g, other),
{
    reveal_strlit("read");
    reveal_strlit("write");
    reveal_strlit("edit");
    reveal_strlit("delete");
    reveal_strlit("execute");
    assert("write"@ != "read"@) by { assert("write"@.len() != "read"@.len()); }
    assert("edit"@ != "read"@) by { assert("edit"@[0] != "read"@[0]); }
    assert("edit"@ != "write"@) by { assert("edit"@.len() != "write"@.len()); }
    assert("delete"@ != "read"@) by { assert("delete"@.len() != "read"@.len()); }
    assert("delete"@ != "write"@) by { assert("delete"@.len() != "write"@.len()); }
    assert("delete"@ != "edit"@) by { assert("delete"@.len() != "edit"@.len()); }
    assert("execute"@ != "read"@) by { assert("execute"@.len() != "read"@.len()); }
    assert("execute"@ != "write"@) by { assert("execute"@.len() != "write"@.len()); }
    assert("execute"@ != "edit"@) by { assert("execute"@.len() != "edit"@.len()); }
    assert("execute"@ != "delete"@) by { assert("execute"@.len() != "delete"@.len()); }
}

} // verus!
