//! The agent's pure parts: the model provider a configuration selects, the
//! system instruction composed from the settings, and the chat history replay.
use vstd::prelude::*;
use crate::config::{Config, ModelConfig};
use crate::event::{Part, PartView, ModelEvent, parts_view};
use crate::text::{
    chars_of, copy_range, find_chars, find_from, push_chars, push_str, starts_with,
    starts_with_chars, string_from_chars, str_eq, to_owned_string, trim, trim_chars,
    lemma_find_from, occurs_at,
};

verus! {

broadcast use vstd::string::group_string_axioms;

/// The application name the agent runs under.
pub const APP_NAME: &'static str = "nova_agent";

/// The application name the agent runs under.
pub fn app_name() -> (r: &'static str)
    ensures
        r@ == APP_NAME@,
{
    APP_NAME
}


/// The start of the system instruction, up to the capability switches.
pub const INSTRUCTION_INTRO: &'static str = "你是 Nova，一个运行在本地 Linux 系统上的自主智能体（基于 ADK-Rust 构建）。\n\n## 能力\n你通过工具与系统交互：sys_read（读）、sys_write（写）、sys_edit（改）、sys_delete（删）、sys_execute（运行命令）。";

/// What the agent must never do around the guard and MCP tools, up to the workspace section.
pub const INSTRUCTION_RULES: &'static str = "\nsys_execute 执行前会先对命令做意图判定（含 python 等内嵌脚本）：意图不触及需审批能力时放行，触及被管控能力或具有破坏性时转入人工审批。\n严禁绕过门禁：不得用其他工具完成被禁用能力对应的操作（例如删除能力被禁用时，绝对不允许通过任何形式的命令或脚本删除文件，也不得用写文件方式变相删除）。若某操作被拒绝或禁用，向用户解释原因并给出替代建议，不要尝试同参数的变体重试。\n\n外部 MCP 工具若可用，可直接调用；但 MCP 工具同样受门禁约束：绝对不得用 MCP 工具完成被禁用能力对应的操作（如用文件系统类 MCP 工具删除/写入被禁的能力）。\n\n## 工作区\n";

/// The sections on files, memory, planning and output style.
pub const INSTRUCTION_GUIDE: &'static str = "用 sys_write 创建文件时，除非用户明确指定了其他路径，否则一律使用制品输出目录的绝对路径。\n\n## 记忆与规划\n- 用 memory_remember 保存用户偏好、约定与重要事实；回答前先 memory_recall 检索相关记忆。\n- 多步骤任务（≥3 步）必须先用 task_plan 制定计划，每完成一步用 task_update 更新进度。\n\n## 输出规范\n- 始终使用清晰、结构化的 Markdown 回复：合理使用标题、列表、代码块（注明语言）、表格与加粗。\n- 展示文件内容或命令输出时使用代码块。\n- 输出语言：默认跟随每条用户消息附带的界面语言提示（与前端语言切换联动）；用户在消息中明确指定语言时，严格按用户指定回复；两者都缺失时默认使用中文。\n\n";

/// "开启" for on, "关闭" for off.
pub open spec fn on_off_text(b: bool) -> Seq<char> {
    if b {
        "开启"@
    } else {
        "关闭"@
    }
}

pub fn on_off(b: bool) -> (r: &'static str)
    ensures
        r@ == on_off_text(b),
{
    if b {
        "开启"
    } else {
        "关闭"
    }
}

/// `parts` joined with "、".
pub open spec fn joined_cn(parts: Seq<String>) -> Seq<char>
    decreases parts.len(),
{
    if parts.len() == 0 {
        Seq::empty()
    } else if parts.len() == 1 {
        parts[0]@
    } else {
        joined_cn(parts.drop_last()) + "、"@ + parts.last()@
    }
}

/// The line stating each capability switch.
pub open spec fn capability_line(cfg: Config) -> Seq<char> {
    "当前系统能力开关：读(read)="@ + on_off_text(cfg.gates.read) + "，写(write)="@ + on_off_text(
        cfg.gates.write,
    ) + "，改(edit)="@ + on_off_text(cfg.gates.edit) + "，删(delete)="@ + on_off_text(
        cfg.gates.delete,
    ) + "，运行(execute)="@ + on_off_text(cfg.gates.execute) + "。"@
}

/// The line naming the capabilities that need approval ("无" when none).
pub open spec fn approval_line(cfg: Config) -> Seq<char> {
    "需要人工审批的能力："@ + (if cfg.approval.require_for@.len() == 0 {
        "无"@
    } else {
        joined_cn(cfg.approval.require_for@)
    }) + "。调用这些能力时工具会挂起等待用户在页面上批准，请耐心等待，不要重复调用。"@
}

/// The lines naming the workspace and the output directory.
pub open spec fn workspace_line(workspace: Seq<char>, output_dir: Seq<char>) -> Seq<char> {
    "工作区根目录："@ + workspace + "\n制品输出目录："@ + output_dir
        + "（所有生成的文件、报告、制品必须写入此目录下）\n"@
}

/// The whole system instruction.
pub open spec fn instruction(
    cfg: Config,
    skills_index: Seq<char>,
    workspace: Seq<char>,
    output_dir: Seq<char>,
) -> Seq<char> {
    INSTRUCTION_INTRO@ + capability_line(cfg) + "\n"@ + approval_line(cfg) + INSTRUCTION_RULES@
        + workspace_line(workspace, output_dir) + INSTRUCTION_GUIDE@ + skills_index + "\n"@
        + cfg.agent.extra_instruction@
}

fn push_joined_cn(out: &mut Vec<char>, parts: &Vec<String>)
    ensures
        final(out)@ == old(out)@ + joined_cn(parts@),
{
    let ghost pre = out@;
    let mut i: usize = 0;
    assert(parts@.take(0) =~= Seq::<String>::empty());
    assert(pre + joined_cn(parts@.take(0)) =~= pre);
    while i < parts.len()
        invariant
            i <= parts.len(),
            out@ == pre + joined_cn(parts@.take(i as int)),
        decreases parts.len() - i,
    {
        if i > 0 {
            push_str(out, "、");
        }
        push_chars(out, &chars_of(parts[i].as_str()));
        proof {
            let a = parts@.take(i + 1);
            assert(a.drop_last() =~= parts@.take(i as int));
            assert(a.last() == parts@[i as int]);
            if i == 0 {
                assert(a =~= seq![parts@[0]]);
                assert(joined_cn(parts@.take(0)) =~= Seq::<char>::empty());
            }
            assert(out@ =~= pre + joined_cn(a));
        }
        i = i + 1;
    }
    assert(parts@.take(i as int) =~= parts@);
}

/// Appends a label and the on/off word of a switch.
fn push_switch(out: &mut Vec<char>, label: &str, on: bool)
    ensures
        final(out)@ == old(out)@ + (label@ + on_off_text(on)),
{
    let ghost pre = out@;
    push_str(out, label);
    push_str(out, on_off(on));
    proof {
        vstd::seq_lib::lemma_concat_associative(pre, label@, on_off_text(on));
    }
}

fn push_capability_line(out: &mut Vec<char>, cfg: &Config)
    ensures
        final(out)@ == old(out)@ + capability_line(*cfg),
{
    let ghost pre = out@;
    let ghost g = cfg.gates;
    push_switch(out, "当前系统能力开关：读(read)=", cfg.gates.read);
    let ghost s1 = "当前系统能力开关：读(read)="@ + on_off_text(g.read);
    let ghost x2 = "，写(write)="@ + on_off_text(g.write);
    push_switch(out, "，写(write)=", cfg.gates.write);
    proof {
        vstd::seq_lib::lemma_concat_associative(pre, s1, x2);
        vstd::seq_lib::lemma_concat_associative(s1, "，写(write)="@, on_off_text(g.write));
    }
    let ghost s2 = s1 + "，写(write)="@ + on_off_text(g.write);
    assert(out@ == pre + s2);
    let ghost x3 = "，改(edit)="@ + on_off_text(g.edit);
    push_switch(out, "，改(edit)=", cfg.gates.edit);
    proof {
        vstd::seq_lib::lemma_concat_associative(pre, s2, x3);
        vstd::seq_lib::lemma_concat_associative(s2, "，改(edit)="@, on_off_text(g.edit));
    }
    let ghost s3 = s2 + "，改(edit)="@ + on_off_text(g.edit);
    assert(out@ == pre + s3);
    let ghost x4 = "，删(delete)="@ + on_off_text(g.delete);
    push_switch(out, "，删(delete)=", cfg.gates.delete);
    proof {
        vstd::seq_lib::lemma_concat_associative(pre, s3, x4);
        vstd::seq_lib::lemma_concat_associative(s3, "，删(delete)="@, on_off_text(g.delete));
    }
    let ghost s4 = s3 + "，删(delete)="@ + on_off_text(g.delete);
    assert(out@ == pre + s4);
    let ghost x5 = "，运行(execute)="@ + on_off_text(g.execute);
    push_switch(out, "，运行(execute)=", cfg.gates.execute);
    proof {
        vstd::seq_lib::lemma_concat_associative(pre, s4, x5);
        vstd::seq_lib::lemma_concat_associative(s4, "，运行(execute)="@, on_off_text(g.execute));
    }
    let ghost s5 = s4 + "，运行(execute)="@ + on_off_text(g.execute);
    assert(out@ == pre + s5);
    push_str(out, "。");
    proof {
        vstd::seq_lib::lemma_concat_associative(pre, s5, "。"@);
    }
}

fn push_approval_line(out: &mut Vec<char>, cfg: &Config)
    ensures
        final(out)@ == old(out)@ + approval_line(*cfg),
{
    let ghost pre = out@;
    push_str(out, "需要人工审批的能力：");
    let ghost mid = out@;
    if cfg.approval.require_for.len() == 0 {
        push_str(out, "无");
    } else {
        push_joined_cn(out, &cfg.approval.require_for);
    }
    let ghost list = if cfg.approval.require_for@.len() == 0 {
        "无"@
    } else {
        joined_cn(cfg.approval.require_for@)
    };
    assert(out@ == mid + list);
    push_str(out, "。调用这些能力时工具会挂起等待用户在页面上批准，请耐心等待，不要重复调用。");
    assert(out@ =~= pre + approval_line(*cfg));
}

fn push_workspace_line(out: &mut Vec<char>, workspace: &str, output_dir: &str)
    ensures
        final(out)@ == old(out)@ + workspace_line(workspace@, output_dir@),
{
    let ghost pre = out@;
    push_str(out, "工作区根目录：");
    push_str(out, workspace);
    push_str(out, "\n制品输出目录：");
    push_str(out, output_dir);
    push_str(out, "（所有生成的文件、报告、制品必须写入此目录下）\n");
    assert(out@ =~= pre + workspace_line(workspace@, output_dir@));
}

/// Composes the agent's system instruction from the settings, the skill index
/// and the display forms of the workspace and output directories.
pub fn compose_instruction(cfg: &Config, skills_index: &str, workspace: &str, output_dir: &str) -> (r:
    String)
    ensures
        r@ == instruction(*cfg, skills_index@, workspace@, output_dir@),
{
    let mut out = chars_of(INSTRUCTION_INTRO);
    push_capability_line(&mut out, cfg);
    push_str(&mut out, "\n");
    push_approval_line(&mut out, cfg);
    push_str(&mut out, INSTRUCTION_RULES);
    push_workspace_line(&mut out, workspace, output_dir);
    push_str(&mut out, INSTRUCTION_GUIDE);
    push_str(&mut out, skills_index);
    push_str(&mut out, "\n");
    push_str(&mut out, cfg.agent.extra_instruction.as_str());
    string_from_chars(out.as_slice())
}


/// The model client a configuration selects, with the optional endpoint it is built with.
pub enum ProviderChoice {
    Gemini,
    /// An OpenAI endpoint: the official one without `base_url`, a compatible one with it.
    OpenAi { base_url: Option<String> },
    DeepSeek { base_url: Option<String> },
    /// Ollama: the default host without `base_url`, that host with it.
    Ollama { host: Option<String> },
    Anthropic,
}

pub enum ProviderChoiceView {
    Gemini,
    OpenAi(Option<Seq<char>>),
    DeepSeek(Option<Seq<char>>),
    Ollama(Option<Seq<char>>),
    Anthropic,
}

impl View for ProviderChoice {
    type V = ProviderChoiceView;

    open spec fn view(&self) -> ProviderChoiceView {
        match self {
            ProviderChoice::Gemini => ProviderChoiceView::Gemini,
            ProviderChoice::OpenAi { base_url } => ProviderChoiceView::OpenAi(opt_view(*base_url)),
            ProviderChoice::DeepSeek { base_url } => ProviderChoiceView::DeepSeek(
                opt_view(*base_url),
            ),
            ProviderChoice::Ollama { host } => ProviderChoiceView::Ollama(opt_view(*host)),
            ProviderChoice::Anthropic => ProviderChoiceView::Anthropic,
        }
    }
}

pub open spec fn opt_view(o: Option<String>) -> Option<Seq<char>> {
    match o {
        Some(s) => Some(s@),
        None => None,
    }
}

/// The URL when one is set.
pub open spec fn url_if_set(u: Seq<char>) -> Option<Seq<char>> {
    if u.len() == 0 {
        None
    } else {
        Some(u)
    }
}

/// The provider a model configuration selects, or why it cannot be used:
/// gemini, openai_compatible, deepseek and anthropic need an API key; ollama does not;
/// any other provider name is not supported.
pub open spec fn provider_for(cfg: ModelConfig) -> Result<ProviderChoiceView, Seq<char>> {
    let p = cfg.provider@;
    let keyless = cfg.api_key@.len() == 0;
    if p == "gemini"@ {
        if keyless {
            Err("Gemini 需要配置 api_key"@)
        } else {
            Ok(ProviderChoiceView::Gemini)
        }
    } else if p == "openai_compatible"@ {
        if keyless {
            Err("OpenAI 兼容端点需要配置 api_key"@)
        } else {
            Ok(ProviderChoiceView::OpenAi(url_if_set(cfg.base_url@)))
        }
    } else if p == "deepseek"@ {
        if keyless {
            Err("DeepSeek 需要配置 api_key"@)
        } else {
            Ok(ProviderChoiceView::DeepSeek(url_if_set(cfg.base_url@)))
        }
    } else if p == "ollama"@ {
        Ok(ProviderChoiceView::Ollama(url_if_set(cfg.base_url@)))
    } else if p == "anthropic"@ {
        if keyless {
            Err("Anthropic 需要配置 api_key"@)
        } else {
            Ok(ProviderChoiceView::Anthropic)
        }
    } else {
        Err("不支持的 provider: "@ + p)
    }
}

fn url_option(u: &String) -> (r: Option<String>)
    ensures
        opt_view(r) == url_if_set(u@),
{
    if u.as_str().is_empty() {
        None
    } else {
        Some(u.clone())
    }
}

/// Selects the model provider of a configuration (the client itself is then built from it).
pub fn choose_provider(cfg: &ModelConfig) -> (r: Result<ProviderChoice, String>)
    ensures
        match (r, provider_for(*cfg)) {
            (Ok(c), Ok(v)) => c@ == v,
            (Err(e), Err(m)) => e@ == m,
            _ => false,
        },
{
    let p = cfg.provider.as_str();
    let keyless = cfg.api_key.as_str().is_empty();
    if str_eq(p, "gemini") {
        if keyless {
            Err(to_owned_string("Gemini 需要配置 api_key"))
        } else {
            Ok(ProviderChoice::Gemini)
        }
    } else if str_eq(p, "openai_compatible") {
        if keyless {
            Err(to_owned_string("OpenAI 兼容端点需要配置 api_key"))
        } else {
            Ok(ProviderChoice::OpenAi { base_url: url_option(&cfg.base_url) })
        }
    } else if str_eq(p, "deepseek") {
        if keyless {
            Err(to_owned_string("DeepSeek 需要配置 api_key"))
        } else {
            Ok(ProviderChoice::DeepSeek { base_url: url_option(&cfg.base_url) })
        }
    } else if str_eq(p, "ollama") {
        Ok(ProviderChoice::Ollama { host: url_option(&cfg.base_url) })
    } else if str_eq(p, "anthropic") {
        if keyless {
            Err(to_owned_string("Anthropic 需要配置 api_key"))
        } else {
            Ok(ProviderChoice::Anthropic)
        }
    } else {
        let mut out = chars_of("不支持的 provider: ");
        push_chars(&mut out, &chars_of(p));
        Err(string_from_chars(out.as_slice()))
    }
}

/// A message replayed from a session's history.
pub struct ChatMessage {
    pub role: String,
    pub text: String,
}

/// The text of the text parts, concatenated.
pub open spec fn parts_text(parts: Seq<PartView>) -> Seq<char>
    decreases parts.len(),
{
    if parts.len() == 0 {
        Seq::empty()
    } else {
        parts_text(parts.drop_last()) + match parts.last() {
            PartView::Text(t) => t,
            _ => Seq::empty(),
        }
    }
}

/// The server prepends one of these hint lines to each user message; replay drops them.
pub open spec fn zh_hint_prefix() -> Seq<char> {
    "(系统提示："@
}

pub open spec fn en_hint_prefix() -> Seq<char> {
    "(System hint:"@
}

/// `t` without a leading language-hint line: when `t` starts with the prefix,
/// everything up to the first ")\n" after it is dropped (nothing when there is none).
pub open spec fn strip_after_prefix(t: Seq<char>, prefix: Seq<char>) -> Seq<char> {
    let rest = t.skip(prefix.len() as int);
    match find_from(rest, ")\n"@, 0) {
        Some(p) => rest.skip(p + 2),
        None => t,
    }
}

pub open spec fn strip_hint(t: Seq<char>) -> Seq<char> {
    if starts_with(t, zh_hint_prefix()) {
        strip_after_prefix(t, zh_hint_prefix())
    } else if starts_with(t, en_hint_prefix()) {
        strip_after_prefix(t, en_hint_prefix())
    } else {
        t
    }
}

/// The message an event replays as: user and model content only, its text
/// without the hint line, and nothing when that text is blank.
pub open spec fn replayed(ev: ModelEvent) -> Option<(Seq<char>, Seq<char>)> {
    match ev.content {
        None => None,
        Some(c) => {
            let t = strip_hint(parts_text(parts_view(c.parts@)));
            if (c.role@ == "user"@ || c.role@ == "model"@) && trim(t).len() > 0 {
                Some((c.role@, t))
            } else {
                None
            }
        },
    }
}

/// The messages replayed from a sequence of events, in order.
pub open spec fn history(evs: Seq<ModelEvent>) -> Seq<(Seq<char>, Seq<char>)>
    decreases evs.len(),
{
    if evs.len() == 0 {
        Seq::empty()
    } else {
        history(evs.drop_last()) + match replayed(evs.last()) {
            Some(m) => seq![m],
            None => Seq::empty(),
        }
    }
}

fn strip_after_prefix_exec(t: &Vec<char>, plen: usize) -> (r: Vec<char>)
    requires
        plen <= t.len(),
    ensures
        r@ == strip_after_prefix(t@, t@.take(plen as int)),
{
    let rest = copy_range(t, plen, t.len());
    assert(rest@ =~= t@.skip(plen as int));
    match find_chars(&rest, &chars_of(")\n"), 0) {
        Some(p) => {
            proof {
                lemma_find_from(rest@, ")\n"@, 0);
                reveal_strlit(")\n");
            }
            let r = copy_range(&rest, p + 2, rest.len());
            assert(r@ =~= rest@.skip(p + 2));
            r
        },
        None => copy_range(t, 0, t.len()),
    }
}

fn strip_hint_exec(t: &Vec<char>) -> (r: Vec<char>)
    ensures
        r@ == strip_hint(t@),
{
    let zh = chars_of("(系统提示：");
    let en = chars_of("(System hint:");
    if starts_with_chars(t, &zh) {
        strip_after_prefix_exec(t, zh.len())
    } else if starts_with_chars(t, &en) {
        strip_after_prefix_exec(t, en.len())
    } else {
        copy_range(t, 0, t.len())
    }
}

fn parts_text_exec(parts: &Vec<Part>) -> (r: Vec<char>)
    ensures
        r@ == parts_text(parts_view(parts@)),
{
    let ghost ps = parts_view(parts@);
    let mut out: Vec<char> = Vec::new();
    let mut i: usize = 0;
    assert(ps.take(0) =~= Seq::<PartView>::empty());
    while i < parts.len()
        invariant
            i <= parts.len(),
            ps == parts_view(parts@),
            out@ == parts_text(ps.take(i as int)),
        decreases parts.len() - i,
    {
        let ghost before = out@;
        match &parts[i] {
            Part::Text { text } => {
                push_chars(&mut out, &chars_of(text.as_str()));
            },
            _ => {},
        }
        proof {
            assert(ps.take(i + 1).drop_last() =~= ps.take(i as int));
            assert(ps.take(i + 1).last() == parts@[i as int]@);
            assert(out@ =~= parts_text(ps.take(i + 1)));
        }
        i = i + 1;
    }
    assert(ps.take(i as int) =~= ps);
    out
}

/// Turns a session's events into the messages the page replays.
pub fn history_to_messages(events: &Vec<ModelEvent>) -> (r: Vec<ChatMessage>)
    ensures
        r@.map_values(|m: ChatMessage| (m.role@, m.text@)) == history(events@),
{
    let mut out: Vec<ChatMessage> = Vec::new();
    let mut i: usize = 0;
    assert(events@.take(0) =~= Seq::<ModelEvent>::empty());
    while i < events.len()
        invariant
            i <= events.len(),
            out@.map_values(|m: ChatMessage| (m.role@, m.text@)) == history(events@.take(i as int)),
        decreases events.len() - i,
    {
        let ghost before = out@.map_values(|m: ChatMessage| (m.role@, m.text@));
        proof {
            assert(events@.take(i + 1).drop_last() =~= events@.take(i as int));
            assert(events@.take(i + 1).last() == events@[i as int]);
        }
        match &events[i].content {
            None => {},
            Some(content) => {
                let raw = parts_text_exec(&content.parts);
                let text = strip_hint_exec(&raw);
                let role = content.role.as_str();
                if (str_eq(role, "user") || str_eq(role, "model")) && trim_chars(&text).len() > 0 {
                    out.push(
                        ChatMessage { role: content.role.clone(), text: string_from_chars(text.as_slice()) },
                    );
                }
            },
        }
        assert(out@.map_values(|m: ChatMessage| (m.role@, m.text@)) =~= history(events@.take(i + 1)));
        i = i + 1;
    }
    assert(events@.take(i as int) =~= events@);
    out
}


/// The line the chat endpoint puts before a user message when the page is in Chinese.
pub open spec fn zh_hint() -> Seq<char> {
    "(系统提示：当前界面语言为中文。除非用户在本条消息中明确要求其他语言，否则请用中文回复。)"@
}

/// The line the chat endpoint puts before a user message when the page is in English.
pub open spec fn en_hint() -> Seq<char> {
    "(System hint: current UI language is English. Reply in English unless the user explicitly requests another language in this message.)"@
}

pub open spec fn empty_message_error() -> Seq<char> {
    "消息不能为空"@
}

/// The text sent to the agent for a user message: refused when the message is
/// blank; else the language hint line (English only for the "en" page), a
/// newline, and the message.
pub open spec fn turn_text(message: Seq<char>, english: bool) -> Result<Seq<char>, Seq<char>> {
    if trim(message).len() == 0 {
        Err(empty_message_error())
    } else {
        Ok((if english { en_hint() } else { zh_hint() }) + "\n"@ + message)
    }
}

pub open spec fn is_english(lang: Option<&str>) -> bool {
    lang matches Some(l) && l@ == "en"@
}

/// The text a user message is sent to the agent as, or the error for a blank message.
pub fn user_turn_text(message: &str, lang: Option<&str>) -> (r: Result<String, String>)
    ensures
        match (r, turn_text(message@, is_english(lang))) {
            (Ok(t), Ok(u)) => t@ == u,
            (Err(e), Err(m)) => e@ == m,
            _ => false,
        },
{
    let v = chars_of(message);
    if trim_chars(&v).len() == 0 {
        return Err(to_owned_string("消息不能为空"));
    }
    let english = match lang {
        Some(l) => str_eq(l, "en"),
        None => false,
    };
    let mut out: Vec<char> = Vec::new();
    if english {
        push_str(
            &mut out,
            "(System hint: current UI language is English. Reply in English unless the user explicitly requests another language in this message.)",
        );
    } else {
        push_str(&mut out, "(系统提示：当前界面语言为中文。除非用户在本条消息中明确要求其他语言，否则请用中文回复。)");
    }
    push_str(&mut out, "\n");
    push_chars(&mut out, &v);
    Ok(string_from_chars(out.as_slice()))
}

/// `t` after `prefix` holds its first ")\n" at `k`, and `strip_after_prefix`
/// keeps what follows it.
proof fn lemma_strip_at(t: Seq<char>, prefix: Seq<char>, k: int)
    requires
        prefix.len() <= t.len(),
        0 <= k,
        prefix.len() + k + 2 <= t.len(),
        t[prefix.len() + k] == ')' && t[prefix.len() + k + 1] == '\n',
        forall|j: int| prefix.len() <= j < prefix.len() + k ==> t[j] != ')',
    ensures
        strip_after_prefix(t, prefix) == t.skip(prefix.len() + k + 2),
{
    reveal_strlit(")\n");
    let rest = t.skip(prefix.len() as int);
    lemma_find_from(rest, ")\n"@, 0);
    assert(rest.subrange(k, k + 2) =~= ")\n"@);
    assert(occurs_at(rest, ")\n"@, k));
    match find_from(rest, ")\n"@, 0) {
        Some(p) => {
            if p < k {
                assert(rest.subrange(p, p + 2)[0] == rest[p]);
                assert(rest[p] == t[prefix.len() + p]);
                assert(false);
            }
            assert(p == k);
            assert(rest.skip(p + 2) =~= t.skip(prefix.len() + k + 2));
        },
        None => {},
    }
}

/// Law of the replay: a user message sent through the chat endpoint replays as
/// exactly what the user typed — the language hint line that was added before
/// it is stripped again, whichever language the page was in.
pub proof fn law_replay_shows_the_user_message(message: Seq<char>, english: bool)
    requires
        trim(message).len() > 0,
    ensures
        turn_text(message, english) matches Ok(t) && strip_hint(t) == message,
{
    reveal_strlit("(系统提示：当前界面语言为中文。除非用户在本条消息中明确要求其他语言，否则请用中文回复。)");
    reveal_strlit(
        "(System hint: current UI language is English. Reply in English unless the user explicitly requests another language in this message.)",
    );
    reveal_strlit("(系统提示：");
    reveal_strlit("(System hint:");
    reveal_strlit("\n");
    let h = if english { en_hint() } else { zh_hint() };
    let t = h + "\n"@ + message;
    assert(t.take(h.len() as int) =~= h);
    assert(t[h.len() as int] == '\n');
    assert(t.skip(h.len() + 1 as int) =~= message);
    if english {
        let p = en_hint_prefix();
        assert(t[1] == 'S');
        assert(!starts_with(t, zh_hint_prefix())) by {
            if starts_with(t, zh_hint_prefix()) {
                assert(t.take(zh_hint_prefix().len() as int)[1] == zh_hint_prefix()[1]);
            }
        }
        assert(t.take(p.len() as int) =~= p);
        assert forall|j: int| p.len() <= j < h.len() - 1 implies t[j] != ')' by {
            assert(t[j] == h[j]);
        }
        lemma_strip_at(t, p, h.len() - 1 - p.len());
    } else {
        let p = zh_hint_prefix();
        assert(t.take(p.len() as int) =~= p);
        assert forall|j: int| p.len() <= j < h.len() - 1 implies t[j] != ')' by {
            assert(t[j] == h[j]);
        }
        lemma_strip_at(t, p, h.len() - 1 - p.len());
    }
}


/// The agent's tool-call iteration limit: the configured one, at least five.
pub fn agent_iterations(max_iterations: u32) -> (r: u32)
    ensures
        r == if max_iterations < 5 { 5 } else { max_iterations },
{
    if max_iterations < 5 {
        5
    } else {
        max_iterations
    }
}

/// Whether two model configurations are the same in every field.
pub open spec fn same_model(a: ModelConfig, b: ModelConfig) -> bool {
    &&& a.provider@ == b.provider@
    &&& a.api_key@ == b.api_key@
    &&& a.model@ == b.model@
    &&& a.base_url@ == b.base_url@
    &&& a.max_iterations == b.max_iterations
}

/// Whether saving new settings must rebuild the agent: its tools changed (the
/// MCP servers were reconnected), its model changed, or its extra instruction changed.
pub fn agent_rebuild_needed(mcp_changed: bool, old: &Config, new: &Config) -> (r: bool)
    ensures
        r == (mcp_changed || !same_model(old.model, new.model)
            || old.agent.extra_instruction@ != new.agent.extra_instruction@),
{
    let a = &old.model;
    let b = &new.model;
    let same = str_eq(a.provider.as_str(), b.provider.as_str()) && str_eq(a.api_key.as_str(), b.api_key.as_str())
        && str_eq(a.model.as_str(), b.model.as_str()) && str_eq(a.base_url.as_str(), b.base_url.as_str())
        && a.max_iterations == b.max_iterations;
    mcp_changed || !same || !str_eq(
        old.agent.extra_instruction.as_str(),
        new.agent.extra_instruction.as_str(),
    )
}


/// Law of endpoints: a provider that can be pointed at another endpoint gets the
/// configured base URL unchanged when one is set, and its default endpoint only
/// when none is — deepseek and openai_compatible (with a key) and ollama (key or not).
pub proof fn law_configured_endpoint_is_used(cfg: ModelConfig)
    ensures
        cfg.api_key@.len() > 0 && cfg.provider@ == "deepseek"@ ==> provider_for(cfg) == Ok::<
            ProviderChoiceView,
            Seq<char>,
        >(ProviderChoiceView::DeepSeek(if cfg.base_url@.len() > 0 { Some(cfg.base_url@) } else { None })),
        cfg.api_key@.len() > 0 && cfg.provider@ == "openai_compatible"@ ==> provider_for(cfg) == Ok::<
            ProviderChoiceView,
            Seq<char>,
        >(ProviderChoiceView::OpenAi(if cfg.base_url@.len() > 0 { Some(cfg.base_url@) } else { None })),
        cfg.provider@ == "ollama"@ ==> provider_for(cfg) == Ok::<ProviderChoiceView, Seq<char>>(
            ProviderChoiceView::Ollama(if cfg.base_url@.len() > 0 { Some(cfg.base_url@) } else { None }),
        ),
{
    reveal_strlit("gemini");
    reveal_strlit("openai_compatible");
    reveal_strlit("deepseek");
    reveal_strlit("ollama");
    assert("deepseek"@ != "gemini"@) by { assert("deepseek"@.len() != "gemini"@.len()); }
    assert("deepseek"@ != "openai_compatible"@) by { assert("deepseek"@.len() != "openai_compatible"@.len()); }
    assert("openai_compatible"@ != "gemini"@) by { assert("openai_compatible"@.len() != "gemini"@.len()); }
    assert("ollama"@ != "gemini"@) by { assert("ollama"@[0] != "gemini"@[0]); }
    assert("ollama"@ != "openai_compatible"@) by { assert("ollama"@.len() != "openai_compatible"@.len()); }
    assert("ollama"@ != "deepseek"@) by { assert("ollama"@.len() != "deepseek"@.len()); }
}

} // verus!
