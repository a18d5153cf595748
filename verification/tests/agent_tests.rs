use nova_agent::agent::user_turn_text;
use nova_agent::agent::{agent_iterations, agent_rebuild_needed};
use nova_agent::agent::{
    app_name, choose_provider, compose_instruction, history_to_messages, on_off, ProviderChoice,
    INSTRUCTION_GUIDE, INSTRUCTION_INTRO, INSTRUCTION_RULES,
};
use nova_agent::config::{Config, ModelConfig};
use nova_agent::event::{Content, ModelEvent, Part};

fn model(provider: &str, key: &str, base: &str) -> ModelConfig {
    ModelConfig {
        provider: provider.to_string(),
        api_key: key.to_string(),
        base_url: base.to_string(),
        ..ModelConfig::default()
    }
}

#[test]
fn provider_selection() {
    assert!(matches!(choose_provider(&model("gemini", "k", "")), Ok(ProviderChoice::Gemini)));
    assert_eq!(choose_provider(&model("gemini", "", "")).err(), Some("Gemini 需要配置 api_key".to_string()));
    match choose_provider(&model("openai_compatible", "k", "http://x/v1")) {
        Ok(ProviderChoice::OpenAi { base_url }) => assert_eq!(base_url, Some("http://x/v1".to_string())),
        _ => panic!("expected openai"),
    }
    assert_eq!(
        choose_provider(&model("openai_compatible", "", "")).err(),
        Some("OpenAI 兼容端点需要配置 api_key".to_string())
    );
    match choose_provider(&model("deepseek", "k", "")) {
        Ok(ProviderChoice::DeepSeek { base_url }) => assert_eq!(base_url, None),
        _ => panic!("expected deepseek"),
    }
    assert_eq!(choose_provider(&model("deepseek", "", "")).err(), Some("DeepSeek 需要配置 api_key".to_string()));
    // ollama needs no key
    match choose_provider(&model("ollama", "", "http://127.0.0.1:11434")) {
        Ok(ProviderChoice::Ollama { host }) => assert_eq!(host, Some("http://127.0.0.1:11434".to_string())),
        _ => panic!("expected ollama"),
    }
    assert!(matches!(choose_provider(&model("anthropic", "k", "")), Ok(ProviderChoice::Anthropic)));
    assert_eq!(choose_provider(&model("anthropic", "", "")).err(), Some("Anthropic 需要配置 api_key".to_string()));
    assert_eq!(choose_provider(&model("mistral", "k", "")).err(), Some("不支持的 provider: mistral".to_string()));
}

#[test]
fn instruction_text() {
    let mut cfg = Config::default();
    cfg.agent.extra_instruction = "EXTRA".to_string();
    let text = compose_instruction(&cfg, "SKILLS", "/w", "/w/output");
    let expected = format!(
        "{INSTRUCTION_INTRO}当前系统能力开关：读(read)=开启，写(write)=开启，改(edit)=开启，删(delete)=关闭，运行(execute)=关闭。\n需要人工审批的能力：delete、execute。调用这些能力时工具会挂起等待用户在页面上批准，请耐心等待，不要重复调用。{INSTRUCTION_RULES}工作区根目录：/w\n制品输出目录：/w/output（所有生成的文件、报告、制品必须写入此目录下）\n{INSTRUCTION_GUIDE}SKILLS\nEXTRA"
    );
    assert_eq!(text, expected);
    cfg.approval.require_for.clear();
    let text = compose_instruction(&cfg, "", "/w", "/o");
    assert!(text.contains("需要人工审批的能力：无。"));
    assert_eq!(on_off(true), "开启");
    assert_eq!(on_off(false), "关闭");
    assert_eq!(app_name(), "nova_agent");
}

fn ev(role: &str, parts: Vec<Part>) -> ModelEvent {
    ModelEvent { error_message: None, content: Some(Content { role: role.to_string(), parts }), partial: false }
}

fn text(t: &str) -> Part {
    Part::Text { text: t.to_string() }
}

#[test]
fn history_replay() {
    let events = vec![
        ev("user", vec![text("(系统提示：当前界面语言为中文。除非用户在本条消息中明确要求其他语言，否则请用中文回复。)\n你好")]),
        ev("model", vec![text("你好，"), Part::Thinking { thinking: "x".to_string() }, text("有什么可以帮你？")]),
        ev("tool", vec![text("ignored")]),
        ev("model", vec![text("   ")]),
        ev("user", vec![text("(System hint: current UI language is English.)\nhello")]),
        ModelEvent { error_message: Some("e".to_string()), content: None, partial: false },
        ev("user", vec![text("(System hint: no closing")]),
    ];
    let msgs = history_to_messages(&events);
    assert_eq!(msgs.len(), 4);
    assert_eq!(msgs[0].role, "user");
    assert_eq!(msgs[0].text, "你好");
    assert_eq!(msgs[1].role, "model");
    assert_eq!(msgs[1].text, "你好，有什么可以帮你？");
    assert_eq!(msgs[2].text, "hello");
    assert_eq!(msgs[3].text, "(System hint: no closing");
}

#[test]
fn user_turn_text_adds_the_language_line() {
    assert_eq!(
        user_turn_text("你好", None),
        Ok("(系统提示：当前界面语言为中文。除非用户在本条消息中明确要求其他语言，否则请用中文回复。)\n你好".to_string())
    );
    assert_eq!(
        user_turn_text("hi", Some("en")),
        Ok("(System hint: current UI language is English. Reply in English unless the user explicitly requests another language in this message.)\nhi".to_string())
    );
    assert!(user_turn_text("hi", Some("zh")).unwrap().starts_with("(系统提示："));
    assert_eq!(user_turn_text("  \n", Some("en")), Err("消息不能为空".to_string()));
    assert_eq!(user_turn_text("", None), Err("消息不能为空".to_string()));
}

/// What the chat endpoint sends is replayed as what the user typed.
#[test]
fn replay_of_a_sent_message() {
    for (msg, lang) in [("你好 (附注)\n第二行", None), ("a)\nb", Some("en"))] {
        let sent = user_turn_text(msg, lang).unwrap();
        let msgs = history_to_messages(&vec![ev("user", vec![text(&sent)])]);
        assert_eq!(msgs.len(), 1);
        assert_eq!(msgs[0].text, msg);
    }
}

#[test]
fn rebuild_and_iterations() {
    assert_eq!(agent_iterations(0), 5);
    assert_eq!(agent_iterations(5), 5);
    assert_eq!(agent_iterations(30), 30);
    let old = Config::default();
    let mut new = Config::default();
    assert!(!agent_rebuild_needed(false, &old, &new));
    assert!(agent_rebuild_needed(true, &old, &new));
    new.gates.delete = true;
    assert!(!agent_rebuild_needed(false, &old, &new));
    new.model.api_key = "k".to_string();
    assert!(agent_rebuild_needed(false, &old, &new));
    let mut new2 = Config::default();
    new2.model.max_iterations = 10;
    assert!(agent_rebuild_needed(false, &old, &new2));
    let mut new3 = Config::default();
    new3.agent.extra_instruction = "x".to_string();
    assert!(agent_rebuild_needed(false, &old, &new3));
}
