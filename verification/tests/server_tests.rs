use nova_agent::event::{Content, ModelEvent, Part};
use nova_agent::server::{
    closing_events, convert_event, is_cjk, is_terminator, route_ui_event, SentenceFlusher, StreamEnd, UiEvent,
};

fn model_event(text: &str, partial: bool) -> ModelEvent {
    ModelEvent {
        error_message: None,
        content: Some(Content {
            role: "model".to_string(),
            parts: vec![Part::Text { text: text.to_string() }],
        }),
        partial,
    }
}

fn text_of(e: &UiEvent) -> Option<&str> {
    match e {
        UiEvent::Text { text, .. } => Some(text.as_str()),
        _ => None,
    }
}

/// Streamed deltas followed by the repeated whole event: the browser gets the text once.
#[test]
fn dedup_partial_then_full() {
    let mut final_text = String::new();
    let mut turn_buf = String::new();

    let mut emitted = String::new();
    for (chunk, partial) in [("各项指标", true), ("明细与总结", true), ("各项指标明细与总结", false)] {
        for evt in convert_event(&model_event(chunk, partial), &mut final_text, &mut turn_buf) {
            if let Some(t) = text_of(&evt) {
                emitted.push_str(t);
            }
        }
    }
    assert_eq!(emitted, "各项指标明细与总结");
    assert_eq!(final_text, "各项指标明细与总结");
}

/// A single whole response of a non-streaming provider goes out once, whole.
#[test]
fn single_full_response() {
    let mut final_text = String::new();
    let mut turn_buf = String::new();
    let evts = convert_event(&model_event("总结内容", false), &mut final_text, &mut turn_buf);
    assert_eq!(evts.len(), 1);
    assert_eq!(text_of(&evts[0]), Some("总结内容"));
    assert_eq!(final_text, "总结内容");
}

/// A whole event longer than what was streamed: only the tail goes out.
#[test]
fn full_event_with_extra_tail() {
    let mut final_text = String::new();
    let mut turn_buf = String::new();
    convert_event(&model_event("前半段", true), &mut final_text, &mut turn_buf);
    let evts = convert_event(&model_event("前半段后半段", false), &mut final_text, &mut turn_buf);
    assert_eq!(evts.len(), 1);
    assert_eq!(text_of(&evts[0]), Some("后半段"));
    assert_eq!(final_text, "前半段后半段");
}

#[test]
fn flusher_sentence_and_cjk_spaces() {
    let mut f = SentenceFlusher::default();
    assert!(f.push("环境").is_empty());
    assert!(f.push(" 很").is_empty());
    assert!(f.push(" 干净").is_empty());
    let chunks = f.push("。");
    assert_eq!(chunks, vec!["环境很干净。"]);
}

#[test]
fn flusher_threshold_and_take_pending() {
    let mut f = SentenceFlusher::default();
    let long = "a".repeat(120);
    let chunks = f.push(&long);
    assert_eq!(chunks.len(), 1);
    assert_eq!(chunks[0].len(), 120);
    assert!(f.take_pending().is_none());

    f.push("最后一句没有句号");
    assert_eq!(f.take_pending(), Some("最后一句没有句号".to_string()));
    assert!(f.take_pending().is_none());
}

#[test]
fn flusher_keeps_legit_spaces() {
    let mut f = SentenceFlusher::default();
    assert!(f.push("version 1.2").is_empty());
    let chunks = f.push(" is out!");
    assert_eq!(chunks, vec!["version 1.2 is out!"]);

    let mut joined = String::new();
    let mut f3 = SentenceFlusher::default();
    for d in ["服务地址 127.", "0.0.1:8899 可用。"] {
        for c in f3.push(d) {
            joined.push_str(&c);
        }
    }
    assert_eq!(joined, "服务地址 127.0.0.1:8899 可用。");
}

#[test]
fn flusher_splits_several_sentences_in_one_delta() {
    let mut f = SentenceFlusher::new();
    let chunks = f.push("第一句。第二句！第三");
    assert_eq!(chunks, vec!["第一句。", "第二句！"]);
    assert_eq!(f.take_pending(), Some("第三".to_string()));
}

#[test]
fn flusher_keeps_space_before_latin_after_cjk() {
    let mut f = SentenceFlusher::new();
    assert!(f.push("版本").is_empty());
    // a space followed by a latin word is kept
    assert!(f.push(" v2").is_empty());
    assert_eq!(f.take_pending(), Some("版本 v2".to_string()));
}

#[test]
fn flusher_newline_is_a_terminator() {
    let mut f = SentenceFlusher::new();
    let chunks = f.push("line one\nline two");
    assert_eq!(chunks, vec!["line one\n"]);
    assert_eq!(f.take_pending(), Some("line two".to_string()));
}

/// Whatever is pushed comes out again, in order, with only CJK-gap spaces dropped.
#[test]
fn flusher_output_joins_to_input() {
    let mut f = SentenceFlusher::new();
    let mut out = String::new();
    for d in ["Hello", " world.", " Next", " part;", " end"] {
        for c in f.push(d) {
            out.push_str(&c);
        }
    }
    if let Some(rest) = f.take_pending() {
        out.push_str(&rest);
    }
    assert_eq!(out, "Hello world. Next part; end");
}

#[test]
fn cjk_and_terminators() {
    assert!(is_cjk('中'));
    assert!(is_cjk('。'));
    assert!(is_cjk('！'));
    assert!(!is_cjk('a'));
    assert!(is_terminator('。'));
    assert!(is_terminator('\n'));
    assert!(is_terminator(';'));
    assert!(!is_terminator(','));
}

#[test]
fn error_event_stops_conversion() {
    let mut final_text = String::new();
    let mut turn_buf = String::new();
    let ev = ModelEvent {
        error_message: Some("boom".to_string()),
        content: Some(Content {
            role: "model".to_string(),
            parts: vec![Part::Text { text: "ignored".to_string() }],
        }),
        partial: true,
    };
    let out = convert_event(&ev, &mut final_text, &mut turn_buf);
    assert_eq!(out.len(), 1);
    match &out[0] {
        UiEvent::Error { message } => assert_eq!(message, "boom"),
        _ => panic!("expected an error event"),
    }
    assert_eq!(final_text, "");
}

#[test]
fn tool_events_and_user_text() {
    let mut final_text = String::new();
    let mut turn_buf = String::from("部分");
    let ev = ModelEvent {
        error_message: None,
        content: Some(Content {
            role: "model".to_string(),
            parts: vec![
                Part::Thinking { thinking: "想一想".to_string() },
                Part::FunctionCall { name: "sys_read".to_string(), args: "{\"path\":\"/tmp\"}".to_string() },
                Part::FunctionResponse {
                    name: "sys_read".to_string(),
                    response: "{\"error\":\"x\"}".to_string(),
                    has_error: true,
                    has_denied: false,
                },
                Part::Other,
            ],
        }),
        partial: false,
    };
    let out = convert_event(&ev, &mut final_text, &mut turn_buf);
    assert_eq!(out.len(), 3);
    match &out[0] {
        UiEvent::Thinking { text } => assert_eq!(text, "想一想"),
        _ => panic!("expected thinking"),
    }
    match &out[1] {
        UiEvent::ToolCall { name, args } => {
            assert_eq!(name, "sys_read");
            assert_eq!(args, "{\"path\":\"/tmp\"}");
        }
        _ => panic!("expected a tool call"),
    }
    match &out[2] {
        UiEvent::ToolResult { name, ok, summary } => {
            assert_eq!(name, "sys_read");
            assert!(!ok);
            assert_eq!(summary, "{\"error\":\"x\"}");
        }
        _ => panic!("expected a tool result"),
    }
    assert_eq!(turn_buf, "");

    // text of a user message is not forwarded
    let user = ModelEvent {
        error_message: None,
        content: Some(Content {
            role: "user".to_string(),
            parts: vec![Part::Text { text: "hi".to_string() }],
        }),
        partial: false,
    };
    assert!(convert_event(&user, &mut final_text, &mut turn_buf).is_empty());
    assert_eq!(final_text, "");
}

#[test]
fn tool_result_summary_is_truncated() {
    let mut final_text = String::new();
    let mut turn_buf = String::new();
    let long = "x".repeat(700);
    let ev = ModelEvent {
        error_message: None,
        content: Some(Content {
            role: "model".to_string(),
            parts: vec![Part::FunctionResponse {
                name: "t".to_string(),
                response: long,
                has_error: false,
                has_denied: false,
            }],
        }),
        partial: false,
    };
    let out = convert_event(&ev, &mut final_text, &mut turn_buf);
    match &out[0] {
        UiEvent::ToolResult { ok, summary, .. } => {
            assert!(*ok);
            assert_eq!(summary.chars().count(), 603);
            assert!(summary.ends_with("..."));
        }
        _ => panic!("expected a tool result"),
    }
}

#[test]
fn routing_buffers_text_and_flushes_before_tools() {
    let mut f = SentenceFlusher::new();
    let out = route_ui_event(&mut f, UiEvent::Text { text: "先读取".to_string(), partial: false });
    assert!(out.is_empty());
    let out = route_ui_event(&mut f, UiEvent::Text { text: " 文件。然后".to_string(), partial: true });
    assert_eq!(out.len(), 1);
    match &out[0] {
        UiEvent::Text { text, partial } => {
            assert_eq!(text, "先读取文件。");
            assert!(*partial);
        }
        _ => panic!("expected text"),
    }
    let out = route_ui_event(&mut f, UiEvent::ToolCall { name: "sys_read".to_string(), args: "{}".to_string() });
    assert_eq!(out.len(), 2);
    assert_eq!(text_of(&out[0]), Some("然后"));
    assert!(matches!(&out[1], UiEvent::ToolCall { name, .. } if name == "sys_read"));
    assert!(f.take_pending().is_none());
    // with nothing held back, another event passes alone
    let out = route_ui_event(&mut f, UiEvent::Error { message: "x".to_string() });
    assert_eq!(out.len(), 1);
    assert!(matches!(&out[0], UiEvent::Error { .. }));
}

#[test]
fn closing_a_stream() {
    let mut f = SentenceFlusher::new();
    f.push("尾巴");
    let ends = closing_events(&mut f, true, false);
    assert_eq!(ends.len(), 3);
    assert!(matches!(&ends[0], StreamEnd::Stopped));
    assert!(matches!(&ends[1], StreamEnd::Text(t) if t == "尾巴"));
    assert!(matches!(&ends[2], StreamEnd::Done));
    assert!(f.take_pending().is_none());

    let mut g = SentenceFlusher::new();
    let ends = closing_events(&mut g, false, false);
    assert_eq!(ends.len(), 1);
    assert!(matches!(&ends[0], StreamEnd::Done));

    // a page that went away gets nothing more, and the held-back text stays
    let mut h = SentenceFlusher::new();
    h.push("x");
    assert!(closing_events(&mut h, false, true).is_empty());
    assert_eq!(h.take_pending(), Some("x".to_string()));
    let ends = closing_events(&mut SentenceFlusher::new(), true, true);
    assert_eq!(ends.len(), 1);
}
