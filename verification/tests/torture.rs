//! Streams under hostile chunking and malformed input.

use kinetix::sse::{extract_data, SseFramer};
use kinetix::types::FrontendFormat;
use kinetix::wire::{anthropic_events, client_frame, gemini_events, openai_events, StreamEvent};

fn frames_in_chunks(input: &str, size: usize) -> Vec<String> {
    let mut f = SseFramer::new();
    let bytes = input.as_bytes();
    let mut out = Vec::new();
    for chunk in bytes.chunks(size.max(1)) {
        out.extend(f.push(chunk));
    }
    out
}

fn gemini(input: &str, size: usize) -> Vec<StreamEvent> {
    let mut evs = Vec::new();
    for frame in frames_in_chunks(input, size) {
        if let Some(payload) = extract_data(&frame) {
            evs.extend(gemini_events(&payload));
        }
    }
    evs
}

fn openai(input: &str, size: usize) -> Vec<StreamEvent> {
    let mut evs = Vec::new();
    for frame in frames_in_chunks(input, size) {
        if let Some(payload) = extract_data(&frame) {
            evs.extend(openai_events(&payload));
        }
    }
    evs
}

#[test]
fn gemini_text_survives_every_chunk_boundary() {
    let input = "data: {\"candidates\":[{\"content\":{\"parts\":[{\"text\":\"Hello world\"}]}}]}\n\n\
                 data: {\"candidates\":[{\"content\":{\"parts\":[{\"text\":\"!\"}]},\"finishReason\":\"STOP\"}],\
                 \"usageMetadata\":{\"promptTokenCount\":5,\"candidatesTokenCount\":3}}\n\n";
    for size in 1..=64 {
        let evs = gemini(input, size);
        let text: String = evs
            .iter()
            .filter_map(|e| match e {
                StreamEvent::TextDelta(t) => Some(t.clone()),
                _ => None,
            })
            .collect();
        assert_eq!(text, "Hello world!", "chunk size {size}");
    }
}

#[test]
fn gemini_tool_call_args_object() {
    let input = "data: {\"candidates\":[{\"content\":{\"parts\":[{\"functionCall\":{\"name\":\"get_weather\",\"args\":{\"city\":\"Paris\"}}}]}}]}\n\n";
    for size in [1usize, 3, 7, 64] {
        let evs = gemini(input, size);
        let mut name = String::new();
        let mut args = String::new();
        for e in &evs {
            match e {
                StreamEvent::ToolCallStart { name: n, .. } => name = n.clone(),
                StreamEvent::ToolCallArgsDelta { args: a, .. } => args = a.clone(),
                _ => {}
            }
        }
        assert_eq!(name, "get_weather", "chunk size {size}");
        let parsed: serde_json::Value = serde_json::from_str(&args).expect("args is JSON");
        assert_eq!(parsed["city"], "Paris", "chunk size {size}");
    }
}

#[test]
fn gemini_usage_only_in_final_event() {
    let input = "data: {\"candidates\":[{\"content\":{\"parts\":[{\"text\":\"hi\"}]}}]}\n\n\
                 data: {\"candidates\":[{\"content\":{\"parts\":[]},\"finishReason\":\"STOP\"}],\
                 \"usageMetadata\":{\"promptTokenCount\":11,\"candidatesTokenCount\":2,\"thoughtsTokenCount\":1}}\n\n";
    for size in [1usize, 5, 200] {
        let evs = gemini(input, size);
        let usage = evs.iter().find_map(|e| match e {
            StreamEvent::Usage(u) => Some(*u),
            _ => None,
        });
        let u = usage.expect("usage present");
        assert_eq!(u.input, Some(11));
        assert_eq!(u.output, Some(2));
        assert_eq!(u.thinking, Some(1));
    }
}

#[test]
fn malformed_and_unknown_fields_do_not_panic() {
    let inputs = [
        "data: not json at all\n\n",
        "data: {\"candidates\":[{}]}\n\n",
        "data: {}\n\n",
        "data: [DONE]\n\n",
        ": keepalive\n\n",
        "event: weird\ndata: {\"unknown\":true,\"extra\":[1,2,3]}\n\n",
        "data: {\"candidates\":[{\"content\":{\"parts\":[{\"unknownPart\":{\"x\":1}}]}}]}\n\n",
    ];
    for input in inputs {
        for size in [1usize, 2, 100] {
            assert!(gemini(input, size).is_empty());
            assert!(openai(input, size).is_empty());
        }
    }
}

#[test]
fn openai_tool_args_split_across_frames() {
    let input = "data: {\"choices\":[{\"delta\":{\"tool_calls\":[{\"index\":0,\"id\":\"call_1\",\"function\":{\"name\":\"f\",\"arguments\":\"{\\\"a\\\":\"}}]}}]}\n\n\
                 data: {\"choices\":[{\"delta\":{\"tool_calls\":[{\"index\":0,\"function\":{\"arguments\":\"1}\"}}]}}]}\n\n\
                 data: {\"choices\":[{\"delta\":{},\"finish_reason\":\"tool_calls\"}]}\n\n\
                 data: [DONE]\n\n";
    for size in 1..=48 {
        let evs = openai(input, size);
        let mut args = String::new();
        for e in &evs {
            if let StreamEvent::ToolCallArgsDelta { args: delta, .. } = e {
                args.push_str(delta);
            }
        }
        assert_eq!(args, "{\"a\":1}", "chunk size {size}");
    }
}

#[test]
fn fuzz_bounded_resources() {
    let mut state: u64 = 0x9E3779B97F4A7C15;
    let mut next = || {
        state ^= state << 13;
        state ^= state >> 7;
        state ^= state << 17;
        state
    };

    for _ in 0..500 {
        let len = (next() % 256) as usize;
        let bytes: Vec<u8> = (0..len).map(|_| (next() % 256) as u8).collect();
        let mut f = SseFramer::new();
        let _ = f.push(&bytes);
        assert!(f.pending() as usize <= 1);
    }

    let valid = "data: {\"candidates\":[{\"content\":{\"parts\":[{\"text\":\"abcdefghij\"}]}}]}\n\n\
                 data: {\"candidates\":[{\"content\":{\"parts\":[{\"text\":\"klmnopqrst\"}]},\"finishReason\":\"STOP\"}]}\n\n";
    let expected_text = "abcdefghijklmnopqrst";
    for _ in 0..300 {
        let mut f = SseFramer::new();
        let bytes = valid.as_bytes();
        let mut i = 0;
        let mut frames = Vec::new();
        while i < bytes.len() {
            let step = (next() % 5 + 1) as usize;
            let end = (i + step).min(bytes.len());
            frames.extend(f.push(&bytes[i..end]));
            i = end;
        }
        let mut text = String::new();
        for frame in frames {
            if let Some(p) = extract_data(&frame) {
                for ev in gemini_events(&p) {
                    if let StreamEvent::TextDelta(t) = ev {
                        text.push_str(&t);
                    }
                }
            }
        }
        assert_eq!(text, expected_text);
    }
}

#[test]
fn openai_text_usage_and_finish() {
    let evs = openai_events(
        "{\"choices\":[{\"delta\":{\"content\":\"hi\"},\"finish_reason\":\"stop\"}],\
         \"usage\":{\"prompt_tokens\":7,\"completion_tokens\":2,\
         \"prompt_tokens_details\":{\"cached_tokens\":3}}}",
    );
    assert_eq!(evs.len(), 3);
    assert!(matches!(&evs[0], StreamEvent::TextDelta(t) if t == "hi"));
    assert!(matches!(&evs[1], StreamEvent::Usage(u)
        if u.input == Some(7) && u.output == Some(2) && u.cached == Some(3) && u.thinking.is_none()));
    assert!(matches!(&evs[2], StreamEvent::Finish(r) if r == "stop"));
}

#[test]
fn gemini_thoughts_are_not_text() {
    let evs = gemini_events(
        "{\"candidates\":[{\"content\":{\"parts\":[{\"text\":\"hm\",\"thought\":true},{\"text\":\"yes\"}]}}]}",
    );
    assert_eq!(evs.len(), 2);
    assert!(matches!(&evs[0], StreamEvent::ThinkingDelta(t) if t == "hm"));
    assert!(matches!(&evs[1], StreamEvent::TextDelta(t) if t == "yes"));
}

#[test]
fn anthropic_pieces_are_told_apart() {
    let evs = anthropic_events(
        "{\"type\":\"message_start\",\"message\":{\"usage\":{\"input_tokens\":9,\"output_tokens\":1}}}",
    );
    assert!(matches!(&evs[0], StreamEvent::Usage(u) if u.input == Some(9) && u.output == Some(1)));
    let evs = anthropic_events(
        "{\"type\":\"content_block_start\",\"index\":1,\"content_block\":{\"type\":\"tool_use\",\"id\":\"t\",\"name\":\"f\"}}",
    );
    assert!(matches!(&evs[0], StreamEvent::ToolCallStart { index: 1, id: Some(i), name } if i == "t" && name == "f"));
    let evs = anthropic_events(
        "{\"index\":1,\"delta\":{\"type\":\"input_json_delta\",\"partial_json\":\"{\\\"a\\\"\"}}",
    );
    assert!(matches!(&evs[0], StreamEvent::ToolCallArgsDelta { index: 1, args } if args == "{\"a\""));
    let evs = anthropic_events(
        "{\"delta\":{\"stop_reason\":\"end_turn\"},\"usage\":{\"output_tokens\":12}}",
    );
    assert_eq!(evs.len(), 2);
    assert!(matches!(&evs[1], StreamEvent::Finish(r) if r == "end_turn"));
}

#[test]
fn client_frames_come_back_as_their_payloads() {
    let typed = "{\"type\":\"ping\"}";
    let f = client_frame(FrontendFormat::Anthropic, typed);
    assert_eq!(f, "event: ping\ndata: {\"type\":\"ping\"}\n\n");
    assert_eq!(
        client_frame(FrontendFormat::OpenAi, typed),
        "data: {\"type\":\"ping\"}\n\n"
    );
    assert_eq!(client_frame(FrontendFormat::Anthropic, "[DONE]"), "data: [DONE]\n\n");
    let frames = frames_in_chunks(&f, 3);
    assert_eq!(extract_data(&frames[0]).as_deref(), Some(typed));
}
