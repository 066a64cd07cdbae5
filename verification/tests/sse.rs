//! The framing of event streams.

use kinetix::sse::{extract_data, find_double_lf, normalize_crlf, SseFramer};

fn feed_in_chunks(framer: &mut SseFramer, input: &str, size: usize) -> Vec<String> {
    let bytes = input.as_bytes();
    let mut out = Vec::new();
    for chunk in bytes.chunks(size) {
        out.extend(framer.push(chunk));
    }
    out
}

#[test]
fn splits_lf_frames() {
    let mut f = SseFramer::new();
    let frames = f.push(b"data: a\n\ndata: b\n\n");
    assert_eq!(frames, vec!["data: a", "data: b"]);
    assert!(!f.pending());
}

#[test]
fn splits_crlf_frames() {
    let mut f = SseFramer::new();
    let frames = f.push(b"data: a\r\n\r\ndata: b\r\n\r\n");
    assert_eq!(frames, vec!["data: a", "data: b"]);
}

#[test]
fn tolerates_one_byte_chunks() {
    let input = "data: {\"x\":1}\n\ndata: {\"y\":2}\n\n: keepalive\n\ndata: [DONE]\n\n";
    for size in 1..=8 {
        let mut f = SseFramer::new();
        let frames = feed_in_chunks(&mut f, input, size);
        assert_eq!(
            frames,
            vec![
                "data: {\"x\":1}",
                "data: {\"y\":2}",
                ": keepalive",
                "data: [DONE]"
            ],
            "chunk size {size}"
        );
    }
}

#[test]
fn tolerates_split_utf8_multibyte() {
    let input = "data: {\"t\":\"héllo→世界\"}\n\n";
    let bytes = input.as_bytes();
    for split in 1..bytes.len() {
        let mut f = SseFramer::new();
        let mut frames = f.push(&bytes[..split]);
        frames.extend(f.push(&bytes[split..]));
        assert_eq!(
            frames,
            vec!["data: {\"t\":\"héllo→世界\"}"],
            "split {split}"
        );
    }
}

#[test]
fn crlf_split_across_chunks() {
    let mut f = SseFramer::new();
    assert!(f.push(b"data: a\r\n\r").is_empty());
    assert_eq!(f.push(b"\ndata: b\r\n\r\n"), vec!["data: a", "data: b"]);
}

#[test]
fn partial_frame_is_not_emitted() {
    let mut f = SseFramer::new();
    assert!(f.push(b"data: par").is_empty());
    assert!(f.pending());
    let frames = f.push(b"tial\n\n");
    assert_eq!(frames, vec!["data: partial"]);
}

#[test]
fn joins_multiple_data_lines() {
    let mut f = SseFramer::new();
    let frames = f.push(b"data: line1\ndata: line2\n\n");
    assert_eq!(frames.len(), 1);
    assert_eq!(extract_data(&frames[0]).unwrap(), "line1\nline2");
}

#[test]
fn comments_have_no_data() {
    let mut f = SseFramer::new();
    let frames = f.push(b": keepalive\n\n");
    assert_eq!(frames, vec![": keepalive"]);
    assert!(extract_data(&frames[0]).is_none());
}

#[test]
fn flush_hands_out_the_rest_once() {
    let mut f = SseFramer::new();
    assert!(f.push(b"data: tail").is_empty());
    assert_eq!(f.flush().as_deref(), Some("data: tail"));
    assert!(!f.pending());
    assert!(f.flush().is_none());
    f.push("data: \u{4e16}\r\n".as_bytes());
    assert_eq!(f.flush().as_deref(), Some("data: \u{4e16}"));
    f.push(b"\r");
    assert!(f.flush().is_none());
}

#[test]
fn bytes_that_are_no_text_are_replaced() {
    let mut f = SseFramer::new();
    let frames = f.push(b"data: \xff\n\n");
    assert_eq!(frames, vec!["data: \u{fffd}"]);
}

#[test]
fn any_chunking_gives_the_same_frames() {
    let input = "event: a\r\ndata: 1\r\n\r\n: c\n\n\n\ndata: x";
    let whole = feed_in_chunks(&mut SseFramer::new(), input, input.len());
    for size in 1..input.len() {
        assert_eq!(feed_in_chunks(&mut SseFramer::new(), input, size), whole);
    }
}

#[test]
fn line_endings_and_blank_lines() {
    assert_eq!(normalize_crlf(b"a\r\nb\r\n"), b"a\nb\n".to_vec());
    assert_eq!(normalize_crlf(b"a\rb"), b"a\rb".to_vec());
    assert_eq!(find_double_lf(b"ab\n\ncd"), Some(2));
    assert_eq!(find_double_lf(b"ab\n"), None);
}

#[test]
fn a_cut_after_cr_cr_lf_changes_nothing() {
    let mut whole = SseFramer::new();
    assert_eq!(whole.push(b"x\r\r\ny\n\n"), vec!["x\r\ny"]);
    let input = b"x\r\r\ny\n\n";
    for cut in 0..=input.len() {
        let mut f = SseFramer::new();
        let mut frames = f.push(&input[..cut]);
        frames.extend(f.push(&input[cut..]));
        assert_eq!(frames, vec!["x\r\ny"], "cut {cut}");
        assert!(!f.pending());
    }
}

#[test]
fn frames_come_back_verbatim() {
    let frames = vec!["data: a\ndata: b", ": c", "\u{e9}vent: \u{4e16}"];
    let lf: String = frames.iter().map(|f| format!("{f}\n\n")).collect();
    let mut f = SseFramer::new();
    assert_eq!(f.push(lf.as_bytes()), frames);
    assert!(!f.pending());
    assert_eq!(f.push(lf.replace('\n', "\r\n").as_bytes()), frames);
    assert!(!f.pending());
}

#[test]
fn frames_that_are_no_text_are_whole() {
    let mut f = SseFramer::new();
    let frames = f.push(b"\xff\n\xfe\r\n\n\xc3\n\n");
    assert_eq!(frames, vec!["\u{fffd}\n\u{fffd}", "\u{fffd}"]);
}

#[test]
fn an_empty_data_line_counts() {
    assert_eq!(extract_data("data:\ndata: x").as_deref(), Some("\nx"));
    assert_eq!(extract_data("data: x\ndata:").as_deref(), Some("x\n"));
    assert_eq!(extract_data("data:").as_deref(), Some(""));
}
