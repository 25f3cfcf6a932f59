use gitx::sse::{event_for_content, SseDecoder, StreamEvent, StreamInput};

fn chunk(s: &str) -> StreamInput {
    StreamInput::Chunk(s.as_bytes().to_vec())
}

fn texts(events: &[StreamEvent]) -> Vec<String> {
    events
        .iter()
        .map(|e| match e {
            StreamEvent::Chunk(c) => format!("chunk:{c}"),
            StreamEvent::Done => "done".to_string(),
            StreamEvent::Failed(m) => format!("failed:{m}"),
        })
        .collect()
}

const A: &str = "data: {\"choices\":[{\"delta\":{\"content\":\"Hel\"}}]}\n\n";
const B: &str = "data: {\"choices\":[{\"delta\":{\"content\":\"lo\"}}]}\n\n";

#[test]
fn complete_blocks_become_chunks() {
    let mut d = SseDecoder::new();
    let ev = d.feed(chunk(&format!("{A}{B}")));
    assert_eq!(texts(&ev), vec!["chunk:Hel", "chunk:lo"]);
    assert!(!d.finished());
    let ev = d.feed(StreamInput::Ended);
    assert_eq!(texts(&ev), vec!["done"]);
    assert!(d.finished());
    assert!(d.feed(chunk(A)).is_empty());
}

#[test]
fn blocks_split_across_chunks_are_joined() {
    let mut d = SseDecoder::new();
    let (x, y) = A.split_at(20);
    assert!(d.feed(chunk(x)).is_empty());
    assert_eq!(texts(&d.feed(chunk(y))), vec!["chunk:Hel"]);
    let mut d = SseDecoder::new();
    assert!(d.feed(chunk(&A[..A.len() - 1])).is_empty());
    assert_eq!(texts(&d.feed(chunk("\n"))), vec!["chunk:Hel"]);
}

#[test]
fn done_marker_ends_the_stream() {
    let mut d = SseDecoder::new();
    let ev = d.feed(chunk(&format!("{A}data:  [DONE] \n\n{B}")));
    assert_eq!(texts(&ev), vec!["chunk:Hel", "done"]);
    assert!(d.finished());
}

#[test]
fn other_lines_and_empty_content_are_ignored() {
    let mut d = SseDecoder::new();
    let ev = d.feed(chunk(
        ": keep-alive\nevent: x\ndata: not json\ndata: {\"choices\":[{\"delta\":{\"content\":\"\"}}]}\n\n",
    ));
    assert!(ev.is_empty());
    let ev = d.feed(chunk("data: {\"choices\":[{\"delta\":{\"content\":\"a\"}}]}\r\ndata: {\"choices\":[{\"delta\":{\"content\":\"b\"}}]}\n\n"));
    assert_eq!(texts(&ev), vec!["chunk:a", "chunk:b"]);
}

#[test]
fn stop_and_read_failures_end_the_stream() {
    let mut d = SseDecoder::new();
    assert_eq!(texts(&d.feed(StreamInput::Cancelled)), vec!["done"]);
    let mut d = SseDecoder::new();
    assert_eq!(
        texts(&d.feed(StreamInput::ReadFailed("reset".to_string()))),
        vec!["failed:流式读取错误: reset"]
    );
    assert!(d.feed(StreamInput::Ended).is_empty());
}

#[test]
fn event_names() {
    assert_eq!(StreamEvent::Chunk("x".to_string()).name("chat"), "ai-chat-chunk");
    assert_eq!(StreamEvent::Done.name("analyze"), "ai-analyze-done");
    assert_eq!(StreamEvent::Failed("x".to_string()).name("chat"), "ai-error");
}

#[test]
fn every_split_of_the_text_gives_the_same_events() {
    let text = format!("{A}: comment\r\n{B}data: [DONE]\n\ndata: {{\"x\":1}}\n\n");
    let mut whole = SseDecoder::new();
    let mut expected = texts(&whole.feed(chunk(&text)));
    expected.extend(texts(&whole.feed(StreamInput::Ended)));
    assert_eq!(expected, vec!["chunk:Hel", "chunk:lo", "done"]);
    for cut in 0..=text.len() {
        let mut d = SseDecoder::new();
        let (x, y) = text.split_at(cut);
        let mut got = texts(&d.feed(chunk(x)));
        got.extend(texts(&d.feed(chunk(y))));
        got.extend(texts(&d.feed(StreamInput::Ended)));
        assert_eq!(got, expected, "cut at {cut}");
    }
}

#[test]
fn a_stream_ends_exactly_once() {
    let inputs = vec![
        chunk(A),
        chunk("data: [DONE]\n\n"),
        chunk(B),
        StreamInput::ReadFailed("late".to_string()),
        StreamInput::Cancelled,
        StreamInput::Ended,
    ];
    let mut d = SseDecoder::new();
    let mut all = Vec::new();
    for input in inputs {
        all.extend(texts(&d.feed(input)));
    }
    assert_eq!(all, vec!["chunk:Hel", "done"]);
    assert!(d.finished());

    let mut d = SseDecoder::new();
    let mut all = texts(&d.feed(chunk(A)));
    all.extend(texts(&d.feed(StreamInput::ReadFailed("reset".to_string()))));
    all.extend(texts(&d.feed(StreamInput::Ended)));
    assert_eq!(all, vec!["chunk:Hel", "failed:流式读取错误: reset"]);
}

#[test]
fn cuts_between_characters_give_the_same_events() {
    let text = "data: {\"choices\":[{\"delta\":{\"content\":\"你好，世界\"}}]}\n\ndata: [DONE]\n\n";
    let mut whole = SseDecoder::new();
    let expected = texts(&whole.feed(chunk(text)));
    assert_eq!(expected, vec!["chunk:你好，世界", "done"]);
    let cuts: Vec<usize> = (0..=text.len()).filter(|&i| text.is_char_boundary(i)).collect();
    for &a in &cuts {
        for &b in cuts.iter().filter(|&&b| b >= a).step_by(7) {
            let mut d = SseDecoder::new();
            let mut got = texts(&d.feed(chunk(&text[..a])));
            got.extend(texts(&d.feed(chunk(&text[a..b]))));
            got.extend(texts(&d.feed(chunk(&text[b..]))));
            assert_eq!(got, expected, "cuts at {a} and {b}");
        }
    }
}

#[test]
fn content_becomes_a_chunk_only_when_not_empty() {
    assert!(matches!(event_for_content(Some("x".to_string())), Some(StreamEvent::Chunk(ref c)) if c == "x"));
    assert!(event_for_content(Some(String::new())).is_none());
    assert!(event_for_content(None).is_none());
}

#[test]
fn an_empty_body_just_ends() {
    let mut d = SseDecoder::new();
    assert_eq!(texts(&d.feed(StreamInput::Ended)), vec!["done"]);
    let mut d = SseDecoder::new();
    assert!(d.feed(chunk("")).is_empty());
    assert_eq!(texts(&d.feed(StreamInput::Ended)), vec!["done"]);
}
