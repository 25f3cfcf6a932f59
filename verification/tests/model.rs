use gitx::{ChatRequest, InputMessage};

fn msg() -> InputMessage {
    InputMessage { role: "user".to_string(), content: "hi".to_string() }
}

#[test]
fn chat_history_is_limited_to_50_messages() {
    let ok = ChatRequest { messages: (0..50).map(|_| msg()).collect(), context: None };
    assert_eq!(ok.check_history(), Ok(()));
    let long = ChatRequest { messages: (0..51).map(|_| msg()).collect(), context: None };
    assert_eq!(long.check_history(), Err("消息历史过长，最多支持 50 条".to_string()));
}
