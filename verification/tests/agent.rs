use gitx::agent::{AgentAction, AgentLoop, AgentNotice, RoundOutcome, MAX_AGENT_ROUNDS};

fn notices(a: AgentAction) -> Vec<String> {
    match a {
        AgentAction::Finish(n) => n
            .iter()
            .map(|x| match x {
                AgentNotice::Chunk(c) => format!("{}:{}", x.name(), c),
                AgentNotice::Done => x.name(),
                AgentNotice::Error(e) => format!("{}:{}", x.name(), e),
            })
            .collect(),
        _ => panic!("expected the chat to finish"),
    }
}

#[test]
fn reply_without_tools_is_streamed() {
    let mut a = AgentLoop::new();
    assert!(matches!(a.begin_round(false), AgentAction::Request));
    assert!(matches!(a.after_response(RoundOutcome::Reply { tool_calls: 0 }), AgentAction::StreamReply));
}

#[test]
fn transient_failure_is_retried_once() {
    let mut a = AgentLoop::new();
    assert!(matches!(a.begin_round(false), AgentAction::Request));
    let r = a.after_response(RoundOutcome::Failed("AI API 错误 (503 Service Unavailable): x".to_string()));
    assert!(matches!(r, AgentAction::Backoff(800)));
    assert!(matches!(a.after_backoff(false), AgentAction::Request));
    let r = a.after_response(RoundOutcome::Failed("AI API 请求失败: reset".to_string()));
    assert_eq!(notices(r), vec!["ai-error:AI 调用失败: AI API 请求失败: reset"]);
}

#[test]
fn permanent_failure_is_not_retried() {
    let mut a = AgentLoop::new();
    a.begin_round(false);
    let r = a.after_response(RoundOutcome::Failed("AI API 错误 (401 Unauthorized): no".to_string()));
    assert_eq!(notices(r), vec!["ai-error:AI 调用失败: AI API 错误 (401 Unauthorized): no"]);
}

#[test]
fn stop_requests_end_with_done() {
    let mut a = AgentLoop::new();
    assert_eq!(notices(a.begin_round(true)), vec!["ai-chat-done"]);
    let mut a = AgentLoop::new();
    a.begin_round(false);
    assert_eq!(notices(a.after_response(RoundOutcome::Cancelled)), vec!["ai-chat-done"]);
    let mut a = AgentLoop::new();
    a.begin_round(false);
    a.after_response(RoundOutcome::Failed("AI API 请求失败: x".to_string()));
    assert_eq!(notices(a.after_backoff(true)), vec!["ai-chat-done"]);
}

#[test]
fn too_many_tool_rounds_end_with_an_apology() {
    let mut a = AgentLoop::new();
    for _ in 0..MAX_AGENT_ROUNDS {
        assert!(matches!(a.begin_round(false), AgentAction::Request));
        assert!(matches!(a.after_response(RoundOutcome::Reply { tool_calls: 2 }), AgentAction::RunTools));
    }
    assert_eq!(
        notices(a.begin_round(false)),
        vec!["ai-chat-chunk:抱歉，操作步骤过多，请尝试更具体的描述。", "ai-chat-done"]
    );
}

#[test]
fn retry_budget_is_per_round() {
    let mut a = AgentLoop::new();
    a.begin_round(false);
    assert!(matches!(a.after_response(RoundOutcome::Failed("AI API 请求失败: x".to_string())), AgentAction::Backoff(_)));
    a.after_backoff(false);
    assert!(matches!(a.after_response(RoundOutcome::Reply { tool_calls: 1 }), AgentAction::RunTools));
    a.begin_round(false);
    assert!(matches!(a.after_response(RoundOutcome::Failed("AI API 请求失败: x".to_string())), AgentAction::Backoff(_)));
}
