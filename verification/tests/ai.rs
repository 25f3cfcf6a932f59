use gitx::ai::{
    ai_settings, analysis_user_prompt, bearer_value, build_system_prompt, chat_url, completion_reply,
    get_tool_display_name, is_transient_error, parse_failed_message, request_failed_message,
    status_error_message, stream_request_failed_message, truncate_for_display, Secret,
    AGENT_SYSTEM_PROMPT,
};
use gitx::ai::{analysis_answer, plan_tool_calls, reply_tool_calls};
use gitx::ChatContext;

#[test]
fn network_failures_are_transient() {
    assert!(is_transient_error("AI API 请求失败: connection reset"));
    assert!(is_transient_error("AI 流式请求失败: dns lookup failed"));
}

#[test]
fn http_5xx_is_transient() {
    assert!(is_transient_error("AI API 错误 (500): Internal Server Error"));
    assert!(is_transient_error("AI API 错误 (503): Service Unavailable"));
    assert!(is_transient_error("AI API 错误 (529): Overloaded"));
}

#[test]
fn http_4xx_is_not_transient() {
    assert!(!is_transient_error("AI API 错误 (401): Unauthorized"));
    assert!(!is_transient_error("AI API 错误 (400): Bad Request"));
    assert!(!is_transient_error("AI API 错误 (404): Not Found"));
    assert!(!is_transient_error("AI API 错误 (422): Unprocessable"));
}

#[test]
fn parse_failures_are_not_transient() {
    assert!(!is_transient_error("AI 响应解析失败: invalid json"));
}

#[test]
fn unrecognized_errors_are_not_transient() {
    assert!(!is_transient_error("something else entirely"));
}

#[test]
fn status_prefix_without_status_is_not_transient() {
    assert!(!is_transient_error("AI API 错误 ("));
}

#[test]
fn built_error_messages_classify_as_documented() {
    let e = request_failed_message("timeout");
    assert_eq!(e, "AI API 请求失败: timeout");
    assert!(is_transient_error(&e));
    let e = stream_request_failed_message("reset");
    assert_eq!(e, "AI 流式请求失败: reset");
    assert!(is_transient_error(&e));
    let e = status_error_message("502 Bad Gateway", "upstream");
    assert_eq!(e, "AI API 错误 (502 Bad Gateway): upstream");
    assert!(is_transient_error(&e));
    let e = status_error_message("429 Too Many Requests", "slow down");
    assert!(!is_transient_error(&e));
    let e = parse_failed_message("expected value at line 1 column 1");
    assert_eq!(e, "AI 响应解析失败: expected value at line 1 column 1");
    assert!(!is_transient_error(&e));
}

#[test]
fn secret_exposes_value_and_hides_it_in_debug_text() {
    let s = Secret::new("sk-123".to_string());
    assert_eq!(s.expose(), "sk-123");
    assert_eq!(s.debug_text(), "Secret(**REDACTED**)");
    assert!(!s.debug_text().contains("sk-123"));
    assert_eq!(bearer_value(&s), "Bearer sk-123");
}

#[test]
fn system_prompt_mentions_branches_only_with_a_diff() {
    assert_eq!(build_system_prompt(&None), AGENT_SYSTEM_PROMPT);
    let ctx = ChatContext {
        base_branch: "main".to_string(),
        compare_branch: "dev".to_string(),
        has_diff: true,
    };
    let p = build_system_prompt(&Some(ctx.clone()));
    assert!(p.starts_with(AGENT_SYSTEM_PROMPT));
    assert!(p.contains("当前用户正在查看分支 main 和 dev 之间的代码差异。"));
    assert!(p.ends_with("请使用 get_branch_diff 工具获取这两个分支的差异进行分析。"));
    let no_diff = ChatContext { has_diff: false, ..ctx.clone() };
    assert_eq!(build_system_prompt(&Some(no_diff)), AGENT_SYSTEM_PROMPT);
    let empty = ChatContext { base_branch: String::new(), ..ctx };
    assert_eq!(build_system_prompt(&Some(empty)), AGENT_SYSTEM_PROMPT);
}

#[test]
fn tool_display_names() {
    assert_eq!(get_tool_display_name("get_branches"), "正在获取分支列表...");
    assert_eq!(get_tool_display_name("get_current_branch"), "正在获取当前分支...");
    assert_eq!(get_tool_display_name("get_branch_diff"), "正在比较分支差异...");
    assert_eq!(get_tool_display_name("get_commits"), "正在获取提交历史...");
    assert_eq!(get_tool_display_name("get_file_history"), "正在获取文件变更记录...");
    assert_eq!(get_tool_display_name("get_diff"), "正在获取代码差异...");
    assert_eq!(get_tool_display_name("rm_rf"), "正在执行 rm_rf...");
}

#[test]
fn display_truncation_keeps_500_chars() {
    let short = "x".repeat(500);
    assert_eq!(truncate_for_display(&short), short);
    let long = "字".repeat(501);
    let t = truncate_for_display(&long);
    assert_eq!(t, format!("{}\n...(已截断)", "字".repeat(500)));
    assert_eq!(truncate_for_display(""), "");
}

#[test]
fn chat_url_strips_trailing_slashes() {
    assert_eq!(chat_url("https://api.openai.com/v1"), "https://api.openai.com/v1/chat/completions");
    assert_eq!(chat_url("http://x//"), "http://x/chat/completions");
    assert_eq!(chat_url(""), "/chat/completions");
}

#[test]
fn analysis_prompt_layout() {
    assert_eq!(
        analysis_user_prompt("+a", "why?"),
        "## Git Diff:\n```\n+a\n```\n\n## 问题:\nwhy?"
    );
}

#[test]
fn settings_defaults_and_token_limit() {
    assert!(ai_settings(None, None, None, None, None).is_none());
    let s = ai_settings(Some("k".to_string()), None, None, None, None).unwrap();
    assert_eq!(s.api_key.expose(), "k");
    assert_eq!(s.model, "glm-4-flash");
    assert_eq!(s.base_url, "https://api.openai.com/v1");
    assert_eq!(s.max_tokens, 4000);
    assert_eq!(s.max_tokens_field, "max_completion_tokens");
    let s = ai_settings(
        Some("k".to_string()),
        Some("glm-4-flash".to_string()),
        Some("http://gw".to_string()),
        Some("+8192".to_string()),
        Some("max_tokens".to_string()),
    )
    .unwrap();
    assert_eq!(s.model, "glm-4-flash");
    assert_eq!(s.base_url, "http://gw");
    assert_eq!(s.max_tokens, 8192);
    assert_eq!(s.max_tokens_field, "max_tokens");
    for bad in ["", "-1", "abc", "4294967296", "+"] {
        let s = ai_settings(Some("k".to_string()), None, None, Some(bad.to_string()), None).unwrap();
        assert_eq!(s.max_tokens, 4000, "{bad}");
    }
    let s = ai_settings(Some("k".to_string()), None, None, Some("4294967295".to_string()), None).unwrap();
    assert_eq!(s.max_tokens, u32::MAX);
}

#[test]
fn completion_reply_requires_content() {
    assert_eq!(completion_reply(Some("hi".to_string())), Ok("hi".to_string()));
    assert_eq!(completion_reply(None), Err("AI 未返回有效响应".to_string()));
}

#[test]
fn client_errors_are_never_retried_whatever_the_body_says() {
    assert!(!is_transient_error("AI API 错误 (401): 请求失败"));
    assert!(!is_transient_error(&status_error_message("429 Too Many Requests", "上游请求失败")));
    assert!(is_transient_error(&status_error_message("503 Service Unavailable", "请求失败")));
}

#[test]
fn a_cloned_secret_exposes_the_same_value() {
    let s = Secret::new("sk-456".to_string());
    let c = s.clone();
    assert_eq!(c.expose(), "sk-456");
    assert_eq!(c.debug_text(), "Secret(**REDACTED**)");
}

#[test]
fn analysis_answers_read_the_reply_body() {
    assert_eq!(
        analysis_answer("{\"choices\":[{\"message\":{\"content\":\"看起来不错\"}}]}"),
        Ok("看起来不错".to_string())
    );
    assert_eq!(
        analysis_answer("{\"choices\":[{\"message\":{\"content\":null}}]}"),
        Err("AI 未返回有效响应".to_string())
    );
    assert_eq!(analysis_answer("{}"), Err("AI 未返回有效响应".to_string()));
    let e = analysis_answer("not json").unwrap_err();
    assert!(e.starts_with("AI 响应解析失败: "), "{e}");
    assert!(e.len() > "AI 响应解析失败: ".len());
    assert!(!is_transient_error(&e));
}

#[test]
fn tool_calls_are_read_with_defaults() {
    let body = "{\"choices\":[{\"message\":{\"tool_calls\":[
        {\"id\":\"c1\",\"function\":{\"name\":\"get_diff\",\"arguments\":\"{\\\"from\\\":\\\"a\\\"}\"}},
        {\"function\":{}}
    ]}}]}";
    let calls = reply_tool_calls(body).unwrap();
    assert_eq!(
        calls,
        vec![
            ("get_diff".to_string(), "{\"from\":\"a\"}".to_string(), "c1".to_string()),
            ("unknown".to_string(), "{}".to_string(), String::new()),
        ]
    );
    assert_eq!(reply_tool_calls("{\"choices\":[{\"message\":{\"content\":\"hi\"}}]}").unwrap().len(), 0);
    assert_eq!(reply_tool_calls("{\"choices\":[{\"message\":{\"tool_calls\":[]}}]}").unwrap().len(), 0);
    assert!(reply_tool_calls("{").unwrap_err().starts_with("AI 响应解析失败: "));
    assert_eq!(
        plan_tool_calls(&vec![(Some("get_branches".to_string()), None, Some("x".to_string()))]),
        vec![("get_branches".to_string(), "{}".to_string(), "x".to_string())]
    );
}
