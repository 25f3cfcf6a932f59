//! The AI assistant: secrets, prompts, error classification and request texts.
use vstd::prelude::*;
use vstd::string::*;
use crate::model::ChatContext;
use crate::json::{completion_content, completion_tool_calls, opt_view, raw_call_view, raw_calls_view, read_completion_content, read_tool_calls, RawToolCall};
use crate::text::{string_of, parse_u32, parsed_u32, lemma_occurrence_char, lemma_occurs_in_left, lemma_occurs_in_right, chars_of, contains_exec, contains_text, copy_str, occurs_at, occurs_at_exec, truncate_chars, truncated};

verus! {

broadcast use vstd::string::group_string_axioms;

/// Wraps a value such as an API key so that its debug text never shows it.
pub struct Secret(String);

impl Clone for Secret {
    /// A copy that exposes the same value.
    fn clone(&self) -> (r: Self)
        ensures
            r@ == self@,
    {
        Secret(self.0.clone())
    }
}

impl View for Secret {
    type V = Seq<char>;

    closed spec fn view(&self) -> Seq<char> {
        self.0@
    }
}

/// What the debug text of every secret reads.
pub open spec fn redacted_text() -> Seq<char> {
    "Secret(**REDACTED**)"@
}

impl Secret {
    /// Wraps `val`.
    pub fn new(val: String) -> (s: Secret)
        ensures
            s@ == val@,
    {
        Secret(val)
    }

    /// The wrapped value.
    pub fn expose(&self) -> (r: &str)
        ensures
            r@ == self@,
    {
        self.0.as_str()
    }

    /// The debug text of a secret: a fixed placeholder that never includes the value.
    pub fn debug_text(&self) -> (r: String)
        ensures
            r@ == redacted_text(),
    {
        "Secret(**REDACTED**)".to_string()
    }
}


/// Marker of a failure to reach the AI service at all (connection, DNS, timeout).
pub open spec fn request_failed_marker() -> Seq<char> {
    "请求失败"@
}

/// Prefix of the error text for an HTTP error status from the AI service.
pub open spec fn status_error_prefix() -> Seq<char> {
    "AI API 错误 ("@
}

/// An error is worth retrying when it is an HTTP error whose status begins with `5` (a server
/// error), or, when it is not an HTTP error, when it reports a failure to reach the service.
/// Client errors (4xx) are never retried, whatever their body says.
pub open spec fn is_transient_text(err: Seq<char>) -> bool {
    if status_error_prefix().is_prefix_of(err) {
        err.len() > status_error_prefix().len() && err[status_error_prefix().len() as int] == '5'
    } else {
        contains_text(err, request_failed_marker())
    }
}

/// Whether an AI request error is transient, so that one retry may succeed: connectivity
/// failures and HTTP 5xx responses are; client errors (4xx) and unreadable responses are not.
pub fn is_transient_error(err: &str) -> (r: bool)
    ensures
        r == is_transient_text(err@),
{
    let e = chars_of(err);
    let prefix = chars_of("AI API 错误 (");
    if occurs_at_exec(&e, &prefix, 0) {
        assert(e@.subrange(0, prefix@.len() as int) == prefix@);
        return e.len() > prefix.len() && e[prefix.len()] == '5';
    }
    assert(!(prefix@.is_prefix_of(e@))) by {
        if prefix@.is_prefix_of(e@) {
            assert(e@.subrange(0, prefix@.len() as int) =~= prefix@);
        }
    }
    let marker = chars_of("请求失败");
    contains_exec(&e, &marker)
}

/// Error text for a request that never reached the AI service.
pub open spec fn request_failed_text(detail: Seq<char>) -> Seq<char> {
    "AI API 请求失败: "@ + detail
}

/// Error text for a streaming request that never reached the AI service.
pub open spec fn stream_request_failed_text(detail: Seq<char>) -> Seq<char> {
    "AI 流式请求失败: "@ + detail
}

/// Error text for an HTTP error status, with the status line and the response body.
pub open spec fn status_error_text(status: Seq<char>, body: Seq<char>) -> Seq<char> {
    "AI API 错误 ("@ + status + "): "@ + body
}

/// Error text for a response body that is not the expected JSON.
pub open spec fn parse_failed_text(detail: Seq<char>) -> Seq<char> {
    "AI 响应解析失败: "@ + detail
}

/// Error text for a request that never reached the AI service.
pub fn request_failed_message(detail: &str) -> (r: String)
    ensures
        r@ == request_failed_text(detail@),
{
    let mut r = "AI API 请求失败: ".to_string();
    r.append(detail);
    r
}

/// Error text for a streaming request that never reached the AI service.
pub fn stream_request_failed_message(detail: &str) -> (r: String)
    ensures
        r@ == stream_request_failed_text(detail@),
{
    let mut r = "AI 流式请求失败: ".to_string();
    r.append(detail);
    r
}

/// Error text for an HTTP error status (`status` is the status line, such as
/// `503 Service Unavailable`).
pub fn status_error_message(status: &str, body: &str) -> (r: String)
    ensures
        r@ == status_error_text(status@, body@),
{
    let mut r = "AI API 错误 (".to_string();
    r.append(status);
    r.append("): ");
    r.append(body);
    r
}

/// Error text for a response body that is not the expected JSON.
pub fn parse_failed_message(detail: &str) -> (r: String)
    ensures
        r@ == parse_failed_text(detail@),
{
    let mut r = "AI 响应解析失败: ".to_string();
    r.append(detail);
    r
}


/// A failure to reach the AI service is always retried.
pub proof fn lemma_request_failures_are_transient(detail: Seq<char>)
    ensures
        is_transient_text(request_failed_text(detail)),
        is_transient_text(stream_request_failed_text(detail)),
{
    reveal_strlit("请求失败");
    reveal_strlit("AI API 请求失败: ");
    reveal_strlit("AI 流式请求失败: ");
    reveal_strlit("AI API 错误 (");
    let p = status_error_prefix();
    let e1 = request_failed_text(detail);
    assert(e1.subrange(7, 11) =~= request_failed_marker());
    assert(occurs_at(e1, request_failed_marker(), 7));
    assert(!p.is_prefix_of(e1)) by {
        assert(e1[7] != p[7]);
    }
    let e2 = stream_request_failed_text(detail);
    assert(e2.subrange(5, 9) =~= request_failed_marker());
    assert(occurs_at(e2, request_failed_marker(), 5));
    assert(!p.is_prefix_of(e2)) by {
        assert(e2[3] != p[3]);
    }
}

/// An HTTP error is retried exactly when its status is a server error (`5xx`); in particular a
/// client error (`4xx`) is never retried, whatever its body says.
pub proof fn lemma_status_errors_retry_on_5xx(status: Seq<char>, body: Seq<char>)
    ensures
        is_transient_text(status_error_text(status, body)) <==> (status.len() > 0 && status[0]
            == '5'),
        status.len() > 0 && status[0] == '4' ==> !is_transient_text(status_error_text(status, body)),
{
    reveal_strlit("AI API 错误 (");
    reveal_strlit("): ");
    let p = "AI API 错误 ("@;
    let q = "): "@;
    let e = status_error_text(status, body);
    assert(e =~= p + status + q + body);
    assert(p.is_prefix_of(e)) by {
        assert(e.subrange(0, p.len() as int) =~= p);
    }
    if status.len() > 0 {
        assert(e[p.len() as int] == status[0]);
    } else {
        assert(e[p.len() as int] == q[0]);
    }
}

/// An unreadable response is never retried, unless the parser's message itself mentions a
/// request failure.
pub proof fn lemma_parse_failures_are_not_transient(detail: Seq<char>)
    requires
        !contains_text(detail, request_failed_marker()),
    ensures
        !is_transient_text(parse_failed_text(detail)),
{
    reveal_strlit("请求失败");
    reveal_strlit("AI 响应解析失败: ");
    reveal_strlit("AI API 错误 (");
    let p = "AI 响应解析失败: "@;
    let m = request_failed_marker();
    let e = parse_failed_text(detail);
    assert(!status_error_prefix().is_prefix_of(e)) by {
        assert(e[3] != status_error_prefix()[3]);
    }
    assert forall|i: int| !occurs_at(e, m, i) by {
        if occurs_at(e, m, i) {
            lemma_occurrence_char(e, m, i, 0);
            if i < p.len() {
                assert(e[i] == p[i]);
            } else {
                lemma_occurs_in_right(p, detail, m, i);
                assert(contains_text(detail, m));
            }
        }
    }
}


/// The agent's standing instructions.
pub const AGENT_SYSTEM_PROMPT: &'static str = "你是一个专业的 Git 代码分析助手，名叫 GitX AI。你可以帮助用户浏览 Git 仓库、比较分支差异、查看提交历史和文件变更记录。\n\n工作方式：\n1. 根据用户的问题，使用提供的工具获取 Git 数据\n2. 基于获取到的数据，给出专业、清晰的回答\n3. 如果需要多个工具配合使用，请依次调用\n\n输出格式要求（严格遵守）：\n- 使用 Markdown 格式，结构清晰\n- 提交列表：用有序列表，每项包含 **提交哈希**（短哈希）、提交信息、作者、时间，用 - 子项排列\n- 差异分析：先总结变更概览，再按文件逐个说明\n- 代码内容：用代码块包裹，标注语言类型\n- 关键信息：用 **加粗** 标注\n- 简洁为主，避免冗余描述\n\n请用中文回答。";

/// The system instructions for single-shot diff analysis.
pub const ANALYSIS_SYSTEM_PROMPT: &'static str = "你是一个专业的 Git 代码差异分析助手。你的任务是根据提供的 Git diff 内容，回答用户的问题。\n\n分析 diff 时请注意：\n1. 哪些文件发生了变更\n2. 具体做了什么改动\n3. 改动的目的和影响范围\n4. 潜在的问题或改进建议\n\n请用中文回答，使用 Markdown 格式，让回答清晰、简洁、有结构。";

/// The context note is added only when a diff between two named branches is on screen.
pub open spec fn mentions_branches(ctx: Option<ChatContext>) -> bool {
    ctx matches Some(c) && c.has_diff && c.base_branch@.len() > 0 && c.compare_branch@.len() > 0
}

/// The note that tells the agent which branches the user is comparing.
pub open spec fn branch_note(base: Seq<char>, compare: Seq<char>) -> Seq<char> {
    "\n\n当前用户正在查看分支 "@ + base + " 和 "@ + compare
        + " 之间的代码差异。当用户提到「分析当前差异」或「这些变更」时，请使用 get_branch_diff 工具获取这两个分支的差异进行分析。"@
}

/// The agent's system prompt: the standing instructions, followed by the branch note when
/// the user is looking at a diff between two branches.
pub open spec fn system_prompt_text(ctx: Option<ChatContext>) -> Seq<char> {
    if mentions_branches(ctx) {
        AGENT_SYSTEM_PROMPT@ + branch_note(ctx->0.base_branch@, ctx->0.compare_branch@)
    } else {
        AGENT_SYSTEM_PROMPT@
    }
}

/// Builds the agent's system prompt for the given viewing context.
pub fn build_system_prompt(chat_ctx: &Option<ChatContext>) -> (p: String)
    ensures
        p@ == system_prompt_text(*chat_ctx),
{
    let mut p = AGENT_SYSTEM_PROMPT.to_string();
    if let Some(ctx) = chat_ctx {
        if ctx.has_diff && !ctx.base_branch.as_str().is_empty() && !ctx.compare_branch.as_str().is_empty() {
            p.append("\n\n当前用户正在查看分支 ");
            p.append(ctx.base_branch.as_str());
            p.append(" 和 ");
            p.append(ctx.compare_branch.as_str());
            p.append(" 之间的代码差异。当用户提到「分析当前差异」或「这些变更」时，请使用 get_branch_diff 工具获取这两个分支的差异进行分析。");
        }
    }
    p
}

/// The progress text shown while a tool runs.
pub open spec fn tool_display_text(name: Seq<char>) -> Seq<char> {
    if name == "get_branches"@ {
        "正在获取分支列表..."@
    } else if name == "get_current_branch"@ {
        "正在获取当前分支..."@
    } else if name == "get_branch_diff"@ {
        "正在比较分支差异..."@
    } else if name == "get_commits"@ {
        "正在获取提交历史..."@
    } else if name == "get_file_history"@ {
        "正在获取文件变更记录..."@
    } else if name == "get_diff"@ {
        "正在获取代码差异..."@
    } else {
        "正在执行 "@ + name + "..."@
    }
}

/// Whether two strings hold the same characters.
pub fn same_text(a: &str, b: &str) -> (r: bool)
    ensures
        r == (a@ == b@),
{
    let x = a.to_string();
    let y = b.to_string();
    x == y
}

/// The progress text shown to the user while the tool `tool_name` runs.
pub fn get_tool_display_name(tool_name: &str) -> (r: String)
    ensures
        r@ == tool_display_text(tool_name@),
{
    if same_text(tool_name, "get_branches") {
        "正在获取分支列表...".to_string()
    } else if same_text(tool_name, "get_current_branch") {
        "正在获取当前分支...".to_string()
    } else if same_text(tool_name, "get_branch_diff") {
        "正在比较分支差异...".to_string()
    } else if same_text(tool_name, "get_commits") {
        "正在获取提交历史...".to_string()
    } else if same_text(tool_name, "get_file_history") {
        "正在获取文件变更记录...".to_string()
    } else if same_text(tool_name, "get_diff") {
        "正在获取代码差异...".to_string()
    } else {
        let mut r = "正在执行 ".to_string();
        r.append(tool_name);
        r.append("...");
        r
    }
}

/// How many characters of a tool result the chat shows.
pub const MAX_DISPLAY_CHARS: usize = 500;

/// A tool result as the chat shows it: its first `MAX_DISPLAY_CHARS` characters and a
/// truncation note when it is longer.
pub open spec fn display_text(result: Seq<char>) -> Seq<char> {
    truncated(result, MAX_DISPLAY_CHARS as nat, "\n...(已截断)"@)
}

/// Shortens a tool result for display in the chat.
pub fn truncate_for_display(result: &str) -> (r: String)
    ensures
        r@ == display_text(result@),
{
    truncate_chars(result, MAX_DISPLAY_CHARS, "\n...(已截断)")
}


/// The AI settings that the environment provides, apart from the sampling temperature.
#[derive(Clone)]
pub struct AiSettings {
    pub model: String,
    pub api_key: Secret,
    pub base_url: String,
    pub max_tokens: u32,
    pub max_tokens_field: String,
}

/// The completion token limit: the configured value when it is a valid `u32`, else 4000.
pub open spec fn max_tokens_value(raw: Option<Seq<char>>) -> u32 {
    match raw {
        Some(r) => match parsed_u32(r) {
            Some(v) => v,
            None => 4000,
        },
        None => 4000,
    }
}

/// Settings from the raw environment values (`OPENAI_API_KEY`, `AI_MODEL`, `OPENAI_BASE_URL`,
/// `AI_MAX_TOKENS`, `AI_MAX_TOKENS_FIELD`): none without an API key; defaults for the rest.
pub fn ai_settings(
    api_key: Option<String>,
    model: Option<String>,
    base_url: Option<String>,
    max_tokens: Option<String>,
    max_tokens_field: Option<String>,
) -> (r: Option<AiSettings>)
    ensures
        r is Some <==> api_key is Some,
        r matches Some(s) ==> {
            &&& s.api_key@ == api_key->0@
            &&& s.model@ == (match model {
                Some(m) => m@,
                None => "glm-4-flash"@,
            })
            &&& s.base_url@ == (match base_url {
                Some(b) => b@,
                None => "https://api.openai.com/v1"@,
            })
            &&& s.max_tokens == max_tokens_value(
                match max_tokens {
                    Some(t) => Some(t@),
                    None => None,
                },
            )
            &&& s.max_tokens_field@ == (match max_tokens_field {
                Some(f) => f@,
                None => "max_completion_tokens"@,
            })
        },
{
    let key = match api_key {
        Some(k) => k,
        None => return None,
    };
    let model = match model {
        Some(m) => m,
        None => "glm-4-flash".to_string(),
    };
    let base_url = match base_url {
        Some(b) => b,
        None => "https://api.openai.com/v1".to_string(),
    };
    let max_tokens = match &max_tokens {
        Some(t) => match parse_u32(t.as_str()) {
            Some(v) => v,
            None => 4000,
        },
        None => 4000,
    };
    let max_tokens_field = match max_tokens_field {
        Some(f) => f,
        None => "max_completion_tokens".to_string(),
    };
    Some(AiSettings { model, api_key: Secret::new(key), base_url, max_tokens, max_tokens_field })
}

/// `s` without its trailing `/` characters (`str::trim_end_matches('/')`).
pub open spec fn without_trailing_slashes(s: Seq<char>) -> Seq<char>
    decreases s.len(),
{
    if s.len() > 0 && s.last() == '/' {
        without_trailing_slashes(s.drop_last())
    } else {
        s
    }
}

/// Removing trailing slashes removes exactly those: what is left is a prefix that does not end
/// in `/`, and everything removed is `/`.
pub proof fn lemma_trailing_slashes_removed(s: Seq<char>)
    ensures
        without_trailing_slashes(s).len() <= s.len(),
        without_trailing_slashes(s) == s.take(without_trailing_slashes(s).len() as int),
        without_trailing_slashes(s).len() > 0 ==> without_trailing_slashes(s).last() != '/',
        forall|i: int| without_trailing_slashes(s).len() <= i < s.len() ==> #[trigger] s[i] == '/',
    decreases s.len(),
{
    if s.len() > 0 && s.last() == '/' {
        lemma_trailing_slashes_removed(s.drop_last());
        let t = without_trailing_slashes(s.drop_last());
        assert(s.drop_last().take(t.len() as int) =~= s.take(t.len() as int));
        assert forall|i: int| t.len() <= i < s.len() implies #[trigger] s[i] == '/' by {
            if i < s.len() - 1 {
                assert(s[i] == s.drop_last()[i]);
            }
        }
    } else {
        assert(s.take(s.len() as int) =~= s);
    }
}

/// The chat-completions endpoint under `base_url`.
pub open spec fn chat_url_text(base_url: Seq<char>) -> Seq<char> {
    without_trailing_slashes(base_url) + "/chat/completions"@
}

/// The chat-completions endpoint under `base_url`, whatever trailing slashes it has.
pub fn chat_url(base_url: &str) -> (r: String)
    ensures
        r@ == chat_url_text(base_url@),
{
    let v = chars_of(base_url);
    let mut end = v.len();
    assert(v@.subrange(0, v@.len() as int) =~= base_url@);
    while end > 0 && v[end - 1] == '/'
        invariant
            end <= v.len(),
            without_trailing_slashes(v@.subrange(0, end as int)) == without_trailing_slashes(
                base_url@,
            ),
        decreases end,
    {
        assert(v@.subrange(0, end as int).drop_last() =~= v@.subrange(0, end - 1));
        end = end - 1;
    }
    proof {
        assert(v@.subrange(0, v@.len() as int) =~= base_url@);
    }
    let mut r = string_of(&v, 0, end);
    r.append("/chat/completions");
    r
}

/// The value of the `Authorization` header for `key`.
pub fn bearer_value(key: &Secret) -> (r: String)
    ensures
        r@ == "Bearer "@ + key@,
{
    let mut r = "Bearer ".to_string();
    r.append(key.expose());
    r
}

/// The user message that asks `prompt` about `diff`.
pub open spec fn analysis_prompt_text(diff: Seq<char>, prompt: Seq<char>) -> Seq<char> {
    "## Git Diff:\n```\n"@ + diff + "\n```\n\n## 问题:\n"@ + prompt
}

/// The user message that asks `prompt` about `diff`.
pub fn analysis_user_prompt(diff: &str, prompt: &str) -> (r: String)
    ensures
        r@ == analysis_prompt_text(diff@, prompt@),
{
    let mut r = "## Git Diff:\n```\n".to_string();
    r.append(diff);
    r.append("\n```\n\n## 问题:\n");
    r.append(prompt);
    r
}

/// The answer of a completion: its message content, or an error when there is none.
pub fn completion_reply(content: Option<String>) -> (r: Result<String, String>)
    ensures
        content matches Some(c) ==> r == Ok::<String, String>(c),
        content is None ==> (r matches Err(e) && e@ == "AI 未返回有效响应"@),
{
    match content {
        Some(c) => Ok(c),
        None => Err("AI 未返回有效响应".to_string()),
    }
}

/// The answer of a completion, from what reading its body found: the parse error, the missing
/// content, or the content itself.
pub open spec fn answer_outcome(r: Result<String, String>, found: Result<Option<Seq<char>>, Seq<char>>) -> bool {
    match found {
        Err(d) => r matches Err(e) && e@ == parse_failed_text(d),
        Ok(None) => r matches Err(e) && e@ == "AI 未返回有效响应"@,
        Ok(Some(c)) => r matches Ok(a) && a@ == c,
    }
}

/// The answer of a completion, from what reading its body found.
pub fn answer_from(found: Result<Option<String>, String>) -> (r: Result<String, String>)
    ensures
        answer_outcome(
            r,
            match found {
                Ok(c) => Ok(opt_view(c)),
                Err(d) => Err(d@),
            },
        ),
{
    match found {
        Err(d) => Err(parse_failed_message(d.as_str())),
        Ok(c) => completion_reply(c),
    }
}

/// The answer of the analysis request whose response body is `body`.
pub fn analysis_answer(body: &str) -> (r: Result<String, String>)
    ensures
        answer_outcome(r, completion_content(body@)),
{
    answer_from(read_completion_content(body))
}

/// A tool call with the defaults for its missing parts: `unknown` for the name, `{}` for the
/// arguments and the empty id.
pub open spec fn call_or_default(c: (Option<Seq<char>>, Option<Seq<char>>, Option<Seq<char>>)) -> (
    Seq<char>,
    Seq<char>,
    Seq<char>,
) {
    (
        match c.0 {
            Some(n) => n,
            None => "unknown"@,
        },
        match c.1 {
            Some(a) => a,
            None => "{}"@,
        },
        match c.2 {
            Some(i) => i,
            None => Seq::<char>::empty(),
        },
    )
}

/// The texts of a planned tool call.
pub open spec fn call_view(c: (String, String, String)) -> (Seq<char>, Seq<char>, Seq<char>) {
    (c.0@, c.1@, c.2@)
}

/// The tool calls to run, in order: each call's name, arguments and id, with the defaults for
/// the missing parts.
pub fn plan_tool_calls(calls: &Vec<RawToolCall>) -> (v: Vec<(String, String, String)>)
    ensures
        v@.len() == calls@.len(),
        forall|i: int|
            0 <= i < v@.len() ==> call_view(#[trigger] v@[i]) == call_or_default(
                raw_call_view(calls@[i]),
            ),
{
    let mut v: Vec<(String, String, String)> = Vec::new();
    let mut i: usize = 0;
    while i < calls.len()
        invariant
            i <= calls.len(),
            v@.len() == i,
            forall|k: int|
                0 <= k < i ==> call_view(#[trigger] v@[k]) == call_or_default(raw_call_view(calls@[k])),
        decreases calls.len() - i,
    {
        let c = &calls[i];
        let name = match &c.0 {
            Some(n) => n.clone(),
            None => "unknown".to_string(),
        };
        let args = match &c.1 {
            Some(a) => a.clone(),
            None => "{}".to_string(),
        };
        let id = match &c.2 {
            Some(x) => x.clone(),
            None => String::new(),
        };
        v.push((name, args, id));
        i = i + 1;
    }
    v
}

/// The tool calls of a reply, from what reading its body found: the parse error, none when
/// the reply has no list of tool calls, or the planned calls.
pub open spec fn reply_calls_outcome(
    r: Result<Vec<(String, String, String)>, String>,
    found: Result<Option<Seq<(Option<Seq<char>>, Option<Seq<char>>, Option<Seq<char>>)>>, Seq<char>>,
) -> bool {
    match found {
        Err(d) => r matches Err(e) && e@ == parse_failed_text(d),
        Ok(None) => r matches Ok(v) && v@.len() == 0,
        Ok(Some(cs)) => r matches Ok(v) && v@.len() == cs.len() && forall|i: int|
            0 <= i < cs.len() ==> call_view(#[trigger] v@[i]) == call_or_default(cs[i]),
    }
}

/// The tool calls of a reply, from what reading its body found.
pub fn calls_from(found: Result<Option<Vec<RawToolCall>>, String>) -> (r: Result<Vec<(String, String, String)>, String>)
    ensures
        reply_calls_outcome(
            r,
            match found {
                Ok(Some(v)) => Ok(Some(raw_calls_view(v@))),
                Ok(None) => Ok(None),
                Err(d) => Err(d@),
            },
        ),
{
    match found {
        Err(d) => Err(parse_failed_message(d.as_str())),
        Ok(None) => Ok(Vec::new()),
        Ok(Some(calls)) => Ok(plan_tool_calls(&calls)),
    }
}

/// The tool calls of the reply whose response body is `body`; their number decides whether the
/// agent runs tools (`RoundOutcome::Reply`).
pub fn reply_tool_calls(body: &str) -> (r: Result<Vec<(String, String, String)>, String>)
    ensures
        reply_calls_outcome(r, completion_tool_calls(body@)),
{
    calls_from(read_tool_calls(body))
}

} // verus!
