//! The Git tools the agent may call: what each call asks of the repository, and the text the
//! agent gets back.
use vstd::prelude::*;
use vstd::string::*;
use crate::git::GitState;
use crate::intent::{parse_time_range, time_range_outcome, MAX_TIMESTAMP};
use crate::json::{json_int_field, json_quote, json_string_literal, json_text_field, read_int_field, read_text_field};
use crate::model::{CommitInfo, DiffInfo};
use crate::text::{int_text, nat_text, push_int, push_nat, truncate_chars, truncated};

verus! {

broadcast use vstd::string::group_string_axioms;

/// How many characters of each file's patch a diff listing keeps.
pub const MAX_PATCH_CHARS: usize = 2000;

/// How many characters of a tool result the agent gets.
pub const MAX_RESULT_CHARS: usize = 25000;

/// One file of a diff listing: a header with the path and the counts, then the patch, cut to
/// `MAX_PATCH_CHARS` characters.
pub open spec fn diff_entry_text(d: DiffInfo) -> Seq<char> {
    "File: "@ + d.file@ + " (+"@ + int_text(d.added as int) + " -"@ + int_text(d.deleted as int)
        + ")\n"@ + truncated(d.patch@, MAX_PATCH_CHARS as nat, "\n...(truncated)"@)
}

/// A diff listing: the entries of the files, separated by newlines.
pub open spec fn diff_listing(ds: Seq<DiffInfo>) -> Seq<char>
    decreases ds.len(),
{
    if ds.len() == 0 {
        Seq::<char>::empty()
    } else if ds.len() == 1 {
        diff_entry_text(ds[0])
    } else {
        diff_listing(ds.drop_last()) + "\n"@ + diff_entry_text(ds.last())
    }
}

/// Lists the file diffs for the agent.
pub fn format_diff(diff: &[DiffInfo]) -> (r: String)
    ensures
        r@ == diff_listing(diff@),
{
    let mut buf = String::new();
    let mut i: usize = 0;
    while i < diff.len()
        invariant
            i <= diff.len(),
            buf@ == diff_listing(diff@.take(i as int)),
        decreases diff.len() - i,
    {
        let d = &diff[i];
        proof {
            assert(diff@.take(i + 1).drop_last() =~= diff@.take(i as int));
        }
        if i > 0 {
            buf.append("\n");
        }
        buf.append("File: ");
        buf.append(d.file.as_str());
        buf.append(" (+");
        push_int(&mut buf, d.added as i64);
        buf.append(" -");
        push_int(&mut buf, d.deleted as i64);
        buf.append(")\n");
        let patch = truncate_chars(d.patch.as_str(), MAX_PATCH_CHARS, "\n...(truncated)");
        buf.append(patch.as_str());
        proof {
            if i == 0 {
                assert(diff@.take(1)[0] == diff@[0]);
            }
            assert(buf@ =~= diff_listing(diff@.take(i + 1)));
        }
        i = i + 1;
    }
    assert(diff@.take(diff@.len() as int) =~= diff@);
    buf
}

/// A tool result as the agent gets it: cut to `MAX_RESULT_CHARS` characters, with a note.
pub open spec fn result_text(result: Seq<char>) -> Seq<char> {
    truncated(result, MAX_RESULT_CHARS as nat, "\n\n...(内容过长已截断)"@)
}

/// Cuts a tool result to what the agent gets.
pub fn truncate_result(result: String) -> (r: String)
    ensures
        r@ == result_text(result@),
{
    truncate_chars(result.as_str(), MAX_RESULT_CHARS, "\n\n...(内容过长已截断)")
}

/// Texts joined with commas.
pub open spec fn comma_joined(parts: Seq<Seq<char>>) -> Seq<char>
    decreases parts.len(),
{
    if parts.len() == 0 {
        Seq::<char>::empty()
    } else if parts.len() == 1 {
        parts[0]
    } else {
        comma_joined(parts.drop_last()) + ","@ + parts.last()
    }
}

/// A JSON array of strings.
pub open spec fn json_string_array(items: Seq<String>) -> Seq<char> {
    "["@ + comma_joined(items.map_values(|s: String| json_string_literal(s@))) + "]"@
}

/// The JSON object of a commit, with its keys in order.
pub open spec fn commit_json(c: CommitInfo) -> Seq<char> {
    "{\"author\":"@ + json_string_literal(c.author@) + ",\"email\":"@ + json_string_literal(c.email@)
        + ",\"hash\":"@ + json_string_literal(c.hash@) + ",\"message\":"@ + json_string_literal(
        c.message@,
    ) + ",\"shortHash\":"@ + json_string_literal(c.short_hash@) + ",\"timestamp\":"@
        + json_string_literal(c.timestamp@) + "}"@
}

/// A JSON array of commits.
pub open spec fn commits_json(cs: Seq<CommitInfo>) -> Seq<char> {
    "["@ + comma_joined(cs.map_values(|c: CommitInfo| commit_json(c))) + "]"@
}

impl CommitInfo {
    /// The JSON object of this commit, as the frontend and the agent read it (camelCase keys).
    pub fn to_json(&self) -> (r: String)
        ensures
            r@ == commit_json(*self),
    {
        let mut r = "{\"author\":".to_string();
        r.append(json_quote(self.author.as_str()).as_str());
        r.append(",\"email\":");
        r.append(json_quote(self.email.as_str()).as_str());
        r.append(",\"hash\":");
        r.append(json_quote(self.hash.as_str()).as_str());
        r.append(",\"message\":");
        r.append(json_quote(self.message.as_str()).as_str());
        r.append(",\"shortHash\":");
        r.append(json_quote(self.short_hash.as_str()).as_str());
        r.append(",\"timestamp\":");
        r.append(json_quote(self.timestamp.as_str()).as_str());
        r.append("}");
        r
    }
}

/// The JSON array of `commits`.
pub fn commits_to_json(commits: &Vec<CommitInfo>) -> (r: String)
    ensures
        r@ == commits_json(commits@),
{
    let mut r = "[".to_string();
    let mut i: usize = 0;
    while i < commits.len()
        invariant
            i <= commits.len(),
            r@ == "["@ + comma_joined(commits@.take(i as int).map_values(|c: CommitInfo| commit_json(c))),
        decreases commits.len() - i,
    {
        let ghost before = commits@.take(i as int).map_values(|c: CommitInfo| commit_json(c));
        let ghost after = commits@.take(i + 1).map_values(|c: CommitInfo| commit_json(c));
        assert(after.drop_last() =~= before);
        assert(after.last() == commit_json(commits@[i as int]));
        if i > 0 {
            r.append(",");
        }
        let item = commits[i].to_json();
        r.append(item.as_str());
        proof {
            if i == 0 {
                assert(after.len() == 1);
            }
            assert(r@ =~= "["@ + comma_joined(after));
        }
        i = i + 1;
    }
    assert(commits@.take(commits@.len() as int) =~= commits@);
    r.append("]");
    r
}

/// The agent's view of the branch list: the names and their count.
pub open spec fn branches_json(names: Seq<String>) -> Seq<char> {
    "{\"branches\":"@ + json_string_array(names) + ",\"count\":"@ + nat_text(names.len()) + "}"@
}

/// The agent's view of the branch list.
pub fn branches_to_json(names: &Vec<String>) -> (r: String)
    ensures
        r@ == branches_json(names@),
{
    let mut r = "{\"branches\":".to_string();
    r.append("[");
    let mut i: usize = 0;
    while i < names.len()
        invariant
            i <= names.len(),
            r@ == "{\"branches\":"@ + "["@ + comma_joined(
                names@.take(i as int).map_values(|s: String| json_string_literal(s@)),
            ),
        decreases names.len() - i,
    {
        let ghost before = names@.take(i as int).map_values(|s: String| json_string_literal(s@));
        let ghost after = names@.take(i + 1).map_values(|s: String| json_string_literal(s@));
        assert(after.drop_last() =~= before);
        if i > 0 {
            r.append(",");
        }
        let item = json_quote(names[i].as_str());
        r.append(item.as_str());
        proof {
            if i == 0 {
                assert(after.len() == 1);
            }
            assert(r@ =~= "{\"branches\":"@ + "["@ + comma_joined(after));
        }
        i = i + 1;
    }
    assert(names@.take(names@.len() as int) =~= names@);
    r.append("]");
    r.append(",\"count\":");
    push_nat(&mut r, names.len() as u64);
    r.append("}");
    assert(r@ =~= branches_json(names@));
    r
}

/// The agent's view of the current branch.
pub open spec fn current_branch_json(branch: Seq<char>) -> Seq<char> {
    "{\"current_branch\":"@ + json_string_literal(branch) + "}"@
}

/// A JSON object with a single `message`.
pub open spec fn message_json(message: Seq<char>) -> Seq<char> {
    "{\"message\":"@ + json_string_literal(message) + "}"@
}

fn message_to_json(message: &str) -> (r: String)
    ensures
        r@ == message_json(message@),
{
    let mut r = "{\"message\":".to_string();
    r.append(json_quote(message).as_str());
    r.append("}");
    r
}

} // verus!

verus! {

/// One parameter of a tool offered to the model: its name, its JSON type and what it means.
pub struct ToolParam {
    pub name: String,
    pub kind: String,
    pub description: String,
}

/// A tool offered to the model: its name, what it does, its parameters and the names of those
/// it requires.
pub struct ToolDef {
    pub name: String,
    pub description: String,
    pub params: Vec<ToolParam>,
    pub required: Vec<String>,
}

/// A tool as the specification sees it.
pub ghost struct ToolDefView {
    pub name: Seq<char>,
    pub description: Seq<char>,
    pub params: Seq<(Seq<char>, Seq<char>, Seq<char>)>,
    pub required: Seq<Seq<char>>,
}

impl View for ToolDef {
    type V = ToolDefView;

    open spec fn view(&self) -> ToolDefView {
        ToolDefView {
            name: self.name@,
            description: self.description@,
            params: self.params@.map_values(|p: ToolParam| (p.name@, p.kind@, p.description@)),
            required: self.required@.map_values(|r: String| r@),
        }
    }
}

/// The six Git tools offered to the model, in order.
pub open spec fn tool_table() -> Seq<ToolDefView> {
    seq![
        ToolDefView {
            name: "get_branches"@,
            description: "获取当前 Git 仓库的所有本地分支名称列表"@,
            params: seq![],
            required: seq![],
        },
        ToolDefView {
            name: "get_current_branch"@,
            description: "获取当前工作目录所在的 Git 分支名称"@,
            params: seq![],
            required: seq![],
        },
        ToolDefView {
            name: "get_branch_diff"@,
            description: "比较两个 Git 分支之间的代码差异，返回变更文件列表和 diff patch"@,
            params: seq![
                ("branch1"@, "string"@, "第一个分支名称"@),
                ("branch2"@, "string"@, "第二个分支名称"@),
            ],
            required: seq!["branch1"@, "branch2"@],
        },
        ToolDefView {
            name: "get_commits"@,
            description: "获取指定分支的最近提交历史记录，包含哈希、作者、时间和提交信息"@,
            params: seq![
                ("branch"@, "string"@, "分支名称，不传则使用当前分支"@),
                ("limit"@, "integer"@, "返回数量，默认20"@),
            ],
            required: seq![],
        },
        ToolDefView {
            name: "get_file_history"@,
            description: "获取指定文件在一段时间内的修改历史记录"@,
            params: seq![
                ("file"@, "string"@, "文件路径"@),
                ("time_range"@, "string"@, "时间范围如 3d(3天) 7d(7天) 24h(24小时)，默认3d"@),
            ],
            required: seq!["file"@],
        },
        ToolDefView {
            name: "get_diff"@,
            description: "获取两个提交哈希之间的代码差异"@,
            params: seq![
                ("from"@, "string"@, "起始提交哈希值"@),
                ("to"@, "string"@, "结束提交哈希值"@),
            ],
            required: seq!["from"@, "to"@],
        },
    ]
}

/// The names of the tools offered to the model.
pub open spec fn tool_names() -> Seq<Seq<char>> {
    tool_table().map_values(|d: ToolDefView| d.name)
}

fn param(name: &str, kind: &str, description: &str) -> (p: ToolParam)
    ensures
        p.name@ == name@,
        p.kind@ == kind@,
        p.description@ == description@,
{
    ToolParam { name: name.to_string(), kind: kind.to_string(), description: description.to_string() }
}

fn tool(name: &str, description: &str, params: Vec<ToolParam>, required: Vec<String>) -> (d: ToolDef)
    ensures
        d.name@ == name@,
        d.description@ == description@,
        d.params == params,
        d.required == required,
{
    ToolDef { name: name.to_string(), description: description.to_string(), params, required }
}

/// The Git tools offered to the model: their names, descriptions, parameters and required
/// arguments.
pub fn tool_defs() -> (defs: Vec<ToolDef>)
    ensures
        defs@.len() == 6,
        forall|i: int| 0 <= i < 6 ==> #[trigger] defs@[i]@ == tool_table()[i],
{
    let mut defs: Vec<ToolDef> = Vec::new();
    let d0 = tool("get_branches", "获取当前 Git 仓库的所有本地分支名称列表", Vec::new(), Vec::new());
    assert(d0@.params =~= tool_table()[0].params);
    assert(d0@.required =~= tool_table()[0].required);
    assert(d0@ == tool_table()[0]);
    defs.push(d0);
    let d1 = tool("get_current_branch", "获取当前工作目录所在的 Git 分支名称", Vec::new(), Vec::new());
    assert(d1@.params =~= tool_table()[1].params);
    assert(d1@.required =~= tool_table()[1].required);
    assert(d1@ == tool_table()[1]);
    defs.push(d1);
    let d2 = tool(
        "get_branch_diff",
        "比较两个 Git 分支之间的代码差异，返回变更文件列表和 diff patch",
        vec![param("branch1", "string", "第一个分支名称"), param("branch2", "string", "第二个分支名称")],
        vec!["branch1".to_string(), "branch2".to_string()],
    );
    assert(d2@.params =~= tool_table()[2].params);
    assert(d2@.required =~= tool_table()[2].required);
    assert(d2@ == tool_table()[2]);
    defs.push(d2);
    let d3 = tool(
        "get_commits",
        "获取指定分支的最近提交历史记录，包含哈希、作者、时间和提交信息",
        vec![param("branch", "string", "分支名称，不传则使用当前分支"), param("limit", "integer", "返回数量，默认20")],
        Vec::new(),
    );
    assert(d3@.params =~= tool_table()[3].params);
    assert(d3@.required =~= tool_table()[3].required);
    assert(d3@ == tool_table()[3]);
    defs.push(d3);
    let d4 = tool(
        "get_file_history",
        "获取指定文件在一段时间内的修改历史记录",
        vec![
            param("file", "string", "文件路径"),
            param("time_range", "string", "时间范围如 3d(3天) 7d(7天) 24h(24小时)，默认3d"),
        ],
        vec!["file".to_string()],
    );
    assert(d4@.params =~= tool_table()[4].params);
    assert(d4@.required =~= tool_table()[4].required);
    assert(d4@ == tool_table()[4]);
    defs.push(d4);
    let d5 = tool(
        "get_diff",
        "获取两个提交哈希之间的代码差异",
        vec![param("from", "string", "起始提交哈希值"), param("to", "string", "结束提交哈希值")],
        vec!["from".to_string(), "to".to_string()],
    );
    assert(d5@.params =~= tool_table()[5].params);
    assert(d5@.required =~= tool_table()[5].required);
    assert(d5@ == tool_table()[5]);
    defs.push(d5);
    defs
}

/// The reply when no repository is open.
pub open spec fn no_repo_text() -> Seq<char> {
    "错误：未打开仓库，无法执行工具"@
}

/// The repository a tool call works on: the given path, unless there is none or it is empty.
pub fn tool_repo(repo_path: &Option<String>) -> (r: Result<String, String>)
    ensures
        match repo_path {
            Some(p) => if p@.len() > 0 {
                r matches Ok(q) && q@ == p@
            } else {
                r matches Err(e) && e@ == no_repo_text()
            },
            None => r matches Err(e) && e@ == no_repo_text(),
        },
{
    match repo_path {
        Some(p) => if !p.as_str().is_empty() {
            Ok(p.clone())
        } else {
            Err("错误：未打开仓库，无法执行工具".to_string())
        },
        None => Err("错误：未打开仓库，无法执行工具".to_string()),
    }
}

/// The repository query a tool call makes.
pub enum ToolQuery {
    Branches,
    CurrentBranch,
    BranchDiff { branch1: String, branch2: String },
    Commits { branch: Option<String>, limit: i32 },
    FileHistory { file: String, since: i64 },
    Diff { from: String, to: String },
}

/// What a tool call needs next: either its reply is already known, or a repository query.
pub enum ToolStep {
    Reply(String),
    Query(ToolQuery),
}

/// A string argument of a tool call, or the empty string when it is missing.
pub open spec fn text_arg(args: Seq<char>, key: Seq<char>) -> Seq<char> {
    match json_text_field(args, key) {
        Some(v) => v,
        None => Seq::<char>::empty(),
    }
}

/// The reply of a tool call that already failed, or `None`.
pub open spec fn step_reply(step: ToolStep) -> Option<Seq<char>> {
    match step {
        ToolStep::Reply(r) => Some(r@),
        ToolStep::Query(_) => None,
    }
}

/// The time range argument of a file history call: `3d` when missing.
pub open spec fn time_range_arg(args: Seq<char>) -> Seq<char> {
    match json_text_field(args, "time_range"@) {
        Some(v) => v,
        None => "3d"@,
    }
}

/// What a file history call for `file` over `range` needs, at the clock reading `now`: the
/// file is required, and the range must parse.
pub open spec fn file_history_outcome(step: ToolStep, file: Seq<char>, range: Seq<char>, now: i64) -> bool {
    if file.len() == 0 {
        step_reply(step) == Some("缺少必要参数: file"@)
    } else {
        exists|r: Result<i64, String>|
            #![trigger time_range_outcome(r, range, now)]
            time_range_outcome(r, range, now) && match r {
                Err(e) => step_reply(step) == Some("时间范围解析失败: "@ + e@),
                Ok(since) => step matches ToolStep::Query(ToolQuery::FileHistory { file: f, since: s })
                    && f@ == file && s == since,
            }
    }
}

/// The number of commits a `get_commits` call lists: its `limit` argument (20 when missing),
/// kept within 1 to 100 as for the frontend's listing.
pub open spec fn tool_commit_limit(raw: Option<i64>) -> i32 {
    let l: i64 = match raw {
        Some(v) => v,
        None => 20,
    };
    if l < 1 {
        1
    } else if l > 100 {
        100
    } else {
        l as i32
    }
}

/// What a call of the tool `name` with the JSON `args` does once the repository was opened
/// (`opened`), for the clock reading `now` (used by the file history's time range).
pub open spec fn plan_outcome(step: ToolStep, name: Seq<char>, args: Seq<char>, opened: Result<(), Seq<char>>, now: i64) -> bool {
    match opened {
        Err(e) => step_reply(step) == Some("打开仓库失败: "@ + e),
        Ok(()) => if name == "get_branches"@ {
            step matches ToolStep::Query(ToolQuery::Branches)
        } else if name == "get_current_branch"@ {
            step matches ToolStep::Query(ToolQuery::CurrentBranch)
        } else if name == "get_branch_diff"@ {
            let b1 = text_arg(args, "branch1"@);
            let b2 = text_arg(args, "branch2"@);
            if b1.len() == 0 || b2.len() == 0 {
                step_reply(step) == Some("缺少必要参数: branch1, branch2"@)
            } else {
                step matches ToolStep::Query(ToolQuery::BranchDiff { branch1, branch2 })
                    && branch1@ == b1 && branch2@ == b2
            }
        } else if name == "get_commits"@ {
            step matches ToolStep::Query(ToolQuery::Commits { branch, limit }) && (match branch {
                Some(b) => json_text_field(args, "branch"@) == Some(b@),
                None => json_text_field(args, "branch"@) is None,
            }) && limit == tool_commit_limit(json_int_field(args, "limit"@))
        } else if name == "get_file_history"@ {
            file_history_outcome(step, text_arg(args, "file"@), time_range_arg(args), now)
        } else if name == "get_diff"@ {
            let from = text_arg(args, "from"@);
            let to = text_arg(args, "to"@);
            if from.len() == 0 || to.len() == 0 {
                step_reply(step) == Some("缺少必要参数: from, to"@)
            } else {
                step matches ToolStep::Query(ToolQuery::Diff { from: f, to: t }) && f@ == from && t@
                    == to
            }
        } else {
            step_reply(step) == Some("unknown tool: "@ + name)
        },
    }
}

/// What a call with no arguments (`{}`) gets once the repository is open: the tools that need
/// arguments name the missing ones, and a commit listing uses the current branch and 20
/// commits.
pub open spec fn no_arguments_outcome(step: ToolStep, name: Seq<char>) -> bool {
    &&& name == "get_branch_diff"@ ==> step_reply(step) == Some("缺少必要参数: branch1, branch2"@)
    &&& name == "get_diff"@ ==> step_reply(step) == Some("缺少必要参数: from, to"@)
    &&& name == "get_file_history"@ ==> step_reply(step) == Some("缺少必要参数: file"@)
    &&& name == "get_commits"@ ==> (step matches ToolStep::Query(ToolQuery::Commits { branch, limit })
        && branch is None && limit == 20)
}

/// The outcome of opening the repository, with the error's text.
pub open spec fn opening_view(opened: Result<(), String>) -> Result<(), Seq<char>> {
    match opened {
        Ok(()) => Ok(()),
        Err(e) => Err(e@),
    }
}

fn arg_or(args: &str, key: &str, default: &str) -> (r: String)
    ensures
        r@ == (match json_text_field(args@, key@) {
            Some(v) => v,
            None => default@,
        }),
        args@ == "{}"@ ==> r@ == default@,
{
    match read_text_field(args, key) {
        Some(v) => v,
        None => default.to_string(),
    }
}

/// Decides what the call of the tool `name` with the JSON `arguments` needs, once the
/// repository was opened (`opened`, with the opening error otherwise).
pub fn plan_tool_call(name: &str, arguments: &str, opened: Result<(), String>) -> (step: ToolStep)
    ensures
        exists|now: i64|
            0 <= now <= MAX_TIMESTAMP && #[trigger] plan_outcome(
                step,
                name@,
                arguments@,
                opening_view(opened),
                now,
            ),
        opened is Ok && arguments@ == "{}"@ ==> no_arguments_outcome(step, name@),
{
    let ghost op = opening_view(opened);
    if let Err(e) = opened {
        let mut r = "打开仓库失败: ".to_string();
        r.append(e.as_str());
        let step = ToolStep::Reply(r);
        assert(plan_outcome(step, name@, arguments@, op, 0));
        return step;
    }
    proof {
        reveal_strlit("get_branches");
        reveal_strlit("get_current_branch");
        reveal_strlit("get_branch_diff");
        reveal_strlit("get_commits");
        reveal_strlit("get_file_history");
        reveal_strlit("get_diff");
        reveal_strlit("");
        assert("get_branches"@.len() == 12 && "get_current_branch"@.len() == 18
            && "get_branch_diff"@.len() == 15 && "get_commits"@.len() == 11
            && "get_file_history"@.len() == 16 && "get_diff"@.len() == 8);
    }
    let n = name.to_string();
    let step = if n == "get_branches".to_string() {
        ToolStep::Query(ToolQuery::Branches)
    } else if n == "get_current_branch".to_string() {
        ToolStep::Query(ToolQuery::CurrentBranch)
    } else if n == "get_branch_diff".to_string() {
        let b1 = arg_or(arguments, "branch1", "");
        let b2 = arg_or(arguments, "branch2", "");
        if b1.as_str().is_empty() || b2.as_str().is_empty() {
            let st = ToolStep::Reply("缺少必要参数: branch1, branch2".to_string());
            assert(step_reply(st) == Some("缺少必要参数: branch1, branch2"@));
            st
        } else {
            ToolStep::Query(ToolQuery::BranchDiff { branch1: b1, branch2: b2 })
        }
    } else if n == "get_commits".to_string() {
        let branch = read_text_field(arguments, "branch");
        let raw: i64 = match read_int_field(arguments, "limit") {
            Some(v) => v,
            None => 20,
        };
        let limit: i32 = if raw < 1 {
            1
        } else if raw > 100 {
            100
        } else {
            raw as i32
        };
        ToolStep::Query(ToolQuery::Commits { branch, limit })
    } else if n == "get_file_history".to_string() {
        let file = arg_or(arguments, "file", "");
        let range = arg_or(arguments, "time_range", "3d");
        if file.as_str().is_empty() {
            ToolStep::Reply("缺少必要参数: file".to_string())
        } else {
            let parsed = parse_time_range(range.as_str());
            let ghost now = choose|now: i64| 0 <= now <= MAX_TIMESTAMP && time_range_outcome(parsed, range@, now);
            let ghost fv = file@;
            let step = match &parsed {
                Err(e) => {
                    let mut r = "时间范围解析失败: ".to_string();
                    r.append(e.as_str());
                    ToolStep::Reply(r)
                },
                Ok(since) => ToolStep::Query(ToolQuery::FileHistory { file, since: *since }),
            };
            assert(file_history_outcome(step, fv, range@, now));
            assert(plan_outcome(step, name@, arguments@, op, now));
            return step;
        }
    } else if n == "get_diff".to_string() {
        let from = arg_or(arguments, "from", "");
        let to = arg_or(arguments, "to", "");
        if from.as_str().is_empty() || to.as_str().is_empty() {
            let st = ToolStep::Reply("缺少必要参数: from, to".to_string());
            assert(step_reply(st) == Some("缺少必要参数: from, to"@));
            st
        } else {
            ToolStep::Query(ToolQuery::Diff { from, to })
        }
    } else {
        let mut r = "unknown tool: ".to_string();
        r.append(name);
        ToolStep::Reply(r)
    };
    assert(plan_outcome(step, name@, arguments@, op, 0));
    step
}

/// Every tool offered to the model (`tool_defs`) is dispatched: once the repository is open, a
/// call of one of them never gets the unknown-tool reply, whatever its arguments.
pub proof fn lemma_offered_tools_are_known(step: ToolStep, name: Seq<char>, args: Seq<char>, now: i64)
    requires
        plan_outcome(step, name, args, Ok(()), now),
        tool_names().contains(name),
    ensures
        step_reply(step) != Some("unknown tool: "@ + name),
{
    reveal_strlit("get_branches");
    reveal_strlit("get_current_branch");
    reveal_strlit("get_branch_diff");
    reveal_strlit("get_commits");
    reveal_strlit("get_file_history");
    reveal_strlit("get_diff");
    reveal_strlit("unknown tool: ");
    reveal_strlit("缺少必要参数: branch1, branch2");
    reveal_strlit("缺少必要参数: from, to");
    reveal_strlit("缺少必要参数: file");
    reveal_strlit("时间范围解析失败: ");
    assert("get_branches"@.len() == 12 && "get_current_branch"@.len() == 18
        && "get_branch_diff"@.len() == 15 && "get_commits"@.len() == 11
        && "get_file_history"@.len() == 16 && "get_diff"@.len() == 8);
    let k = choose|k: int| 0 <= k < tool_names().len() && tool_names()[k] == name;
    assert(tool_names()[k] == tool_table()[k].name);
    assert(name == "get_branches"@ || name == "get_current_branch"@ || name == "get_branch_diff"@
        || name == "get_commits"@ || name == "get_file_history"@ || name == "get_diff"@);
    let unknown = "unknown tool: "@ + name;
    assert(unknown[0] == 'u');
    if name == "get_file_history"@ && text_arg(args, "file"@).len() > 0 {
        let r = choose|r: Result<i64, String>|
            #![trigger time_range_outcome(r, time_range_arg(args), now)]
            time_range_outcome(r, time_range_arg(args), now) && match r {
                Err(e) => step_reply(step) == Some("时间范围解析失败: "@ + e@),
                Ok(since) => step matches ToolStep::Query(ToolQuery::FileHistory { file: f, since: s })
                    && f@ == text_arg(args, "file"@) && s == since,
            };
        if let Err(e) = r {
            assert(("时间范围解析失败: "@ + e@)[0] != unknown[0]);
        }
    }
}

/// A commit listing asked for by the agent lists the number of commits it asked for when that
/// is from 1 to 100, and otherwise the nearest of 1 and 100; without a limit it lists 20.
pub proof fn lemma_commit_limit_follows_the_request(step: ToolStep, args: Seq<char>, now: i64)
    requires
        plan_outcome(step, "get_commits"@, args, Ok(()), now),
    ensures
        step matches ToolStep::Query(ToolQuery::Commits { limit, .. }) && limit as int == (match json_int_field(
            args,
            "limit"@,
        ) {
            Some(l) => if 1 <= l <= 100 {
                l as int
            } else if l < 1 {
                1
            } else {
                100
            },
            None => 20,
        }),
{
    reveal_strlit("get_branches");
    reveal_strlit("get_current_branch");
    reveal_strlit("get_branch_diff");
    reveal_strlit("get_commits");
    assert("get_branches"@.len() == 12 && "get_current_branch"@.len() == 18
        && "get_branch_diff"@.len() == 15 && "get_commits"@.len() == 11);
}

/// What a repository query gave.
pub enum ToolAnswer {
    Branches(Result<Vec<String>, String>),
    CurrentBranch(Result<String, String>),
    BranchDiff(Result<Vec<DiffInfo>, String>),
    CommitDiff(Result<Vec<DiffInfo>, String>),
    Commits(Result<Vec<CommitInfo>, String>),
}

/// The reply for a failed query.
pub open spec fn tool_failure_text(e: Seq<char>) -> Seq<char> {
    "工具执行失败: "@ + e
}

/// The text the agent gets for what a query gave: a failure note, the JSON of the branches,
/// of the current branch or of the commits, or the diff listing (a note when there is no
/// difference); everything but the current branch and the notes cut to `MAX_RESULT_CHARS`.
pub open spec fn answer_text(answer: ToolAnswer) -> Seq<char> {
    match answer {
        ToolAnswer::Branches(Ok(bs)) => result_text(branches_json(bs@)),
        ToolAnswer::CurrentBranch(Ok(b)) => current_branch_json(b@),
        ToolAnswer::BranchDiff(Ok(ds)) => if ds@.len() == 0 {
            message_json("两个分支没有差异"@)
        } else {
            result_text(diff_listing(ds@))
        },
        ToolAnswer::CommitDiff(Ok(ds)) => if ds@.len() == 0 {
            message_json("两个提交没有差异"@)
        } else {
            result_text(diff_listing(ds@))
        },
        ToolAnswer::Commits(Ok(cs)) => result_text(commits_json(cs@)),
        ToolAnswer::Branches(Err(e)) => tool_failure_text(e@),
        ToolAnswer::CurrentBranch(Err(e)) => tool_failure_text(e@),
        ToolAnswer::BranchDiff(Err(e)) => tool_failure_text(e@),
        ToolAnswer::CommitDiff(Err(e)) => tool_failure_text(e@),
        ToolAnswer::Commits(Err(e)) => tool_failure_text(e@),
    }
}

fn failure_reply(e: &String) -> (r: String)
    ensures
        r@ == tool_failure_text(e@),
{
    let mut r = "工具执行失败: ".to_string();
    r.append(e.as_str());
    r
}

/// The text the agent gets for what a repository query gave.
pub fn tool_reply(answer: ToolAnswer) -> (r: String)
    ensures
        r@ == answer_text(answer),
{
    match answer {
        ToolAnswer::Branches(Ok(bs)) => truncate_result(branches_to_json(&bs)),
        ToolAnswer::CurrentBranch(Ok(b)) => {
            let mut r = "{\"current_branch\":".to_string();
            r.append(json_quote(b.as_str()).as_str());
            r.append("}");
            r
        },
        ToolAnswer::BranchDiff(Ok(ds)) => if ds.len() == 0 {
            message_to_json("两个分支没有差异")
        } else {
            truncate_result(format_diff(ds.as_slice()))
        },
        ToolAnswer::CommitDiff(Ok(ds)) => if ds.len() == 0 {
            message_to_json("两个提交没有差异")
        } else {
            truncate_result(format_diff(ds.as_slice()))
        },
        ToolAnswer::Commits(Ok(cs)) => truncate_result(commits_to_json(&cs)),
        ToolAnswer::Branches(Err(e)) => failure_reply(&e),
        ToolAnswer::CurrentBranch(Err(e)) => failure_reply(&e),
        ToolAnswer::BranchDiff(Err(e)) => failure_reply(&e),
        ToolAnswer::CommitDiff(Err(e)) => failure_reply(&e),
        ToolAnswer::Commits(Err(e)) => failure_reply(&e),
    }
}

/// The number of commits the frontend's commit listing asks for: 20 by default, kept within
/// 1 to 100.
pub fn commit_listing_limit(limit: Option<i32>) -> (n: i32)
    ensures
        n == (match limit {
            Some(l) => if l < 1 {
                1
            } else if l > 100 {
                100
            } else {
                l
            },
            None => 20,
        }),
{
    let l = match limit {
        Some(l) => l,
        None => 20,
    };
    if l < 1 {
        1
    } else if l > 100 {
        100
    } else {
        l
    }
}

} // verus!
