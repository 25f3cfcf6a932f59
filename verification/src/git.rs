//! Repository state and the decisions of every Git query, over what the repository reader
//! found on disk.
use vstd::prelude::*;
use vstd::string::*;
use crate::model::{CommitInfo, DiffInfo};
use vstd::utf8::{decode_utf8, valid_utf8};
use crate::ai::same_text;
use crate::text::{text_le, text_le_exec, lemma_text_le_total, lemma_text_le_transitive, push_char, push_chars, trim_end_index, trim_end_text, chars_of, int_string, int_text, nat_text, push_nat, string_of};

verus! {

broadcast use vstd::string::group_string_axioms;

/// The step of a Git query that failed.
#[derive(Clone, Copy)]
pub enum GitStep {
    OpenRepo,
    Head,
    ListBranches,
    ResolveRevision,
    CreateRevwalk,
    PushRevision,
    WalkCommits,
    FindCommit,
    ParseFromHash,
    FindFromCommit,
    ParseToHash,
    FindToCommit,
    FromTree,
    ToTree,
    ComputeDiff,
    ParseHash,
    CommitTree,
    ParentTree,
    ComputeBranchDiff,
    PushGlob,
    PushHead,
    SetSorting,
    PrintPatch,
    DeltaIndex,
}

/// The text that introduces the failure of `step`.
pub open spec fn step_prefix(step: GitStep) -> Seq<char> {
    match step {
        GitStep::OpenRepo => "打开仓库失败: "@,
        GitStep::Head => "获取 HEAD 失败: "@,
        GitStep::ListBranches => "获取分支失败: "@,
        GitStep::ResolveRevision => "解析引用失败: "@,
        GitStep::CreateRevwalk => "创建 revwalk 失败: "@,
        GitStep::PushRevision => "push rev 失败: "@,
        GitStep::WalkCommits => "遍历提交失败: "@,
        GitStep::FindCommit => "查找提交失败: "@,
        GitStep::ParseFromHash => "无效的 from hash: "@,
        GitStep::FindFromCommit => "查找 from 提交失败: "@,
        GitStep::ParseToHash => "无效的 to hash: "@,
        GitStep::FindToCommit => "查找 to 提交失败: "@,
        GitStep::FromTree => "获取 from tree 失败: "@,
        GitStep::ToTree => "获取 to tree 失败: "@,
        GitStep::ComputeDiff => "计算差异失败: "@,
        GitStep::ParseHash => "无效的提交哈希: "@,
        GitStep::CommitTree => "获取 tree 失败: "@,
        GitStep::ParentTree => "获取父 tree 失败: "@,
        GitStep::ComputeBranchDiff => "计算分支差异失败: "@,
        GitStep::PushGlob => "push glob 失败: "@,
        GitStep::PushHead => "push head 失败: "@,
        GitStep::SetSorting => "设置排序失败: "@,
        GitStep::PrintPatch => "打印 patch 失败: "@,
        GitStep::DeltaIndex => "无效的 delta 索引: "@,
    }
}

/// The text that introduces the failure of `step`.
pub fn step_prefix_string(step: GitStep) -> (r: String)
    ensures
        r@ == step_prefix(step),
{
    match step {
        GitStep::OpenRepo => "打开仓库失败: ".to_string(),
        GitStep::Head => "获取 HEAD 失败: ".to_string(),
        GitStep::ListBranches => "获取分支失败: ".to_string(),
        GitStep::ResolveRevision => "解析引用失败: ".to_string(),
        GitStep::CreateRevwalk => "创建 revwalk 失败: ".to_string(),
        GitStep::PushRevision => "push rev 失败: ".to_string(),
        GitStep::WalkCommits => "遍历提交失败: ".to_string(),
        GitStep::FindCommit => "查找提交失败: ".to_string(),
        GitStep::ParseFromHash => "无效的 from hash: ".to_string(),
        GitStep::FindFromCommit => "查找 from 提交失败: ".to_string(),
        GitStep::ParseToHash => "无效的 to hash: ".to_string(),
        GitStep::FindToCommit => "查找 to 提交失败: ".to_string(),
        GitStep::FromTree => "获取 from tree 失败: ".to_string(),
        GitStep::ToTree => "获取 to tree 失败: ".to_string(),
        GitStep::ComputeDiff => "计算差异失败: ".to_string(),
        GitStep::ParseHash => "无效的提交哈希: ".to_string(),
        GitStep::CommitTree => "获取 tree 失败: ".to_string(),
        GitStep::ParentTree => "获取父 tree 失败: ".to_string(),
        GitStep::ComputeBranchDiff => "计算分支差异失败: ".to_string(),
        GitStep::PushGlob => "push glob 失败: ".to_string(),
        GitStep::PushHead => "push head 失败: ".to_string(),
        GitStep::SetSorting => "设置排序失败: ".to_string(),
        GitStep::PrintPatch => "打印 patch 失败: ".to_string(),
        GitStep::DeltaIndex => "无效的 delta 索引: ".to_string(),
    }
}

/// A failed Git step, with the message of the Git library.
pub struct GitFailure {
    pub step: GitStep,
    pub detail: String,
}

/// The message reported for a failed step.
pub open spec fn failure_text(f: GitFailure) -> Seq<char> {
    step_prefix(f.step) + f.detail@
}

impl GitFailure {
    /// The message reported for this failure.
    pub fn message(&self) -> (r: String)
        ensures
            r@ == failure_text(*self),
    {
        let mut r = step_prefix_string(self.step);
        r.append(self.detail.as_str());
        r
    }
}

/// The message for a query made before any repository was opened.
pub open spec fn not_opened_text() -> Seq<char> {
    "未打开仓库"@
}

/// The repository the application works on, if one is open.
pub struct GitState {
    path: Option<String>,
}

impl GitState {
    /// The path of the open repository.
    pub closed spec fn repo(&self) -> Option<Seq<char>> {
        match self.path {
            Some(p) => Some(p@),
            None => None,
        }
    }

    /// No repository open.
    pub fn new() -> (g: GitState)
        ensures
            g.repo() is None,
    {
        GitState { path: None }
    }

    /// The state for the repository at `path`, given whether the Git library could open it
    /// (`probe`, with its message on failure).
    pub fn from_path(path: &str, probe: Result<(), String>) -> (r: Result<GitState, String>)
        ensures
            match probe {
                Ok(()) => r matches Ok(g) && g.repo() == Some(path@),
                Err(d) => r matches Err(e) && e@ == step_prefix(GitStep::OpenRepo) + d@,
            },
    {
        match probe {
            Ok(()) => Ok(GitState { path: Some(path.to_string()) }),
            Err(d) => {
                let mut e = step_prefix_string(GitStep::OpenRepo);
                e.append(d.as_str());
                Err(e)
            },
        }
    }

    /// The path of the open repository, if any.
    pub fn path(&self) -> (r: Option<&str>)
        ensures
            match r {
                Some(p) => self.repo() == Some(p@),
                None => self.repo() is None,
            },
    {
        match &self.path {
            Some(p) => Some(p.as_str()),
            None => None,
        }
    }

    /// Switches to the repository at `path` when the Git library could open it (`probe`);
    /// otherwise keeps the current one and reports the failure.
    pub fn open_repo(&mut self, path: &str, probe: Result<(), String>) -> (r: Result<(), String>)
        ensures
            match probe {
                Ok(()) => r is Ok && final(self).repo() == Some(path@),
                Err(d) => r matches Err(e) && e@ == step_prefix(GitStep::OpenRepo) + d@
                    && final(self).repo() == old(self).repo(),
            },
    {
        match probe {
            Ok(()) => {
                self.path = Some(path.to_string());
                Ok(())
            },
            Err(d) => {
                let mut e = step_prefix_string(GitStep::OpenRepo);
                e.append(d.as_str());
                Err(e)
            },
        }
    }

    /// The path to open for a query, or the error reported when no repository is open.
    pub fn opened_path(&self) -> (r: Result<String, String>)
        ensures
            match self.repo() {
                Some(p) => r matches Ok(q) && q@ == p,
                None => r matches Err(e) && e@ == not_opened_text(),
            },
    {
        match &self.path {
            Some(p) => Ok(p.clone()),
            None => Err("未打开仓库".to_string()),
        }
    }
}

/// What the Git library tells of one commit.
pub struct CommitRecord {
    /// The commit id in hexadecimal.
    pub oid: String,
    /// The message, when it is valid UTF-8.
    pub message: Option<String>,
    /// The author's name, when it is valid UTF-8.
    pub author_name: Option<String>,
    /// The author's e-mail, when it is valid UTF-8.
    pub author_email: Option<String>,
    /// The author time, in seconds since the Unix epoch.
    pub time: i64,
}

/// How much of a commit message a `CommitInfo` keeps, in characters.
pub const MESSAGE_CHARS: usize = 100;

/// How many characters of the commit id the short hash has.
pub const SHORT_HASH_CHARS: usize = 7;

/// The frontend's view of a commit: its id, the first 7 characters of the id, the first 100
/// characters of the message (empty when unreadable), the author (`unknown` when
/// unreadable), the e-mail (empty when unreadable) and the author time in decimal.
pub open spec fn describes(info: CommitInfo, c: CommitRecord) -> bool {
    &&& info.hash@ == c.oid@
    &&& info.short_hash@ == c.oid@.take(SHORT_HASH_CHARS as int)
    &&& info.message@ == (match c.message {
        Some(m) => m@.take(if m@.len() < MESSAGE_CHARS { m@.len() as int } else { MESSAGE_CHARS as int }),
        None => Seq::<char>::empty(),
    })
    &&& info.author@ == (match c.author_name {
        Some(a) => a@,
        None => "unknown"@,
    })
    &&& info.email@ == (match c.author_email {
        Some(e) => e@,
        None => Seq::<char>::empty(),
    })
    &&& info.timestamp@ == int_text(c.time as int)
}

/// The frontend's view of a commit.
pub fn commit_to_info(c: &CommitRecord) -> (info: CommitInfo)
    requires
        c.oid@.len() >= SHORT_HASH_CHARS,
    ensures
        describes(info, *c),
{
    let id = chars_of(c.oid.as_str());
    let short_hash = string_of(&id, 0, SHORT_HASH_CHARS);
    let message = match &c.message {
        Some(m) => {
            let mv = chars_of(m.as_str());
            let n = if mv.len() < MESSAGE_CHARS { mv.len() } else { MESSAGE_CHARS };
            let r = string_of(&mv, 0, n);
            assert(r@ =~= m@.take(n as int));
            r
        },
        None => String::new(),
    };
    let author = match &c.author_name {
        Some(a) => a.clone(),
        None => "unknown".to_string(),
    };
    let email = match &c.author_email {
        Some(e) => e.clone(),
        None => String::new(),
    };
    assert(short_hash@ =~= c.oid@.take(SHORT_HASH_CHARS as int));
    CommitInfo {
        hash: c.oid.clone(),
        short_hash,
        message,
        author,
        email,
        timestamp: int_string(c.time),
    }
}

} // verus!

verus! {

/// The number of patch lines whose origin is `origin`.
pub open spec fn origin_count(lines: Seq<DiffLine>, origin: char) -> nat
    decreases lines.len(),
{
    if lines.len() == 0 {
        0
    } else {
        origin_count(lines.drop_last(), origin) + if lines.last().origin == origin {
            1nat
        } else {
            0nat
        }
    }
}

/// Counting lines by origin: no lines count nothing, and one more line adds one exactly when it
/// has the origin, whatever the line (a hunk header included).
pub proof fn lemma_origin_count_steps(lines: Seq<DiffLine>, l: DiffLine, origin: char)
    ensures
        origin_count(Seq::<DiffLine>::empty(), origin) == 0,
        origin_count(lines.push(l), origin) == origin_count(lines, origin) + if l.origin == origin {
            1int
        } else {
            0int
        },
{
    assert(lines.push(l).drop_last() =~= lines);
    assert(lines.push(l).last() == l);
}

/// The count of lines with an origin is the number of those lines: the count over two runs of
/// lines is the sum of their counts.
pub proof fn lemma_origin_count_concat(a: Seq<DiffLine>, b: Seq<DiffLine>, origin: char)
    ensures
        origin_count(a + b, origin) == origin_count(a, origin) + origin_count(b, origin),
    decreases b.len(),
{
    if b.len() == 0 {
        assert(a + b =~= a);
    } else {
        lemma_origin_count_concat(a, b.drop_last(), origin);
        assert((a + b).drop_last() =~= a + b.drop_last());
        assert((a + b).last() == b.last());
    }
}

fn count_origin(lines: &Vec<DiffLine>, origin: char) -> (n: usize)
    ensures
        n == origin_count(lines@, origin),
{
    let mut n: usize = 0;
    let mut i: usize = 0;
    while i < lines.len()
        invariant
            i <= lines.len(),
            n == origin_count(lines@.take(i as int), origin),
            n <= i,
        decreases lines.len() - i,
    {
        assert(lines@.take(i + 1).drop_last() =~= lines@.take(i as int));
        if lines[i].origin == origin {
            n = n + 1;
        }
        i = i + 1;
    }
    assert(lines@.take(lines.len() as int) =~= lines@);
    n
}

/// The number of added lines in a file's patch: the lines whose origin is `+`.
pub fn count_adds(lines: &Vec<DiffLine>) -> (n: i32)
    ensures
        n == origin_count(lines@, '+') as i32,
{
    count_origin(lines, '+') as i32
}

/// The number of deleted lines in a file's patch: the lines whose origin is `-`.
pub fn count_dels(lines: &Vec<DiffLine>) -> (n: i32)
    ensures
        n == origin_count(lines@, '-') as i32,
{
    count_origin(lines, '-') as i32
}

/// One line of a patch as the Git library prints it: its origin (`+`, `-`, ` ` for content,
/// other characters for headers and notes) and its raw content.
pub struct DiffLine {
    pub origin: char,
    pub content: Vec<u8>,
}

/// What printing the patch of one file gave.
pub enum PatchOutput {
    /// No patch could be made (a binary file, for instance).
    Missing,
    /// The lines of the patch.
    Lines(Vec<DiffLine>),
    /// Printing failed, with the Git library's message.
    PrintFailed(String),
}

/// The change to one file as the Git library reports it.
pub struct RawDelta {
    pub old_path: Option<String>,
    pub new_path: Option<String>,
    pub patch: PatchOutput,
}

/// The text of a line's content: its UTF-8 decoding, or nothing when it is not valid UTF-8.
pub open spec fn content_text(bytes: Seq<u8>) -> Seq<char> {
    if valid_utf8(bytes) {
        decode_utf8(bytes)
    } else {
        Seq::<char>::empty()
    }
}

/// Decodes the content of a patch line; invalid UTF-8 gives the empty string
/// (`std::str::from_utf8(..).unwrap_or("")`).
#[verifier::external_body]
fn utf8_or_empty(bytes: &[u8]) -> (s: String)
    ensures
        s@ == content_text(bytes@),
{
    std::str::from_utf8(bytes).unwrap_or("").to_string()
}

/// How a patch line is written: content lines keep their origin character and end with a
/// newline; other lines are their content alone. Trailing white space is dropped.
pub open spec fn patch_line_text(origin: char, content: Seq<u8>) -> Seq<char> {
    let c = trim_end_text(content_text(content));
    if origin == '+' || origin == '-' || origin == ' ' {
        seq![origin] + c + seq!['\n']
    } else {
        c
    }
}

/// The text of a sequence of patch lines.
pub open spec fn patch_lines_text(lines: Seq<DiffLine>) -> Seq<char>
    decreases lines.len(),
{
    if lines.len() == 0 {
        Seq::<char>::empty()
    } else {
        patch_lines_text(lines.drop_last()) + patch_line_text(lines.last().origin, lines.last().content@)
    }
}

/// The path a change is listed under: the new path, else the old one, else `unknown`.
pub open spec fn delta_file(d: RawDelta) -> Seq<char> {
    match d.new_path {
        Some(p) => p@,
        None => match d.old_path {
            Some(p) => p@,
            None => "unknown"@,
        },
    }
}

/// The header lines of a file's patch.
pub open spec fn patch_header(d: RawDelta) -> Seq<char> {
    let file = delta_file(d);
    let old = match d.old_path {
        Some(p) => p@,
        None => file,
    };
    let new = match d.new_path {
        Some(p) => p@,
        None => file,
    };
    "--- a/"@ + old + "\n+++ b/"@ + new + "\n"@
}

/// The patch text of a change, or the error when printing it failed.
pub open spec fn delta_patch(d: RawDelta) -> Result<Seq<char>, Seq<char>> {
    match d.patch {
        PatchOutput::Missing => Ok(Seq::<char>::empty()),
        PatchOutput::Lines(lines) => Ok(patch_header(d) + patch_lines_text(lines@)),
        PatchOutput::PrintFailed(e) => Err(step_prefix(GitStep::PrintPatch) + e@),
    }
}

/// The lines of a change's patch (none when no patch could be made).
pub open spec fn delta_lines(d: RawDelta) -> Seq<DiffLine> {
    match d.patch {
        PatchOutput::Lines(lines) => lines@,
        _ => Seq::<DiffLine>::empty(),
    }
}

/// `info` reports the change `d` whose patch text is `patch`: its file, the patch, and the
/// numbers of its lines whose origin is `+` (added) and `-` (deleted).
pub open spec fn diff_describes(info: DiffInfo, d: RawDelta, patch: Seq<char>) -> bool {
    &&& info.file@ == delta_file(d)
    &&& info.patch@ == patch
    &&& info.added == origin_count(delta_lines(d), '+') as i32
    &&& info.deleted == origin_count(delta_lines(d), '-') as i32
}

/// The position of the first change whose patch could not be printed, among the first `n`.
pub open spec fn first_print_failure(deltas: Seq<RawDelta>, n: int) -> Option<int>
    decreases n,
{
    if n <= 0 {
        None
    } else {
        match first_print_failure(deltas, n - 1) {
            Some(i) => Some(i),
            None => if delta_patch(deltas[n - 1]) is Err {
                Some(n - 1)
            } else {
                None
            },
        }
    }
}

/// `infos` reports every change of `deltas`, in order.
pub open spec fn diff_report(infos: Seq<DiffInfo>, deltas: Seq<RawDelta>) -> bool {
    &&& infos.len() == deltas.len()
    &&& forall|i: int|
        0 <= i < deltas.len() ==> (delta_patch(#[trigger] deltas[i]) matches Ok(p)
            && diff_describes(infos[i], deltas[i], p))
}

/// The outcome of turning changes into file diffs: the error of the first patch that could
/// not be printed, or a report of every change.
pub open spec fn diff_outcome(r: Result<Vec<DiffInfo>, String>, deltas: Seq<RawDelta>) -> bool {
    match first_print_failure(deltas, deltas.len() as int) {
        Some(i) => r matches Err(e) && delta_patch(deltas[i]) == Err::<Seq<char>, Seq<char>>(e@),
        None => r matches Ok(v) && diff_report(v@, deltas),
    }
}

fn line_text(line: &DiffLine, out: &mut String)
    ensures
        final(out)@ == old(out)@ + patch_line_text(line.origin, line.content@),
{
    let text = utf8_or_empty(line.content.as_slice());
    let tv = chars_of(text.as_str());
    let end = trim_end_index(&tv, 0, tv.len());
    proof {
        assert(tv@.subrange(0, tv@.len() as int) =~= content_text(line.content@));
    }
    let o = line.origin;
    if o == '+' || o == '-' || o == ' ' {
        push_char(out, o);
        push_chars(out, &tv, 0, end);
        push_char(out, '\n');
        assert(final(out)@ =~= old(out)@ + patch_line_text(line.origin, line.content@));
    } else {
        push_chars(out, &tv, 0, end);
    }
}

fn delta_patch_text(d: &RawDelta) -> (r: Result<String, String>)
    ensures
        match r {
            Ok(p) => delta_patch(*d) == Ok::<Seq<char>, Seq<char>>(p@),
            Err(e) => delta_patch(*d) == Err::<Seq<char>, Seq<char>>(e@),
        },
{
    match &d.patch {
        PatchOutput::Missing => Ok(String::new()),
        PatchOutput::PrintFailed(e) => {
            let mut m = step_prefix_string(GitStep::PrintPatch);
            m.append(e.as_str());
            Err(m)
        },
        PatchOutput::Lines(lines) => {
            let file: &str = match &d.new_path {
                Some(p) => p.as_str(),
                None => match &d.old_path {
                    Some(p) => p.as_str(),
                    None => "unknown",
                },
            };
            assert(file@ == delta_file(*d));
            let mut buf = "--- a/".to_string();
            match &d.old_path {
                Some(p) => buf.append(p.as_str()),
                None => buf.append(file),
            }
            buf.append("\n+++ b/");
            match &d.new_path {
                Some(p) => buf.append(p.as_str()),
                None => buf.append(file),
            }
            buf.append("\n");
            assert(buf@ =~= patch_header(*d));
            let mut k: usize = 0;
            while k < lines.len()
                invariant
                    k <= lines.len(),
                    buf@ == patch_header(*d) + patch_lines_text(lines@.take(k as int)),
                decreases lines.len() - k,
            {
                line_text(&lines[k], &mut buf);
                proof {
                    assert(lines@.take(k + 1).drop_last() =~= lines@.take(k as int));
                }
                k = k + 1;
            }
            assert(lines@.take(lines.len() as int) =~= lines@);
            Ok(buf)
        },
    }
}

/// Turns the changes the Git library found into file diffs, stopping at the first patch that
/// could not be printed.
pub fn process_diff(deltas: &Vec<RawDelta>) -> (r: Result<Vec<DiffInfo>, String>)
    ensures
        diff_outcome(r, deltas@),
{
    let mut result: Vec<DiffInfo> = Vec::new();
    let mut i: usize = 0;
    while i < deltas.len()
        invariant
            i <= deltas.len(),
            first_print_failure(deltas@, i as int) is None,
            diff_report(result@, deltas@.take(i as int)),
        decreases deltas.len() - i,
    {
        let d = &deltas[i];
        match delta_patch_text(d) {
            Err(e) => {
                proof {
                    assert(first_print_failure(deltas@, i + 1) == Some(i as int));
                    lemma_first_failure_stays(deltas@, i + 1, deltas@.len() as int);
                }
                return Err(e);
            },
            Ok(patch) => {
                let (added, deleted) = match &d.patch {
                    PatchOutput::Lines(lines) => (count_adds(lines), count_dels(lines)),
                    _ => {
                        assert(delta_lines(*d) =~= Seq::<DiffLine>::empty());
                        (0, 0)
                    },
                };
                let file = match &d.new_path {
                    Some(p) => p.clone(),
                    None => match &d.old_path {
                        Some(p) => p.clone(),
                        None => "unknown".to_string(),
                    },
                };
                let ghost before = result@;
                result.push(DiffInfo { file, patch, added, deleted });
                proof {
                    let t = deltas@.take(i + 1);
                    assert(t.len() == result@.len());
                    assert forall|j: int| 0 <= j < t.len() implies (delta_patch(#[trigger] t[j]) matches Ok(p)
                        && diff_describes(result@[j], t[j], p)) by {
                        if j < i {
                            assert(t[j] == deltas@.take(i as int)[j]);
                        }
                    }
                }
                i = i + 1;
            },
        }
    }
    proof {
        assert(deltas@.take(deltas@.len() as int) =~= deltas@);
    }
    Ok(result)
}

/// The origin a patch line has when the change is seen from the other side.
pub open spec fn mirror_origin(o: char) -> char {
    if o == '+' {
        '-'
    } else if o == '-' {
        '+'
    } else {
        o
    }
}

/// `e` is the change `d` seen from the other side: its paths swapped, and its patch lines in
/// the same order with `+` and `-` swapped.
pub open spec fn mirrored_delta(d: RawDelta, e: RawDelta) -> bool {
    &&& entry_view(e.old_path) == entry_view(d.new_path)
    &&& entry_view(e.new_path) == entry_view(d.old_path)
    &&& match (d.patch, e.patch) {
        (PatchOutput::Lines(l1), PatchOutput::Lines(l2)) => l1@.len() == l2@.len() && forall|i: int|
            0 <= i < l1@.len() ==> #[trigger] l2@[i].origin == mirror_origin(l1@[i].origin),
        (PatchOutput::Missing, PatchOutput::Missing) => true,
        (PatchOutput::PrintFailed(_), PatchOutput::PrintFailed(_)) => true,
        _ => false,
    }
}

proof fn lemma_mirrored_counts(l1: Seq<DiffLine>, l2: Seq<DiffLine>)
    requires
        l1.len() == l2.len(),
        forall|i: int| 0 <= i < l1.len() ==> #[trigger] l2[i].origin == mirror_origin(l1[i].origin),
    ensures
        origin_count(l2, '+') == origin_count(l1, '-'),
        origin_count(l2, '-') == origin_count(l1, '+'),
    decreases l1.len(),
{
    if l1.len() > 0 {
        let a = l1.drop_last();
        let b = l2.drop_last();
        assert forall|i: int| 0 <= i < a.len() implies #[trigger] b[i].origin == mirror_origin(a[i].origin) by {
            assert(b[i] == l2[i] && a[i] == l1[i]);
        }
        lemma_mirrored_counts(a, b);
        assert(l2.last().origin == mirror_origin(l1.last().origin));
    }
}

proof fn lemma_mirrored_failures(ds: Seq<RawDelta>, es: Seq<RawDelta>, n: int)
    requires
        ds.len() == es.len(),
        0 <= n <= ds.len(),
        forall|i: int| 0 <= i < ds.len() ==> mirrored_delta(#[trigger] ds[i], es[i]),
    ensures
        first_print_failure(ds, n) == first_print_failure(es, n),
    decreases n,
{
    if n > 0 {
        lemma_mirrored_failures(ds, es, n - 1);
        assert(mirrored_delta(ds[n - 1], es[n - 1]));
    }
}

/// Comparing in the other direction mirrors the file diffs: when every change of `es` is the
/// corresponding change of `ds` seen from the other side, both succeed or fail alike, and the
/// added and deleted counts of each file are swapped; a file is listed under the same path
/// unless the change renamed it.
pub proof fn lemma_mirrored_diffs(
    ds: Seq<RawDelta>,
    es: Seq<RawDelta>,
    x: Result<Vec<DiffInfo>, String>,
    y: Result<Vec<DiffInfo>, String>,
)
    requires
        ds.len() == es.len(),
        forall|i: int| 0 <= i < ds.len() ==> mirrored_delta(#[trigger] ds[i], es[i]),
        diff_outcome(x, ds),
        diff_outcome(y, es),
    ensures
        x is Ok <==> y is Ok,
        x matches Ok(xv) ==> (y matches Ok(yv) && xv@.len() == yv@.len() && forall|i: int|
            0 <= i < xv@.len() ==> {
                &&& #[trigger] xv@[i].added == yv@[i].deleted
                &&& xv@[i].deleted == yv@[i].added
                &&& (ds[i].old_path is None || ds[i].new_path is None || entry_view(ds[i].old_path)
                    == entry_view(ds[i].new_path)) ==> xv@[i].file@ == yv@[i].file@
            }),
{
    lemma_mirrored_failures(ds, es, ds.len() as int);
    if let Ok(xv) = x {
        if let Ok(yv) = y {
            assert forall|i: int| 0 <= i < xv@.len() implies {
                &&& #[trigger] xv@[i].added == yv@[i].deleted
                &&& xv@[i].deleted == yv@[i].added
                &&& (ds[i].old_path is None || ds[i].new_path is None || entry_view(ds[i].old_path)
                    == entry_view(ds[i].new_path)) ==> xv@[i].file@ == yv@[i].file@
            } by {
                assert(mirrored_delta(ds[i], es[i]));
                assert(delta_patch(ds[i]) is Ok);
                assert(delta_patch(es[i]) is Ok);
                match (ds[i].patch, es[i].patch) {
                    (PatchOutput::Lines(l1), PatchOutput::Lines(l2)) => {
                        lemma_mirrored_counts(l1@, l2@);
                    },
                    _ => {},
                }
            }
        }
    }
}

proof fn lemma_first_failure_stays(deltas: Seq<RawDelta>, n: int, m: int)
    requires
        0 <= n <= m,
        first_print_failure(deltas, n) is Some,
    ensures
        first_print_failure(deltas, m) == first_print_failure(deltas, n),
    decreases m - n,
{
    if n < m {
        lemma_first_failure_stays(deltas, n, m - 1);
    }
}

} // verus!

verus! {

/// What the Git library reports of `HEAD`.
pub struct HeadInfo {
    /// Whether `HEAD` names a branch.
    pub is_branch: bool,
    /// The branch's short name, when it is valid UTF-8.
    pub shorthand: Option<String>,
    /// The commit id that `HEAD` points to, in hexadecimal, if any.
    pub target: Option<String>,
}

/// The current branch: its name (`unknown` when unreadable), or, with a detached `HEAD`, the
/// first 7 characters of the commit it points to.
pub open spec fn current_branch_outcome(r: Result<String, String>, head: Result<HeadInfo, GitFailure>) -> bool {
    match head {
        Err(f) => r matches Err(e) && e@ == failure_text(f),
        Ok(h) => if h.is_branch {
            r matches Ok(b) && b@ == (match h.shorthand {
                Some(n) => n@,
                None => "unknown"@,
            })
        } else {
            match h.target {
                Some(t) => r matches Ok(b) && b@ == t@.take(SHORT_HASH_CHARS as int),
                None => r matches Err(e) && e@ == "HEAD 无目标"@,
            }
        },
    }
}

/// The branch names in order (`str` order), without the unreadable ones.
pub open spec fn sorted_texts(v: Seq<String>) -> bool {
    forall|i: int, j: int| 0 <= i < j < v.len() ==> text_le(v[i]@, v[j]@)
}

/// The readable names among the branch names the Git library listed.
pub open spec fn readable_names(names: Seq<Option<String>>) -> Seq<String>
    decreases names.len(),
{
    if names.len() == 0 {
        Seq::<String>::empty()
    } else {
        readable_names(names.drop_last()) + match names.last() {
            Some(n) => seq![n],
            None => Seq::<String>::empty(),
        }
    }
}

/// Sorts texts in `str` order (stable insertion sort).
pub fn sort_texts(v: &Vec<String>) -> (r: Vec<String>)
    ensures
        sorted_texts(r@),
        r@.to_multiset() == v@.to_multiset(),
{
    broadcast use vstd::seq_lib::group_to_multiset_ensures;
    let mut r: Vec<String> = Vec::new();
    let mut i: usize = 0;
    while i < v.len()
        invariant
            i <= v.len(),
            sorted_texts(r@),
            r@.to_multiset() == v@.take(i as int).to_multiset(),
        decreases v.len() - i,
    {
        let x = v[i].clone();
        let mut pos: usize = 0;
        while pos < r.len() && text_le_exec(r[pos].as_str(), x.as_str())
            invariant
                pos <= r.len(),
                forall|k: int| 0 <= k < pos ==> text_le(#[trigger] r@[k]@, x@),
            decreases r.len() - pos,
        {
            pos = pos + 1;
        }
        let ghost old_r = r@;
        r.insert(pos, x);
        proof {
            assert(r@ == old_r.insert(pos as int, x));
            assert forall|a: int, b: int| 0 <= a < b < r@.len() implies text_le(r@[a]@, r@[b]@) by {
                if b < pos {
                    assert(r@[a] == old_r[a] && r@[b] == old_r[b]);
                } else if b == pos {
                    assert(r@[a] == old_r[a]);
                } else if a == pos {
                    assert(r@[b] == old_r[b - 1]);
                    lemma_text_le_total(old_r[pos as int]@, x@);
                    if b - 1 > pos {
                        lemma_text_le_transitive(x@, old_r[pos as int]@, old_r[b - 1]@);
                    }
                } else if a < pos {
                    assert(r@[a] == old_r[a] && r@[b] == old_r[b - 1]);
                    if b - 1 >= pos {
                        assert(text_le(old_r[a]@, x@));
                        lemma_text_le_total(old_r[pos as int]@, x@);
                        if b - 1 > pos {
                            lemma_text_le_transitive(x@, old_r[pos as int]@, old_r[b - 1]@);
                        }
                        lemma_text_le_transitive(old_r[a]@, x@, old_r[b - 1]@);
                    }
                } else {
                    assert(r@[a] == old_r[a - 1] && r@[b] == old_r[b - 1]);
                }
            }
            assert(v@.take(i + 1) =~= v@.take(i as int).push(v@[i as int]));
            vstd::seq_lib::to_multiset_insert(old_r, pos as int, x);
            vstd::seq_lib::to_multiset_build(v@.take(i as int), v@[i as int]);
        }
        i = i + 1;
    }
    assert(v@.take(v.len() as int) =~= v@);
    r
}

/// The number of commits a walk of `limit` takes: a negative limit wraps around to a huge
/// count, as the cast to `usize` does.
pub open spec fn walk_count(limit: i32) -> int {
    if limit >= 0 {
        limit as int
    } else {
        usize::MAX as int + 1 + limit
    }
}

/// The first failure among the first `n` walked commits.
pub open spec fn first_walk_failure(entries: Seq<Result<CommitRecord, GitFailure>>, n: int) -> Option<GitFailure>
    decreases n,
{
    if n <= 0 {
        None
    } else {
        match first_walk_failure(entries, n - 1) {
            Some(f) => Some(f),
            None => match entries[n - 1] {
                Err(f) => Some(f),
                Ok(_) => None,
            },
        }
    }
}

/// `infos` describes every entry of `entries`, all of them commits.
pub open spec fn describes_all(infos: Seq<CommitInfo>, entries: Seq<Result<CommitRecord, GitFailure>>) -> bool {
    &&& infos.len() == entries.len()
    &&& forall|i: int|
        0 <= i < entries.len() ==> (#[trigger] entries[i] matches Ok(c) && describes(infos[i], c))
}

/// The commit ids are long enough to have a short hash.
pub open spec fn ids_well_formed(entries: Seq<Result<CommitRecord, GitFailure>>) -> bool {
    forall|i: int|
        0 <= i < entries.len() ==> (#[trigger] entries[i] matches Ok(c) ==> c.oid@.len() >= SHORT_HASH_CHARS)
}

/// The revision a commit listing starts from: `HEAD`, or the named local branch.
pub fn revision_spec(branch: Option<&str>) -> (r: String)
    ensures
        r@ == (match branch {
            Some(b) => "refs/heads/"@ + b@,
            None => "HEAD"@,
        }),
{
    match branch {
        Some(b) => branch_ref(b),
        None => "HEAD".to_string(),
    }
}

/// The reference of the local branch `branch`.
pub fn branch_ref(branch: &str) -> (r: String)
    ensures
        r@ == "refs/heads/"@ + branch@,
{
    let mut r = "refs/heads/".to_string();
    r.append(branch);
    r
}

/// How many commits a listing with `limit` walks (`limit as usize`).
pub fn walk_limit(limit: i32) -> (n: usize)
    ensures
        n == walk_count(limit),
{
    if limit >= 0 {
        limit as usize
    } else {
        let m: usize = (0i64 - (limit as i64)) as usize;
        usize::MAX - m + 1
    }
}

/// The most commits a file history looks at.
pub const HISTORY_WALK_LIMIT: usize = 2000;

/// What a commit and its first parent hold at the path of the file whose history is asked.
pub struct FileVersions {
    /// The id of the entry at the path in the commit's tree, if the tree has one.
    pub here: Option<String>,
    /// `None` when the commit has no first parent (or it cannot be read); otherwise the id of
    /// the entry at the path in that parent's tree, if it has one.
    pub parent: Option<Option<String>>,
}

/// The text of an optional entry id.
pub open spec fn entry_view(e: Option<String>) -> Option<Seq<char>> {
    match e {
        Some(id) => Some(id@),
        None => None,
    }
}

/// Whether a commit changed the file: the entry at its path differs from the first parent's
/// (added, removed or modified), or, for a commit without a parent, the commit holds the file.
/// A commit whose tree could not be read (`None`) is not counted.
pub open spec fn changes_file(v: Option<FileVersions>) -> bool {
    match v {
        None => false,
        Some(f) => match f.parent {
            None => f.here is Some,
            Some(p) => entry_view(p) != entry_view(f.here),
        },
    }
}

fn same_entry(a: &Option<String>, b: &Option<String>) -> (r: bool)
    ensures
        r == (entry_view(*a) == entry_view(*b)),
{
    match (a, b) {
        (Some(x), Some(y)) => same_text(x.as_str(), y.as_str()),
        (None, None) => true,
        _ => false,
    }
}

/// Whether a commit changed the file.
pub fn file_changed(v: &Option<FileVersions>) -> (r: bool)
    ensures
        r == changes_file(*v),
{
    match v {
        None => false,
        Some(f) => match &f.parent {
            None => f.here.is_some(),
            Some(p) => !same_entry(p, &f.here),
        },
    }
}

/// One step of the walk over all branches for a file history.
pub enum HistoryEntry {
    /// The walk itself failed.
    WalkFailed(GitFailure),
    /// The walk reached commit `oid`; `found` tells what looking it up gave: the commit and
    /// what it and its first parent hold at the file's path (`None` when its tree could not be
    /// read).
    Commit { oid: String, found: Result<(CommitRecord, Option<FileVersions>), GitFailure> },
}

/// The commits of a file history: walking from the newest, each commit is looked at once;
/// the walk stops at the first commit older than `since`, and keeps those that changed the
/// file. The first failure met ends it with that failure.
pub open spec fn history_from(entries: Seq<HistoryEntry>, i: int, seen: Set<Seq<char>>, since: i64) -> Result<Seq<CommitRecord>, GitFailure>
    decreases entries.len() - i,
{
    if i < 0 || i >= entries.len() {
        Ok(Seq::<CommitRecord>::empty())
    } else {
        match entries[i] {
            HistoryEntry::WalkFailed(f) => Err(f),
            HistoryEntry::Commit { oid, found } => if seen.contains(oid@) {
                history_from(entries, i + 1, seen, since)
            } else {
                match found {
                    Err(f) => Err(f),
                    Ok((c, file)) => if c.time < since {
                        Ok(Seq::<CommitRecord>::empty())
                    } else {
                        match history_from(entries, i + 1, seen.insert(oid@), since) {
                            Err(f) => Err(f),
                            Ok(rest) => Ok(if changes_file(file) {
                                seq![c] + rest
                            } else {
                                rest
                            }),
                        }
                    },
                }
            },
        }
    }
}

/// `infos` describes the commits `recs`, in order.
pub open spec fn describes_records(infos: Seq<CommitInfo>, recs: Seq<CommitRecord>) -> bool {
    &&& infos.len() == recs.len()
    &&& forall|i: int| 0 <= i < recs.len() ==> describes(#[trigger] infos[i], recs[i])
}

/// The commit records of the history walk have ids long enough for a short hash.
pub open spec fn history_well_formed(entries: Seq<HistoryEntry>) -> bool {
    forall|i: int|
        0 <= i < entries.len() ==> (#[trigger] entries[i] matches HistoryEntry::Commit { oid, found }
            ==> (found matches Ok((c, _)) ==> c.oid@.len() >= SHORT_HASH_CHARS && c.oid@ == oid@))
}

/// No two commits of `recs` have the same id, and none has an id of `seen`.
pub open spec fn distinct_ids(recs: Seq<CommitRecord>, seen: Set<Seq<char>>) -> bool {
    &&& forall|k: int| 0 <= k < recs.len() ==> !seen.contains(#[trigger] recs[k].oid@)
    &&& forall|k: int, l: int| 0 <= k < l < recs.len() ==> #[trigger] recs[k].oid@ != #[trigger] recs[l].oid@
}

/// A file history keeps an unseen commit of the range exactly when it changed the file: its
/// entry at the path differs from its first parent's (so a commit that adds, removes or
/// modifies the file is kept), or it has no parent and holds the file; a commit whose tree
/// could not be read is not kept. The rest of the history follows it.
pub proof fn lemma_history_keeps_changing_commits(
    entries: Seq<HistoryEntry>,
    i: int,
    seen: Set<Seq<char>>,
    since: i64,
    oid: String,
    c: CommitRecord,
    file: Option<FileVersions>,
)
    requires
        0 <= i < entries.len(),
        entries[i] == (HistoryEntry::Commit { oid, found: Ok((c, file)) }),
        !seen.contains(oid@),
        c.time >= since,
    ensures
        history_from(entries, i, seen, since) == match history_from(entries, i + 1, seen.insert(oid@), since) {
            Err(f) => Err(f),
            Ok(rest) => Ok(if (match file {
                None => false,
                Some(fv) => match fv.parent {
                    None => fv.here is Some,
                    Some(p) => match (p, fv.here) {
                        (None, None) => false,
                        (Some(a), Some(b)) => a@ != b@,
                        _ => true,
                    },
                },
            }) {
                seq![c] + rest
            } else {
                rest
            }),
        },
{
}

/// The walk of a file history: past its end it lists nothing; a walk failure ends it with that
/// failure; a commit already seen is skipped; an unseen commit that could not be looked up ends
/// it with that failure; and the first unseen commit older than `since` ends it, listing
/// nothing from there on.
pub proof fn lemma_history_walk_rules(entries: Seq<HistoryEntry>, i: int, seen: Set<Seq<char>>, since: i64)
    ensures
        i >= entries.len() ==> history_from(entries, i, seen, since) == Ok::<Seq<CommitRecord>, GitFailure>(
            Seq::empty(),
        ),
        0 <= i < entries.len() ==> match entries[i] {
            HistoryEntry::WalkFailed(f) => history_from(entries, i, seen, since) == Err::<
                Seq<CommitRecord>,
                GitFailure,
            >(f),
            HistoryEntry::Commit { oid, found } => if seen.contains(oid@) {
                history_from(entries, i, seen, since) == history_from(entries, i + 1, seen, since)
            } else {
                match found {
                    Err(f) => history_from(entries, i, seen, since) == Err::<Seq<CommitRecord>, GitFailure>(f),
                    Ok((c, _)) => c.time < since ==> history_from(entries, i, seen, since) == Ok::<
                        Seq<CommitRecord>,
                        GitFailure,
                    >(Seq::empty()),
                }
            },
        },
{
}

/// Commits that describe records with distinct ids have distinct hashes.
proof fn lemma_distinct_hashes(v: Seq<CommitInfo>, recs: Seq<CommitRecord>)
    requires
        describes_records(v, recs),
        distinct_ids(recs, Set::empty()),
    ensures
        forall|k: int, l: int| 0 <= k < l < v.len() ==> #[trigger] v[k].hash@ != #[trigger] v[l].hash@,
{
    assert forall|k: int, l: int| 0 <= k < l < v.len() implies #[trigger] v[k].hash@ != #[trigger] v[l].hash@ by {
        assert(describes(v[k], recs[k]));
        assert(describes(v[l], recs[l]));
        assert(recs[k].oid@ != recs[l].oid@);
    }
}

/// A file history never lists a commit twice, nor one already seen.
proof fn lemma_history_distinct(entries: Seq<HistoryEntry>, i: int, seen: Set<Seq<char>>, since: i64)
    requires
        history_well_formed(entries),
    ensures
        history_from(entries, i, seen, since) matches Ok(recs) ==> distinct_ids(recs, seen),
    decreases entries.len() - i,
{
    if 0 <= i < entries.len() {
        match entries[i] {
            HistoryEntry::WalkFailed(_) => {},
            HistoryEntry::Commit { oid, found } => {
                if seen.contains(oid@) {
                    lemma_history_distinct(entries, i + 1, seen, since);
                } else {
                    match found {
                        Err(_) => {},
                        Ok((c, file)) => {
                            if c.time >= since {
                                let seen2 = seen.insert(oid@);
                                lemma_history_distinct(entries, i + 1, seen2, since);
                                assert(c.oid@ == oid@);
                                if let Ok(rest) = history_from(entries, i + 1, seen2, since) {
                                    if changes_file(file) {
                                        let recs = seq![c] + rest;
                                        assert forall|k: int| 0 <= k < recs.len() implies !seen.contains(
                                            #[trigger] recs[k].oid@,
                                        ) by {
                                            if k > 0 {
                                                assert(recs[k] == rest[k - 1]);
                                            }
                                        }
                                        assert forall|k: int, l: int| 0 <= k < l < recs.len() implies #[trigger] recs[k].oid@
                                            != #[trigger] recs[l].oid@ by {
                                            assert(recs[l] == rest[l - 1]);
                                            assert(!seen2.contains(rest[l - 1].oid@));
                                            if k > 0 {
                                                assert(recs[k] == rest[k - 1]);
                                            }
                                        }
                                    } else {
                                        assert forall|k: int| 0 <= k < rest.len() implies !seen.contains(
                                            #[trigger] rest[k].oid@,
                                        ) by {
                                            assert(!seen2.contains(rest[k].oid@));
                                        }
                                    }
                                }
                            }
                        },
                    }
                }
            },
        }
    }
}

/// A failure of a branch comparison.
pub enum BranchDiffFailure {
    /// A step of the comparison failed.
    Git(GitFailure),
    /// A branch could not be found (`second` tells which), with the Git library's message.
    Lookup { second: bool, detail: String },
    /// A branch points to no commit (`second` tells which).
    NoTarget { second: bool },
}

/// The message for a failed branch comparison of `branch1` and `branch2`.
pub open spec fn branch_failure_text(f: BranchDiffFailure, branch1: Seq<char>, branch2: Seq<char>) -> Seq<char> {
    match f {
        BranchDiffFailure::Git(g) => failure_text(g),
        BranchDiffFailure::Lookup { second, detail } => "查找分支 "@ + (if second {
            branch2
        } else {
            branch1
        }) + " 失败: "@ + detail@,
        BranchDiffFailure::NoTarget { second } => "分支 "@ + (if second {
            branch2
        } else {
            branch1
        }) + " 无目标"@,
    }
}

impl GitState {
    /// The current branch, from what the Git library reported of `HEAD`.
    pub fn get_current_branch(&self, head: Result<HeadInfo, GitFailure>) -> (r: Result<String, String>)
        requires
            head matches Ok(h) ==> (!h.is_branch && h.target is Some ==> h.target->0@.len() >= SHORT_HASH_CHARS),
        ensures
            self.repo() is None ==> (r matches Err(e) && e@ == not_opened_text()),
            self.repo() is Some ==> current_branch_outcome(r, head),
    {
        if self.path.is_none() {
            return Err("未打开仓库".to_string());
        }
        match head {
            Err(f) => Err(f.message()),
            Ok(h) => {
                if h.is_branch {
                    match h.shorthand {
                        Some(n) => Ok(n),
                        None => Ok("unknown".to_string()),
                    }
                } else {
                    match h.target {
                        Some(t) => {
                            let tv = chars_of(t.as_str());
                            let r = string_of(&tv, 0, SHORT_HASH_CHARS);
                            assert(r@ =~= t@.take(SHORT_HASH_CHARS as int));
                            Ok(r)
                        },
                        None => Err("HEAD 无目标".to_string()),
                    }
                }
            },
        }
    }

    /// The local branches, sorted, from the names the Git library listed (`None` for a name
    /// that is not valid UTF-8 or could not be read).
    pub fn get_branches(&self, read: Result<Vec<Option<String>>, GitFailure>) -> (r: Result<Vec<String>, String>)
        ensures
            self.repo() is None ==> (r matches Err(e) && e@ == not_opened_text()),
            self.repo() is Some ==> match read {
                Err(f) => r matches Err(e) && e@ == failure_text(f),
                Ok(names) => r matches Ok(v) && sorted_texts(v@) && v@.to_multiset()
                    == readable_names(names@).to_multiset(),
            },
    {
        if self.path.is_none() {
            return Err("未打开仓库".to_string());
        }
        match read {
            Err(f) => Err(f.message()),
            Ok(names) => {
                let mut kept: Vec<String> = Vec::new();
                let mut i: usize = 0;
                while i < names.len()
                    invariant
                        i <= names.len(),
                        kept@ == readable_names(names@.take(i as int)),
                    decreases names.len() - i,
                {
                    proof {
                        assert(names@.take(i + 1).drop_last() =~= names@.take(i as int));
                    }
                    match &names[i] {
                        Some(n) => {
                            kept.push(n.clone());
                            assert(kept@ =~= readable_names(names@.take(i + 1)));
                        },
                        None => {
                            assert(kept@ =~= readable_names(names@.take(i + 1)));
                        },
                    }
                    i = i + 1;
                }
                assert(names@.take(names.len() as int) =~= names@);
                Ok(sort_texts(&kept))
            },
        }
    }

    /// The commits of a listing of `limit` commits, from what the walk found: the first
    /// failure among the first `walk_count(limit)` entries, or the commits they describe.
    pub fn get_commits(&self, limit: i32, read: Result<Vec<Result<CommitRecord, GitFailure>>, GitFailure>) -> (r: Result<Vec<CommitInfo>, String>)
        requires
            read matches Ok(entries) ==> ids_well_formed(entries@),
        ensures
            self.repo() is None ==> (r matches Err(e) && e@ == not_opened_text()),
            self.repo() is Some ==> match read {
                Err(f) => r matches Err(e) && e@ == failure_text(f),
                Ok(entries) => {
                    let n = if entries@.len() < walk_count(limit) {
                        entries@.len() as int
                    } else {
                        walk_count(limit)
                    };
                    match first_walk_failure(entries@, n) {
                        Some(f) => r matches Err(e) && e@ == failure_text(f),
                        None => r matches Ok(v) && describes_all(v@, entries@.take(n)),
                    }
                },
            },
    {
        if self.path.is_none() {
            return Err("未打开仓库".to_string());
        }
        match read {
            Err(f) => Err(f.message()),
            Ok(entries) => {
                let cap = walk_limit(limit);
                let n = if entries.len() < cap { entries.len() } else { cap };
                let mut out: Vec<CommitInfo> = Vec::new();
                let mut i: usize = 0;
                while i < n
                    invariant
                        i <= n <= entries.len(),
                        self.repo() is Some,
                        read == Ok::<Vec<Result<CommitRecord, GitFailure>>, GitFailure>(entries),
                        n == (if entries@.len() < walk_count(limit) {
                            entries@.len() as int
                        } else {
                            walk_count(limit)
                        }),
                        ids_well_formed(entries@),
                        first_walk_failure(entries@, i as int) is None,
                        describes_all(out@, entries@.take(i as int)),
                    decreases n - i,
                {
                    match &entries[i] {
                        Err(f) => {
                            proof {
                                assert(first_walk_failure(entries@, i + 1) == Some(*f));
                                lemma_first_walk_failure_stays(entries@, i + 1, n as int);
                            }
                            return Err(f.message());
                        },
                        Ok(c) => {
                            assert(entries@[i as int] matches Ok(c2) ==> c2.oid@.len() >= SHORT_HASH_CHARS);
                            let info = commit_to_info(c);
                            out.push(info);
                            proof {
                                let t = entries@.take(i + 1);
                                assert forall|j: int| 0 <= j < t.len() implies (#[trigger] t[j] matches Ok(c3)
                                    && describes(out@[j], c3)) by {
                                    if j < i {
                                        assert(t[j] == entries@.take(i as int)[j]);
                                    }
                                }
                            }
                        },
                    }
                    i = i + 1;
                }
                Ok(out)
            },
        }
    }

    /// The file diffs between two commits, from the changes the Git library found.
    pub fn get_diff(&self, read: Result<Vec<RawDelta>, GitFailure>) -> (r: Result<Vec<DiffInfo>, String>)
        ensures
            self.repo() is None ==> (r matches Err(e) && e@ == not_opened_text()),
            self.repo() is Some ==> match read {
                Err(f) => r matches Err(e) && e@ == failure_text(f),
                Ok(deltas) => diff_outcome(r, deltas@),
            },
    {
        if self.path.is_none() {
            return Err("未打开仓库".to_string());
        }
        match read {
            Err(f) => Err(f.message()),
            Ok(deltas) => process_diff(&deltas),
        }
    }

    /// The file diffs a commit made against its first parent, from the changes the Git
    /// library found.
    pub fn get_commit_diff(&self, read: Result<Vec<RawDelta>, GitFailure>) -> (r: Result<Vec<DiffInfo>, String>)
        ensures
            self.repo() is None ==> (r matches Err(e) && e@ == not_opened_text()),
            self.repo() is Some ==> match read {
                Err(f) => r matches Err(e) && e@ == failure_text(f),
                Ok(deltas) => diff_outcome(r, deltas@),
            },
    {
        self.get_diff(read)
    }

    /// The file diffs between the branches `branch1` and `branch2`, from the changes the Git
    /// library found.
    pub fn get_branch_diff(&self, branch1: &str, branch2: &str, read: Result<Vec<RawDelta>, BranchDiffFailure>) -> (r: Result<Vec<DiffInfo>, String>)
        ensures
            self.repo() is None ==> (r matches Err(e) && e@ == not_opened_text()),
            self.repo() is Some ==> match read {
                Err(f) => r matches Err(e) && e@ == branch_failure_text(f, branch1@, branch2@),
                Ok(deltas) => diff_outcome(r, deltas@),
            },
    {
        if self.path.is_none() {
            return Err("未打开仓库".to_string());
        }
        match read {
            Err(BranchDiffFailure::Git(f)) => Err(f.message()),
            Err(BranchDiffFailure::Lookup { second, detail }) => {
                let mut e = "查找分支 ".to_string();
                e.append(if second { branch2 } else { branch1 });
                e.append(" 失败: ");
                e.append(detail.as_str());
                Err(e)
            },
            Err(BranchDiffFailure::NoTarget { second }) => {
                let mut e = "分支 ".to_string();
                e.append(if second { branch2 } else { branch1 });
                e.append(" 无目标");
                Err(e)
            },
            Ok(deltas) => process_diff(&deltas),
        }
    }

    /// The commits since `since` that changed the file, from the history walk
    /// (the first `HISTORY_WALK_LIMIT` steps of it).
    pub fn get_file_history(&self, since: i64, read: Result<Vec<HistoryEntry>, GitFailure>) -> (r: Result<Vec<CommitInfo>, String>)
        requires
            read matches Ok(entries) ==> history_well_formed(entries@),
        ensures
            self.repo() is None ==> (r matches Err(e) && e@ == not_opened_text()),
            self.repo() is Some ==> match read {
                Err(f) => r matches Err(e) && e@ == failure_text(f),
                Ok(entries) => {
                    let walked = if entries@.len() < HISTORY_WALK_LIMIT {
                        entries@
                    } else {
                        entries@.take(HISTORY_WALK_LIMIT as int)
                    };
                    match history_from(walked, 0, Set::empty(), since) {
                        Err(f) => r matches Err(e) && e@ == failure_text(f),
                        Ok(recs) => r matches Ok(v) && describes_records(v@, recs) && forall|k: int, l: int|
                            0 <= k < l < v@.len() ==> #[trigger] v@[k].hash@ != #[trigger] v@[l].hash@,
                    }
                },
            },
    {
        if self.path.is_none() {
            return Err("未打开仓库".to_string());
        }
        match read {
            Err(f) => Err(f.message()),
            Ok(entries) => {
                let n = if entries.len() < HISTORY_WALK_LIMIT { entries.len() } else { HISTORY_WALK_LIMIT };
                let ghost walked = entries@.take(n as int);
                proof {
                    assert forall|k: int| 0 <= k < walked.len() implies (#[trigger] walked[k] matches HistoryEntry::Commit { oid, found }
                        ==> (found matches Ok((c, _)) ==> c.oid@.len() >= SHORT_HASH_CHARS && c.oid@ == oid@)) by {
                        assert(walked[k] == entries@[k]);
                    }
                    lemma_history_distinct(walked, 0, Set::empty(), since);
                }
                assert(walked =~= if entries@.len() < HISTORY_WALK_LIMIT {
                    entries@
                } else {
                    entries@.take(HISTORY_WALK_LIMIT as int)
                });
                let mut seen: Vec<String> = Vec::new();
                let mut out: Vec<CommitInfo> = Vec::new();
                let mut i: usize = 0;
                let ghost mut kept: Seq<CommitRecord> = Seq::empty();
                assert(seen@.map_values(|s: String| s@).to_set() =~= Set::<Seq<char>>::empty());
                proof {
                    match history_from(walked, 0, Set::empty(), since) {
                        Err(_) => {},
                        Ok(rest) => {
                            assert(kept + rest =~= rest);
                        },
                    }
                }
                while i < n
                    invariant
                        i <= n <= entries.len(),
                        self.repo() is Some,
                        read == Ok::<Vec<HistoryEntry>, GitFailure>(entries),
                        walked == (if entries@.len() < HISTORY_WALK_LIMIT {
                            entries@
                        } else {
                            entries@.take(HISTORY_WALK_LIMIT as int)
                        }),
                        walked == entries@.take(n as int),
                        history_well_formed(entries@),
                        history_from(walked, 0, Set::empty(), since) matches Ok(recs) ==> distinct_ids(
                            recs,
                            Set::empty(),
                        ),
                        history_from(walked, 0, Set::empty(), since) == match history_from(
                            walked,
                            i as int,
                            seen@.map_values(|s: String| s@).to_set(),
                            since,
                        ) {
                            Err(f) => Err(f),
                            Ok(rest) => Ok(kept + rest),
                        },
                        describes_records(out@, kept),
                    decreases n - i,
                {
                    let ghost seen_set = seen@.map_values(|s: String| s@).to_set();
                    match &entries[i] {
                        HistoryEntry::WalkFailed(f) => {
                            assert(walked[i as int] == entries@[i as int]);
                            return Err(f.message());
                        },
                        HistoryEntry::Commit { oid, found } => {
                            assert(walked[i as int] == entries@[i as int]);
                            let already = contains_text_in(&seen, oid.as_str());
                            if already {
                                assert(seen_set.contains(oid@));
                            } else {
                                assert(!seen_set.contains(oid@));
                                match found {
                                    Err(f) => {
                                        return Err(f.message());
                                    },
                                    Ok((c, file)) => {
                                        if c.time < since {
                                            assert(kept + Seq::<CommitRecord>::empty() =~= kept);
                                            assert(walked[i as int] == entries@[i as int]);
                                            assert(history_from(walked, i as int, seen_set, since) == Ok::<Seq<CommitRecord>, GitFailure>(Seq::empty()));
                                            proof {
                                                lemma_distinct_hashes(out@, kept);
                                            }
                                            return Ok(out);
                                        }
                                        let ghost old_seen = seen@;
                                        seen.push(oid.clone());
                                        assert(seen@.map_values(|s: String| s@).to_set() =~= seen_set.insert(oid@)) by {
                                            assert(seen@.map_values(|s: String| s@) =~= old_seen.map_values(|s: String| s@).push(oid@));
                                            lemma_push_to_set(old_seen.map_values(|s: String| s@), oid@);
                                        }
                                        if file_changed(file) {
                                            assert(entries@[i as int] matches HistoryEntry::Commit { found, .. });
                                            out.push(commit_to_info(c));
                                            proof {
                                                let old_kept = kept;
                                                kept = kept.push(*c);
                                                assert(old_kept + (seq![*c] + history_from(walked, i + 1, seen_set.insert(oid@), since)->Ok_0) =~= kept + history_from(walked, i + 1, seen_set.insert(oid@), since)->Ok_0);
                                            }
                                        }
                                    },
                                }
                            }
                        },
                    }
                    i = i + 1;
                }
                assert(history_from(walked, n as int, seen@.map_values(|s: String| s@).to_set(), since) == Ok::<Seq<CommitRecord>, GitFailure>(Seq::empty()));
                assert(kept + Seq::<CommitRecord>::empty() =~= kept);
                proof {
                    lemma_distinct_hashes(out@, kept);
                }
                Ok(out)
            },
        }
    }
}

/// Whether some string of `v` equals `s`.
fn contains_text_in(v: &Vec<String>, s: &str) -> (r: bool)
    ensures
        r == v@.map_values(|x: String| x@).to_set().contains(s@),
{
    let mut i: usize = 0;
    while i < v.len()
        invariant
            i <= v.len(),
            forall|k: int| 0 <= k < i ==> v@[k]@ != s@,
        decreases v.len() - i,
    {
        if same_text(v[i].as_str(), s) {
            assert(v@.map_values(|x: String| x@)[i as int] == s@);
            return true;
        }
        i = i + 1;
    }
    assert(!v@.map_values(|x: String| x@).contains(s@));
    false
}

proof fn lemma_push_to_set(s: Seq<Seq<char>>, x: Seq<char>)
    ensures
        s.push(x).to_set() == s.to_set().insert(x),
{
    assert(s.push(x).to_set() =~= s.to_set().insert(x)) by {
        assert forall|y: Seq<char>| s.push(x).to_set().contains(y) <==> s.to_set().insert(x).contains(y) by {
            if s.push(x).contains(y) && y != x {
                let k = choose|k: int| 0 <= k < s.push(x).len() && s.push(x)[k] == y;
                assert(s[k] == y);
            }
            if s.contains(y) {
                let k = choose|k: int| 0 <= k < s.len() && s[k] == y;
                assert(s.push(x)[k] == y);
            }
            if y == x {
                assert(s.push(x)[s.len() as int] == x);
            }
        }
    }
}

proof fn lemma_first_walk_failure_stays(entries: Seq<Result<CommitRecord, GitFailure>>, n: int, m: int)
    requires
        0 <= n <= m,
        first_walk_failure(entries, n) is Some,
    ensures
        first_walk_failure(entries, m) == first_walk_failure(entries, n),
    decreases m - n,
{
    if n < m {
        lemma_first_walk_failure_stays(entries, n, m - 1);
    }
}

} // verus!
