use gitx::git::{
    branch_ref, commit_to_info, count_adds, count_dels, file_changed, process_diff, revision_spec, sort_texts,
    walk_limit, BranchDiffFailure, CommitRecord, DiffLine, GitFailure, GitState, GitStep, HeadInfo,
    FileVersions, HistoryEntry, PatchOutput, RawDelta,
};

fn record(oid: &str, time: i64) -> CommitRecord {
    CommitRecord {
        oid: oid.to_string(),
        message: Some("fix: things".to_string()),
        author_name: Some("tester".to_string()),
        author_email: Some("t@x.com".to_string()),
        time,
    }
}

fn opened() -> GitState {
    GitState::from_path("/repo", Ok(())).ok().unwrap()
}

fn failure(step: GitStep, detail: &str) -> GitFailure {
    GitFailure { step, detail: detail.to_string() }
}

#[test]
fn opening_a_repository() {
    let g = GitState::new();
    assert_eq!(g.path(), None);
    assert_eq!(g.opened_path(), Err("未打开仓库".to_string()));
    let g = opened();
    assert_eq!(g.path(), Some("/repo"));
    assert_eq!(g.opened_path(), Ok("/repo".to_string()));
    assert_eq!(
        GitState::from_path("/nope", Err("not a repo".to_string())).err(),
        Some("打开仓库失败: not a repo".to_string())
    );
    let mut g = opened();
    assert_eq!(
        g.open_repo("/other", Err("denied".to_string())),
        Err("打开仓库失败: denied".to_string())
    );
    assert_eq!(g.path(), Some("/repo"));
    assert_eq!(g.open_repo("/other", Ok(())), Ok(()));
    assert_eq!(g.path(), Some("/other"));
}

#[test]
fn queries_need_an_open_repository() {
    let g = GitState::new();
    assert_eq!(
        g.get_current_branch(Err(failure(GitStep::Head, "x"))),
        Err("未打开仓库".to_string())
    );
    assert_eq!(g.get_branches(Ok(vec![])), Err("未打开仓库".to_string()));
    assert_eq!(g.get_diff(Ok(vec![])).err(), Some("未打开仓库".to_string()));
}

#[test]
fn current_branch_name_or_detached_hash() {
    let g = opened();
    let head = HeadInfo { is_branch: true, shorthand: Some("main".to_string()), target: None };
    assert_eq!(g.get_current_branch(Ok(head)), Ok("main".to_string()));
    let head = HeadInfo { is_branch: true, shorthand: None, target: None };
    assert_eq!(g.get_current_branch(Ok(head)), Ok("unknown".to_string()));
    let head = HeadInfo {
        is_branch: false,
        shorthand: None,
        target: Some("0123456789abcdef0123456789abcdef01234567".to_string()),
    };
    assert_eq!(g.get_current_branch(Ok(head)), Ok("0123456".to_string()));
    let head = HeadInfo { is_branch: false, shorthand: None, target: None };
    assert_eq!(g.get_current_branch(Ok(head)), Err("HEAD 无目标".to_string()));
    assert_eq!(
        g.get_current_branch(Err(failure(GitStep::Head, "unborn"))),
        Err("获取 HEAD 失败: unborn".to_string())
    );
}

#[test]
fn branches_are_sorted_and_unreadable_names_dropped() {
    let g = opened();
    let names = vec![
        Some("main".to_string()),
        None,
        Some("dev".to_string()),
        Some("feature/x".to_string()),
        Some("Zeta".to_string()),
        Some("分支".to_string()),
    ];
    assert_eq!(
        g.get_branches(Ok(names)),
        Ok(vec![
            "Zeta".to_string(),
            "dev".to_string(),
            "feature/x".to_string(),
            "main".to_string(),
            "分支".to_string()
        ])
    );
    assert_eq!(
        g.get_branches(Err(failure(GitStep::ListBranches, "io"))),
        Err("获取分支失败: io".to_string())
    );
}

#[test]
fn sorting_matches_std_order() {
    let v: Vec<String> = ["b", "a", "ab", "", "B", "a"].iter().map(|s| s.to_string()).collect();
    let mut expected = v.clone();
    expected.sort();
    assert_eq!(sort_texts(&v), expected);
}

#[test]
fn commit_info_from_record() {
    let mut r = record("0123456789abcdef0123456789abcdef01234567", -5);
    r.message = Some("m".repeat(150));
    let info = commit_to_info(&r);
    assert_eq!(info.hash, "0123456789abcdef0123456789abcdef01234567");
    assert_eq!(info.short_hash, "0123456");
    assert_eq!(info.message, "m".repeat(100));
    assert_eq!(info.author, "tester");
    assert_eq!(info.email, "t@x.com");
    assert_eq!(info.timestamp, "-5");
    let bare = CommitRecord {
        oid: "abcdefgh".to_string(),
        message: None,
        author_name: None,
        author_email: None,
        time: 1700000000,
    };
    let info = commit_to_info(&bare);
    assert_eq!(info.message, "");
    assert_eq!(info.author, "unknown");
    assert_eq!(info.email, "");
    assert_eq!(info.timestamp, "1700000000");
}

#[test]
fn commit_listing_respects_the_limit_and_stops_at_failures() {
    let g = opened();
    let entries = vec![
        Ok(record("1111111aaaa", 3)),
        Ok(record("2222222bbbb", 2)),
        Err(failure(GitStep::FindCommit, "gone")),
    ];
    let two = g.get_commits(2, Ok(entries)).ok().unwrap();
    assert_eq!(two.len(), 2);
    assert_eq!(two[1].short_hash, "2222222");
    let entries = vec![Ok(record("1111111aaaa", 3)), Err(failure(GitStep::FindCommit, "gone"))];
    assert_eq!(
        g.get_commits(5, Ok(entries)).err(),
        Some("查找提交失败: gone".to_string())
    );
    assert_eq!(
        g.get_commits(5, Err(failure(GitStep::ResolveRevision, "no such ref"))).err(),
        Some("解析引用失败: no such ref".to_string())
    );
    let entries = vec![Ok(record("1111111aaaa", 3))];
    assert_eq!(g.get_commits(-1, Ok(entries)).ok().unwrap().len(), 1);
}

#[test]
fn revisions_and_limits() {
    assert_eq!(revision_spec(None), "HEAD");
    assert_eq!(revision_spec(Some("dev")), "refs/heads/dev");
    assert_eq!(branch_ref("main"), "refs/heads/main");
    assert_eq!(walk_limit(20), 20);
    assert_eq!(walk_limit(0), 0);
    assert_eq!(walk_limit(-1), usize::MAX);
    assert_eq!(walk_limit(i32::MIN), (i32::MIN as i64) as usize);
}

#[test]
fn counting_added_and_deleted_lines() {
    let lines = vec![
        line('F', "diff --git a/f b/f\n"),
        line('H', "@@ -1,2 +1,3 @@\n"),
        line('+', "++double"),
        line('-', "--- not a header"),
        line(' ', "context\n"),
        line('+', "new\n"),
        line('>', "\\ No newline at end of file\n"),
    ];
    assert_eq!(count_adds(&lines), 2);
    assert_eq!(count_dels(&lines), 1);
    assert_eq!(count_adds(&vec![]), 0);
    assert_eq!(count_dels(&vec![line('+', "x")]), 0);
}

fn line(origin: char, content: &str) -> DiffLine {
    DiffLine { origin, content: content.as_bytes().to_vec() }
}

#[test]
fn patches_are_printed_with_headers() {
    let deltas = vec![
        RawDelta {
            old_path: Some("src/a.rs".to_string()),
            new_path: Some("src/a.rs".to_string()),
            patch: PatchOutput::Lines(vec![
                line('H', "@@ -1 +1 @@\n"),
                line('-', "old  \n"),
                line('+', "new\t\n"),
                line(' ', "same\n"),
            ]),
        },
        RawDelta { old_path: None, new_path: Some("bin.png".to_string()), patch: PatchOutput::Missing },
        RawDelta {
            old_path: Some("gone.txt".to_string()),
            new_path: None,
            patch: PatchOutput::Lines(vec![DiffLine { origin: '-', content: vec![0xff, 0xfe] }]),
        },
    ];
    let out = process_diff(&deltas).ok().unwrap();
    assert_eq!(out.len(), 3);
    assert_eq!(out[0].file, "src/a.rs");
    assert_eq!(out[0].patch, "--- a/src/a.rs\n+++ b/src/a.rs\n@@ -1 +1 @@-old\n+new\n same\n");
    assert_eq!(out[0].added, 1);
    assert_eq!(out[0].deleted, 1);
    assert_eq!(out[1].file, "bin.png");
    assert_eq!(out[1].patch, "");
    assert_eq!(out[1].added, 0);
    assert_eq!(out[2].file, "gone.txt");
    assert_eq!(out[2].patch, "--- a/gone.txt\n+++ b/gone.txt\n-\n");
    assert_eq!(out[2].deleted, 1);
}

#[test]
fn print_failures_stop_the_diff() {
    let deltas = vec![
        RawDelta { old_path: None, new_path: Some("a".to_string()), patch: PatchOutput::Missing },
        RawDelta {
            old_path: None,
            new_path: Some("b".to_string()),
            patch: PatchOutput::PrintFailed("callback".to_string()),
        },
    ];
    assert_eq!(process_diff(&deltas).err(), Some("打印 patch 失败: callback".to_string()));
}

#[test]
fn branch_diff_failures_name_the_branch() {
    let g = opened();
    assert_eq!(
        g.get_branch_diff("main", "dev", Err(BranchDiffFailure::Lookup { second: true, detail: "not found".to_string() })).err(),
        Some("查找分支 dev 失败: not found".to_string())
    );
    assert_eq!(
        g.get_branch_diff("main", "dev", Err(BranchDiffFailure::NoTarget { second: false })).err(),
        Some("分支 main 无目标".to_string())
    );
    assert_eq!(
        g.get_branch_diff("main", "dev", Err(BranchDiffFailure::Git(failure(GitStep::ComputeBranchDiff, "x")))).err(),
        Some("计算分支差异失败: x".to_string())
    );
    assert_eq!(g.get_branch_diff("main", "dev", Ok(vec![])).ok().unwrap().len(), 0);
    assert_eq!(
        g.get_commit_diff(Err(failure(GitStep::ParseHash, "bad"))).err(),
        Some("无效的提交哈希: bad".to_string())
    );
}

fn versions(here: Option<&str>, parent: Option<Option<&str>>) -> Option<FileVersions> {
    Some(FileVersions {
        here: here.map(|s| s.to_string()),
        parent: parent.map(|p| p.map(|s| s.to_string())),
    })
}

fn commit_entry(oid: &str, time: i64, touches: bool) -> HistoryEntry {
    let file = if touches { versions(Some("b2"), Some(Some("b1"))) } else { versions(Some("b1"), Some(Some("b1"))) };
    HistoryEntry::Commit { oid: oid.to_string(), found: Ok((record(oid, time), file)) }
}

#[test]
fn a_commit_counts_when_it_changes_the_file() {
    assert!(file_changed(&versions(Some("b2"), Some(Some("b1")))));
    assert!(file_changed(&versions(Some("b1"), Some(None))));
    assert!(file_changed(&versions(None, Some(Some("b1")))));
    assert!(file_changed(&versions(Some("b1"), None)));
    assert!(!file_changed(&versions(Some("b1"), Some(Some("b1")))));
    assert!(!file_changed(&versions(None, Some(None))));
    assert!(!file_changed(&versions(None, None)));
    assert!(!file_changed(&None));

    let g = opened();
    let entries = vec![
        HistoryEntry::Commit {
            oid: "aaaaaaa1".to_string(),
            found: Ok((record("aaaaaaa1", 100), versions(Some("b1"), Some(Some("b1"))))),
        },
        HistoryEntry::Commit {
            oid: "bbbbbbb2".to_string(),
            found: Ok((record("bbbbbbb2", 90), versions(Some("b1"), None))),
        },
    ];
    let out = g.get_file_history(0, Ok(entries)).ok().unwrap();
    let hashes: Vec<&str> = out.iter().map(|c| c.short_hash.as_str()).collect();
    assert_eq!(hashes, vec!["bbbbbbb"]);
}

#[test]
fn file_history_walks_back_to_the_start_of_the_range() {
    let g = opened();
    let entries = vec![
        commit_entry("aaaaaaa1", 100, true),
        commit_entry("bbbbbbb2", 90, false),
        commit_entry("aaaaaaa1", 100, true),
        commit_entry("ccccccc3", 80, true),
        commit_entry("ddddddd4", 10, true),
        commit_entry("eeeeeee5", 70, true),
    ];
    let out = g.get_file_history(50, Ok(entries)).ok().unwrap();
    let hashes: Vec<&str> = out.iter().map(|c| c.short_hash.as_str()).collect();
    assert_eq!(hashes, vec!["aaaaaaa", "ccccccc"]);
}

#[test]
fn file_history_reports_failures() {
    let g = opened();
    let entries = vec![
        commit_entry("aaaaaaa1", 100, true),
        HistoryEntry::WalkFailed(failure(GitStep::WalkCommits, "corrupt")),
    ];
    assert_eq!(
        g.get_file_history(0, Ok(entries)).err(),
        Some("遍历提交失败: corrupt".to_string())
    );
    let entries = vec![HistoryEntry::Commit {
        oid: "aaaaaaa1".to_string(),
        found: Err(failure(GitStep::FindCommit, "missing")),
    }];
    assert_eq!(
        g.get_file_history(0, Ok(entries)).err(),
        Some("查找提交失败: missing".to_string())
    );
    assert_eq!(
        g.get_file_history(0, Err(failure(GitStep::PushGlob, "bad glob"))).err(),
        Some("push glob 失败: bad glob".to_string())
    );
}

#[test]
fn mirrored_changes_swap_the_counts() {
    let forward = vec![
        RawDelta {
            old_path: Some("a.rs".to_string()),
            new_path: Some("a.rs".to_string()),
            patch: PatchOutput::Lines(vec![line('H', "@@ -1,2 +1,2 @@\n"), line('-', "x\n"), line('+', "y\n"), line('+', "z\n")]),
        },
        RawDelta { old_path: None, new_path: Some("new.txt".to_string()), patch: PatchOutput::Lines(vec![line('+', "hi\n")]) },
    ];
    let backward = vec![
        RawDelta {
            old_path: Some("a.rs".to_string()),
            new_path: Some("a.rs".to_string()),
            patch: PatchOutput::Lines(vec![line('H', "@@ -1,2 +1,2 @@\n"), line('+', "x\n"), line('-', "y\n"), line('-', "z\n")]),
        },
        RawDelta { old_path: Some("new.txt".to_string()), new_path: None, patch: PatchOutput::Lines(vec![line('-', "hi\n")]) },
    ];
    let x = process_diff(&forward).ok().unwrap();
    let y = process_diff(&backward).ok().unwrap();
    assert_eq!(x.len(), y.len());
    for (a, b) in x.iter().zip(y.iter()) {
        assert_eq!(a.file, b.file);
        assert_eq!(a.added, b.deleted);
        assert_eq!(a.deleted, b.added);
    }
    assert_eq!((x[0].added, x[0].deleted), (2, 1));
}
