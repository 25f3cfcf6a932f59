use gitx::tools::{tool_defs, 
    branches_to_json, commit_listing_limit, commits_to_json, format_diff, plan_tool_call, tool_reply,
    tool_repo, truncate_result, ToolAnswer, ToolQuery, ToolStep,
};
use gitx::{CommitInfo, DiffInfo};

fn diff(file: &str, patch: &str, added: i32, deleted: i32) -> DiffInfo {
    DiffInfo { file: file.to_string(), patch: patch.to_string(), added, deleted }
}

fn commit() -> CommitInfo {
    CommitInfo {
        hash: "0123456789abcdef".to_string(),
        short_hash: "0123456".to_string(),
        message: "msg".to_string(),
        author: "tester".to_string(),
        email: "t@x.com".to_string(),
        timestamp: "0".to_string(),
    }
}

#[test]
fn commit_info_serializes_camel_case() {
    let info = commit();
    let json = info.to_json();
    assert!(json.contains("\"shortHash\""), "expected camelCase shortHash in JSON, got: {}", json);
    assert!(!json.contains("short_hash"), "snake_case leaked into JSON: {}", json);
}

#[test]
fn commit_json_matches_serde_json() {
    let json = commit().to_json();
    let v: serde_json::Value = serde_json::from_str(&json).unwrap();
    assert_eq!(v["shortHash"], "0123456");
    assert_eq!(v["author"], "tester");
    assert_eq!(
        json,
        "{\"author\":\"tester\",\"email\":\"t@x.com\",\"hash\":\"0123456789abcdef\",\"message\":\"msg\",\"shortHash\":\"0123456\",\"timestamp\":\"0\"}"
    );
    let mut odd = commit();
    odd.message = "say \"hi\"\n\\".to_string();
    let v: serde_json::Value = serde_json::from_str(&odd.to_json()).unwrap();
    assert_eq!(v["message"], "say \"hi\"\n\\");
    assert_eq!(commits_to_json(&vec![]), "[]");
    let two = commits_to_json(&vec![commit(), commit()]);
    let v: serde_json::Value = serde_json::from_str(&two).unwrap();
    assert_eq!(v.as_array().unwrap().len(), 2);
}

#[test]
fn branch_list_json() {
    assert_eq!(
        branches_to_json(&vec!["dev".to_string(), "main".to_string()]),
        "{\"branches\":[\"dev\",\"main\"],\"count\":2}"
    );
    assert_eq!(branches_to_json(&vec![]), "{\"branches\":[],\"count\":0}");
}

#[test]
fn diff_listing_layout_and_patch_cut() {
    let out = format_diff(&[diff("a.rs", "+x\n", 1, 0), diff("b.rs", "-y\n", 0, -1)]);
    assert_eq!(out, "File: a.rs (+1 -0)\n+x\n\nFile: b.rs (+0 --1)\n-y\n");
    let long = "p".repeat(2001);
    let out = format_diff(&[diff("c", &long, 2001, 0)]);
    assert_eq!(out, format!("File: c (+2001 -0)\n{}\n...(truncated)", "p".repeat(2000)));
    assert_eq!(format_diff(&[]), "");
}

#[test]
fn results_are_cut_to_25000_chars() {
    let s = "r".repeat(25000);
    assert_eq!(truncate_result(s.clone()), s);
    let s = "r".repeat(25001);
    assert_eq!(truncate_result(s), format!("{}\n\n...(内容过长已截断)", "r".repeat(25000)));
}

#[test]
fn repository_is_required() {
    assert_eq!(tool_repo(&None), Err("错误：未打开仓库，无法执行工具".to_string()));
    assert_eq!(tool_repo(&Some(String::new())), Err("错误：未打开仓库，无法执行工具".to_string()));
    assert_eq!(tool_repo(&Some("/r".to_string())), Ok("/r".to_string()));
}

fn reply(step: ToolStep) -> String {
    match step {
        ToolStep::Reply(r) => r,
        ToolStep::Query(_) => panic!("expected a reply"),
    }
}

#[test]
fn planning_tool_calls() {
    assert_eq!(
        reply(plan_tool_call("get_branches", "{}", Err("打开仓库失败: x".to_string()))),
        "打开仓库失败: 打开仓库失败: x"
    );
    assert!(matches!(plan_tool_call("get_branches", "", Ok(())), ToolStep::Query(ToolQuery::Branches)));
    assert!(matches!(
        plan_tool_call("get_current_branch", "not json", Ok(())),
        ToolStep::Query(ToolQuery::CurrentBranch)
    ));
    assert_eq!(
        reply(plan_tool_call("get_branch_diff", "{\"branch1\":\"main\"}", Ok(()))),
        "缺少必要参数: branch1, branch2"
    );
    match plan_tool_call("get_branch_diff", "{\"branch1\":\"main\",\"branch2\":\"dev\"}", Ok(())) {
        ToolStep::Query(ToolQuery::BranchDiff { branch1, branch2 }) => {
            assert_eq!(branch1, "main");
            assert_eq!(branch2, "dev");
        }
        _ => panic!("expected a branch diff"),
    }
    match plan_tool_call("get_commits", "{\"branch\":\"dev\",\"limit\":5}", Ok(())) {
        ToolStep::Query(ToolQuery::Commits { branch, limit }) => {
            assert_eq!(branch.as_deref(), Some("dev"));
            assert_eq!(limit, 5);
        }
        _ => panic!("expected commits"),
    }
    match plan_tool_call("get_commits", "{\"limit\":4294967297}", Ok(())) {
        ToolStep::Query(ToolQuery::Commits { branch, limit }) => {
            assert_eq!(branch, None);
            assert_eq!(limit, 100);
        }
        _ => panic!("expected commits"),
    }
    match plan_tool_call("get_commits", "{\"limit\":-3}", Ok(())) {
        ToolStep::Query(ToolQuery::Commits { limit, .. }) => assert_eq!(limit, 1),
        _ => panic!("expected commits"),
    }
    match plan_tool_call("get_commits", "{}", Ok(())) {
        ToolStep::Query(ToolQuery::Commits { limit, .. }) => assert_eq!(limit, 20),
        _ => panic!("expected commits"),
    }
    assert_eq!(reply(plan_tool_call("get_file_history", "{}", Ok(()))), "缺少必要参数: file");
    assert_eq!(
        reply(plan_tool_call("get_file_history", "{\"file\":\"a\",\"time_range\":\"soon\"}", Ok(()))),
        "时间范围解析失败: invalid time range format: soon"
    );
    match plan_tool_call("get_file_history", "{\"file\":\"src/a.rs\"}", Ok(())) {
        ToolStep::Query(ToolQuery::FileHistory { file, since }) => {
            assert_eq!(file, "src/a.rs");
            let now = chrono::Local::now().timestamp();
            assert!((now - 3 * 86_400 - since).abs() <= 5);
        }
        _ => panic!("expected a file history"),
    }
    assert_eq!(reply(plan_tool_call("get_diff", "{\"from\":\"a\"}", Ok(()))), "缺少必要参数: from, to");
    assert!(matches!(
        plan_tool_call("get_diff", "{\"from\":\"a\",\"to\":\"b\"}", Ok(())),
        ToolStep::Query(ToolQuery::Diff { .. })
    ));
    assert_eq!(reply(plan_tool_call("drop_tables", "{}", Ok(()))), "unknown tool: drop_tables");
}

#[test]
fn replies_to_the_agent() {
    assert_eq!(
        tool_reply(ToolAnswer::Branches(Ok(vec!["main".to_string()]))),
        "{\"branches\":[\"main\"],\"count\":1}"
    );
    assert_eq!(
        tool_reply(ToolAnswer::CurrentBranch(Ok("main".to_string()))),
        "{\"current_branch\":\"main\"}"
    );
    assert_eq!(tool_reply(ToolAnswer::BranchDiff(Ok(vec![]))), "{\"message\":\"两个分支没有差异\"}");
    assert_eq!(tool_reply(ToolAnswer::CommitDiff(Ok(vec![]))), "{\"message\":\"两个提交没有差异\"}");
    assert_eq!(
        tool_reply(ToolAnswer::CommitDiff(Ok(vec![diff("a", "+x", 1, 0)]))),
        "File: a (+1 -0)\n+x"
    );
    assert_eq!(
        tool_reply(ToolAnswer::Commits(Err("查找提交失败: x".to_string()))),
        "工具执行失败: 查找提交失败: x"
    );
    assert_eq!(tool_reply(ToolAnswer::Commits(Ok(vec![]))), "[]");
}

#[test]
fn frontend_commit_limit_is_clamped() {
    assert_eq!(commit_listing_limit(None), 20);
    assert_eq!(commit_listing_limit(Some(-5)), 1);
    assert_eq!(commit_listing_limit(Some(0)), 1);
    assert_eq!(commit_listing_limit(Some(50)), 50);
    assert_eq!(commit_listing_limit(Some(1000)), 100);
}

#[test]
fn strings_are_escaped_as_json() {
    assert_eq!(
        branches_to_json(&vec!["a\"b\\c".to_string(), "\u{8}\t\n\u{c}\r\u{1}\u{1f}é/".to_string()]),
        "{\"branches\":[\"a\\\"b\\\\c\",\"\\b\\t\\n\\f\\r\\u0001\\u001fé/\"],\"count\":2}"
    );
}

#[test]
fn calls_without_arguments() {
    assert_eq!(reply(plan_tool_call("get_branch_diff", "{}", Ok(()))), "缺少必要参数: branch1, branch2");
    assert_eq!(reply(plan_tool_call("get_diff", "{}", Ok(()))), "缺少必要参数: from, to");
    assert_eq!(reply(plan_tool_call("get_file_history", "{}", Ok(()))), "缺少必要参数: file");
    match plan_tool_call("get_commits", "{}", Ok(())) {
        ToolStep::Query(ToolQuery::Commits { branch, limit }) => {
            assert_eq!(branch, None);
            assert_eq!(limit, 20);
        }
        _ => panic!("expected commits"),
    }
    for name in ["get_branches", "get_current_branch"] {
        assert!(matches!(plan_tool_call(name, "{}", Ok(())), ToolStep::Query(_)));
    }
}

#[test]
fn six_tools_are_offered() {
    let defs = tool_defs();
    let names: Vec<&str> = defs.iter().map(|d| d.name.as_str()).collect();
    assert_eq!(
        names,
        vec!["get_branches", "get_current_branch", "get_branch_diff", "get_commits", "get_file_history", "get_diff"]
    );
    let required: Vec<Vec<&str>> = defs.iter().map(|d| d.required.iter().map(|r| r.as_str()).collect()).collect();
    assert_eq!(required, vec![vec![], vec![], vec!["branch1", "branch2"], vec![], vec!["file"], vec!["from", "to"]]);
    assert_eq!(defs[3].params[1].name, "limit");
    assert_eq!(defs[3].params[1].kind, "integer");
    for d in &defs {
        assert!(!matches!(plan_tool_call(&d.name, "{}", Ok(())), ToolStep::Reply(ref r) if r.starts_with("unknown tool")));
    }
}
