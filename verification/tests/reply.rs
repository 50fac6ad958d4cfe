use mnem_global::reply::{cli_global_output, mcp_global_reply, FoundResult};
use mnem_global::targets::Target;

fn target(path: &str, label: &str) -> Target {
    Target { path: path.to_string(), label: label.to_string() }
}

fn found(id: &str, score: u32, rendered: &str) -> FoundResult {
    FoundResult {
        id: id.to_string(),
        score,
        score_text: format!("0.{score:04}"),
        tokens: score,
        ntype: "Memory".to_string(),
        rendered: rendered.to_string(),
        summary: None,
        props: vec![],
    }
}

#[test]
fn mcp_reply_merges_dedups_ranks_and_labels() {
    let searched = vec![
        (target("/g", "[global]"), vec![found("a", 10, "A"), found("b", 30, "")]),
        (target("/r/x", "[work]"), vec![found("b", 99, "dup"), found("c", 20, "C")]),
        (target("/r/y", "[/r/y]"), vec![]),
    ];
    assert_eq!(
        mcp_global_reply(searched, 2),
        "mnem_global_retrieve: 2 item(s) across 3 repo(s)\n  [0] score=0.0030 tokens=30 [global] id=b Memory\n  [1] score=0.0020 tokens=20 [work] id=c Memory\n        C\n"
    );
}

#[test]
fn mcp_reply_without_results() {
    let searched = vec![(target("/g", "[global]"), vec![])];
    assert_eq!(mcp_global_reply(searched, 5), "mnem_global_retrieve: 0 item(s) across 1 repo(s)\n");
}

#[test]
fn cli_output_labels_every_result_with_its_path() {
    let searched = vec![
        (target("/h/.mnemglobal", "[global]"), vec![found("a", 5, "")]),
        (target("/r/x", "[/r/x]"), vec![found("c", 7, "")]),
    ];
    assert_eq!(
        cli_global_output(searched, 10),
        "Found 2 result(s) across 2 repo(s):\n\n---\n[0] score=0.0007 tokens=7 [/r/x] id=c Memory\n---\n[1] score=0.0005 tokens=5 [/h/.mnemglobal] id=a Memory\n"
    );
}

#[test]
fn cli_output_no_results_and_zero_limit() {
    let empty = vec![(target("/g", "[global]"), vec![]), (target("/r", "[/r]"), vec![])];
    assert_eq!(cli_global_output(empty, 10), "No results found across 2 repo(s).\n");
    let some = vec![(target("/g", "[global]"), vec![found("a", 1, "")])];
    assert_eq!(cli_global_output(some, 0), "Found 0 result(s) across 1 repo(s):\n\n");
}
