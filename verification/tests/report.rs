use mnem_global::hits::Hit;
use mnem_global::report::{
    cli_found_heading, cli_hit_heading, cli_no_results, cli_output, cli_props_line,
    cli_summary_line, mcp_no_repos_report, mcp_report, CliHit, McpHit,
};

fn mhit(id: &str, score: &str, tokens: u32, rendered: &str, ntype: &str, source: &str) -> Hit<McpHit> {
    Hit {
        id: id.to_string(),
        score: 0,
        payload: McpHit {
            score_text: score.to_string(),
            tokens,
            rendered: rendered.to_string(),
            ntype: ntype.to_string(),
            source: source.to_string(),
        },
    }
}

#[test]
fn mcp_report_lists_results() {
    let hits = vec![
        mhit("u1", "0.9000", 12, "Alice works at Acme\nsince 2020", "Memory", "[global]"),
        mhit("u2", "0.5000", 3, "", "Entity:Person", "[notes]"),
    ];
    assert_eq!(
        mcp_report(&hits, 2),
        "mnem_global_retrieve: 2 item(s) across 2 repo(s)\n\
         \x20 [0] score=0.9000 tokens=12 [global] id=u1 Memory\n\
         \x20       Alice works at Acme\n\
         \x20       since 2020\n\
         \x20 [1] score=0.5000 tokens=3 [notes] id=u2 Entity:Person\n"
    );
}

#[test]
fn mcp_report_without_results() {
    assert_eq!(mcp_report(&vec![], 3), "mnem_global_retrieve: 0 item(s) across 3 repo(s)\n");
}

#[test]
fn mcp_report_crlf_lines() {
    let hits = vec![mhit("u", "1.0000", 0, "a\r\nb\n", "T", "[g]")];
    assert_eq!(
        mcp_report(&hits, 1),
        "mnem_global_retrieve: 1 item(s) across 1 repo(s)\n  [0] score=1.0000 tokens=0 [g] id=u T\n        a\n        b\n"
    );
}

#[test]
fn mcp_no_repos() {
    assert_eq!(
        mcp_no_repos_report(),
        "mnem_global_retrieve: no repos registered. Run `mnem integrate` then `mnem init`.\n"
    );
}

#[test]
fn cli_lines() {
    assert_eq!(cli_no_results(4), "No results found across 4 repo(s).");
    assert_eq!(cli_found_heading(2, 3), "Found 2 result(s) across 3 repo(s):\n");
    assert_eq!(
        cli_hit_heading(0, "0.1234", 7, "[global]", "abc", "Memory"),
        "---\n[0] score=0.1234 tokens=7 [global] id=abc Memory"
    );
    assert_eq!(cli_summary_line("first\nsecond"), "  first");
    assert_eq!(cli_summary_line(""), "  ");
}

fn props(n: usize) -> Vec<(String, String)> {
    (0..n).map(|i| (format!("k{i}"), format!("v{i}"))).collect()
}

#[test]
fn props_preview_takes_three() {
    assert_eq!(cli_props_line(&props(1)), "  props: k0=v0");
    assert_eq!(cli_props_line(&props(3)), "  props: k0=v0, k1=v1, k2=v2");
    assert_eq!(cli_props_line(&props(5)), "  props: k0=v0, k1=v1, k2=v2");
}

#[test]
fn cli_output_cases() {
    assert_eq!(cli_output(0, &vec![], 2), "No results found across 2 repo(s).\n");
    assert_eq!(cli_output(3, &vec![], 2), "Found 0 result(s) across 2 repo(s):\n\n");
    let h = Hit {
        id: "u1".to_string(),
        score: 0,
        payload: CliHit {
            score_text: "0.5000".to_string(),
            tokens: 4,
            ntype: "Memory".to_string(),
            summary: Some("first\nsecond".to_string()),
            props: props(2),
            repo_path: "/r/notes".to_string(),
        },
    };
    assert_eq!(
        cli_output(1, &vec![h], 1),
        "Found 1 result(s) across 1 repo(s):\n\n---\n[0] score=0.5000 tokens=4 [/r/notes] id=u1 Memory\n  first\n  props: k0=v0, k1=v1\n"
    );
}
