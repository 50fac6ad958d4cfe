use mnem_global::command::GlobalError;
use mnem_global::request::{
    check_query, clamp_token_budget, cli_limit, cli_targets, embed_first_step, embed_next_step,
    is_unconfigured_repo_error, mcp_limit, prepare_query, supplied_vector_usable, EmbedOutcome,
    EmbedStep,
};
use mnem_global::targets::RegistryEntry;

#[test]
fn query_is_trimmed() {
    assert_eq!(prepare_query(&Some("  climbing \n".to_string())), Ok("climbing".to_string()));
    assert_eq!(prepare_query(&Some("\u{3000}x y\t".to_string())), Ok("x y".to_string()));
    assert_eq!(prepare_query(&Some("\u{85}\u{a0}q\u{2028}".to_string())), Ok("q".to_string()));
}

#[test]
fn missing_or_blank_query_is_refused() {
    assert_eq!(prepare_query(&None), Err(GlobalError::QueryRequired));
    assert_eq!(prepare_query(&Some(" \t\n ".to_string())), Err(GlobalError::QueryRequired));
    assert_eq!(check_query(""), Err(GlobalError::QueryRequired));
    assert_eq!(check_query("q"), Ok("q".to_string()));
}

#[test]
fn limits() {
    assert_eq!(cli_limit(None), 10);
    assert_eq!(cli_limit(Some(5)), 5);
    assert_eq!(mcp_limit(None, 100), 10);
    assert_eq!(mcp_limit(Some(7), 100), 7);
    assert_eq!(mcp_limit(Some(500), 100), 100);
    assert_eq!(mcp_limit(Some(100), 100), 100);
}

#[test]
fn token_budget_saturates() {
    assert_eq!(clamp_token_budget(None), None);
    assert_eq!(clamp_token_budget(Some(4096)), Some(4096));
    assert_eq!(clamp_token_budget(Some(u64::from(u32::MAX))), Some(u32::MAX));
    assert_eq!(clamp_token_budget(Some(u64::MAX)), Some(u32::MAX));
}

#[test]
fn supplied_vector_needs_model_and_values() {
    assert!(supplied_vector_usable("onnx:all-MiniLM-L6-v2", 384));
    assert!(!supplied_vector_usable("", 384));
    assert!(!supplied_vector_usable("m", 0));
}

#[test]
fn unconfigured_repo_errors_are_silent() {
    assert!(is_unconfigured_repo_error("retrieve: no filters or rankers configured"));
    assert!(!is_unconfigured_repo_error("io error: permission denied"));
}

#[test]
fn cli_targets_without_repos_is_an_error() {
    let entries = vec![RegistryEntry { path: "/r/a".to_string(), label: None, has_graph: false }];
    assert!(matches!(cli_targets("/g", false, &entries), Err(GlobalError::NoRepos)));
    let ts = cli_targets("/g", true, &entries).ok().unwrap();
    assert_eq!(ts.len(), 1);
    assert_eq!(ts[0].path, "/g");
}

#[test]
fn embed_search_uses_first_working_embedder() {
    assert_eq!(embed_first_step(false, 3), EmbedStep::Try(0));
    assert_eq!(embed_next_step(0, 3, EmbedOutcome::NoEmbedder), EmbedStep::Try(1));
    assert_eq!(embed_next_step(1, 3, EmbedOutcome::OpenFailed), EmbedStep::Try(2));
    assert_eq!(embed_next_step(2, 3, EmbedOutcome::Embedded), EmbedStep::Use(2));
}

#[test]
fn unreadable_config_moves_on() {
    assert_eq!(embed_next_step(0, 2, EmbedOutcome::ConfigUnreadable), EmbedStep::Try(1));
    assert_eq!(embed_next_step(1, 2, EmbedOutcome::Embedded), EmbedStep::Use(1));
}

#[test]
fn embed_search_gives_up() {
    assert_eq!(embed_first_step(true, 3), EmbedStep::GiveUp);
    assert_eq!(embed_first_step(false, 0), EmbedStep::GiveUp);
    assert_eq!(embed_next_step(2, 3, EmbedOutcome::ConfigUnreadable), EmbedStep::GiveUp);
    assert_eq!(embed_next_step(2, 3, EmbedOutcome::EmbedFailed), EmbedStep::GiveUp);
}
