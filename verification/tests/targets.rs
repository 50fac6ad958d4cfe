use mnem_global::targets::{build_targets, RegistryEntry};

fn entry(path: &str, label: Option<&str>, has_graph: bool) -> RegistryEntry {
    RegistryEntry { path: path.to_string(), label: label.map(|l| l.to_string()), has_graph }
}

fn pairs(global: &str, has: bool, entries: &Vec<RegistryEntry>) -> Vec<(String, String)> {
    build_targets(global, has, entries).into_iter().map(|t| (t.path, t.label)).collect()
}

#[test]
fn global_graph_comes_first() {
    let entries = vec![entry("/r/notes", None, true)];
    assert_eq!(
        pairs("/h/.mnemglobal", true, &entries),
        vec![
            ("/h/.mnemglobal".to_string(), "[global]".to_string()),
            ("/r/notes".to_string(), "[/r/notes]".to_string())
        ]
    );
}

#[test]
fn repos_without_graph_and_duplicates_are_skipped() {
    let entries = vec![
        entry("/r/a", Some("work"), true),
        entry("/r/b", None, false),
        entry("/r/a/", Some("again"), true),
        entry("/h/.mnemglobal", None, true),
        entry("/r/c", None, true),
    ];
    assert_eq!(
        pairs("/h/.mnemglobal", true, &entries),
        vec![
            ("/h/.mnemglobal".to_string(), "[global]".to_string()),
            ("/r/a".to_string(), "[work]".to_string()),
            ("/r/c".to_string(), "[/r/c]".to_string())
        ]
    );
}

#[test]
fn no_global_graph() {
    let entries = vec![entry("/r/x", None, true)];
    assert_eq!(pairs("/h/.mnemglobal", false, &entries), vec![("/r/x".to_string(), "[/r/x]".to_string())]);
    assert!(pairs("/h/.mnemglobal", false, &vec![]).is_empty());
}

#[test]
fn same_path_listed_twice_gives_one_target() {
    let entries = vec![entry("/r", None, true), entry("/r", Some("dup"), true)];
    assert_eq!(pairs("/g", false, &entries), vec![("/r".to_string(), "[/r]".to_string())]);
}
