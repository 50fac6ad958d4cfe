use mnem_global::command::{run, GlobalAction, GlobalCommand, GlobalError, GlobalRetrieveArgs};

fn args() -> GlobalRetrieveArgs {
    GlobalRetrieveArgs { query: Some("Alice in Berlin".to_string()), limit: Some(5), no_vector: true }
}

#[test]
fn run_retrieve_is_dispatched_without_global_graph() {
    let r: Result<GlobalAction<u8>, GlobalError> =
        run(None, GlobalCommand::Retrieve(args()), "/home/u/.mnemglobal", false);
    match r {
        Ok(GlobalAction::Retrieve(a)) => assert_eq!(a, args()),
        _ => panic!("expected retrieve"),
    }
}

#[test]
fn run_add_needs_initialised_global_graph() {
    let r = run(None, GlobalCommand::Add(42u8), "/home/u/.mnemglobal", false);
    match r {
        Err(e) => {
            assert_eq!(e, GlobalError::GlobalGraphMissing("/home/u/.mnemglobal".to_string()));
            assert_eq!(
                e.message(),
                "Global graph not initialised at /home/u/.mnemglobal.\nhint: run `mnem integrate` to create it."
            );
        }
        Ok(_) => panic!("expected an error"),
    }
}

#[test]
fn run_add_goes_to_global_graph() {
    match run(Some("/elsewhere"), GlobalCommand::Add(42u8), "/home/u/.mnemglobal", true) {
        Ok(GlobalAction::AddToGlobal(a)) => assert_eq!(a, 42),
        _ => panic!("expected add"),
    }
}

#[test]
fn global_error_messages() {
    assert_eq!(
        GlobalError::QueryRequired.message(),
        "A query text is required.\nUsage: mnem global retrieve \"your query\""
    );
    assert_eq!(
        GlobalError::NoRepos.message(),
        "No repos to search.\nhint: run `mnem integrate` then `mnem init <path>` to register repos."
    );
}
