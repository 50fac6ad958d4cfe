//! The `mnem global` subcommand: its arguments, its errors and the
//! dispatch between searching every repository and adding to the global
//! graph.
use vstd::prelude::*;

verus! {

/// Why a `global` subcommand could not run.
#[derive(Debug, PartialEq, Eq)]
pub enum GlobalError {
    /// `global retrieve` was given no query text (or only white space).
    QueryRequired,
    /// Neither the global graph nor any registered repository can be searched.
    NoRepos,
    /// `global add` was asked for, but the global graph at this directory
    /// has not been initialised.
    GlobalGraphMissing(String),
}

/// The message of a `global` error, as the command prints it.
pub open spec fn global_error_text(e: GlobalError) -> Seq<char> {
    match e {
        GlobalError::QueryRequired => "A query text is required.\nUsage: mnem global retrieve \"your query\""@,
        GlobalError::NoRepos => "No repos to search.\nhint: run `mnem integrate` then `mnem init <path>` to register repos."@,
        GlobalError::GlobalGraphMissing(dir) => "Global graph not initialised at "@ + dir@
            + ".\nhint: run `mnem integrate` to create it."@,
    }
}

impl GlobalError {
    /// The error's message.
    pub fn message(&self) -> (m: String)
        ensures
            m@ == global_error_text(*self),
    {
        match self {
            GlobalError::QueryRequired => String::from_str(
                "A query text is required.\nUsage: mnem global retrieve \"your query\"",
            ),
            GlobalError::NoRepos => String::from_str(
                "No repos to search.\nhint: run `mnem integrate` then `mnem init <path>` to register repos.",
            ),
            GlobalError::GlobalGraphMissing(dir) => {
                let mut m = String::from_str("Global graph not initialised at ");
                m.append(dir.as_str());
                m.append(".\nhint: run `mnem integrate` to create it.");
                m
            },
        }
    }
}

/// Arguments of `mnem global retrieve`.
#[derive(Debug, PartialEq, Eq)]
pub struct GlobalRetrieveArgs {
    /// Query text, embedded and used for search across all repos.
    pub query: Option<String>,
    /// Max results per repo before merging; the merged output is cut to it
    /// too. Default: 10.
    pub limit: Option<usize>,
    /// Skip semantic (vector) search.
    pub no_vector: bool,
}

/// `mnem global` subcommands; `A` carries the arguments of `add`.
pub enum GlobalCommand<A> {
    /// Search all registered repos and the global graph.
    Retrieve(GlobalRetrieveArgs),
    /// Add a node or edge directly to the global graph.
    Add(A),
}

/// What `run` decided to do.
pub enum GlobalAction<A> {
    /// Search all registered repos and the global graph.
    Retrieve(GlobalRetrieveArgs),
    /// Run `add` against the global graph's directory.
    AddToGlobal(A),
}

/// Dispatches a `global` subcommand. `global_graph_ready` says whether the
/// global graph's `.mnem` directory exists under `global_dir`; adding
/// requires it, searching does not.
pub fn run<A>(_override: Option<&str>, cmd: GlobalCommand<A>, global_dir: &str, global_graph_ready: bool) -> (r:
    Result<GlobalAction<A>, GlobalError>)
    ensures
        match cmd {
            GlobalCommand::Retrieve(args) => r == Ok::<GlobalAction<A>, GlobalError>(
                GlobalAction::Retrieve(args),
            ),
            GlobalCommand::Add(a) => if global_graph_ready {
                r == Ok::<GlobalAction<A>, GlobalError>(GlobalAction::AddToGlobal(a))
            } else {
                r matches Err(GlobalError::GlobalGraphMissing(d)) && d@ == global_dir@
            },
        },
{
    match cmd {
        GlobalCommand::Retrieve(args) => Ok(GlobalAction::Retrieve(args)),
        GlobalCommand::Add(a) => {
            if !global_graph_ready {
                Err(GlobalError::GlobalGraphMissing(String::from_str(global_dir)))
            } else {
                Ok(GlobalAction::AddToGlobal(a))
            }
        },
    }
}

} // verus!
