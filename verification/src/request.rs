//! What a cross-repo search is asked for: the query, the limits, the
//! optional query vector, and how repository failures are treated.
use vstd::prelude::*;
use crate::command::GlobalError;
use crate::targets::{Target, build_targets, select_targets, RegistryEntry, target_view};
use crate::text::{contains_text, has_infix, trim_text, trimmed};

verus! {

/// Number of results used when no limit is given.
pub const DEFAULT_LIMIT: usize = 10;

/// The query text that `global retrieve` searches for, or the error for a
/// missing one: `trimmed` is the query with surrounding white space removed.
pub fn check_query(trimmed_query: &str) -> (r: Result<String, GlobalError>)
    ensures
        trimmed_query@.len() == 0 ==> r == Err::<String, GlobalError>(GlobalError::QueryRequired),
        trimmed_query@.len() > 0 ==> (r matches Ok(q) && q@ == trimmed_query@),
{
    if trimmed_query.unicode_len() == 0 {
        Err(GlobalError::QueryRequired)
    } else {
        Ok(String::from_str(trimmed_query))
    }
}

/// Trims the query (a missing query counts as empty) and checks that some
/// text is left.
pub fn prepare_query(query: &Option<String>) -> (r: Result<String, GlobalError>)
    ensures
        ({
            let t = match query {
                Some(q) => trimmed(q@),
                None => Seq::<char>::empty(),
            };
            &&& t.len() == 0 ==> r == Err::<String, GlobalError>(GlobalError::QueryRequired)
            &&& t.len() > 0 ==> (r matches Ok(q) && q@ == t)
        }),
{
    let raw: &str = match query {
        Some(q) => q.as_str(),
        None => "",
    };
    proof {
        reveal_strlit("");
        if query is None {
            assert(trimmed(raw@) =~= Seq::<char>::empty());
        }
    }
    check_query(trim_text(raw))
}


/// The CLI's per-repo and overall result limit: the requested one, else 10.
pub fn cli_limit(requested: Option<usize>) -> (n: usize)
    ensures
        n == match requested {
            Some(k) => k,
            None => DEFAULT_LIMIT,
        },
{
    match requested {
        Some(k) => k,
        None => DEFAULT_LIMIT,
    }
}

/// The MCP tool's result limit: the requested one capped at `max_limit`,
/// else 10.
pub fn mcp_limit(requested: Option<u64>, max_limit: usize) -> (n: usize)
    ensures
        n == match requested {
            Some(k) => if k <= max_limit {
                k as int
            } else {
                max_limit as int
            },
            None => DEFAULT_LIMIT as int,
        },
{
    match requested {
        Some(k) => {
            if k <= max_limit as u64 {
                k as usize
            } else {
                max_limit
            }
        },
        None => DEFAULT_LIMIT,
    }
}

/// The token budget handed to each repository's retriever: the requested
/// one, saturated at `u32::MAX`.
pub fn clamp_token_budget(requested: Option<u64>) -> (b: Option<u32>)
    ensures
        b == match requested {
            Some(k) => Some(if k <= u32::MAX { k as u32 } else { u32::MAX }),
            None => None::<u32>,
        },
{
    match requested {
        Some(k) => {
            if k <= u32::MAX as u64 {
                Some(k as u32)
            } else {
                Some(u32::MAX)
            }
        },
        None => None,
    }
}

/// A caller-supplied query vector is used only when it names a model and
/// has at least one value.
pub fn supplied_vector_usable(model: &str, n_values: usize) -> (usable: bool)
    ensures
        usable == (model@.len() > 0 && n_values > 0),
{
    model.unicode_len() > 0 && n_values > 0
}

/// The retriever error of a repository that has no filters or rankers
/// configured (an empty repository); such repositories are skipped
/// silently.
pub fn is_unconfigured_repo_error(message: &str) -> (silent: bool)
    ensures
        silent == has_infix(message@, "no filters or rankers configured"@),
{
    contains_text(message, "no filters or rankers configured")
}

/// The repositories the CLI searches, or `NoRepos` when there are none.
pub fn cli_targets(global_dir: &str, global_has_graph: bool, entries: &Vec<RegistryEntry>) -> (r:
    Result<Vec<Target>, GlobalError>)
    ensures
        ({
            let sel = select_targets(global_dir@, global_has_graph, entries@);
            &&& sel.len() == 0 ==> r == Err::<Vec<Target>, GlobalError>(GlobalError::NoRepos)
            &&& sel.len() > 0 ==> (r matches Ok(ts) && ts@.map_values(|t: Target| target_view(t))
                == sel)
        }),
{
    let ts = build_targets(global_dir, global_has_graph, entries);
    if ts.len() == 0 {
        Err(GlobalError::NoRepos)
    } else {
        Ok(ts)
    }
}

/// How trying to embed the query with one repository's configuration went.
#[derive(Debug, Clone, Copy, PartialEq, Eq, Structural)]
pub enum EmbedOutcome {
    /// The repository's configuration could not be read.
    ConfigUnreadable,
    /// The configuration names no embedder.
    NoEmbedder,
    /// The embedder could not be opened.
    OpenFailed,
    /// The embedder failed on the query.
    EmbedFailed,
    /// The query was embedded.
    Embedded,
}

/// The next move while looking for a repository that can embed the query.
#[derive(Debug, Clone, Copy, PartialEq, Eq, Structural)]
pub enum EmbedStep {
    /// Try the repository at this index.
    Try(usize),
    /// Search without a query vector.
    GiveUp,
    /// Use the vector embedded with the repository at this index.
    Use(usize),
}

/// The first move: try the first repository, unless vector search is
/// switched off or there is no repository.
pub open spec fn embed_start(no_vector: bool, n_targets: nat) -> EmbedStep {
    if no_vector || n_targets == 0 {
        EmbedStep::GiveUp
    } else {
        EmbedStep::Try(0)
    }
}

/// The move after trying repository `current`: success uses the vector;
/// an unreadable configuration, a missing or a failing embedder moves on to
/// the next repository, and after the last one the search gives up.
pub open spec fn embed_next(current: nat, n_targets: nat, outcome: EmbedOutcome) -> EmbedStep {
    match outcome {
        EmbedOutcome::Embedded => EmbedStep::Use(current as usize),
        _ => if current + 1 < n_targets {
            EmbedStep::Try((current + 1) as usize)
        } else {
            EmbedStep::GiveUp
        },
    }
}

/// First move of the query-embedding search.
pub fn embed_first_step(no_vector: bool, n_targets: usize) -> (s: EmbedStep)
    ensures
        s == embed_start(no_vector, n_targets as nat),
        !no_vector && n_targets > 0 ==> s == EmbedStep::Try(0),
        no_vector || n_targets == 0 ==> s == EmbedStep::GiveUp,
{
    if no_vector || n_targets == 0 {
        EmbedStep::GiveUp
    } else {
        EmbedStep::Try(0)
    }
}

/// Next move of the query-embedding search, after trying repository
/// `current`.
pub fn embed_next_step(current: usize, n_targets: usize, outcome: EmbedOutcome) -> (s: EmbedStep)
    requires
        current < n_targets,
    ensures
        s == embed_next(current as nat, n_targets as nat, outcome),
{
    match outcome {
        EmbedOutcome::Embedded => EmbedStep::Use(current),
        _ => {
            if current + 1 < n_targets {
                EmbedStep::Try(current + 1)
            } else {
                EmbedStep::GiveUp
            }
        },
    }
}

/// With vector search on, the search starts at the first target whenever
/// there is one, and a search started there uses the first target whose
/// embedder works; with vector search off, or no target, no embedding is
/// tried.
pub proof fn lemma_embed_start_first_target(no_vector: bool, outcomes: Seq<EmbedOutcome>)
    requires
        outcomes.len() <= usize::MAX,
    ensures
        !no_vector && outcomes.len() > 0 ==> embed_start(no_vector, outcomes.len()) == EmbedStep::Try(
            0,
        ),
        no_vector || outcomes.len() == 0 ==> embed_start(no_vector, outcomes.len()) == EmbedStep::GiveUp,
        forall|k: int|
            0 <= k < outcomes.len() && outcomes[k] == EmbedOutcome::Embedded && (forall|j: int|
                0 <= j < k ==> #[trigger] outcomes[j] != EmbedOutcome::Embedded) ==> embed_result_from(
                outcomes,
                0,
            ) == Some(k as nat),
{
    lemma_embed_first_working(outcomes, 0);
    assert forall|k: int|
        0 <= k < outcomes.len() && outcomes[k] == EmbedOutcome::Embedded && (forall|j: int|
            0 <= j < k ==> #[trigger] outcomes[j] != EmbedOutcome::Embedded) implies embed_result_from(
        outcomes,
        0,
    ) == Some(k as nat) by {
        match embed_result_from(outcomes, 0) {
            Some(m) => {
                if (m as int) < k {
                    assert(outcomes[m as int] == EmbedOutcome::Embedded);
                } else if (m as int) > k {
                    assert(outcomes[k] != EmbedOutcome::Embedded);
                }
            },
            None => {
                assert(outcomes[k] != EmbedOutcome::Embedded);
            },
        }
    }
}

/// Where the search for a query vector ends when repository `i` and those
/// after it answer with `outcomes`: the index of the repository whose
/// vector is used, or `None`.
pub open spec fn embed_result_from(outcomes: Seq<EmbedOutcome>, i: nat) -> Option<nat>
    decreases outcomes.len() - i,
{
    if i >= outcomes.len() {
        None
    } else {
        match embed_next(i, outcomes.len(), outcomes[i as int]) {
            EmbedStep::Use(k) => Some(k as nat),
            EmbedStep::Try(j) => if j > i {
                embed_result_from(outcomes, j as nat)
            } else {
                None
            },
            EmbedStep::GiveUp => None,
        }
    }
}

/// The query vector comes from the first repository, from `i` on, whose
/// embedder works; when none works, no vector is used.
pub proof fn lemma_embed_first_working(outcomes: Seq<EmbedOutcome>, i: nat)
    requires
        outcomes.len() <= usize::MAX,
    ensures
        match embed_result_from(outcomes, i) {
            Some(k) => i <= k < outcomes.len() && outcomes[k as int] == EmbedOutcome::Embedded
                && forall|j: int| i <= j < k ==> #[trigger] outcomes[j] != EmbedOutcome::Embedded,
            None => forall|j: int| i <= j < outcomes.len() ==> #[trigger] outcomes[j] != EmbedOutcome::Embedded,
        },
    decreases outcomes.len() - i,
{
    if i < outcomes.len() {
        lemma_embed_first_working(outcomes, i + 1);
        if outcomes[i as int] != EmbedOutcome::Embedded && i + 1 < outcomes.len() {
            assert(embed_result_from(outcomes, i) == embed_result_from(outcomes, i + 1));
        }
    }
}

} // verus!
