//! A whole cross-repo search, from what each repository returned to the
//! text the CLI prints and the text the MCP tool replies.
use vstd::prelude::*;
use crate::hits::{concat_all, first_by_id, is_score_sort_of, top_of, Hit, HitCollector};
use crate::report::{cli_output, cli_output_text, mcp_report, mcp_report_text, CliHit, McpHit};
use crate::targets::Target;

verus! {

/// One result as a repository's retriever returned it.
pub struct FoundResult {
    /// The node's UUID string.
    pub id: String,
    /// Order-preserving key of the result's score.
    pub score: u32,
    /// The score printed with four decimals.
    pub score_text: String,
    /// Tokens the result consumes.
    pub tokens: u32,
    /// The node's type.
    pub ntype: String,
    /// The result's rendering.
    pub rendered: String,
    /// The node's summary, if any.
    pub summary: Option<String>,
    /// The node's properties as (key, preview of the value), in order.
    pub props: Vec<(String, String)>,
}

/// A result of target `t` as the CLI merges it.
pub open spec fn cli_hit_of(t: Target, f: FoundResult) -> Hit<CliHit> {
    Hit {
        id: f.id,
        score: f.score,
        payload: CliHit {
            score_text: f.score_text,
            tokens: f.tokens,
            ntype: f.ntype,
            summary: f.summary,
            props: f.props,
            repo_path: t.path,
        },
    }
}

/// A result of target `t` as the MCP tool merges it: labelled with the
/// target's label.
pub open spec fn mcp_hit_of(t: Target, f: FoundResult) -> Hit<McpHit> {
    Hit {
        id: f.id,
        score: f.score,
        payload: McpHit {
            score_text: f.score_text,
            tokens: f.tokens,
            rendered: f.rendered,
            ntype: f.ntype,
            source: t.label,
        },
    }
}

/// The CLI's results of each searched target, in target order.
pub open spec fn cli_batches(searched: Seq<(Target, Vec<FoundResult>)>) -> Seq<Seq<Hit<CliHit>>> {
    Seq::new(
        searched.len(),
        |i: int| searched[i].1@.map_values(|f: FoundResult| cli_hit_of(searched[i].0, f)),
    )
}

/// The MCP tool's results of each searched target, in target order.
pub open spec fn mcp_batches(searched: Seq<(Target, Vec<FoundResult>)>) -> Seq<Seq<Hit<McpHit>>> {
    Seq::new(
        searched.len(),
        |i: int| searched[i].1@.map_values(|f: FoundResult| mcp_hit_of(searched[i].0, f)),
    )
}

/// Each CLI hit is the found result it was made from, unchanged (UUID,
/// retriever score, score text, tokens, type, summary, properties), tagged
/// with the path of the target that returned it; the batches follow the
/// targets and each batch follows its target's results.
pub proof fn lemma_cli_batches_carry_results(searched: Seq<(Target, Vec<FoundResult>)>)
    ensures
        cli_batches(searched).len() == searched.len(),
        forall|i: int|
            0 <= i < searched.len() ==> (#[trigger] cli_batches(searched)[i]).len()
                == searched[i].1@.len(),
        forall|i: int, j: int|
            0 <= i < searched.len() && 0 <= j < searched[i].1@.len() ==> {
                let h = #[trigger] cli_batches(searched)[i][j];
                let f = searched[i].1@[j];
                &&& h.id == f.id
                &&& h.score == f.score
                &&& h.payload.score_text == f.score_text
                &&& h.payload.tokens == f.tokens
                &&& h.payload.ntype == f.ntype
                &&& h.payload.summary == f.summary
                &&& h.payload.props == f.props
                &&& h.payload.repo_path == searched[i].0.path
            },
{
}

/// Each MCP hit is the found result it was made from, unchanged (UUID,
/// retriever score, score text, tokens, type, rendering), labelled with the
/// label of the target that returned it; the batches follow the targets
/// and each batch follows its target's results.
pub proof fn lemma_mcp_batches_carry_results(searched: Seq<(Target, Vec<FoundResult>)>)
    ensures
        mcp_batches(searched).len() == searched.len(),
        forall|i: int|
            0 <= i < searched.len() ==> (#[trigger] mcp_batches(searched)[i]).len()
                == searched[i].1@.len(),
        forall|i: int, j: int|
            0 <= i < searched.len() && 0 <= j < searched[i].1@.len() ==> {
                let h = #[trigger] mcp_batches(searched)[i][j];
                let f = searched[i].1@[j];
                &&& h.id == f.id
                &&& h.score == f.score
                &&& h.payload.score_text == f.score_text
                &&& h.payload.tokens == f.tokens
                &&& h.payload.ntype == f.ntype
                &&& h.payload.rendered == f.rendered
                &&& h.payload.source == searched[i].0.label
            },
{
}

fn cli_batch(t: &Target, found: Vec<FoundResult>) -> (hits: Vec<Hit<CliHit>>)
    ensures
        hits@ == found@.map_values(|f: FoundResult| cli_hit_of(*t, f)),
{
    let ghost all = found@;
    let total = found.len();
    let mut rest = found;
    let mut hits: Vec<Hit<CliHit>> = Vec::new();
    while rest.len() > 0
        invariant
            total == all.len(),
            hits@.len() <= all.len(),
            rest@ == all.subrange(hits@.len() as int, all.len() as int),
            hits@ == all.subrange(0, hits@.len() as int).map_values(
                |f: FoundResult| cli_hit_of(*t, f),
            ),
        decreases rest@.len(),
    {
        let ghost k: int = hits@.len() as int;
        let f = rest.remove(0);
        assert(f == all[k]);
        let FoundResult { id, score, score_text, tokens, ntype, rendered, summary, props } = f;
        hits.push(
            Hit {
                id,
                score,
                payload: CliHit { score_text, tokens, ntype, summary, props, repo_path: t.path.clone() },
            },
        );
        assert(all.subrange(0, k + 1).map_values(|f: FoundResult| cli_hit_of(*t, f)) =~= all.subrange(
            0,
            k,
        ).map_values(|f: FoundResult| cli_hit_of(*t, f)).push(cli_hit_of(*t, all[k])));
        assert(rest@ =~= all.subrange(k + 1, all.len() as int));
    }
    assert(all.subrange(0, all.len() as int) =~= all);
    hits
}

fn mcp_batch(t: &Target, found: Vec<FoundResult>) -> (hits: Vec<Hit<McpHit>>)
    ensures
        hits@ == found@.map_values(|f: FoundResult| mcp_hit_of(*t, f)),
{
    let ghost all = found@;
    let total = found.len();
    let mut rest = found;
    let mut hits: Vec<Hit<McpHit>> = Vec::new();
    while rest.len() > 0
        invariant
            total == all.len(),
            hits@.len() <= all.len(),
            rest@ == all.subrange(hits@.len() as int, all.len() as int),
            hits@ == all.subrange(0, hits@.len() as int).map_values(
                |f: FoundResult| mcp_hit_of(*t, f),
            ),
        decreases rest@.len(),
    {
        let ghost k: int = hits@.len() as int;
        let f = rest.remove(0);
        assert(f == all[k]);
        let FoundResult { id, score, score_text, tokens, ntype, rendered, summary, props } = f;
        hits.push(
            Hit {
                id,
                score,
                payload: McpHit { score_text, tokens, rendered, ntype, source: t.label.clone() },
            },
        );
        assert(all.subrange(0, k + 1).map_values(|f: FoundResult| mcp_hit_of(*t, f)) =~= all.subrange(
            0,
            k,
        ).map_values(|f: FoundResult| mcp_hit_of(*t, f)).push(mcp_hit_of(*t, all[k])));
        assert(rest@ =~= all.subrange(k + 1, all.len() as int));
    }
    assert(all.subrange(0, all.len() as int) =~= all);
    hits
}

/// Everything the CLI prints for a search over `searched` (each target
/// with what its retriever returned; a target that could not be searched
/// comes with no results): the results are merged in target order, keeping
/// the first result per node UUID, ranked by score (ties in arrival order),
/// cut to `limit`, and each is labelled with its repository's path.
pub fn cli_global_output(searched: Vec<(Target, Vec<FoundResult>)>, limit: usize) -> (out: String)
    ensures
        exists|ranked: Seq<Hit<CliHit>>|
            #![trigger is_score_sort_of(ranked, first_by_id(concat_all(cli_batches(searched@))))]
            is_score_sort_of(ranked, first_by_id(concat_all(cli_batches(searched@)))) && out@
                == cli_output_text(
                first_by_id(concat_all(cli_batches(searched@))).len(),
                top_of(ranked, limit as nat),
                searched@.len(),
            ),
{
    let ghost all = searched@;
    let n = searched.len();
    let mut rest = searched;
    let mut collector: HitCollector<CliHit> = HitCollector::new();
    let mut i: usize = 0;
    assert(cli_batches(all).subrange(0, 0) =~= Seq::<Seq<Hit<CliHit>>>::empty());
    while rest.len() > 0
        invariant
            n == all.len(),
            i <= n,
            rest@ == all.subrange(i as int, n as int),
            collector.offered() == concat_all(cli_batches(all).subrange(0, i as int)),
        decreases rest@.len(),
    {
        let (t, found) = rest.remove(0);
        assert((t, found) == all[i as int]);
        let batch = cli_batch(&t, found);
        collector.offer_all(batch);
        proof {
            let b = cli_batches(all);
            assert(b.subrange(0, i + 1).drop_last() =~= b.subrange(0, i as int));
            assert(b[i as int] =~= batch@);
        }
        assert(rest@ =~= all.subrange(i + 1, n as int));
        i = i + 1;
    }
    assert(cli_batches(all).subrange(0, n as int) =~= cli_batches(all));
    let kept = collector.len();
    let top = collector.finish(limit);
    cli_output(kept, &top, n)
}

/// The MCP tool's reply for a search over `searched` (each target with
/// what its retriever returned; a target that could not be searched comes
/// with no results): the results are merged in target order, keeping the
/// first result per node UUID, ranked by score (ties in arrival order), cut
/// to `limit`, and each is labelled with its target's label.
pub fn mcp_global_reply(searched: Vec<(Target, Vec<FoundResult>)>, limit: usize) -> (out: String)
    ensures
        exists|ranked: Seq<Hit<McpHit>>|
            #![trigger is_score_sort_of(ranked, first_by_id(concat_all(mcp_batches(searched@))))]
            is_score_sort_of(ranked, first_by_id(concat_all(mcp_batches(searched@)))) && out@
                == mcp_report_text(top_of(ranked, limit as nat), searched@.len()),
{
    let ghost all = searched@;
    let n = searched.len();
    let mut rest = searched;
    let mut collector: HitCollector<McpHit> = HitCollector::new();
    let mut i: usize = 0;
    assert(mcp_batches(all).subrange(0, 0) =~= Seq::<Seq<Hit<McpHit>>>::empty());
    while rest.len() > 0
        invariant
            n == all.len(),
            i <= n,
            rest@ == all.subrange(i as int, n as int),
            collector.offered() == concat_all(mcp_batches(all).subrange(0, i as int)),
        decreases rest@.len(),
    {
        let (t, found) = rest.remove(0);
        assert((t, found) == all[i as int]);
        let batch = mcp_batch(&t, found);
        collector.offer_all(batch);
        proof {
            let b = mcp_batches(all);
            assert(b.subrange(0, i + 1).drop_last() =~= b.subrange(0, i as int));
            assert(b[i as int] =~= batch@);
        }
        assert(rest@ =~= all.subrange(i + 1, n as int));
        i = i + 1;
    }
    assert(mcp_batches(all).subrange(0, n as int) =~= mcp_batches(all));
    let top = collector.finish(limit);
    mcp_report(&top, n)
}

} // verus!
