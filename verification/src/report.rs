//! The text that reports a cross-repo search: the MCP tool's reply and the
//! CLI's headings.
use vstd::prelude::*;
use crate::hits::Hit;
use crate::text::{bracket, bracketed, decimal, decimal_text, lines_of, text_lines};

verus! {

/// What the MCP reply shows of one merged result besides its UUID.
pub struct McpHit {
    /// The score as the reply prints it (four decimals).
    pub score_text: String,
    /// Tokens the result consumes.
    pub tokens: u32,
    /// The result's rendering; each of its lines is shown indented.
    pub rendered: String,
    /// The node's type.
    pub ntype: String,
    /// `[global]`, `[label]` or `[path]` of the repository it came from.
    pub source: String,
}

/// Each line, indented by eight spaces and ended by a newline.
pub open spec fn indented_lines(lines: Seq<Seq<char>>) -> Seq<char>
    decreases lines.len(),
{
    if lines.len() == 0 {
        Seq::empty()
    } else {
        indented_lines(lines.drop_last()) + "        "@ + lines.last() + "\n"@
    }
}

/// The reply's entry for the result at rank `i`.
pub open spec fn mcp_item_text(i: nat, h: Hit<McpHit>) -> Seq<char> {
    "  ["@ + decimal(i) + "] score="@ + h.payload.score_text@ + " tokens="@ + decimal(
        h.payload.tokens as nat,
    ) + " "@ + h.payload.source@ + " id="@ + h.id@ + " "@ + h.payload.ntype@ + "\n"@
        + indented_lines(lines_of(h.payload.rendered@))
}

/// The reply's entries for `hits`, ranked from 0.
pub open spec fn mcp_items_text(hits: Seq<Hit<McpHit>>) -> Seq<char>
    decreases hits.len(),
{
    if hits.len() == 0 {
        Seq::empty()
    } else {
        mcp_items_text(hits.drop_last()) + mcp_item_text((hits.len() - 1) as nat, hits.last())
    }
}

/// The reply's first line.
pub open spec fn mcp_header(n_items: nat, n_repos: nat) -> Seq<char> {
    "mnem_global_retrieve: "@ + decimal(n_items) + " item(s) across "@ + decimal(n_repos)
        + " repo(s)\n"@
}

/// The MCP reply for the merged results `hits` of `n_repos` repositories.
pub open spec fn mcp_report_text(hits: Seq<Hit<McpHit>>, n_repos: nat) -> Seq<char> {
    mcp_header(hits.len(), n_repos) + mcp_items_text(hits)
}

/// The MCP reply when no repository can be searched.
pub open spec fn mcp_no_repos_text() -> Seq<char> {
    "mnem_global_retrieve: no repos registered. Run `mnem integrate` then `mnem init`.\n"@
}

/// The MCP reply when no repository can be searched.
pub fn mcp_no_repos_report() -> (s: String)
    ensures
        s@ == mcp_no_repos_text(),
{
    String::from_str(
        "mnem_global_retrieve: no repos registered. Run `mnem integrate` then `mnem init`.\n",
    )
}

/// Appends each line of `rendered`, indented.
fn push_indented(out: &mut String, rendered: &str)
    ensures
        final(out)@ == old(out)@ + indented_lines(lines_of(rendered@)),
{
    let lines = text_lines(rendered);
    let ghost ls = lines@.map_values(|l: &str| l@);
    let mut i: usize = 0;
    while i < lines.len()
        invariant
            i <= lines@.len(),
            ls == lines@.map_values(|l: &str| l@),
            ls == lines_of(rendered@),
            out@ == old(out)@ + indented_lines(ls.subrange(0, i as int)),
        decreases lines@.len() - i,
    {
        let ghost before = out@;
        out.append("        ");
        out.append(lines[i]);
        out.append("\n");
        proof {
            let next = ls.subrange(0, i + 1);
            assert(next.drop_last() =~= ls.subrange(0, i as int));
            assert(next.last() == lines@[i as int]@);
            assert(out@ =~= old(out)@ + indented_lines(next));
        }
        i = i + 1;
    }
    assert(ls.subrange(0, lines@.len() as int) =~= ls);
}

/// Appends the reply's entry for the result `h` at rank `i`.
fn push_item(out: &mut String, i: usize, h: &Hit<McpHit>)
    ensures
        final(out)@ == old(out)@ + mcp_item_text(i as nat, *h),
{
    let mut item = String::from_str("  [");
    item.append(decimal_text(i as u64).as_str());
    item.append("] score=");
    item.append(h.payload.score_text.as_str());
    item.append(" tokens=");
    item.append(decimal_text(h.payload.tokens as u64).as_str());
    item.append(" ");
    item.append(h.payload.source.as_str());
    item.append(" id=");
    item.append(h.id.as_str());
    item.append(" ");
    item.append(h.payload.ntype.as_str());
    item.append("\n");
    push_indented(&mut item, h.payload.rendered.as_str());
    out.append(item.as_str());
    assert(out@ =~= old(out)@ + mcp_item_text(i as nat, *h));
}

/// The MCP reply for the merged results of `n_repos` repositories: a
/// count line, then each result with its rank, score, tokens, source, id
/// and type, followed by its rendering indented.
pub fn mcp_report(hits: &Vec<Hit<McpHit>>, n_repos: usize) -> (s: String)
    ensures
        s@ == mcp_report_text(hits@, n_repos as nat),
{
    let mut out = String::from_str("mnem_global_retrieve: ");
    out.append(decimal_text(hits.len() as u64).as_str());
    out.append(" item(s) across ");
    out.append(decimal_text(n_repos as u64).as_str());
    out.append(" repo(s)\n");
    assert(out@ =~= mcp_header(hits@.len(), n_repos as nat) + mcp_items_text(hits@.subrange(0, 0)));
    let mut i: usize = 0;
    while i < hits.len()
        invariant
            i <= hits@.len(),
            out@ == mcp_header(hits@.len(), n_repos as nat) + mcp_items_text(
                hits@.subrange(0, i as int),
            ),
        decreases hits@.len() - i,
    {
        let h = &hits[i];
        let ghost before = out@;
        push_item(&mut out, i, h);
        proof {
            let next = hits@.subrange(0, i + 1);
            assert(next.drop_last() =~= hits@.subrange(0, i as int));
            assert(next.last() == *h);
            assert(out@ =~= before + mcp_item_text(i as nat, *h));
            assert(out@ =~= mcp_header(hits@.len(), n_repos as nat) + mcp_items_text(next));
        }
        i = i + 1;
    }
    assert(hits@.subrange(0, hits@.len() as int) =~= hits@);
    out
}

/// What the CLI prints of one merged result besides its UUID.
pub struct CliHit {
    /// The score as the CLI prints it (four decimals).
    pub score_text: String,
    /// Tokens the result consumes.
    pub tokens: u32,
    /// The node's type.
    pub ntype: String,
    /// The node's summary, if any.
    pub summary: Option<String>,
    /// The node's properties as (key, preview of the value), in order.
    pub props: Vec<(String, String)>,
    /// Directory of the repository the result came from.
    pub repo_path: String,
}

/// The CLI's line when the search found nothing.
pub open spec fn cli_no_results_text(n_repos: nat) -> Seq<char> {
    "No results found across "@ + decimal(n_repos) + " repo(s)."@
}

/// The CLI's line when the search found nothing.
pub fn cli_no_results(n_repos: usize) -> (s: String)
    ensures
        s@ == cli_no_results_text(n_repos as nat),
{
    let mut out = String::from_str("No results found across ");
    out.append(decimal_text(n_repos as u64).as_str());
    out.append(" repo(s).");
    out
}

/// The CLI's heading above the merged results.
pub open spec fn cli_found_text(n_results: nat, n_repos: nat) -> Seq<char> {
    "Found "@ + decimal(n_results) + " result(s) across "@ + decimal(n_repos) + " repo(s):\n"@
}

/// The CLI's heading above the merged results.
pub fn cli_found_heading(n_results: usize, n_repos: usize) -> (s: String)
    ensures
        s@ == cli_found_text(n_results as nat, n_repos as nat),
{
    let mut out = String::from_str("Found ");
    out.append(decimal_text(n_results as u64).as_str());
    out.append(" result(s) across ");
    out.append(decimal_text(n_repos as u64).as_str());
    out.append(" repo(s):\n");
    out
}

/// The CLI's heading of the result at rank `i`.
pub open spec fn cli_heading_text(
    i: nat,
    score_text: Seq<char>,
    tokens: nat,
    source_label: Seq<char>,
    id: Seq<char>,
    ntype: Seq<char>,
) -> Seq<char> {
    "---\n["@ + decimal(i) + "] score="@ + score_text + " tokens="@ + decimal(tokens) + " "@
        + source_label + " id="@ + id + " "@ + ntype
}

/// The CLI's heading of the result at rank `i`.
pub fn cli_hit_heading(
    i: usize,
    score_text: &str,
    tokens: u32,
    source_label: &str,
    id: &str,
    ntype: &str,
) -> (s: String)
    ensures
        s@ == cli_heading_text(i as nat, score_text@, tokens as nat, source_label@, id@, ntype@),
{
    let mut out = String::from_str("---\n[");
    out.append(decimal_text(i as u64).as_str());
    out.append("] score=");
    out.append(score_text);
    out.append(" tokens=");
    out.append(decimal_text(tokens as u64).as_str());
    out.append(" ");
    out.append(source_label);
    out.append(" id=");
    out.append(id);
    out.append(" ");
    out.append(ntype);
    out
}

/// The first line of `s`, or nothing when it has no line.
pub open spec fn first_line(s: Seq<char>) -> Seq<char> {
    if lines_of(s).len() > 0 {
        lines_of(s)[0]
    } else {
        Seq::empty()
    }
}

/// The CLI's line for a node summary: its first line (or nothing),
/// indented by two spaces.
pub fn cli_summary_line(summary: &str) -> (s: String)
    ensures
        s@ == "  "@ + first_line(summary@),
{
    let lines = text_lines(summary);
    let mut out = String::from_str("  ");
    if lines.len() > 0 {
        assert(lines@.map_values(|l: &str| l@)[0] == lines@[0]@);
        out.append(lines[0]);
    } else {
        assert(out@ =~= "  "@ + Seq::<char>::empty());
    }
    out
}

/// `key=value` of one property.
pub open spec fn prop_text(p: (String, String)) -> Seq<char> {
    p.0@ + "="@ + p.1@
}

/// The properties as `key=value`, separated by `, `.
pub open spec fn joined_props(ps: Seq<(String, String)>) -> Seq<char>
    decreases ps.len(),
{
    if ps.len() == 0 {
        Seq::empty()
    } else if ps.len() == 1 {
        prop_text(ps[0])
    } else {
        joined_props(ps.drop_last()) + ", "@ + prop_text(ps.last())
    }
}

/// The CLI's preview of a node's properties: the first three, after
/// `  props: `.
pub open spec fn cli_props_text(props: Seq<(String, String)>) -> Seq<char> {
    "  props: "@ + joined_props(props.subrange(0, if props.len() < 3 { props.len() as int } else { 3 }))
}

/// The CLI's preview of a node's properties: the first three as
/// `key=value`, separated by `, `.
pub fn cli_props_line(props: &Vec<(String, String)>) -> (s: String)
    ensures
        s@ == cli_props_text(props@),
{
    let n: usize = if props.len() < 3 {
        props.len()
    } else {
        3
    };
    let mut out = String::from_str("  props: ");
    let ghost head = out@;
    let mut i: usize = 0;
    while i < n
        invariant
            i <= n <= props@.len(),
            n == if props@.len() < 3 { props@.len() as int } else { 3 },
            out@ == head + joined_props(props@.subrange(0, i as int)),
            head == "  props: "@,
        decreases n - i,
    {
        let ghost before = props@.subrange(0, i as int);
        if i > 0 {
            out.append(", ");
        }
        out.append(props[i].0.as_str());
        out.append("=");
        out.append(props[i].1.as_str());
        proof {
            let next = props@.subrange(0, i + 1);
            assert(next.drop_last() =~= before);
            assert(next.last() == props@[i as int]);
            if i == 0 {
                assert(next.len() == 1);
                assert(before =~= Seq::<(String, String)>::empty());
            }
            assert(out@ =~= head + joined_props(next));
        }
        i = i + 1;
    }
    out
}

/// The CLI's summary line (with its newline), when there is a summary.
pub open spec fn summary_text(summary: Option<String>) -> Seq<char> {
    match summary {
        Some(s) => "  "@ + first_line(s@) + "\n"@,
        None => Seq::empty(),
    }
}

/// The lines the CLI prints for the result `h` at rank `i`.
pub open spec fn cli_item_text(i: nat, h: Hit<CliHit>) -> Seq<char> {
    cli_heading_text(
        i,
        h.payload.score_text@,
        h.payload.tokens as nat,
        bracketed(h.payload.repo_path@),
        h.id@,
        h.payload.ntype@,
    ) + "\n"@ + summary_text(h.payload.summary) + if h.payload.props@.len() > 0 {
        cli_props_text(h.payload.props@) + "\n"@
    } else {
        Seq::empty()
    }
}

/// The lines the CLI prints for `hits`, ranked from 0.
pub open spec fn cli_items_text(hits: Seq<Hit<CliHit>>) -> Seq<char>
    decreases hits.len(),
{
    if hits.len() == 0 {
        Seq::empty()
    } else {
        cli_items_text(hits.drop_last()) + cli_item_text((hits.len() - 1) as nat, hits.last())
    }
}

/// Appends the lines the CLI prints for the result `h` at rank `i`.
fn push_cli_item(out: &mut String, i: usize, h: &Hit<CliHit>)
    ensures
        final(out)@ == old(out)@ + cli_item_text(i as nat, *h),
{
    let label = bracket(h.payload.repo_path.as_str());
    let mut item = cli_hit_heading(
        i,
        h.payload.score_text.as_str(),
        h.payload.tokens,
        label.as_str(),
        h.id.as_str(),
        h.payload.ntype.as_str(),
    );
    item.append("\n");
    let ghost after_heading = item@;
    match &h.payload.summary {
        Some(s) => {
            let line = cli_summary_line(s.as_str());
            item.append(line.as_str());
            item.append("\n");
        },
        None => {},
    }
    let ghost after_summary = item@;
    if h.payload.props.len() > 0 {
        let line = cli_props_line(&h.payload.props);
        item.append(line.as_str());
        item.append("\n");
    }
    proof {
        assert(after_summary =~= after_heading + summary_text(h.payload.summary));
    }
    out.append(item.as_str());
    assert(out@ =~= old(out)@ + cli_item_text(i as nat, *h));
}

/// What the CLI prints for the merged results `top` of `n_repos`
/// repositories, when `n_kept` distinct results were found before the cut.
pub open spec fn cli_output_text(n_kept: nat, top: Seq<Hit<CliHit>>, n_repos: nat) -> Seq<char> {
    if n_kept == 0 {
        cli_no_results_text(n_repos) + "\n"@
    } else {
        cli_found_text(top.len(), n_repos) + "\n"@ + cli_items_text(top)
    }
}

/// What the CLI prints: the no-results line when nothing was found,
/// else the count heading and each result of `top` with its rank, score,
/// tokens, source path, id, type, summary line and property preview.
pub fn cli_output(n_kept: usize, top: &Vec<Hit<CliHit>>, n_repos: usize) -> (s: String)
    ensures
        s@ == cli_output_text(n_kept as nat, top@, n_repos as nat),
{
    if n_kept == 0 {
        let mut out = cli_no_results(n_repos);
        out.append("\n");
        return out;
    }
    let mut out = cli_found_heading(top.len(), n_repos);
    out.append("\n");
    let ghost head = out@;
    assert(cli_items_text(top@.subrange(0, 0)) =~= Seq::<char>::empty());
    let mut i: usize = 0;
    while i < top.len()
        invariant
            i <= top@.len(),
            out@ == head + cli_items_text(top@.subrange(0, i as int)),
        decreases top@.len() - i,
    {
        let ghost before = out@;
        push_cli_item(&mut out, i, &top[i]);
        proof {
            let next = top@.subrange(0, i + 1);
            assert(next.drop_last() =~= top@.subrange(0, i as int));
            assert(next.last() == top@[i as int]);
            assert(out@ =~= head + cli_items_text(next));
        }
        i = i + 1;
    }
    assert(top@.subrange(0, top@.len() as int) =~= top@);
    out
}

} // verus!
