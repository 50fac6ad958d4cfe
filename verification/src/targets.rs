//! Which repositories a cross-repo search visits: the global graph first
//! (when it has been initialised), then every registered repository that
//! holds a graph, each path at most once.
use vstd::prelude::*;
use crate::text::{bracket, bracketed, same_path, same_path_text};

verus! {

/// One entry of the repository registry (`repos.toml`), together with the
/// answer to "does `<path>/.mnem` exist as a directory?".
pub struct RegistryEntry {
    /// The registered repository's directory.
    pub path: String,
    /// Optional display label.
    pub label: Option<String>,
    /// The directory holds a graph (`<path>/.mnem` is a directory).
    pub has_graph: bool,
}

/// A repository to search, with the label its results carry.
pub struct Target {
    /// The repository's directory.
    pub path: String,
    /// `[global]`, `[label]` or `[path]`.
    pub label: String,
}

/// A target as plain values: (path, label).
pub open spec fn target_view(t: Target) -> (Seq<char>, Seq<char>) {
    (t.path@, t.label@)
}

/// The label of the global graph's results.
pub open spec fn global_label() -> Seq<char> {
    "[global]"@
}

/// The label of a registered repository: its own label when it has one,
/// else its path, in square brackets.
pub open spec fn entry_label(e: RegistryEntry) -> Seq<char> {
    match e.label {
        Some(l) => bracketed(l@),
        None => bracketed(e.path@),
    }
}

/// Some target in `ts` has a path equal to `p`.
pub open spec fn path_listed(ts: Seq<(Seq<char>, Seq<char>)>, p: Seq<char>) -> bool {
    exists|k: int| 0 <= k < ts.len() && same_path_text((#[trigger] ts[k]).0, p)
}

/// The targets for a global directory and a registry: the global graph
/// first when it exists, then each registered repository that holds a graph
/// and whose path is not already listed, in registry order.
pub open spec fn select_targets(
    global_dir: Seq<char>,
    global_has_graph: bool,
    entries: Seq<RegistryEntry>,
) -> Seq<(Seq<char>, Seq<char>)>
    decreases entries.len(),
{
    if entries.len() == 0 {
        if global_has_graph {
            seq![(global_dir, global_label())]
        } else {
            Seq::empty()
        }
    } else {
        let earlier = select_targets(global_dir, global_has_graph, entries.drop_last());
        let e = entries.last();
        if e.has_graph && !path_listed(earlier, e.path@) {
            earlier.push((e.path@, entry_label(e)))
        } else {
            earlier
        }
    }
}

/// The selected targets: the global graph comes first when it has a graph;
/// no later target's path equals an earlier one's; every other target is a
/// registered repository that holds a graph, with its label; and every
/// registered repository that holds a graph is searched, itself or through
/// an earlier target with the same path.
pub proof fn lemma_select_targets_properties(
    global_dir: Seq<char>,
    global_has_graph: bool,
    entries: Seq<RegistryEntry>,
)
    ensures
        ({
            let ts = select_targets(global_dir, global_has_graph, entries);
            &&& global_has_graph ==> ts.len() > 0 && ts[0] == (global_dir, global_label())
            &&& !global_has_graph && ts.len() > 0 ==> exists|j: int|
                0 <= j < entries.len() && entries[j].has_graph && ts[0] == (
                    entries[j].path@,
                    entry_label(entries[j]),
                )
            &&& forall|i: int, j: int|
                0 <= i < j < ts.len() ==> !same_path_text((#[trigger] ts[i]).0, (#[trigger] ts[j]).0)
            &&& forall|k: int|
                0 < k < ts.len() ==> exists|j: int|
                    0 <= j < entries.len() && entries[j].has_graph && #[trigger] ts[k] == (
                        entries[j].path@,
                        entry_label(entries[j]),
                    )
            &&& forall|j: int|
                0 <= j < entries.len() && (#[trigger] entries[j]).has_graph ==> path_listed(
                    ts,
                    entries[j].path@,
                )
        }),
    decreases entries.len(),
{
    if entries.len() > 0 {
        let p = entries.drop_last();
        lemma_select_targets_properties(global_dir, global_has_graph, p);
        let e = entries.last();
        let prev = select_targets(global_dir, global_has_graph, p);
        let ts = select_targets(global_dir, global_has_graph, entries);
        assert(entries[entries.len() - 1] == e);
        if e.has_graph && !path_listed(prev, e.path@) {
            assert(ts == prev.push((e.path@, entry_label(e))));
            assert forall|i: int, j: int|
                0 <= i < j < ts.len() implies !same_path_text((#[trigger] ts[i]).0, (#[trigger] ts[j]).0) by {
                if j < prev.len() {
                    assert(ts[i] == prev[i] && ts[j] == prev[j]);
                } else {
                    assert(ts[i] == prev[i]);
                }
            }
            if !global_has_graph && ts.len() > 0 {
                if prev.len() > 0 {
                    let j0 = choose|j: int|
                        0 <= j < p.len() && p[j].has_graph && prev[0] == (p[j].path@, entry_label(p[j]));
                    assert(entries[j0] == p[j0]);
                    assert(ts[0] == prev[0]);
                } else {
                    assert(ts[0] == (entries[entries.len() - 1].path@, entry_label(entries[entries.len() - 1])));
                }
            }
            assert forall|k: int| 0 < k < ts.len() implies exists|j: int|
                0 <= j < entries.len() && entries[j].has_graph && #[trigger] ts[k] == (
                    entries[j].path@,
                    entry_label(entries[j]),
                ) by {
                if k < prev.len() {
                    assert(ts[k] == prev[k]);
                    let j0 = choose|j: int|
                        0 <= j < p.len() && p[j].has_graph && #[trigger] prev[k] == (
                            p[j].path@,
                            entry_label(p[j]),
                        );
                    assert(entries[j0] == p[j0]);
                } else {
                    assert(ts[k] == (entries[entries.len() - 1].path@, entry_label(entries[entries.len() - 1])));
                }
            }
            assert forall|j: int|
                0 <= j < entries.len() && (#[trigger] entries[j]).has_graph implies path_listed(
                ts,
                entries[j].path@,
            ) by {
                if j < p.len() {
                    assert(entries[j] == p[j]);
                    let k0 = choose|k: int|
                        0 <= k < prev.len() && same_path_text((#[trigger] prev[k]).0, p[j].path@);
                    assert(ts[k0] == prev[k0]);
                } else {
                    assert(ts[prev.len() as int].0 == entries[j].path@);
                }
            }
        } else {
            assert(ts == prev);
            if !global_has_graph && ts.len() > 0 {
                let j0 = choose|j: int|
                    0 <= j < p.len() && p[j].has_graph && prev[0] == (p[j].path@, entry_label(p[j]));
                assert(entries[j0] == p[j0]);
            }
            assert forall|k: int| 0 < k < ts.len() implies exists|j: int|
                0 <= j < entries.len() && entries[j].has_graph && #[trigger] ts[k] == (
                    entries[j].path@,
                    entry_label(entries[j]),
                ) by {
                let j0 = choose|j: int|
                    0 <= j < p.len() && p[j].has_graph && #[trigger] prev[k] == (
                        p[j].path@,
                        entry_label(p[j]),
                    );
                assert(entries[j0] == p[j0]);
            }
            assert forall|j: int|
                0 <= j < entries.len() && (#[trigger] entries[j]).has_graph implies path_listed(
                ts,
                entries[j].path@,
            ) by {
                if j < p.len() {
                    assert(entries[j] == p[j]);
                } else {
                    assert(entries[j] == e);
                }
            }
        }
    }
}

/// A registered repository is labelled with its own label, else its path,
/// between `[` and `]`.
pub proof fn lemma_entry_label_text(e: RegistryEntry)
    ensures
        entry_label(e) == seq!['['] + match e.label {
            Some(l) => l@,
            None => e.path@,
        } + seq![']'],
{
}

/// Registered repositories are searched in registry order.
pub proof fn lemma_select_targets_in_registry_order(
    global_dir: Seq<char>,
    global_has_graph: bool,
    entries: Seq<RegistryEntry>,
)
    ensures
        ({
            let ts = select_targets(global_dir, global_has_graph, entries);
            let first = if global_has_graph {
                1int
            } else {
                0int
            };
            forall|k: int, l: int|
                first <= k < l < ts.len() ==> exists|jk: int, jl: int|
                    0 <= jk < jl < entries.len() && #[trigger] ts[k] == (
                        entries[jk].path@,
                        entry_label(entries[jk]),
                    ) && #[trigger] ts[l] == (entries[jl].path@, entry_label(entries[jl]))
        }),
    decreases entries.len(),
{
    if entries.len() > 0 {
        let p = entries.drop_last();
        lemma_select_targets_in_registry_order(global_dir, global_has_graph, p);
        lemma_select_targets_properties(global_dir, global_has_graph, p);
        let prev = select_targets(global_dir, global_has_graph, p);
        let ts = select_targets(global_dir, global_has_graph, entries);
        let e = entries.last();
        let first = if global_has_graph {
            1int
        } else {
            0int
        };
        assert(entries[entries.len() - 1] == e);
        assert forall|k: int, l: int| first <= k < l < ts.len() implies exists|jk: int, jl: int|
            0 <= jk < jl < entries.len() && #[trigger] ts[k] == (
                entries[jk].path@,
                entry_label(entries[jk]),
            ) && #[trigger] ts[l] == (entries[jl].path@, entry_label(entries[jl])) by {
            if e.has_graph && !path_listed(prev, e.path@) && l == prev.len() {
                assert(ts[k] == prev[k]);
                let jk = choose|j: int|
                    0 <= j < p.len() && p[j].has_graph && #[trigger] prev[k] == (
                        p[j].path@,
                        entry_label(p[j]),
                    );
                assert(entries[jk] == p[jk]);
                assert(ts[l] == (entries[entries.len() - 1].path@, entry_label(entries[entries.len() - 1])));
            } else {
                assert(ts[k] == prev[k] && ts[l] == prev[l]);
                let (jk, jl) = choose|jk: int, jl: int|
                    0 <= jk < jl < p.len() && #[trigger] prev[k] == (
                        p[jk].path@,
                        entry_label(p[jk]),
                    ) && #[trigger] prev[l] == (p[jl].path@, entry_label(p[jl]));
                assert(entries[jk] == p[jk] && entries[jl] == p[jl]);
            }
        }
    }
}

fn label_of(e: &RegistryEntry) -> (l: String)
    ensures
        l@ == entry_label(*e),
{
    match &e.label {
        Some(l) => bracket(l.as_str()),
        None => bracket(e.path.as_str()),
    }
}

/// Builds the list of repositories to search: the global graph first when
/// `global_has_graph`, then each registered repository that holds a graph,
/// skipping paths that are already listed.
pub fn build_targets(global_dir: &str, global_has_graph: bool, entries: &Vec<RegistryEntry>) -> (targets:
    Vec<Target>)
    ensures
        targets@.map_values(|t: Target| target_view(t)) == select_targets(
            global_dir@,
            global_has_graph,
            entries@,
        ),
{
    let mut targets: Vec<Target> = Vec::new();
    if global_has_graph {
        proof {
            reveal_strlit("[global]");
        }
        targets.push(Target { path: String::from_str(global_dir), label: String::from_str("[global]") });
    }
    proof {
        assert(entries@.subrange(0, 0).len() == 0);
        assert(targets@.map_values(|t: Target| target_view(t)) =~= select_targets(
            global_dir@,
            global_has_graph,
            entries@.subrange(0, 0),
        ));
    }
    let mut i: usize = 0;
    while i < entries.len()
        invariant
            i <= entries@.len(),
            targets@.map_values(|t: Target| target_view(t)) == select_targets(
                global_dir@,
                global_has_graph,
                entries@.subrange(0, i as int),
            ),
        decreases entries@.len() - i,
    {
        let e = &entries[i];
        let ghost listed = targets@.map_values(|t: Target| target_view(t));
        let mut dup = false;
        if e.has_graph {
            let mut k: usize = 0;
            while k < targets.len() && !dup
                invariant
                    k <= targets@.len(),
                    listed == targets@.map_values(|t: Target| target_view(t)),
                    !dup ==> forall|m: int| 0 <= m < k ==> !same_path_text(#[trigger] listed[m].0, e.path@),
                    dup ==> path_listed(listed, e.path@),
                decreases targets@.len() - k + if dup { 0int } else { 1int },
            {
                if same_path(targets[k].path.as_str(), e.path.as_str()) {
                    assert(listed[k as int].0 == targets@[k as int].path@);
                    dup = true;
                } else {
                    assert(listed[k as int].0 == targets@[k as int].path@);
                    k = k + 1;
                }
            }
            if !dup {
                let label = label_of(e);
                targets.push(Target { path: e.path.clone(), label });
            }
        }
        proof {
            let pre = entries@.subrange(0, i as int);
            let next = entries@.subrange(0, i + 1);
            assert(next.drop_last() =~= pre);
            assert(next.last() == *e);
            assert(targets@.map_values(|t: Target| target_view(t)) =~= select_targets(
                global_dir@,
                global_has_graph,
                next,
            ));
        }
        i = i + 1;
    }
    assert(entries@.subrange(0, entries@.len() as int) =~= entries@);
    targets
}

} // verus!
