//! Merging retrieval results from several repositories: results are
//! deduplicated by node UUID (the first one seen wins), ranked by score
//! (highest first, ties keep their arrival order) and cut to a limit.
use vstd::prelude::*;

verus! {

/// One retrieval result as it travels through the cross-repo merge.
pub struct Hit<T> {
    /// The node's UUID in string form; results are deduplicated by it.
    pub id: String,
    /// Order-preserving key of the result's score: a higher key is a
    /// better score.
    pub score: u32,
    /// What the caller carries along with the result (source label,
    /// rendering, token count, ...).
    pub payload: T,
}

/// `id` is the UUID of some result in `hits`.
pub open spec fn id_seen<T>(hits: Seq<Hit<T>>, id: Seq<char>) -> bool {
    exists|j: int| 0 <= j < hits.len() && (#[trigger] hits[j]).id@ == id
}

/// The results of `s` whose UUID did not occur earlier in `s`, in order.
pub open spec fn first_by_id<T>(s: Seq<Hit<T>>) -> Seq<Hit<T>>
    decreases s.len(),
{
    if s.len() == 0 {
        Seq::empty()
    } else {
        let earlier = first_by_id(s.drop_last());
        if id_seen(s.drop_last(), s.last().id@) {
            earlier
        } else {
            earlier.push(s.last())
        }
    }
}

/// No two results of `s` share a UUID.
pub open spec fn ids_distinct<T>(s: Seq<Hit<T>>) -> bool {
    forall|i: int, j: int|
        0 <= i < s.len() && 0 <= j < s.len() && i != j ==> (#[trigger] s[i]).id@ != (#[trigger] s[j]).id@
}

/// The result with score `s1` at original position `p1` is ranked ahead of
/// the one with score `s2` at position `p2`.
pub open spec fn ranks_before(s1: u32, p1: int, s2: u32, p2: int) -> bool {
    s1 > s2 || (s1 == s2 && p1 < p2)
}

/// `out` is `inp` reordered by `perm` (`out[k] == inp[perm[k]]`), with
/// higher scores first and equal scores in their original order.
pub open spec fn score_order_witness<T>(out: Seq<Hit<T>>, inp: Seq<Hit<T>>, perm: Seq<int>) -> bool {
    &&& out.len() == inp.len()
    &&& perm.len() == inp.len()
    &&& forall|k: int|
        0 <= k < out.len() ==> 0 <= #[trigger] perm[k] < inp.len() && out[k] == inp[perm[k]]
    &&& forall|k: int, l: int|
        0 <= k < l < out.len() ==> ranks_before(
            out[k].score,
            #[trigger] perm[k],
            out[l].score,
            #[trigger] perm[l],
        )
}

/// `out` is the stable sort of `inp` by descending score.
pub open spec fn is_score_sort_of<T>(out: Seq<Hit<T>>, inp: Seq<Hit<T>>) -> bool {
    exists|perm: Seq<int>| score_order_witness(out, inp, perm)
}

/// A UUID is among the first occurrences of `s` exactly when it occurs in `s`.
pub proof fn lemma_first_by_id_same_ids<T>(s: Seq<Hit<T>>, id: Seq<char>)
    ensures
        id_seen(first_by_id(s), id) == id_seen(s, id),
    decreases s.len(),
{
    if s.len() > 0 {
        let p = s.drop_last();
        lemma_first_by_id_same_ids(p, id);
        lemma_first_by_id_same_ids(p, s.last().id@);
        let e = first_by_id(p);
        if id_seen(s, id) {
            let j = choose|j: int| 0 <= j < s.len() && (#[trigger] s[j]).id@ == id;
            if j < p.len() {
                assert(p[j] == s[j]);
                let m = choose|m: int| 0 <= m < e.len() && (#[trigger] e[m]).id@ == id;
                if !id_seen(p, s.last().id@) {
                    assert(e.push(s.last())[m] == e[m]);
                }
            } else if !id_seen(p, s.last().id@) {
                assert(e.push(s.last())[e.len() as int] == s.last());
            } else {
                let m = choose|m: int| 0 <= m < e.len() && (#[trigger] e[m]).id@ == s.last().id@;
                assert(e[m].id@ == id);
            }
        }
        if id_seen(first_by_id(s), id) {
            let f = first_by_id(s);
            let m = choose|m: int| 0 <= m < f.len() && (#[trigger] f[m]).id@ == id;
            if m < e.len() {
                assert(f[m] == e[m]);
                let j = choose|j: int| 0 <= j < p.len() && (#[trigger] p[j]).id@ == id;
                assert(s[j] == p[j]);
            } else {
                assert(s[s.len() - 1] == s.last());
            }
        }
    }
}

/// Merged results never hold two results with the same UUID.
pub proof fn lemma_first_by_id_distinct<T>(s: Seq<Hit<T>>)
    ensures
        ids_distinct(first_by_id(s)),
    decreases s.len(),
{
    if s.len() > 0 {
        let p = s.drop_last();
        lemma_first_by_id_distinct(p);
        lemma_first_by_id_same_ids(p, s.last().id@);
        let e = first_by_id(p);
        if !id_seen(p, s.last().id@) {
            let f = e.push(s.last());
            assert forall|i: int, j: int|
                0 <= i < f.len() && 0 <= j < f.len() && i != j implies (#[trigger] f[i]).id@
                != (#[trigger] f[j]).id@ by {
                if i < e.len() && j < e.len() {
                    assert(f[i] == e[i] && f[j] == e[j]);
                } else if i < e.len() {
                    assert(f[i] == e[i]);
                } else {
                    assert(f[j] == e[j]);
                }
            }
        }
    }
}

/// Every result of `first_by_id(s)` is a result of `s`, and its length
/// never exceeds that of `s`.
pub proof fn lemma_first_by_id_from_input<T>(s: Seq<Hit<T>>)
    ensures
        first_by_id(s).len() <= s.len(),
        forall|m: int| 0 <= m < first_by_id(s).len() ==> s.contains(#[trigger] first_by_id(s)[m]),
    decreases s.len(),
{
    if s.len() > 0 {
        let p = s.drop_last();
        lemma_first_by_id_from_input(p);
        let e = first_by_id(p);
        let f = first_by_id(s);
        assert forall|m: int| 0 <= m < f.len() implies s.contains(#[trigger] f[m]) by {
            if m < e.len() {
                assert(f[m] == e[m]);
                assert(p.contains(e[m]));
                let j = choose|j: int| 0 <= j < p.len() && p[j] == e[m];
                assert(s[j] == p[j]);
            } else {
                assert(f[m] == s[s.len() - 1]);
            }
        }
    }
}

/// Stable sort of `hits` by descending score: the best result comes first,
/// and results with equal scores keep the order in which they arrived.
pub fn sort_by_score<T>(hits: Vec<Hit<T>>) -> (sorted: Vec<Hit<T>>)
    ensures
        is_score_sort_of(sorted@, hits@),
{
    let ghost inp = hits@;
    let mut rest = hits;
    let mut out: Vec<Hit<T>> = Vec::new();
    let ghost mut perm: Seq<int> = Seq::empty();
    while rest.len() > 0
        invariant
            rest@ == inp.subrange(0, rest@.len() as int),
            rest@.len() <= inp.len(),
            out@.len() + rest@.len() == inp.len(),
            perm.len() == out@.len(),
            forall|k: int|
                0 <= k < out@.len() ==> rest@.len() <= #[trigger] perm[k] < inp.len() && out@[k]
                    == inp[perm[k]],
            forall|k: int, l: int|
                0 <= k < l < out@.len() ==> ranks_before(
                    out@[k].score,
                    #[trigger] perm[k],
                    out@[l].score,
                    #[trigger] perm[l],
                ),
        decreases rest@.len(),
    {
        let h = rest.pop().unwrap();
        let n = rest.len();
        assert(h == inp[n as int]);
        let mut j: usize = 0;
        while j < out.len() && out[j].score > h.score
            invariant
                j <= out@.len(),
                forall|k: int| 0 <= k < j ==> (#[trigger] out@[k]).score > h.score,
            decreases out@.len() - j,
        {
            j = j + 1;
        }
        let ghost old_out = out@;
        let ghost old_perm = perm;
        out.insert(j, h);
        proof {
            perm = perm.insert(j as int, n as int);
            assert forall|k: int|
                0 <= k < out@.len() implies n <= #[trigger] perm[k] < inp.len() && out@[k]
                == inp[perm[k]] by {
                if k < j {
                    assert(perm[k] == old_perm[k]);
                } else if k > j {
                    assert(perm[k] == old_perm[k - 1]);
                }
            }
            assert forall|k: int, l: int| 0 <= k < l < out@.len() implies ranks_before(
                out@[k].score,
                #[trigger] perm[k],
                out@[l].score,
                #[trigger] perm[l],
            ) by {
                if l < j {
                    assert(perm[k] == old_perm[k] && perm[l] == old_perm[l]);
                } else if l == j {
                    assert(perm[k] == old_perm[k]);
                    assert(out@[k] == old_out[k]);
                } else if k == j {
                    assert(perm[l] == old_perm[l - 1]);
                    assert(out@[l] == old_out[l - 1]);
                    if j < l - 1 {
                        assert(ranks_before(
                            old_out[j as int].score,
                            old_perm[j as int],
                            old_out[l - 1].score,
                            old_perm[l - 1],
                        ));
                    }
                } else if k < j {
                    assert(perm[k] == old_perm[k] && perm[l] == old_perm[l - 1]);
                    assert(ranks_before(
                        old_out[k].score,
                        old_perm[k],
                        old_out[l - 1].score,
                        old_perm[l - 1],
                    ));
                } else {
                    assert(perm[k] == old_perm[k - 1] && perm[l] == old_perm[l - 1]);
                    assert(ranks_before(
                        old_out[k - 1].score,
                        old_perm[k - 1],
                        old_out[l - 1].score,
                        old_perm[l - 1],
                    ));
                }
            }
        }
    }
    proof {
        assert(score_order_witness(out@, inp, perm));
    }
    out
}

/// The reordering behind a score sort uses every original position exactly once.
proof fn lemma_witness_is_permutation<T>(out: Seq<Hit<T>>, inp: Seq<Hit<T>>, perm: Seq<int>)
    requires
        score_order_witness(out, inp, perm),
    ensures
        perm.no_duplicates(),
        forall|i: int| 0 <= i < inp.len() ==> #[trigger] perm.contains(i),
{
    assert forall|i: int, j: int|
        0 <= i < perm.len() && 0 <= j < perm.len() && i != j implies perm[i] != perm[j] by {
        if i < j {
            assert(ranks_before(out[i].score, perm[i], out[j].score, perm[j]));
        } else {
            assert(ranks_before(out[j].score, perm[j], out[i].score, perm[i]));
        }
    }
    perm.unique_seq_to_set();
    vstd::set_lib::lemma_int_range(0, inp.len() as int);
    let full = vstd::set_lib::set_int_range(0, inp.len() as int);
    assert forall|x: int| perm.to_set().contains(x) implies full.contains(x) by {
        let k = choose|k: int| 0 <= k < perm.len() && perm[k] == x;
    }
    vstd::set_lib::lemma_subset_equality(perm.to_set(), full);
    assert forall|i: int| 0 <= i < inp.len() implies #[trigger] perm.contains(i) by {
        assert(full.contains(i));
        assert(perm.to_set().contains(i));
    }
}

/// Two reorderings that both put higher scores first and keep ties in
/// arrival order agree on their first `m` positions.
proof fn lemma_witnesses_agree<T>(
    a: Seq<Hit<T>>,
    pa: Seq<int>,
    b: Seq<Hit<T>>,
    pb: Seq<int>,
    inp: Seq<Hit<T>>,
    m: int,
)
    requires
        score_order_witness(a, inp, pa),
        score_order_witness(b, inp, pb),
        0 <= m <= inp.len(),
    ensures
        forall|l: int| 0 <= l < m ==> pa[l] == pb[l],
    decreases m,
{
    if m > 0 {
        lemma_witnesses_agree(a, pa, b, pb, inp, m - 1);
        let k = m - 1;
        let x = pa[k];
        let y = pb[k];
        if x != y {
            lemma_witness_is_permutation(a, inp, pa);
            lemma_witness_is_permutation(b, inp, pb);
            if ranks_before(inp[x].score, x, inp[y].score, y) {
                assert(pb.contains(x));
                let l = choose|l: int| 0 <= l < pb.len() && pb[l] == x;
                if l < k {
                    assert(pa[l] == pb[l]);
                    assert(ranks_before(a[l].score, pa[l], a[k].score, pa[k]));
                } else {
                    assert(ranks_before(b[k].score, pb[k], b[l].score, pb[l]));
                }
            } else {
                assert(pa.contains(y));
                let l = choose|l: int| 0 <= l < pa.len() && pa[l] == y;
                if l < k {
                    assert(pa[l] == pb[l]);
                    assert(ranks_before(b[l].score, pb[l], b[k].score, pb[k]));
                } else {
                    assert(ranks_before(a[k].score, pa[k], a[l].score, pa[l]));
                }
            }
        }
    }
}

/// The ranking of a set of results is fully determined: two stable
/// descending-score sorts of the same results are the same sequence.
pub proof fn lemma_score_sort_unique<T>(a: Seq<Hit<T>>, b: Seq<Hit<T>>, inp: Seq<Hit<T>>)
    requires
        is_score_sort_of(a, inp),
        is_score_sort_of(b, inp),
    ensures
        a == b,
{
    let pa = choose|p: Seq<int>| score_order_witness(a, inp, p);
    let pb = choose|p: Seq<int>| score_order_witness(b, inp, p);
    lemma_witnesses_agree(a, pa, b, pb, inp, inp.len() as int);
    assert forall|k: int| 0 <= k < a.len() implies a[k] == b[k] by {
        assert(pa[k] == pb[k]);
    }
    assert(a =~= b);
}

/// A ranking holds exactly the ranked results, with non-increasing scores;
/// of two results, the earlier one comes first unless the later one has a
/// higher score; and it keeps UUIDs distinct when they were distinct before.
pub proof fn lemma_score_sort_properties<T>(out: Seq<Hit<T>>, inp: Seq<Hit<T>>)
    requires
        is_score_sort_of(out, inp),
    ensures
        out.len() == inp.len(),
        forall|k: int, l: int| 0 <= k < l < out.len() ==> out[k].score >= out[l].score,
        forall|h: Hit<T>| out.contains(h) <==> inp.contains(h),
        ids_distinct(inp) ==> ids_distinct(out),
        forall|i: int, j: int|
            0 <= i < j < inp.len() && inp[i].score >= inp[j].score ==> exists|k: int, l: int|
                0 <= k < l < out.len() && #[trigger] out[k] == inp[i] && #[trigger] out[l] == inp[j],
{
    let p = choose|p: Seq<int>| score_order_witness(out, inp, p);
    lemma_witness_is_permutation(out, inp, p);
    assert forall|i: int, j: int|
        0 <= i < j < inp.len() && inp[i].score >= inp[j].score implies exists|k: int, l: int|
        0 <= k < l < out.len() && #[trigger] out[k] == inp[i] && #[trigger] out[l] == inp[j] by {
        assert(p.contains(i));
        assert(p.contains(j));
        let k = choose|k: int| 0 <= k < p.len() && p[k] == i;
        let l = choose|l: int| 0 <= l < p.len() && p[l] == j;
        if l < k {
            assert(ranks_before(out[l].score, p[l], out[k].score, p[k]));
        }
        assert(k != l);
        assert(out[k] == inp[i] && out[l] == inp[j]);
    }
    assert forall|k: int, l: int| 0 <= k < l < out.len() implies out[k].score >= out[l].score by {
        assert(ranks_before(out[k].score, p[k], out[l].score, p[l]));
    }
    assert forall|h: Hit<T>| out.contains(h) <==> inp.contains(h) by {
        if out.contains(h) {
            let k = choose|k: int| 0 <= k < out.len() && out[k] == h;
            assert(inp[p[k]] == h);
        }
        if inp.contains(h) {
            let i = choose|i: int| 0 <= i < inp.len() && inp[i] == h;
            assert(p.contains(i));
            let k = choose|k: int| 0 <= k < p.len() && p[k] == i;
            assert(out[k] == h);
        }
    }
    if ids_distinct(inp) {
        assert forall|i: int, j: int|
            0 <= i < out.len() && 0 <= j < out.len() && i != j implies (#[trigger] out[i]).id@
            != (#[trigger] out[j]).id@ by {
            assert(p[i] != p[j]);
            assert(out[i] == inp[p[i]] && out[j] == inp[p[j]]);
        }
    }
}

/// Each kept result is the first result offered with its UUID.
pub proof fn lemma_first_by_id_keeps_first<T>(s: Seq<Hit<T>>)
    ensures
        forall|m: int|
            0 <= m < first_by_id(s).len() ==> exists|i: int|
                0 <= i < s.len() && s[i] == #[trigger] first_by_id(s)[m] && !id_seen(
                    s.subrange(0, i),
                    s[i].id@,
                ),
    decreases s.len(),
{
    if s.len() > 0 {
        let p = s.drop_last();
        lemma_first_by_id_keeps_first(p);
        let e = first_by_id(p);
        let f = first_by_id(s);
        assert forall|m: int| 0 <= m < f.len() implies exists|i: int|
            0 <= i < s.len() && s[i] == #[trigger] f[m] && !id_seen(s.subrange(0, i), s[i].id@) by {
            if m < e.len() {
                assert(f[m] == e[m]);
                let i = choose|i: int|
                    0 <= i < p.len() && p[i] == #[trigger] e[m] && !id_seen(p.subrange(0, i), p[i].id@);
                assert(s[i] == p[i]);
                assert(s.subrange(0, i) =~= p.subrange(0, i));
            } else {
                let i = s.len() - 1;
                assert(f[m] == s[i]);
                assert(s.subrange(0, i) =~= p);
            }
        }
    }
}

/// What a merge returns: at most `limit` results, the best ones first,
/// each taken from what was offered, no UUID twice, and no result left out
/// that scores higher than one that was kept.
pub proof fn lemma_merge_properties<T>(offered: Seq<Hit<T>>, ranked: Seq<Hit<T>>, limit: nat)
    requires
        is_score_sort_of(ranked, first_by_id(offered)),
    ensures
        ({
            let top = if limit < ranked.len() {
                ranked.subrange(0, limit as int)
            } else {
                ranked
            };
            &&& top.len() == if limit < first_by_id(offered).len() {
                limit
            } else {
                first_by_id(offered).len()
            }
            &&& ids_distinct(top)
            &&& forall|k: int, l: int| 0 <= k < l < top.len() ==> top[k].score >= top[l].score
            &&& forall|k: int| 0 <= k < top.len() ==> offered.contains(#[trigger] top[k])
            &&& forall|k: int, l: int|
                0 <= k < top.len() && top.len() <= l < ranked.len() ==> (#[trigger] top[k]).score
                    >= (#[trigger] ranked[l]).score
            &&& forall|id: Seq<char>|
                id_seen(offered, id) && !id_seen(top, id) ==> top.len() == limit
        }),
{
    let inp = first_by_id(offered);
    lemma_score_sort_properties(ranked, inp);
    lemma_first_by_id_distinct(offered);
    lemma_first_by_id_from_input(offered);
    let top = if limit < ranked.len() {
        ranked.subrange(0, limit as int)
    } else {
        ranked
    };
    assert forall|k: int| 0 <= k < top.len() implies top[k] == ranked[k] by {}
    assert forall|i: int, j: int|
        0 <= i < top.len() && 0 <= j < top.len() && i != j implies (#[trigger] top[i]).id@
        != (#[trigger] top[j]).id@ by {
        assert(top[i] == ranked[i] && top[j] == ranked[j]);
    }
    assert forall|k: int| 0 <= k < top.len() implies offered.contains(#[trigger] top[k]) by {
        assert(top[k] == ranked[k]);
        assert(ranked.contains(ranked[k]));
        assert(inp.contains(ranked[k]));
        let m = choose|m: int| 0 <= m < inp.len() && inp[m] == ranked[k];
    }
    assert forall|k: int, l: int|
        0 <= k < top.len() && top.len() <= l < ranked.len() implies (#[trigger] top[k]).score
        >= (#[trigger] ranked[l]).score by {
        assert(top[k] == ranked[k]);
    }
    assert forall|id: Seq<char>| id_seen(offered, id) && !id_seen(top, id) implies top.len()
        == limit by {
        lemma_first_by_id_same_ids(offered, id);
        if top.len() != limit {
            assert(top == ranked);
            let m = choose|m: int| 0 <= m < inp.len() && (#[trigger] inp[m]).id@ == id;
            assert(ranked.contains(inp[m]));
            let k = choose|k: int| 0 <= k < ranked.len() && ranked[k] == inp[m];
            assert(top[k].id@ == id);
        }
    }
}

/// The first `limit` results of `ranked` (all of them when there are fewer).
pub open spec fn top_of<T>(ranked: Seq<T>, limit: nat) -> Seq<T> {
    if limit < ranked.len() {
        ranked.subrange(0, limit as int)
    } else {
        ranked
    }
}

/// Cutting a ranking to `limit` keeps its first `min(limit, length)`
/// results, in order.
pub proof fn lemma_top_of_prefix<T>(ranked: Seq<T>, limit: nat)
    ensures
        top_of(ranked, limit).len() == if limit < ranked.len() {
            limit
        } else {
            ranked.len()
        },
        forall|k: int| 0 <= k < top_of(ranked, limit).len() ==> #[trigger] top_of(ranked, limit)[k] == ranked[k],
{
}

/// The batches one after the other.
pub open spec fn concat_all<T>(batches: Seq<Seq<T>>) -> Seq<T>
    decreases batches.len(),
{
    if batches.len() == 0 {
        Seq::empty()
    } else {
        concat_all(batches.drop_last()) + batches.last()
    }
}

/// Collects the results of several repositories in the order they are
/// searched, keeping only the first result seen for each node UUID.
pub struct HitCollector<T> {
    hits: Vec<Hit<T>>,
    offered: Ghost<Seq<Hit<T>>>,
}

impl<T> HitCollector<T> {
    /// Everything offered so far, duplicates included, in order.
    pub closed spec fn offered(&self) -> Seq<Hit<T>> {
        self.offered@
    }

    /// The results kept so far, in arrival order.
    pub closed spec fn kept(&self) -> Seq<Hit<T>> {
        self.hits@
    }

    /// The collector keeps exactly the first occurrence of each UUID.
    #[verifier::type_invariant]
    closed spec fn wf(&self) -> bool {
        self.hits@ == first_by_id(self.offered@)
    }

    /// An empty collector.
    pub fn new() -> (c: Self)
        ensures
            c.offered() == Seq::<Hit<T>>::empty(),
            c.kept() == Seq::<Hit<T>>::empty(),
    {
        HitCollector { hits: Vec::new(), offered: Ghost(Seq::empty()) }
    }

    /// Number of results kept so far: one per UUID offered.
    pub fn len(&self) -> (n: usize)
        ensures
            n == self.kept().len(),
            n == first_by_id(self.offered()).len(),
    {
        proof {
            use_type_invariant(self);
        }
        self.hits.len()
    }

    /// No result has been kept yet (nothing has been offered).
    pub fn is_empty(&self) -> (b: bool)
        ensures
            b == (self.kept().len() == 0),
            b == (first_by_id(self.offered()).len() == 0),
    {
        proof {
            use_type_invariant(self);
        }
        self.hits.len() == 0
    }

    /// Offers each of `hits`, in order.
    pub fn offer_all(&mut self, hits: Vec<Hit<T>>)
        ensures
            final(self).offered() == old(self).offered() + hits@,
    {
        let ghost start = self.offered();
        let ghost all = hits@;
        let total = hits.len();
        let mut rest = hits;
        let mut k: usize = 0;
        while rest.len() > 0
            invariant
                k <= all.len(),
                total == all.len(),
                rest@ == all.subrange(k as int, all.len() as int),
                self.offered() == start + all.subrange(0, k as int),
            decreases rest@.len(),
        {
            let h = rest.remove(0);
            assert(h == all[k as int]);
            self.offer(h);
            assert(all.subrange(0, k + 1) =~= all.subrange(0, k as int).push(h));
            assert(rest@ =~= all.subrange(k + 1, all.len() as int));
            k = k + 1;
        }
        assert(all.subrange(0, all.len() as int) =~= all);
    }

    /// Offers one result; it is kept when no earlier result had its UUID.
    /// Returns whether it was kept.
    pub fn offer(&mut self, hit: Hit<T>) -> (kept: bool)
        ensures
            final(self).offered() == old(self).offered().push(hit),
            kept == !id_seen(old(self).offered(), hit.id@),
            final(self).kept() == if kept {
                old(self).kept().push(hit)
            } else {
                old(self).kept()
            },
    {
        proof {
            use_type_invariant(&*self);
            lemma_first_by_id_same_ids(self.offered@, hit.id@);
        }
        let mut i: usize = 0;
        let mut found = false;
        while i < self.hits.len() && !found
            invariant
                i <= self.hits@.len(),
                !found ==> forall|k: int| 0 <= k < i ==> (#[trigger] self.hits@[k]).id@ != hit.id@,
                found ==> i < self.hits@.len() && self.hits@[i as int].id@ == hit.id@,
            decreases self.hits@.len() - i + if found { 0int } else { 1int },
        {
            if self.hits[i].id == hit.id {
                found = true;
            } else {
                i = i + 1;
            }
        }
        let ghost prev = self.offered@;
        assert(prev.push(hit).drop_last() == prev);
        if found {
            self.offered = Ghost(prev.push(hit));
            false
        } else {
            let mut current = HitCollector::new();
            std::mem::swap(&mut current, self);
            let HitCollector { mut hits, offered } = current;
            hits.push(hit);
            let mut next = HitCollector { hits, offered: Ghost(prev.push(hit)) };
            std::mem::swap(&mut next, self);
            true
        }
    }

    /// Ranks the kept results by descending score (ties keep their arrival
    /// order) and returns at most `limit` of them.
    pub fn finish(self, limit: usize) -> (top: Vec<Hit<T>>)
        ensures
            exists|ranked: Seq<Hit<T>>|
                #![trigger is_score_sort_of(ranked, first_by_id(self.offered()))]
                is_score_sort_of(ranked, first_by_id(self.offered())) && top@ == top_of(
                    ranked,
                    limit as nat,
                ) && forall|k: int| 0 <= k < top@.len() ==> top@[k] == ranked[k],
            top@.len() == if limit < first_by_id(self.offered()).len() {
                limit as nat
            } else {
                first_by_id(self.offered()).len()
            },
    {
        proof {
            use_type_invariant(&self);
        }
        let mut ranked = sort_by_score(self.hits);
        let ghost whole = ranked@;
        ranked.truncate(limit);
        proof {
            lemma_score_sort_properties(whole, first_by_id(self.offered()));
            lemma_top_of_prefix(whole, limit as nat);
        }
        assert(is_score_sort_of(whole, first_by_id(self.offered())));
        ranked
    }
}

} // verus!
