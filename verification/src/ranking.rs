//! Constraint filtering and the deterministic order of results.

use vstd::prelude::*;
use vstd::seq_lib::{to_multiset_build, to_multiset_contains, to_multiset_insert};
use crate::query::QueryConstraints;
use crate::result::SearchResult;
use crate::score::{
    lemma_rank_monotonic_in_confidence, lemma_rank_monotonic_in_trust, rank, ScoringWeights,
};
use crate::text::{lemma_lex_le_total, lemma_lex_le_transitive, lex_le, str_le, utf8};

verus! {

/// `a` may stand before `b`: it ranks higher, or ranks the same and its
/// identifier does not come later in byte order.
pub open spec fn precedes(a: SearchResult, b: SearchResult, w: ScoringWeights) -> bool {
    a.rank(w) > b.rank(w) || (a.rank(w) == b.rank(w) && lex_le(utf8(a.id@), utf8(b.id@)))
}

/// Every hit may stand before every later one.
pub open spec fn is_ranked(s: Seq<SearchResult>, w: ScoringWeights) -> bool {
    forall|i: int, j: int| 0 <= i < j < s.len() ==> precedes(s[i], s[j], w)
}

/// Of two hits, one may stand before the other.
pub proof fn lemma_precedes_total(a: SearchResult, b: SearchResult, w: ScoringWeights)
    ensures
        precedes(a, b, w) || precedes(b, a, w),
{
    lemma_lex_le_total(utf8(a.id@), utf8(b.id@));
}

/// The order of hits is transitive.
pub proof fn lemma_precedes_transitive(
    a: SearchResult,
    b: SearchResult,
    c: SearchResult,
    w: ScoringWeights,
)
    requires
        precedes(a, b, w),
        precedes(b, c, w),
    ensures
        precedes(a, c, w),
{
    if a.rank(w) == b.rank(w) && b.rank(w) == c.rank(w) {
        lemma_lex_le_transitive(utf8(a.id@), utf8(b.id@), utf8(c.id@));
    }
}

/// Decides `precedes`.
pub fn comes_before(a: &SearchResult, b: &SearchResult, w: &ScoringWeights) -> (r: bool)
    ensures
        r == precedes(*a, *b, *w),
{
    let ra = rank(a.confidence, a.trust_score, w);
    let rb = rank(b.confidence, b.trust_score, w);
    if ra != rb {
        ra > rb
    } else {
        str_le(a.id.as_str(), b.id.as_str())
    }
}

/// The hits that pass the constraints, in their order.
pub open spec fn admitted(s: Seq<SearchResult>, c: QueryConstraints) -> Seq<SearchResult> {
    s.filter(|r: SearchResult| c.admits(r.trust_score@ as int, r.metadata.updated_at as int))
}

/// Drops every hit whose trust is below the minimum or whose last update
/// is older than the constraints allow.
pub fn retain_admitted(results: Vec<SearchResult>, c: &QueryConstraints) -> (kept: Vec<SearchResult>)
    ensures
        kept@ == admitted(results@, *c),
{
    let ghost pred = |r: SearchResult| c.admits(r.trust_score@ as int, r.metadata.updated_at as int);
    let mut kept: Vec<SearchResult> = Vec::new();
    for r in it: results.into_iter()
        invariant
            it.seq() == results@,
            kept@ == it.seq().take(it.index()).filter(pred),
            pred == (|r: SearchResult| c.admits(r.trust_score@ as int, r.metadata.updated_at as int)),
    {
        proof {
            let i = it.index();
            assert(it.seq().take(i + 1) =~= it.seq().take(i).push(r));
            it.seq().take(i).lemma_filter_push(r, pred);
        }
        if c.passes(r.trust_score, r.metadata.updated_at) {
            kept.push(r);
        }
    }
    proof {
        assert(results@.take(results@.len() as int) =~= results@);
    }
    kept
}

/// Where `x` goes in the ranked list `s`: behind the leading hits that may
/// stand before it, so that a hit never overtakes one it ties with.
pub open spec fn place(s: Seq<SearchResult>, x: SearchResult, w: ScoringWeights) -> int
    decreases s.len(),
{
    if s.len() == 0 || !precedes(s[0], x, w) {
        0
    } else {
        1 + place(s.drop_first(), x, w)
    }
}

/// The hits of `s` in ranked order: best rank first, ties in the byte
/// order of their identifiers, and hits that tie in both in the order in
/// which they stand in `s`.
pub open spec fn ranked_order(s: Seq<SearchResult>, w: ScoringWeights) -> Seq<SearchResult>
    decreases s.len(),
{
    if s.len() == 0 {
        Seq::empty()
    } else {
        let before = ranked_order(s.drop_last(), w);
        before.insert(place(before, s.last(), w), s.last())
    }
}

proof fn lemma_place(s: Seq<SearchResult>, x: SearchResult, w: ScoringWeights, p: int)
    requires
        0 <= p <= s.len(),
        forall|k: int| 0 <= k < p ==> precedes(s[k], x, w),
        p == s.len() || !precedes(s[p], x, w),
    ensures
        place(s, x, w) == p,
    decreases s.len(),
{
    if p > 0 {
        let rest = s.drop_first();
        assert forall|k: int| 0 <= k < p - 1 implies precedes(rest[k], x, w) by {
            assert(rest[k] == s[k + 1]);
        }
        if p - 1 < rest.len() {
            assert(rest[p - 1] == s[p]);
        }
        lemma_place(rest, x, w, p - 1);
    }
}

proof fn lemma_place_bounds(s: Seq<SearchResult>, x: SearchResult, w: ScoringWeights)
    ensures
        0 <= place(s, x, w) <= s.len(),
        forall|k: int| 0 <= k < place(s, x, w) ==> precedes(s[k], x, w),
        place(s, x, w) == s.len() || !precedes(s[place(s, x, w)], x, w),
    decreases s.len(),
{
    if s.len() > 0 && precedes(s[0], x, w) {
        let rest = s.drop_first();
        lemma_place_bounds(rest, x, w);
        let q = place(rest, x, w);
        assert forall|k: int| 0 <= k < q + 1 implies precedes(s[k], x, w) by {
            if k > 0 {
                assert(s[k] == rest[k - 1]);
            }
        }
        if q < rest.len() {
            assert(rest[q] == s[q + 1]);
        }
    }
}

/// A hit put at its place leaves a ranked list ranked, and adds that hit
/// and nothing else.
pub proof fn lemma_place_keeps_ranked(s: Seq<SearchResult>, x: SearchResult, w: ScoringWeights)
    requires
        is_ranked(s, w),
    ensures
        0 <= place(s, x, w) <= s.len(),
        is_ranked(s.insert(place(s, x, w), x), w),
        s.insert(place(s, x, w), x).to_multiset() == s.to_multiset().insert(x),
{
    lemma_place_bounds(s, x, w);
    let p = place(s, x, w);
    let t = s.insert(p, x);
    assert forall|i: int, j: int| 0 <= i < j < t.len() implies precedes(t[i], t[j], w) by {
        if j < p {
            assert(t[i] == s[i] && t[j] == s[j]);
        } else if j == p {
            assert(t[i] == s[i] && t[j] == x);
        } else if i < p {
            assert(t[i] == s[i] && t[j] == s[j - 1]);
        } else if i == p {
            assert(t[i] == x && t[j] == s[j - 1]);
            lemma_precedes_total(s[p], x, w);
            if j - 1 > p {
                lemma_precedes_transitive(x, s[p], s[j - 1], w);
            }
        } else {
            assert(t[i] == s[i - 1] && t[j] == s[j - 1]);
        }
    }
    to_multiset_insert(s, p, x);
}

/// The ranked order is ranked, and holds the same hits as often.
pub proof fn lemma_ranked_order(s: Seq<SearchResult>, w: ScoringWeights)
    ensures
        is_ranked(ranked_order(s, w), w),
        ranked_order(s, w).to_multiset() == s.to_multiset(),
        ranked_order(s, w).len() == s.len(),
    decreases s.len(),
{
    if s.len() == 0 {
        assert(s =~= Seq::<SearchResult>::empty());
    } else {
        let before = ranked_order(s.drop_last(), w);
        lemma_ranked_order(s.drop_last(), w);
        lemma_place_keeps_ranked(before, s.last(), w);
        assert(s =~= s.drop_last().push(s.last()));
        to_multiset_build(s.drop_last(), s.last());
    }
}

/// `m2` is the hit `m` with a confidence and a trust that are no lower,
/// and nothing else that ranking or admission looks at changed.
pub open spec fn raised(m: SearchResult, m2: SearchResult) -> bool {
    &&& m2.id@ == m.id@
    &&& m2.metadata.updated_at == m.metadata.updated_at
    &&& m.confidence@ <= m2.confidence@
    &&& m.trust_score@ <= m2.trust_score@
}

/// A hit whose scores rise stands before every hit it stood before, and
/// no hit that did not stand before it comes to stand before it.
pub proof fn lemma_raise_keeps_precedence(
    m: SearchResult,
    m2: SearchResult,
    x: SearchResult,
    w: ScoringWeights,
)
    requires
        raised(m, m2),
    ensures
        m.rank(w) <= m2.rank(w),
        precedes(m, x, w) ==> precedes(m2, x, w),
        precedes(x, m2, w) ==> precedes(x, m, w),
{
    lemma_rank_monotonic_in_confidence(
        m.confidence@ as int,
        m2.confidence@ as int,
        m.trust_score@ as int,
        w,
    );
    lemma_rank_monotonic_in_trust(
        m2.confidence@ as int,
        m.trust_score@ as int,
        m2.trust_score@ as int,
        w,
    );
}

/// In the ranked lists `rs` and `rt` the hit `m` stands at `p`, the hit
/// `m2` at `p2`, no later, and the other hits are the same in the same
/// order.
pub open spec fn moved_up(
    rs: Seq<SearchResult>,
    rt: Seq<SearchResult>,
    m: SearchResult,
    m2: SearchResult,
    p: int,
    p2: int,
) -> bool {
    &&& rs.len() == rt.len()
    &&& 0 <= p2 <= p < rs.len()
    &&& rs[p] == m
    &&& rt[p2] == m2
    &&& rs.remove(p) == rt.remove(p2)
}

proof fn lemma_place_around(r: Seq<SearchResult>, p: int, x: SearchResult, w: ScoringWeights)
    requires
        is_ranked(r, w),
        0 <= p < r.len(),
    ensures
        is_ranked(r.remove(p), w),
        precedes(r[p], x, w) ==> p <= place(r.remove(p), x, w) && place(r, x, w) == place(
            r.remove(p),
            x,
            w,
        ) + 1 && r.insert(place(r, x, w), x).remove(p) == r.remove(p).insert(
            place(r.remove(p), x, w),
            x,
        ),
        !precedes(r[p], x, w) ==> place(r.remove(p), x, w) <= p && place(r, x, w) == place(
            r.remove(p),
            x,
            w,
        ) && r.insert(place(r, x, w), x).remove(p + 1) == r.remove(p).insert(
            place(r.remove(p), x, w),
            x,
        ),
{
    let u_seq = r.remove(p);
    let m = r[p];
    assert forall|i: int, j: int| 0 <= i < j < u_seq.len() implies precedes(
        u_seq[i],
        u_seq[j],
        w,
    ) by {
        let ri = if i < p {
            i
        } else {
            i + 1
        };
        let rj = if j < p {
            j
        } else {
            j + 1
        };
        assert(u_seq[i] == r[ri] && u_seq[j] == r[rj]);
    }
    lemma_place_bounds(u_seq, x, w);
    let u = place(u_seq, x, w);
    if precedes(m, x, w) {
        if u < p {
            assert(u_seq[u] == r[u]);
            lemma_precedes_transitive(r[u], m, x, w);
        }
        assert forall|k: int| 0 <= k < u + 1 implies precedes(r[k], x, w) by {
            if k < p {
                assert(r[k] == u_seq[k]);
            } else if k > p {
                assert(r[k] == u_seq[k - 1]);
            }
        }
        if u + 1 < r.len() {
            assert(r[u + 1] == u_seq[u]);
        }
        lemma_place(r, x, w, u + 1);
        assert(r.insert(u + 1, x).remove(p) =~= u_seq.insert(u, x));
    } else {
        if u > p {
            assert(u_seq[p] == r[p + 1]);
            lemma_precedes_transitive(m, r[p + 1], x, w);
        }
        assert forall|k: int| 0 <= k < u implies precedes(r[k], x, w) by {
            assert(r[k] == u_seq[k]);
        }
        if u < p {
            assert(r[u] == u_seq[u]);
        }
        lemma_place(r, x, w, u);
        assert(r.insert(u, x).remove(p + 1) =~= u_seq.insert(u, x));
    }
}

/// Raising the scores of one hit never moves it back in the ranked order,
/// and leaves the order of the other hits as it was: where `t` is `s`
/// with the hit in position `j` raised, the places `p` and `p2` that are
/// returned are those of that hit in the two ranked orders, `p2` no later
/// than `p`.
pub proof fn lemma_raise_in_ranked_order(
    s: Seq<SearchResult>,
    t: Seq<SearchResult>,
    j: int,
    w: ScoringWeights,
) -> (r: (int, int))
    requires
        s.len() == t.len(),
        0 <= j < s.len(),
        forall|i: int| 0 <= i < s.len() && i != j ==> t[i] == s[i],
        raised(s[j], t[j]),
    ensures
        moved_up(ranked_order(s, w), ranked_order(t, w), s[j], t[j], r.0, r.1),
    decreases s.len(),
{
    let ds = s.drop_last();
    let dt = t.drop_last();
    lemma_ranked_order(ds, w);
    lemma_ranked_order(dt, w);
    if j == s.len() - 1 {
        assert(ds =~= dt);
        let base = ranked_order(ds, w);
        let m = s[j];
        let m2 = t[j];
        lemma_place_bounds(base, m, w);
        lemma_place_bounds(base, m2, w);
        let p = place(base, m, w);
        let p2 = place(base, m2, w);
        if p2 > p {
            lemma_raise_keeps_precedence(m, m2, base[p], w);
        }
        assert(p2 <= p);
        assert(base.insert(p, m).remove(p) =~= base);
        assert(base.insert(p2, m2).remove(p2) =~= base);
        (p, p2)
    } else {
        let x = s.last();
        assert(t.last() == x);
        assert forall|i: int| 0 <= i < ds.len() && i != j implies dt[i] == ds[i] by {
            assert(dt[i] == t[i] && ds[i] == s[i]);
        }
        let (p, p2) = lemma_raise_in_ranked_order(ds, dt, j, w);
        let rs = ranked_order(ds, w);
        let rt = ranked_order(dt, w);
        let m = s[j];
        let m2 = t[j];
        assert(ds[j] == m && dt[j] == m2);
        lemma_place_around(rs, p, x, w);
        lemma_place_around(rt, p2, x, w);
        lemma_raise_keeps_precedence(m, m2, x, w);
        let np = if precedes(m, x, w) {
            p
        } else {
            p + 1
        };
        let np2 = if precedes(m2, x, w) {
            p2
        } else {
            p2 + 1
        };
        let fs = ranked_order(s, w);
        let ft = ranked_order(t, w);
        assert(fs == rs.insert(place(rs, x, w), x));
        assert(ft == rt.insert(place(rt, x, w), x));
        let q = place(rs, x, w);
        let q2 = place(rt, x, w);
        lemma_place_bounds(rs, x, w);
        lemma_place_bounds(rt, x, w);
        assert(rs[p] == m && rt[p2] == m2);
        assert(fs[np] == m) by {
            if precedes(m, x, w) {
                assert(p < q);
            } else {
                assert(q <= p);
            }
        }
        assert(ft[np2] == m2) by {
            if precedes(m2, x, w) {
                assert(p2 < q2);
            } else {
                assert(q2 <= p2);
            }
        }
        assert(fs.remove(np) == rs.remove(p).insert(place(rs.remove(p), x, w), x));
        assert(ft.remove(np2) == rt.remove(p2).insert(place(rt.remove(p2), x, w), x));
        (np, np2)
    }
}

/// Raising the scores of one hit never drops it from the selection nor
/// moves it back in it: where the hit as it was is selected at the place
/// `p` that is returned, the raised hit is selected at `p2`, no later.
/// The other hits keep their order.
pub proof fn lemma_raise_in_selection(
    a: Seq<SearchResult>,
    m: SearchResult,
    m2: SearchResult,
    b: Seq<SearchResult>,
    c: QueryConstraints,
    w: ScoringWeights,
) -> (r: (int, int))
    requires
        raised(m, m2),
        c.admits(m.trust_score@ as int, m.metadata.updated_at as int),
    ensures
        moved_up(
            ranked_order(admitted(a.push(m) + b, c), w),
            ranked_order(admitted(a.push(m2) + b, c), w),
            m,
            m2,
            r.0,
            r.1,
        ),
        r.0 < selection(a.push(m) + b, c, w).len() ==> {
            &&& r.1 <= r.0 < selection(a.push(m2) + b, c, w).len()
            &&& selection(a.push(m) + b, c, w)[r.0] == m
            &&& selection(a.push(m2) + b, c, w)[r.1] == m2
        },
{
    let pred = |r: SearchResult| c.admits(r.trust_score@ as int, r.metadata.updated_at as int);
    let fa = a.filter(pred);
    let fb = b.filter(pred);
    Seq::filter_distributes_over_add(a.push(m), b, pred);
    Seq::filter_distributes_over_add(a.push(m2), b, pred);
    a.lemma_filter_push(m, pred);
    a.lemma_filter_push(m2, pred);
    let s = fa.push(m) + fb;
    let t = fa.push(m2) + fb;
    assert(admitted(a.push(m) + b, c) == s);
    assert(admitted(a.push(m2) + b, c) == t);
    let j = fa.len() as int;
    assert(s[j] == m && t[j] == m2);
    assert forall|i: int| 0 <= i < s.len() && i != j implies t[i] == s[i] by {
        if i < j {
            assert(s[i] == fa[i] && t[i] == fa[i]);
        } else {
            assert(s[i] == fb[i - j - 1] && t[i] == fb[i - j - 1]);
        }
    }
    lemma_ranked_order(s, w);
    lemma_ranked_order(t, w);
    lemma_raise_in_ranked_order(s, t, j, w)
}

/// Puts `x` at its place in a ranked list.
fn insert_ranked(ranked: &mut Vec<SearchResult>, x: SearchResult, w: &ScoringWeights)
    ensures
        final(ranked)@ == old(ranked)@.insert(place(old(ranked)@, x, *w), x),
{
    let mut p: usize = 0;
    while p < ranked.len() && comes_before(&ranked[p], &x, w)
        invariant
            p <= ranked@.len(),
            ranked@ == old(ranked)@,
            forall|k: int| 0 <= k < p ==> precedes(ranked@[k], x, *w),
        decreases ranked@.len() - p,
    {
        p = p + 1;
    }
    proof {
        lemma_place(ranked@, x, *w, p as int);
    }
    ranked.insert(p, x);
}

/// Orders the hits by rank, best first, with ties in the byte order of
/// their identifiers. Nothing is added or lost.
pub fn rank_results(results: Vec<SearchResult>, w: &ScoringWeights) -> (ranked: Vec<SearchResult>)
    ensures
        ranked@ == ranked_order(results@, *w),
        is_ranked(ranked@, *w),
        ranked@.to_multiset() == results@.to_multiset(),
{
    let mut ranked: Vec<SearchResult> = Vec::new();
    assert(results@.take(0) =~= Seq::<SearchResult>::empty());
    for r in it: results.into_iter()
        invariant
            it.seq() == results@,
            ranked@ == ranked_order(it.seq().take(it.index()), *w),
    {
        proof {
            let i = it.index();
            assert(it.seq().take(i + 1).drop_last() =~= it.seq().take(i));
            assert(it.seq().take(i + 1).last() == r);
        }
        insert_ranked(&mut ranked, r, w);
    }
    proof {
        assert(results@.take(results@.len() as int) =~= results@);
        lemma_ranked_order(results@, *w);
    }
    ranked
}

/// The number of hits kept out of `available` under the cap `max_results`.
pub open spec fn kept_count(max_results: usize, available: nat) -> int {
    if max_results <= available {
        max_results as int
    } else {
        available as int
    }
}

/// The selection from `raw`: the admitted hits in ranked order, cut after
/// `max_results` of them.
pub open spec fn selection(raw: Seq<SearchResult>, c: QueryConstraints, w: ScoringWeights) -> Seq<
    SearchResult,
> {
    let s = ranked_order(admitted(raw, c), w);
    s.take(kept_count(c.max_results, s.len()))
}

/// Whatever is selected was admitted, is ranked, and fits the cap: no hit
/// below the minimum trust is ever selected, and never more hits than
/// `max_results`.
pub proof fn lemma_selection_is_sound(raw: Seq<SearchResult>, c: QueryConstraints, w: ScoringWeights)
    ensures
        selection(raw, c, w).len() <= c.max_results,
        selection(raw, c, w).len() <= raw.len(),
        is_ranked(selection(raw, c, w), w),
        forall|i: int|
            0 <= i < selection(raw, c, w).len() ==> {
                let hit = #[trigger] selection(raw, c, w)[i];
                &&& raw.contains(hit)
                &&& c.admits(hit.trust_score@ as int, hit.metadata.updated_at as int)
                &&& hit.trust_score@ >= c.min_trust()
            },
{
    let pred = |r: SearchResult| c.admits(r.trust_score@ as int, r.metadata.updated_at as int);
    let kept = admitted(raw, c);
    let s = ranked_order(kept, w);
    let out = selection(raw, c, w);
    lemma_ranked_order(kept, w);
    raw.lemma_filter_len(pred);
    assert forall|i: int| 0 <= i < out.len() implies {
        let hit = #[trigger] out[i];
        &&& raw.contains(hit)
        &&& c.admits(hit.trust_score@ as int, hit.metadata.updated_at as int)
        &&& hit.trust_score@ >= c.min_trust()
    } by {
        let x = out[i];
        assert(s[i] == x);
        assert(s.contains(x));
        to_multiset_contains(s, x);
        to_multiset_contains(kept, x);
        assert(kept.contains(x));
        let k = choose|k: int| 0 <= k < kept.len() && kept[k] == x;
        raw.lemma_filter_pred(pred, k);
        raw.lemma_filter_contains_rev(pred, x);
    }
}

/// Applies the constraints to the merged raw hits, ranks the survivors and
/// keeps the best `max_results` of them.
pub fn select(raw: Vec<SearchResult>, c: &QueryConstraints, w: &ScoringWeights) -> (out: Vec<
    SearchResult,
>)
    ensures
        out@ == selection(raw@, *c, *w),
        out@.len() <= c.max_results,
        is_ranked(out@, *w),
        forall|i: int|
            0 <= i < out@.len() ==> {
                let hit = #[trigger] out@[i];
                &&& raw@.contains(hit)
                &&& c.admits(hit.trust_score@ as int, hit.metadata.updated_at as int)
                &&& hit.trust_score@ >= c.min_trust()
            },
{
    let kept = retain_admitted(raw, c);
    let mut ranked = rank_results(kept, w);
    let ghost s = ranked@;
    ranked.truncate(c.max_results);
    proof {
        assert(ranked@ =~= s.take(kept_count(c.max_results, s.len())));
        lemma_selection_is_sound(raw@, *c, *w);
    }
    ranked
}

} // verus!
