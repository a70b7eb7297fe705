//! The resolvers' query discipline, and why the hierarchy's pruning is
//! sound.
//!
//! Both resolvers answer the same question: among the objects whose
//! hit time lies strictly inside the query interval, which comes
//! first?  The linear resolver scans the objects in order, keeping the
//! last strictly closer hit.  The hierarchy walks its tree, rejects a
//! subtree when the node's box test fails, and visits the right child
//! against a bound tightened to whatever the left already found.
//!
//! This module models one query over both: each object's hit time is
//! an integer or a miss (any order embedding of the measured times
//! gives the same nearest object), and the box test is an arbitrary
//! oracle constrained only to be *conservative* — when it rejects a
//! node, no object underneath hits strictly inside the tested
//! interval.  Under that constraint the pruned descent equals the
//! plain scan of the tree's leaves, and any two scans over the same
//! objects — in any order — find the same nearest time.  Which of two
//! objects with exactly equal times wins is the scan order's choice,
//! and is left unspecified.

use vstd::prelude::*;

verus! {

use crate::bvh::{BoxKey, Bvh};

/// Whether an object's outcome is a hit strictly inside `(a, b)`.
pub open spec fn time_within(outcome: Option<int>, a: int, b: int) -> bool {
    match outcome {
        Some(t) => a < t && t < b,
        None => false,
    }
}

/// No object of `s` hits strictly inside `(a, b)`.
pub open spec fn none_within(
    s: Seq<BoxKey>,
    a: int,
    b: int,
    times: spec_fn(usize) -> Option<int>,
) -> bool {
    forall|i: int| 0 <= i < s.len() ==> !time_within(times((#[trigger] s[i]).id), a, b)
}

/// A query's running state: the best hit so far, and the upper bound
/// the next test runs against.  The bound is exactly the best hit's
/// time once one exists.
pub open spec fn scan_step(
    k: BoxKey,
    tmin: int,
    st: (Option<(usize, int)>, int),
    times: spec_fn(usize) -> Option<int>,
) -> (Option<(usize, int)>, int) {
    match times(k.id) {
        Some(t) => if tmin < t && t < st.1 {
            (Some((k.id, t)), t)
        } else {
            st
        },
        None => st,
    }
}

/// The linear resolver's query: scan the objects in order, keeping the
/// last strictly closer hit.
pub open spec fn scan(
    s: Seq<BoxKey>,
    tmin: int,
    st: (Option<(usize, int)>, int),
    times: spec_fn(usize) -> Option<int>,
) -> (Option<(usize, int)>, int)
    decreases s.len(),
{
    if s.len() == 0 {
        st
    } else {
        scan(s.drop_first(), tmin, scan_step(s.first(), tmin, st, times), times)
    }
}

/// What a box test is trusted for: whenever it rejects a node, no
/// object at the node's leaves hits strictly inside the tested
/// interval.  (It may pass spuriously; that costs time, not answers.)
pub open spec fn conservative(
    t: Bvh,
    passes: spec_fn(Bvh, int, int) -> bool,
    times: spec_fn(usize) -> Option<int>,
) -> bool
    decreases t,
{
    &&& forall|a: int, b: int, i: int|
        0 <= i < t.leaves().len() && !(#[trigger] passes(t, a, b)) ==> !time_within(
            times((#[trigger] t.leaves()[i]).id),
            a,
            b,
        )
    &&& match t {
        Bvh::Leaf(_) => true,
        Bvh::Pair { left, right, .. } => {
            &&& conservative(*left, passes, times)
            &&& conservative(*right, passes, times)
        },
    }
}

/// The hierarchy's query: reject the node if its box test fails, else
/// descend left first, then right against the tightened bound.
pub open spec fn descend(
    t: Bvh,
    tmin: int,
    st: (Option<(usize, int)>, int),
    passes: spec_fn(Bvh, int, int) -> bool,
    times: spec_fn(usize) -> Option<int>,
) -> (Option<(usize, int)>, int)
    decreases t,
{
    if !passes(t, tmin, st.1) {
        st
    } else {
        match t {
            Bvh::Leaf(k) => scan_step(k, tmin, st, times),
            Bvh::Pair { left, right, .. } => descend(
                *right,
                tmin,
                descend(*left, tmin, st, passes, times),
                passes,
                times,
            ),
        }
    }
}

/// The two resolvers agree.  Over a hierarchy holding exactly the
/// scene's objects — as [`crate::bvh::Bvh::build`] guarantees — the
/// pruned, bound-tightening descent and the linear scan of the object
/// list find the same nearest hit time, and miss together, whatever
/// conservative box oracle prunes the descent.
pub proof fn lemma_resolvers_agree(
    objects: Seq<BoxKey>,
    t: Bvh,
    tmin: int,
    t0: int,
    passes: spec_fn(Bvh, int, int) -> bool,
    times: spec_fn(usize) -> Option<int>,
)
    requires
        t.leaves().to_multiset() == objects.to_multiset(),
        conservative(t, passes, times),
    ensures
        time_of(descend(t, tmin, (None, t0), passes, times).0) == time_of(
            scan(objects, tmin, (None, t0), times).0,
        ),
{
    lemma_descend_equals_scan(t, tmin, (None, t0), passes, times);
    lemma_scan_order_blind(t.leaves(), objects, tmin, t0, times);
}

/// A scan over objects none of which hits inside the current bound
/// changes nothing.
proof fn lemma_scan_skips_out_of_range(
    s: Seq<BoxKey>,
    tmin: int,
    st: (Option<(usize, int)>, int),
    times: spec_fn(usize) -> Option<int>,
)
    requires
        none_within(s, tmin, st.1, times),
    ensures
        scan(s, tmin, st, times) == st,
    decreases s.len(),
{
    if s.len() > 0 {
        assert(!time_within(times(s[0].id), tmin, st.1));
        assert(scan_step(s.first(), tmin, st, times) == st);
        assert(none_within(s.drop_first(), tmin, st.1, times)) by {
            assert forall|i: int| 0 <= i < s.drop_first().len() implies !time_within(
                times((#[trigger] s.drop_first()[i]).id),
                tmin,
                st.1,
            ) by {
                assert(s.drop_first()[i] == s[i + 1]);
            }
        }
        lemma_scan_skips_out_of_range(s.drop_first(), tmin, st, times);
    }
}

/// A scan runs through a concatenation one half after the other.
proof fn lemma_scan_concat(
    a: Seq<BoxKey>,
    b: Seq<BoxKey>,
    tmin: int,
    st: (Option<(usize, int)>, int),
    times: spec_fn(usize) -> Option<int>,
)
    ensures
        scan(a + b, tmin, st, times) == scan(b, tmin, scan(a, tmin, st, times), times),
    decreases a.len(),
{
    if a.len() == 0 {
        assert(a + b =~= b);
    } else {
        assert((a + b).first() == a.first());
        assert((a + b).drop_first() =~= a.drop_first() + b);
        lemma_scan_concat(a.drop_first(), b, tmin, scan_step(a.first(), tmin, st, times), times);
    }
}

/// The time component of a query's answer.
pub open spec fn time_of(r: Option<(usize, int)>) -> Option<int> {
    match r {
        Some(p) => Some(p.1),
        None => None,
    }
}

/// What one scan pass guarantees, from any state whose bound already
/// equals its best hit's time: the bound never grows; the answer's
/// time is the final bound; a new answer was an in-range hit of the
/// scanned objects; nothing scanned beats the final bound; and a scan
/// that found nothing changed nothing.
proof fn lemma_scan_characterized(
    s: Seq<BoxKey>,
    tmin: int,
    st: (Option<(usize, int)>, int),
    times: spec_fn(usize) -> Option<int>,
)
    requires
        forall|q: (usize, int)| st.0 == Some(q) ==> st.1 == q.1,
    ensures
        ({
            let out = scan(s, tmin, st, times);
            &&& out.1 <= st.1
            &&& forall|p: (usize, int)| out.0 == Some(p) ==> out.1 == p.1
            &&& forall|p: (usize, int)|
                out.0 == Some(p) ==> st.0 == Some(p) || exists|i: int|
                    0 <= i < s.len() && (#[trigger] s[i]).id == p.0 && times(p.0) == Some(p.1)
                        && tmin < p.1 && p.1 < st.1
            &&& none_within(s, tmin, out.1, times)
            &&& out.0 == None::<(usize, int)> ==> out == st
        }),
    decreases s.len(),
{
    if s.len() > 0 {
        let st1 = scan_step(s.first(), tmin, st, times);
        lemma_scan_characterized(s.drop_first(), tmin, st1, times);
        let out = scan(s, tmin, st, times);
        assert(out == scan(s.drop_first(), tmin, st1, times));
        assert forall|p: (usize, int)| out.0 == Some(p) implies st.0 == Some(p) || exists|i: int|
            0 <= i < s.len() && (#[trigger] s[i]).id == p.0 && times(p.0) == Some(p.1) && tmin
                < p.1 && p.1 < st.1 by {
            if st1.0 == Some(p) {
                if st.0 != Some(p) {
                    assert(s[0].id == p.0 && times(p.0) == Some(p.1) && tmin < p.1 && p.1 < st.1);
                }
            } else {
                let i = choose|i: int|
                    0 <= i < s.drop_first().len() && (#[trigger] s.drop_first()[i]).id == p.0
                        && times(p.0) == Some(p.1) && tmin < p.1 && p.1 < st1.1;
                assert(s[i + 1] == s.drop_first()[i]);
                assert(s[i + 1].id == p.0 && times(p.0) == Some(p.1) && tmin < p.1 && p.1 < st.1);
            }
        }
        assert forall|i: int| 0 <= i < s.len() implies !time_within(
            times((#[trigger] s[i]).id),
            tmin,
            out.1,
        ) by {
            if i == 0 {
                assert(out.1 <= st1.1);
            } else {
                assert(s.drop_first()[i - 1] == s[i]);
            }
        }
    }
}

/// Any two scans over the same objects — in whatever order each puts
/// them — find the same nearest time, and miss together.  Which object
/// reports a time shared exactly by two is the order's choice; the
/// time itself is not.
pub proof fn lemma_scan_order_blind(
    s1: Seq<BoxKey>,
    s2: Seq<BoxKey>,
    tmin: int,
    t0: int,
    times: spec_fn(usize) -> Option<int>,
)
    requires
        s1.to_multiset() == s2.to_multiset(),
    ensures
        time_of(scan(s1, tmin, (None, t0), times).0) == time_of(
            scan(s2, tmin, (None, t0), times).0,
        ),
{
    broadcast use vstd::seq_lib::group_to_multiset_ensures;

    let st0: (Option<(usize, int)>, int) = (None, t0);
    lemma_scan_characterized(s1, tmin, st0, times);
    lemma_scan_characterized(s2, tmin, st0, times);
    let r1 = scan(s1, tmin, st0, times);
    let r2 = scan(s2, tmin, st0, times);
    if r1.0 is Some {
        lemma_scan_some_transfers(s1, s2, tmin, t0, times);
    }
    if r2.0 is Some {
        lemma_scan_some_transfers(s2, s1, tmin, t0, times);
    }
    if r1.0 is Some && r2.0 is Some {
        lemma_min_time_transfers(s1, s2, tmin, t0, times);
        lemma_min_time_transfers(s2, s1, tmin, t0, times);
        assert(r1.0 == Some(r1.0->0));
        assert(r2.0 == Some(r2.0->0));
    }
}

/// If one scan finds a hit, so does any scan over the same objects.
proof fn lemma_scan_some_transfers(
    s1: Seq<BoxKey>,
    s2: Seq<BoxKey>,
    tmin: int,
    t0: int,
    times: spec_fn(usize) -> Option<int>,
)
    requires
        s1.to_multiset() == s2.to_multiset(),
        scan(s1, tmin, (None, t0), times).0 is Some,
    ensures
        scan(s2, tmin, (None, t0), times).0 is Some,
{
    broadcast use vstd::seq_lib::group_to_multiset_ensures;

    let st0: (Option<(usize, int)>, int) = (None, t0);
    lemma_scan_characterized(s1, tmin, st0, times);
    lemma_scan_characterized(s2, tmin, st0, times);
    let r1 = scan(s1, tmin, st0, times);
    let r2 = scan(s2, tmin, st0, times);
    let p1 = r1.0->0;
    assert(r1.0 == Some(p1));
    let i = choose|i: int|
        0 <= i < s1.len() && (#[trigger] s1[i]).id == p1.0 && times(p1.0) == Some(p1.1) && tmin
            < p1.1 && p1.1 < t0;
    let e = s1[i];
    assert(s1.contains(e));
    assert(s1.to_multiset().count(e) > 0);
    assert(s2.to_multiset().count(e) > 0);
    assert(s2.contains(e));
    let j = choose|j: int| 0 <= j < s2.len() && s2[j] == e;
    if r2.0 is None {
        assert(r2 == st0);
        assert(!time_within(times(s2[j].id), tmin, t0));
        assert(time_within(times(e.id), tmin, t0));
        assert(false);
    }
}

/// The nearest time one scan finds bounds the other's from below.
proof fn lemma_min_time_transfers(
    s1: Seq<BoxKey>,
    s2: Seq<BoxKey>,
    tmin: int,
    t0: int,
    times: spec_fn(usize) -> Option<int>,
)
    requires
        s1.to_multiset() == s2.to_multiset(),
        scan(s1, tmin, (None, t0), times).0 is Some,
        scan(s2, tmin, (None, t0), times).0 is Some,
    ensures
        (scan(s2, tmin, (None, t0), times).0->0).1 <= (scan(s1, tmin, (None, t0), times).0->0).1,
{
    broadcast use vstd::seq_lib::group_to_multiset_ensures;

    let st0: (Option<(usize, int)>, int) = (None, t0);
    lemma_scan_characterized(s1, tmin, st0, times);
    lemma_scan_characterized(s2, tmin, st0, times);
    let r1 = scan(s1, tmin, st0, times);
    let r2 = scan(s2, tmin, st0, times);
    let p1 = r1.0->0;
    let p2 = r2.0->0;
    assert(r1.0 == Some(p1));
    assert(r2.0 == Some(p2));
    let i = choose|i: int|
        0 <= i < s1.len() && (#[trigger] s1[i]).id == p1.0 && times(p1.0) == Some(p1.1) && tmin
            < p1.1 && p1.1 < t0;
    let e = s1[i];
    assert(s1.contains(e));
    assert(s1.to_multiset().count(e) > 0);
    assert(s2.to_multiset().count(e) > 0);
    assert(s2.contains(e));
    let j = choose|j: int| 0 <= j < s2.len() && s2[j] == e;
    if p1.1 < p2.1 {
        assert(r2.1 == p2.1);
        assert(!time_within(times(s2[j].id), tmin, r2.1));
        assert(time_within(times(e.id), tmin, p2.1));
        assert(false);
    }
}

/// Pruning is sound: against any conservative box oracle, the
/// hierarchy's pruned, bound-tightening descent answers exactly what
/// the plain scan of its leaves answers — the order the leaves stand
/// in, from any starting state.
pub proof fn lemma_descend_equals_scan(
    t: Bvh,
    tmin: int,
    st: (Option<(usize, int)>, int),
    passes: spec_fn(Bvh, int, int) -> bool,
    times: spec_fn(usize) -> Option<int>,
)
    requires
        conservative(t, passes, times),
    ensures
        descend(t, tmin, st, passes, times) == scan(t.leaves(), tmin, st, times),
    decreases t,
{
    if !passes(t, tmin, st.1) {
        assert(none_within(t.leaves(), tmin, st.1, times));
        lemma_scan_skips_out_of_range(t.leaves(), tmin, st, times);
    } else {
        match t {
            Bvh::Leaf(k) => {
                assert(t.leaves() =~= seq![k]);
                assert(t.leaves().len() == 1);
                assert(t.leaves().first() == k);
                assert(t.leaves().drop_first() =~= Seq::<BoxKey>::empty());
                let st1 = scan_step(k, tmin, st, times);
                assert(scan(t.leaves().drop_first(), tmin, st1, times) == st1);
                assert(scan(t.leaves(), tmin, st, times) == scan_step(k, tmin, st, times));
                assert(descend(t, tmin, st, passes, times) == scan_step(k, tmin, st, times));
            },
            Bvh::Pair { left, right, .. } => {
                lemma_descend_equals_scan(*left, tmin, st, passes, times);
                lemma_descend_equals_scan(
                    *right,
                    tmin,
                    descend(*left, tmin, st, passes, times),
                    passes,
                    times,
                );
                lemma_scan_concat(left.leaves(), right.leaves(), tmin, st, times);
                assert(t.leaves() == left.leaves() + right.leaves());
                assert(descend(t, tmin, st, passes, times) == descend(
                    *right,
                    tmin,
                    descend(*left, tmin, st, passes, times),
                    passes,
                    times,
                ));
            },
        }
    }
}

} // verus!
