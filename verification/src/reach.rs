use vstd::prelude::*;
use crate::galaxy::Galaxy;
use crate::sector::SectorId;

verus! {

/// `p` lists the sectors of a walk through `g` from `from` to `to`, both
/// endpoints included: consecutive entries are linked in order.
pub open spec fn is_path(g: &Galaxy, p: Seq<SectorId>, from: SectorId, to: SectorId) -> bool {
    &&& p.len() >= 1
    &&& p[0] == from
    &&& p[p.len() - 1] == to
    &&& forall|i: int| 0 <= i < p.len() - 1 ==> #[trigger] g.linked(p[i], p[i + 1])
}

/// Some walk joins `from` to `to`.
pub open spec fn reaches(g: &Galaxy, from: SectorId, to: SectorId) -> bool {
    exists|p: Seq<SectorId>| is_path(g, p, from, to)
}

/// Some walk of at most `k` jumps joins `from` to `to`.
pub open spec fn reaches_within(g: &Galaxy, from: SectorId, to: SectorId, k: nat) -> bool {
    exists|p: Seq<SectorId>| is_path(g, p, from, to) && p.len() <= k + 1
}

pub proof fn lemma_reaches_self(g: &Galaxy, a: SectorId)
    ensures
        reaches(g, a, a),
        reaches_within(g, a, a, 0),
{
    let p = seq![a];
    assert(is_path(g, p, a, a));
    assert(is_path(g, p, a, a) && p.len() <= 0 + 1);
}

pub proof fn lemma_linked_reaches_within(g: &Galaxy, a: SectorId, b: SectorId)
    requires
        g.linked(a, b),
    ensures
        reaches(g, a, b),
        reaches_within(g, a, b, 1),
{
    let p = seq![a, b];
    assert(g.linked(p[0], p[1]));
    assert(is_path(g, p, a, b));
    assert(is_path(g, p, a, b) && p.len() <= 1 + 1);
}

/// A walk within `k` jumps is also a walk within any larger bound.
pub proof fn lemma_reaches_within_widen(g: &Galaxy, a: SectorId, b: SectorId, k1: nat, k2: nat)
    requires
        reaches_within(g, a, b, k1),
        k1 <= k2,
    ensures
        reaches_within(g, a, b, k2),
        reaches(g, a, b),
{
    let p = choose|p: Seq<SectorId>| is_path(g, p, a, b) && p.len() <= k1 + 1;
    assert(is_path(g, p, a, b) && p.len() <= k2 + 1);
    assert(is_path(g, p, a, b));
}

/// Prefixing a linked sector to a bounded walk extends it by one jump.
pub proof fn lemma_reaches_within_prepend(g: &Galaxy, a: SectorId, b: SectorId, c: SectorId, k: nat)
    requires
        g.linked(a, b),
        reaches_within(g, b, c, k),
    ensures
        reaches_within(g, a, c, k + 1),
{
    let p = choose|p: Seq<SectorId>| is_path(g, p, b, c) && p.len() <= k + 1;
    let q = seq![a] + p;
    assert(q[0] == a);
    assert(q.len() == p.len() + 1);
    assert(q[q.len() - 1] == p[p.len() - 1]);
    assert forall|i: int| 0 <= i < q.len() - 1 implies #[trigger] g.linked(q[i], q[i + 1]) by {
        if i == 0 {
            assert(q[0] == a && q[1] == p[0]);
        } else {
            assert(q[i] == p[i - 1] && q[i + 1] == p[i]);
            assert(g.linked(p[i - 1], p[i - 1 + 1]));
        }
    }
    assert(is_path(g, q, a, c) && q.len() <= k + 1 + 1);
}

/// Prefixing a linked sector onto a concrete walk yields a walk.
pub proof fn lemma_path_prepend(
    g: &Galaxy,
    p: Seq<SectorId>,
    a: SectorId,
    b: SectorId,
    c: SectorId,
)
    requires
        g.linked(a, b),
        is_path(g, p, b, c),
    ensures
        is_path(g, seq![a] + p, a, c),
{
    let q = seq![a] + p;
    assert(q[0] == a);
    assert(q[q.len() - 1] == p[p.len() - 1]);
    assert forall|i: int| 0 <= i < q.len() - 1 implies #[trigger] g.linked(q[i], q[i + 1]) by {
        if i == 0 {
            assert(q[0] == a && q[1] == p[0]);
        } else {
            assert(q[i] == p[i - 1] && q[i + 1] == p[i]);
            assert(g.linked(p[i - 1], p[i - 1 + 1]));
        }
    }
}

pub proof fn lemma_reaches_step(g: &Galaxy, a: SectorId, b: SectorId, c: SectorId)
    requires
        reaches(g, a, b),
        g.linked(b, c),
    ensures
        reaches(g, a, c),
{
    let p = choose|p: Seq<SectorId>| is_path(g, p, a, b);
    let q = p.push(c);
    assert(q[q.len() - 1] == c);
    assert forall|i: int| 0 <= i < q.len() - 1 implies #[trigger] g.linked(q[i], q[i + 1]) by {
        if i < p.len() - 1 {
            assert(g.linked(p[i], p[i + 1]));
            assert(q[i] == p[i] && q[i + 1] == p[i + 1]);
        } else {
            assert(q[i] == p[p.len() - 1] && q[i + 1] == c);
        }
    }
    assert(is_path(g, q, a, c));
}

pub proof fn lemma_reaches_trans(g: &Galaxy, a: SectorId, b: SectorId, c: SectorId)
    requires
        reaches(g, a, b),
        reaches(g, b, c),
    ensures
        reaches(g, a, c),
{
    let p1 = choose|p: Seq<SectorId>| is_path(g, p, a, b);
    let p2 = choose|p: Seq<SectorId>| is_path(g, p, b, c);
    let q = p1 + p2.subrange(1, p2.len() as int);
    if p2.len() == 1 {
        assert(q =~= p1);
        assert(is_path(g, q, a, c));
    } else {
        assert(q[0] == a);
        assert(q[q.len() - 1] == p2[p2.len() - 1]);
        assert forall|i: int| 0 <= i < q.len() - 1 implies #[trigger] g.linked(q[i], q[i + 1]) by {
            if i < p1.len() - 1 {
                assert(q[i] == p1[i] && q[i + 1] == p1[i + 1]);
                assert(g.linked(p1[i], p1[i + 1]));
            } else if i == p1.len() - 1 {
                assert(q[i] == b);
                assert(q[i + 1] == p2[1]);
                assert(g.linked(p2[0int], p2[0int + 1]));
            } else {
                let j = i - p1.len() + 1;
                assert(q[i] == p2[j] && q[i + 1] == p2[j + 1]);
                assert(g.linked(p2[j], p2[j + 1]));
            }
        }
        assert(is_path(g, q, a, c));
    }
}

/// Reachability survives any extension of the link sets.
pub proof fn lemma_reaches_mono(g1: &Galaxy, g2: &Galaxy, a: SectorId, b: SectorId)
    requires
        g1.links_subset_of(g2),
        reaches(g1, a, b),
    ensures
        reaches(g2, a, b),
{
    let p = choose|p: Seq<SectorId>| is_path(g1, p, a, b);
    assert forall|i: int| 0 <= i < p.len() - 1 implies #[trigger] g2.linked(p[i], p[i + 1]) by {
        assert(g1.linked(p[i], p[i + 1]));
    }
    assert(is_path(g2, p, a, b));
}

/// Bounded reachability survives any extension of the link sets.
pub proof fn lemma_reaches_within_mono(g1: &Galaxy, g2: &Galaxy, a: SectorId, b: SectorId, k: nat)
    requires
        g1.links_subset_of(g2),
        reaches_within(g1, a, b, k),
    ensures
        reaches_within(g2, a, b, k),
{
    let p = choose|p: Seq<SectorId>| is_path(g1, p, a, b) && p.len() <= k + 1;
    assert forall|i: int| 0 <= i < p.len() - 1 implies #[trigger] g2.linked(p[i], p[i + 1]) by {
        assert(g1.linked(p[i], p[i + 1]));
    }
    assert(is_path(g2, p, a, b) && p.len() <= k + 1);
}

/// When every link is mutual, reachability is symmetric.
pub proof fn lemma_reaches_rev(g: &Galaxy, a: SectorId, b: SectorId)
    requires
        g.sym_links(),
        reaches(g, a, b),
    ensures
        reaches(g, b, a),
{
    let p = choose|p: Seq<SectorId>| is_path(g, p, a, b);
    let n = p.len() as int;
    let q = Seq::new(p.len(), |i: int| p[n - 1 - i]);
    assert(q[0] == b);
    assert(q[q.len() - 1] == a);
    assert forall|i: int| 0 <= i < q.len() - 1 implies #[trigger] g.linked(q[i], q[i + 1]) by {
        let j = n - 2 - i;
        assert(q[i] == p[j + 1] && q[i + 1] == p[j]);
        assert(g.linked(p[j], p[j + 1]));
    }
    assert(is_path(g, q, b, a));
}

/// Every sector of a walk through a well-formed galaxy is in range.
pub proof fn lemma_path_elements_in_range(g: &Galaxy, p: Seq<SectorId>, from: SectorId, to: SectorId)
    requires
        g.wf(),
        is_path(g, p, from, to),
        g.in_range(from),
    ensures
        forall|i: int| 0 <= i < p.len() ==> g.in_range(#[trigger] p[i]),
    decreases p.len(),
{
    if p.len() > 1 {
        let p2 = p.subrange(0, p.len() - 1);
        assert forall|i: int| 0 <= i < p2.len() - 1 implies #[trigger] g.linked(p2[i], p2[i + 1]) by {
            assert(g.linked(p[i], p[i + 1]));
        }
        assert(is_path(g, p2, from, p[p.len() - 2]));
        lemma_path_elements_in_range(g, p2, from, p[p.len() - 2]);
        assert(g.linked(p[p.len() - 2], p[p.len() - 2 + 1]));
        let s = p[p.len() - 2];
        let t = p[p.len() - 1];
        assert(g.linked(s, t));
        assert(g.links_of(s).contains(t));
        let j = choose|j: int| 0 <= j < g.links_of(s).len() && g.links_of(s)[j] == t;
        assert(g.spec_sectors()[s - 1].wf(g.sector_count()));
        assert(g.in_range(t));
        assert forall|i: int| 0 <= i < p.len() implies g.in_range(#[trigger] p[i]) by {
            if i < p.len() - 1 {
                assert(p2[i] == p[i]);
                assert(g.in_range(p2[i]));
            }
        }
    }
}

/// A per-sector marking, indexed by sector id, that is closed under links:
/// every link of a marked sector leads to a marked sector.
pub open spec fn marked_closed(g: &Galaxy, marked: Seq<bool>) -> bool {
    forall|s: SectorId, j: int|
        #![trigger marked[s as int], g.links_of(s)[j]]
        g.in_range(s) && marked[s as int] && 0 <= j < g.links_of(s).len() ==> marked[g.links_of(
            s,
        )[j] as int]
}

/// A closed marking that holds at the start of a walk holds at its end.
pub proof fn lemma_closed_path(
    g: &Galaxy,
    marked: Seq<bool>,
    p: Seq<SectorId>,
    from: SectorId,
    to: SectorId,
)
    requires
        g.wf(),
        g.in_range(from),
        is_path(g, p, from, to),
        marked.len() == g.sector_count() + 1,
        marked[from as int],
        marked_closed(g, marked),
    ensures
        marked[to as int],
    decreases p.len(),
{
    if p.len() == 1 {
        assert(to == from);
    } else {
        let p2 = p.subrange(0, p.len() - 1);
        assert forall|i: int| 0 <= i < p2.len() - 1 implies #[trigger] g.linked(p2[i], p2[i + 1]) by {
            assert(g.linked(p[i], p[i + 1]));
        }
        let mid = p[p.len() - 2];
        assert(is_path(g, p2, from, mid));
        lemma_closed_path(g, marked, p2, from, mid);
        lemma_path_elements_in_range(g, p, from, to);
        assert(g.linked(p[p.len() - 2], p[p.len() - 2 + 1]));
        assert(g.linked(mid, to));
        let j = choose|j: int| 0 <= j < g.links_of(mid).len() && g.links_of(mid)[j] == to;
        assert(marked[g.links_of(mid)[j] as int]);
    }
}

/// A closed marking containing the root covers everything the root reaches.
pub proof fn lemma_closed_covers_reachable(
    g: &Galaxy,
    marked: Seq<bool>,
    from: SectorId,
    to: SectorId,
)
    requires
        g.wf(),
        g.in_range(from),
        reaches(g, from, to),
        marked.len() == g.sector_count() + 1,
        marked[from as int],
        marked_closed(g, marked),
    ensures
        marked[to as int],
{
    let p = choose|p: Seq<SectorId>| is_path(g, p, from, to);
    lemma_closed_path(g, marked, p, from, to);
}

/// Distances to the root, recorded per sector id, that no link can improve
/// on: each sector's figure is at most one more than any neighbour's.
pub open spec fn dist_consistent(g: &Galaxy, d: Seq<usize>) -> bool {
    forall|a: SectorId, j: int|
        #![trigger g.links_of(a)[j], d[a as int]]
        g.in_range(a) && 0 <= j < g.links_of(a).len() ==> d[a as int] <= d[g.links_of(a)[j] as int]
            + 1
}

/// Under a consistent distance table with the target pinned at zero, no walk
/// to the target is shorter than the recorded distance: the table gives true
/// lower bounds.
pub proof fn lemma_consistent_dist_lower_bound(
    g: &Galaxy,
    d: Seq<usize>,
    p: Seq<SectorId>,
    from: SectorId,
    to: SectorId,
)
    requires
        g.wf(),
        g.in_range(from),
        is_path(g, p, from, to),
        d.len() == g.sector_count() + 1,
        dist_consistent(g, d),
    ensures
        d[from as int] <= d[to as int] + p.len() - 1,
    decreases p.len(),
{
    if p.len() > 1 {
        let next = p[1];
        let p2 = p.subrange(1, p.len() as int);
        assert(g.linked(p[0int], p[0int + 1]));
        assert(g.linked(from, next));
        let j = choose|j: int| 0 <= j < g.links_of(from).len() && g.links_of(from)[j] == next;
        assert(d[from as int] <= d[g.links_of(from)[j] as int] + 1);
        lemma_path_elements_in_range(g, p, from, to);
        assert forall|i: int| 0 <= i < p2.len() - 1 implies #[trigger] g.linked(p2[i], p2[i + 1]) by {
            assert(g.linked(p[i + 1], p[i + 1 + 1]));
        }
        assert(is_path(g, p2, next, to));
        lemma_consistent_dist_lower_bound(g, d, p2, next, to);
    }
}

} // verus!
