use vstd::prelude::*;
use crate::galaxy::{Galaxy, ROOT_SECTOR_ID};
use crate::reach::{
    dist_consistent, marked_closed, reaches, reaches_within, lemma_closed_covers_reachable,
    lemma_linked_reaches_within, lemma_reaches_self, lemma_reaches_within_mono,
    lemma_reaches_within_prepend,
};
use crate::sector::SectorId;
use crate::tally::{sum_usize, lemma_sum_usize_update_lower};

verus! {

broadcast use vstd::seq_lib::lemma_seq_contains_after_push;

impl Galaxy {
    /// Breadth-first distances from every sector to the root over a fully
    /// symmetric link set, recorded per sector id (slot 0 is unused). The
    /// table is exact: sector `s` can reach the root within `d[s]` jumps,
    /// and no neighbour undercuts it by more than one, so no shorter walk
    /// exists either.
    pub fn root_distances(&self) -> (d: Vec<usize>)
        requires
            self.wf(),
            self.sym_links(),
            self.sector_count() >= 1,
            self.sector_count() < usize::MAX,
            forall|s: SectorId| self.in_range(s) ==> reaches(self, ROOT_SECTOR_ID, s),
        ensures
            d@.len() == self.sector_count() + 1,
            d@[ROOT_SECTOR_ID as int] == 0,
            forall|s: SectorId|
                self.in_range(s) ==> reaches_within(
                    self,
                    s,
                    ROOT_SECTOR_ID,
                    #[trigger] d@[s as int] as nat,
                ),
            dist_consistent(self, d@),
            forall|s: SectorId| self.in_range(s) ==> #[trigger] d@[s as int] <= self.sector_count(),
    {
        let count = self.sectors.len();
        let mut d: Vec<usize> = Vec::new();
        let mut assigned: Vec<bool> = Vec::new();
        let mut z: usize = 0;
        while z < count + 1
            invariant
                count < usize::MAX,
                0 <= z <= count + 1,
                d@.len() == z,
                assigned@.len() == z,
                forall|i: int| 0 <= i < z ==> !assigned@[i],
                forall|i: int| 0 <= i < z ==> d@[i] == 0,
            decreases count + 1 - z,
        {
            d.push(0);
            assigned.push(false);
            z += 1;
        }
        let mut q: Vec<SectorId> = Vec::new();
        assigned[ROOT_SECTOR_ID] = true;
        q.push(ROOT_SECTOR_ID);
        proof {
            lemma_reaches_self(self, ROOT_SECTOR_ID);
        }
        let mut head: usize = 0;
        while head < q.len()
            invariant
                self.wf(),
                self.sym_links(),
                count == self.sector_count(),
                count >= 1,
                count < usize::MAX,
                d@.len() == count + 1,
                assigned@.len() == count + 1,
                0 <= head <= q@.len(),
                1 <= q@.len() <= count,
                d@[ROOT_SECTOR_ID as int] == 0,
                assigned@[ROOT_SECTOR_ID as int],
                forall|i: int|
                    0 <= i < q@.len() ==> self.in_range(#[trigger] q@[i]) && assigned@[q@[i] as int],
                forall|i: int, j: int| 0 <= i < j < q@.len() ==> q@[i] != q@[j],
                forall|s: SectorId|
                    self.in_range(s) && assigned@[s as int] ==> q@.contains(s),
                forall|i: int, j: int| 0 <= i <= j < q@.len() ==> d@[q@[i] as int] <= d@[q@[j] as int],
                head < q@.len() ==> d@[q@[q@.len() - 1] as int] <= d@[q@[head as int] as int] + 1,
                forall|i: int| 0 <= i < q@.len() ==> d@[q@[i] as int] <= i,
                forall|i: int, jj: int|
                    0 <= i < head && 0 <= jj < self.links_of(q@[i]).len() ==> assigned@[(
                    #[trigger] self.links_of(q@[i])[jj]) as int] && d@[self.links_of(q@[i])[jj] as int]
                        <= d@[q@[i] as int] + 1,
                forall|i: int|
                    0 <= i < q@.len() ==> reaches_within(
                        self,
                        q@[i],
                        ROOT_SECTOR_ID,
                        #[trigger] d@[q@[i] as int] as nat,
                    ),
            decreases count + 1 - head,
        {
            let s = q[head];
            let links = &self.sectors[s - 1].sector_links;
            let n = links.len();
            let ghost q_entry = q@;
            let ghost d_entry = d@;
            let mut j: usize = 0;
            while j < n
                invariant
                    self.wf(),
                    self.sym_links(),
                    count == self.sector_count(),
                    count >= 1,
                    count < usize::MAX,
                    n == links@.len(),
                    0 <= j <= n,
                    links@ == self.links_of(s),
                    head < q@.len(),
                    s == q@[head as int],
                    self.in_range(s),
                    d@.len() == count + 1,
                    assigned@.len() == count + 1,
                    1 <= q@.len() <= count,
                    q_entry.len() <= q@.len(),
                    forall|i: int| 0 <= i < q_entry.len() ==> q@[i] == q_entry[i],
                    d@[s as int] == d_entry[s as int],
                    d@[ROOT_SECTOR_ID as int] == 0,
                    assigned@[ROOT_SECTOR_ID as int],
                    forall|i: int|
                        0 <= i < q@.len() ==> self.in_range(#[trigger] q@[i]) && assigned@[q@[i] as int],
                    forall|i: int, jj: int| 0 <= i < jj < q@.len() ==> q@[i] != q@[jj],
                    forall|x: SectorId|
                        self.in_range(x) && assigned@[x as int] ==> q@.contains(x),
                    forall|i: int, jj: int|
                        0 <= i <= jj < q@.len() ==> d@[q@[i] as int] <= d@[q@[jj] as int],
                    d@[q@[q@.len() - 1] as int] <= d@[q@[head as int] as int] + 1,
                    forall|i: int| 0 <= i < q@.len() ==> d@[q@[i] as int] <= i,
                    forall|i: int, jj: int|
                        0 <= i < head && 0 <= jj < self.links_of(q@[i]).len() ==> assigned@[(
                        #[trigger] self.links_of(q@[i])[jj]) as int] && d@[self.links_of(
                            q@[i],
                        )[jj] as int] <= d@[q@[i] as int] + 1,
                    forall|jj: int|
                        0 <= jj < j ==> assigned@[(#[trigger] links@[jj]) as int] && d@[links@[jj] as int]
                            <= d@[s as int] + 1,
                    forall|i: int|
                        0 <= i < q@.len() ==> reaches_within(
                            self,
                            q@[i],
                            ROOT_SECTOR_ID,
                            #[trigger] d@[q@[i] as int] as nat,
                        ),
                decreases n - j,
            {
                let t = links[j];
                proof {
                    assert(self.links_of(s)[j as int] == t);
                    assert(self.spec_sectors()[s - 1].wf(self.sector_count()));
                    assert(self.in_range(t));
                }
                if !assigned[t] {
                    let dv = d[s];
                    proof {
                        assert(dv <= head);
                        assert(self.links_of(s).contains(t));
                        assert(self.linked(s, t));
                        assert(self.linked(t, s));
                        lemma_reaches_within_prepend(
                            self,
                            t,
                            s,
                            ROOT_SECTOR_ID,
                            d@[s as int] as nat,
                        );
                    }
                    let ghost d_prev = d@;
                    let ghost q_prev = q@;
                    assigned[t] = true;
                    d[t] = dv + 1;
                    q.push(t);
                    proof {
                        assert(q@ =~= q_prev.push(t));
                        assert(d@ =~= d_prev.update(t as int, (dv + 1) as usize));
                        // The fresh entry keeps the queue distinct and its
                        // length within the sector count.
                        assert forall|i: int, jj: int| 0 <= i < jj < q@.len() implies q@[i]
                            != q@[jj] by {
                            if jj == q@.len() - 1 {
                                assert(!assigned@[q@[i] as int] == false);
                                assert(q@[i] != t);
                            }
                        }
                        // Distances of queued sectors other than `t` did not
                        // change.
                        assert forall|i: int| 0 <= i < q@.len() - 1 implies d@[q@[i] as int]
                            == d_prev[q@[i] as int] by {
                            assert(q@[i] == q_prev[i]);
                            assert(q@[i] != t);
                        }
                        assert forall|i: int|
                            0 <= i < q@.len() implies reaches_within(
                            self,
                            q@[i],
                            ROOT_SECTOR_ID,
                            #[trigger] d@[q@[i] as int] as nat,
                        ) by {
                            if i < q@.len() - 1 {
                                assert(q@[i] == q_prev[i]);
                                assert(reaches_within(
                                    self,
                                    q_prev[i],
                                    ROOT_SECTOR_ID,
                                    d_prev[q_prev[i] as int] as nat,
                                ));
                            } else {
                                assert(q@[i] == t);
                            }
                        }
                        if q@.len() > count {
                            // More distinct in-range ids than ids exist:
                            // impossible; the marking pins each id to at
                            // most one queue slot.
                            assert(q@.len() == count + 1);
                            lemma_distinct_ids_bounded(q@, count as nat);
                        }
                    }
                }
                j += 1;
            }
            head += 1;
            proof {
                assert forall|i: int, jj: int|
                    0 <= i < head && 0 <= jj < self.links_of(q@[i]).len() implies assigned@[(
                    #[trigger] self.links_of(q@[i])[jj]) as int] && d@[self.links_of(q@[i])[jj] as int]
                        <= d@[q@[i] as int] + 1 by {
                    if i == head - 1 {
                        assert(q@[i] == s);
                        assert(links@[jj] == self.links_of(s)[jj]);
                    }
                }
            }
        }
        proof {
            // Everything the root reaches is marked, which is everything.
            assert forall|s: SectorId, j: int|
                #![trigger assigned@[s as int], self.links_of(s)[j]]
                self.in_range(s) && assigned@[s as int] && 0 <= j < self.links_of(s).len() implies assigned@[self.links_of(
                s,
            )[j] as int] by {
                let qi = choose|qi: int| 0 <= qi < q@.len() && q@[qi] == s;
                assert(assigned@[(self.links_of(q@[qi])[j]) as int]);
            }
            assert(marked_closed(self, assigned@));
            assert forall|s: SectorId| self.in_range(s) implies assigned@[s as int] by {
                lemma_closed_covers_reachable(self, assigned@, ROOT_SECTOR_ID, s);
            }
            assert forall|a: SectorId, j: int|
                #![trigger d@[a as int], self.links_of(a)[j]]
                self.in_range(a) && 0 <= j < self.links_of(a).len() implies d@[a as int]
                <= d@[self.links_of(a)[j] as int] + 1 by {
                let b = self.links_of(a)[j];
                assert(self.links_of(a).contains(b));
                assert(self.linked(a, b));
                assert(self.linked(b, a));
                assert(self.spec_sectors()[a - 1].wf(self.sector_count()));
                assert(self.in_range(b));
                assert(assigned@[b as int]);
                let qb = choose|qb: int| 0 <= qb < q@.len() && q@[qb] == b;
                let ja = choose|ja: int|
                    0 <= ja < self.links_of(b).len() && self.links_of(b)[ja] == a;
                assert(d@[(self.links_of(q@[qb])[ja]) as int] <= d@[q@[qb] as int] + 1);
            }
            assert forall|s: SectorId|
                self.in_range(s) implies reaches_within(
                self,
                s,
                ROOT_SECTOR_ID,
                #[trigger] d@[s as int] as nat,
            ) && d@[s as int] <= self.sector_count() by {
                let qi = choose|qi: int| 0 <= qi < q@.len() && q@[qi] == s;
                assert(reaches_within(self, q@[qi], ROOT_SECTOR_ID, d@[q@[qi] as int] as nat));
                assert(d@[q@[qi] as int] <= qi);
            }
        }
        d
    }
}

impl Galaxy {
    /// Bounds every sector's distance to the root by `distance_limit`: any
    /// sector recorded farther away gains a one-way escape link back to the
    /// root, and the shortening is propagated to its surroundings by
    /// localized relaxation rather than a fresh traversal. Returns the
    /// updated distance table, still exact for the augmented link set.
    pub fn bound_eccentricity(&mut self, distance_limit: usize) -> (d: Vec<usize>)
        requires
            old(self).wf(),
            old(self).sym_links(),
            old(self).sector_count() >= 1,
            old(self).sector_count() < usize::MAX,
            distance_limit >= 1,
            forall|s: SectorId| old(self).in_range(s) ==> reaches(old(self), ROOT_SECTOR_ID, s),
        ensures
            final(self).wf(),
            final(self).sector_count() == old(self).sector_count(),
            final(self).spec_ports() == old(self).spec_ports(),
            final(self).spec_galaxy_id() == old(self).spec_galaxy_id(),
            final(self).spec_galaxy_name() == old(self).spec_galaxy_name(),
            forall|u: int|
                0 <= u < old(self).sector_count() ==> (#[trigger] final(self).spec_sectors()[u]).sector_id
                    == old(self).spec_sectors()[u].sector_id && final(self).spec_sectors()[u].port_id
                    == old(self).spec_sectors()[u].port_id && final(self).spec_sectors()[u].planet_id
                    == old(self).spec_sectors()[u].planet_id,
            old(self).links_subset_of(final(self)),
            forall|u: SectorId|
                final(self).in_range(u) ==> #[trigger] final(self).links_of(u) == old(
                    self,
                ).links_of(u) || final(self).links_of(u) == old(self).links_of(u).push(
                    ROOT_SECTOR_ID,
                ),
            final(self).sym_links_except_root(),
            d@.len() == final(self).sector_count() + 1,
            d@[ROOT_SECTOR_ID as int] == 0,
            forall|u: SectorId|
                final(self).in_range(u) ==> #[trigger] d@[u as int] <= distance_limit,
            forall|u: SectorId|
                final(self).in_range(u) ==> reaches_within(
                    final(self),
                    u,
                    ROOT_SECTOR_ID,
                    #[trigger] d@[u as int] as nat,
                ),
            dist_consistent(final(self), d@),
            forall|u: SectorId|
                final(self).in_range(u) ==> reaches(final(self), ROOT_SECTOR_ID, u),
    {
        let mut d = self.root_distances();
        let count = self.sectors.len();
        let mut s: usize = 1;
        while s <= count
            invariant
                self.wf(),
                count == self.sector_count(),
                count >= 1,
                count < usize::MAX,
                1 <= s <= count + 1,
                distance_limit >= 1,
                self.sector_count() == old(self).sector_count(),
                self.spec_ports() == old(self).spec_ports(),
                self.spec_galaxy_id() == old(self).spec_galaxy_id(),
                self.spec_galaxy_name() == old(self).spec_galaxy_name(),
                forall|u: int|
                    0 <= u < old(self).sector_count() ==> (#[trigger] self.spec_sectors()[u]).sector_id
                        == old(self).spec_sectors()[u].sector_id && self.spec_sectors()[u].port_id
                        == old(self).spec_sectors()[u].port_id && self.spec_sectors()[u].planet_id
                        == old(self).spec_sectors()[u].planet_id,
                old(self).links_subset_of(self),
                forall|u: SectorId|
                    self.in_range(u) ==> #[trigger] self.links_of(u) == old(self).links_of(u)
                        || self.links_of(u) == old(self).links_of(u).push(ROOT_SECTOR_ID),
                self.sym_links_except_root(),
                d@.len() == count + 1,
                d@[ROOT_SECTOR_ID as int] == 0,
                forall|u: SectorId| self.in_range(u) ==> #[trigger] d@[u as int] <= count,
                forall|u: SectorId|
                    self.in_range(u) ==> reaches_within(
                        self,
                        u,
                        ROOT_SECTOR_ID,
                        #[trigger] d@[u as int] as nat,
                    ),
                dist_consistent(self, d@),
                forall|u: int| 1 <= u < s ==> d@[u] <= distance_limit,
            decreases count + 1 - s,
        {
            if d[s] > distance_limit {
                proof {
                    assert(s != ROOT_SECTOR_ID);
                    if self.links_of(s).contains(ROOT_SECTOR_ID) {
                        let j = choose|j: int|
                            0 <= j < self.links_of(s).len() && self.links_of(s)[j]
                                == ROOT_SECTOR_ID;
                        assert(d@[s as int] <= d@[self.links_of(s)[j] as int] + 1);
                        assert(false);
                    }
                }
                let ghost g_prev = *self;
                let ghost d_prev = d@;
                self.add_one_way_link(s, ROOT_SECTOR_ID);
                d[s] = 1;
                let mut wl: Vec<SectorId> = Vec::new();
                wl.push(s);
                proof {
                    assert(g_prev.links_subset_of(self));
                    assert forall|u: SectorId|
                        self.in_range(u) implies #[trigger] self.links_of(u) == old(
                        self,
                    ).links_of(u) || self.links_of(u) == old(self).links_of(u).push(
                        ROOT_SECTOR_ID,
                    ) by {
                        if u != s {
                            assert(self.links_of(u) == g_prev.links_of(u));
                        } else {
                            assert(self.links_of(s) == g_prev.links_of(s).push(ROOT_SECTOR_ID));
                            assert(g_prev.links_of(s) == old(self).links_of(s));
                        }
                    }
                    assert forall|a: SectorId, b: SectorId|
                        #[trigger] self.linked(a, b) && b != ROOT_SECTOR_ID implies self.linked(
                        b,
                        a,
                    ) by {
                        if a != s {
                            assert(self.links_of(a) == g_prev.links_of(a));
                            assert(g_prev.linked(a, b));
                        } else {
                            if g_prev.linked(a, b) {
                                assert(g_prev.linked(b, a));
                            }
                        }
                    }
                    assert(self.linked(s, ROOT_SECTOR_ID));
                    lemma_linked_reaches_within(self, s, ROOT_SECTOR_ID);
                    assert forall|u: SectorId|
                        self.in_range(u) implies reaches_within(
                        self,
                        u,
                        ROOT_SECTOR_ID,
                        #[trigger] d@[u as int] as nat,
                    ) by {
                        if u == s {
                            assert(d@[s as int] == 1);
                        } else {
                            assert(d@[u as int] == d_prev[u as int]);
                            lemma_reaches_within_mono(
                                &g_prev,
                                self,
                                u,
                                ROOT_SECTOR_ID,
                                d_prev[u as int] as nat,
                            );
                        }
                    }
                    assert forall|a: SectorId, j: int|
                        self.in_range(a) && 0 <= j < self.links_of(a).len() implies d@[a as int]
                        <= d@[(#[trigger] self.links_of(a)[j]) as int] + 1 || wl@.contains(
                        self.links_of(a)[j],
                    ) by {
                        let c = self.links_of(a)[j];
                        if c != s && a != s {
                            assert(self.links_of(a) == g_prev.links_of(a));
                            assert(d_prev[a as int] <= d_prev[c as int] + 1);
                        } else if c == s {
                            assert(wl@[0] == s);
                        } else {
                            assert(d@[s as int] == 1);
                        }
                    }
                }
                let ghost g_drain = *self;
                while wl.len() > 0
                    invariant
                        self.wf(),
                        *self == g_drain,
                        count == self.sector_count(),
                        count >= 1,
                        count < usize::MAX,
                        1 <= s <= count,
                        distance_limit >= 1,
                        self.sym_links_except_root(),
                        d@.len() == count + 1,
                        d@[ROOT_SECTOR_ID as int] == 0,
                        forall|u: SectorId| self.in_range(u) ==> #[trigger] d@[u as int] <= count,
                        forall|u: SectorId|
                            self.in_range(u) ==> reaches_within(
                                self,
                                u,
                                ROOT_SECTOR_ID,
                                #[trigger] d@[u as int] as nat,
                            ),
                        forall|u: int| 1 <= u <= s ==> d@[u] <= distance_limit,
                        forall|i: int|
                            0 <= i < wl@.len() ==> self.in_range(#[trigger] wl@[i]) && wl@[i]
                                != ROOT_SECTOR_ID,
                        forall|a: SectorId, j: int|
                            self.in_range(a) && 0 <= j < self.links_of(a).len() ==> d@[a as int]
                                <= d@[(#[trigger] self.links_of(a)[j]) as int] + 1 || wl@.contains(
                                self.links_of(a)[j],
                            ),
                    decreases (count + 2) * sum_usize(d@) + wl@.len(),
                {
                    let ghost m0 = (count + 2) * sum_usize(d@) + wl@.len();
                    let ghost wl_pre = wl@;
                    let b = wl.pop().unwrap();
                    proof {
                        assert(wl_pre[wl_pre.len() - 1] == b);
                        assert(self.in_range(wl_pre[wl_pre.len() - 1]));
                        assert(wl_pre =~= wl@.push(b));
                        assert forall|x: SectorId, j2: int|
                            self.in_range(x) && 0 <= j2 < self.links_of(x).len() implies (
                        d@[x as int] <= d@[(#[trigger] self.links_of(x)[j2]) as int] + 1
                            || wl@.contains(self.links_of(x)[j2]) || (self.links_of(x)[j2] == b
                            && exists|jj: int|
                            0 <= jj < self.links_of(b).len() && self.links_of(b)[jj] == x)) by {
                            let c = self.links_of(x)[j2];
                            if !(d@[x as int] <= d@[c as int] + 1) && !wl@.contains(c) {
                                assert(wl_pre.contains(c));
                                assert(c == b);
                                assert(self.links_of(x).contains(c));
                                assert(self.linked(x, b));
                                assert(self.linked(b, x));
                                assert(self.links_of(b).contains(x));
                            }
                        }
                    }
                    let links = &self.sectors[b - 1].sector_links;
                    let n = links.len();
                    let mut j: usize = 0;
                    while j < n
                        invariant
                            self.wf(),
                            *self == g_drain,
                            count == self.sector_count(),
                            count >= 1,
                            count < usize::MAX,
                            1 <= s <= count,
                            distance_limit >= 1,
                            self.sym_links_except_root(),
                            n == links@.len(),
                            0 <= j <= n,
                            links@ == self.links_of(b),
                            self.in_range(b),
                            b != ROOT_SECTOR_ID,
                            d@.len() == count + 1,
                            d@[ROOT_SECTOR_ID as int] == 0,
                            forall|u: SectorId|
                                self.in_range(u) ==> #[trigger] d@[u as int] <= count,
                            forall|u: SectorId|
                                self.in_range(u) ==> reaches_within(
                                    self,
                                    u,
                                    ROOT_SECTOR_ID,
                                    #[trigger] d@[u as int] as nat,
                                ),
                            forall|u: int| 1 <= u <= s ==> d@[u] <= distance_limit,
                            forall|i: int|
                                0 <= i < wl@.len() ==> self.in_range(#[trigger] wl@[i]) && wl@[i]
                                    != ROOT_SECTOR_ID,
                            forall|jj: int|
                                0 <= jj < j ==> d@[(#[trigger] links@[jj]) as int] <= d@[b as int]
                                    + 1,
                            forall|a: SectorId, j2: int|
                                self.in_range(a) && 0 <= j2 < self.links_of(a).len()
                                    ==> d@[a as int] <= d@[(#[trigger] self.links_of(a)[j2]) as int]
                                    + 1 || wl@.contains(self.links_of(a)[j2]) || (self.links_of(
                                    a,
                                )[j2] == b && exists|jj: int|
                                    j <= jj < self.links_of(b).len() && self.links_of(b)[jj] == a),
                            (count + 2) * sum_usize(d@) + wl@.len() < m0,
                        decreases n - j,
                    {
                        let a = links[j];
                        proof {
                            assert(self.links_of(b)[j as int] == a);
                            assert(self.spec_sectors()[b - 1].wf(self.sector_count()));
                            assert(self.in_range(a));
                            assert(a != b);
                        }
                        let db = d[b];
                        if d[a] > db + 1 {
                            proof {
                                assert(a != ROOT_SECTOR_ID);
                                assert(self.links_of(b).contains(a));
                                assert(self.linked(b, a));
                                assert(self.linked(a, b));
                                lemma_reaches_within_prepend(
                                    self,
                                    a,
                                    b,
                                    ROOT_SECTOR_ID,
                                    d@[b as int] as nat,
                                );
                                lemma_sum_usize_update_lower(
                                    d@,
                                    a as int,
                                    (db + 1) as usize,
                                );
                            }
                            let ghost d_before = d@;
                            let ghost wl_before = wl@;
                            d[a] = db + 1;
                            wl.push(a);
                            proof {
                                assert(d@ =~= d_before.update(a as int, (db + 1) as usize));
                                assert(wl@ =~= wl_before.push(a));
                                assert(sum_usize(d@) + (d_before[a as int] - (db + 1))
                                    == sum_usize(d_before));
                                let delta = d_before[a as int] - (db + 1);
                                assert(delta >= 1);
                                assert((count + 2) * sum_usize(d@) + (count + 2) * delta == (count
                                    + 2) * sum_usize(d_before)) by (nonlinear_arith)
                                    requires
                                        sum_usize(d@) + delta == sum_usize(d_before),
                                ;
                                assert((count + 2) * delta >= count + 2) by (nonlinear_arith)
                                    requires
                                        delta >= 1,
                                        count >= 1,
                                ;
                                assert forall|u: SectorId|
                                    self.in_range(u) implies reaches_within(
                                    self,
                                    u,
                                    ROOT_SECTOR_ID,
                                    #[trigger] d@[u as int] as nat,
                                ) by {
                                    if u != a {
                                        assert(d@[u as int] == d_before[u as int]);
                                    }
                                }
                                assert forall|x: SectorId, j2: int|
                                    self.in_range(x) && 0 <= j2 < self.links_of(x).len() implies (
                                d@[x as int] <= d@[(#[trigger] self.links_of(x)[j2]) as int] + 1
                                    || wl@.contains(self.links_of(x)[j2]) || (self.links_of(
                                    x,
                                )[j2] == b && exists|jj: int|
                                    j + 1 <= jj < self.links_of(b).len() && self.links_of(b)[jj]
                                        == x)) by {
                                    let c = self.links_of(x)[j2];
                                    if c == a {
                                        assert(wl@.contains(a));
                                    } else if d_before[x as int] <= d_before[c as int] + 1 {
                                        assert(d@[x as int] <= d_before[x as int]);
                                        assert(d@[c as int] == d_before[c as int]);
                                    } else if wl_before.contains(c) {
                                        assert(wl@.contains(c));
                                    } else {
                                        assert(c == b);
                                        let jj = choose|jj: int|
                                            j <= jj < self.links_of(b).len() && self.links_of(
                                                b,
                                            )[jj] == x;
                                        if jj == j {
                                            assert(x == a);
                                            assert(d@[b as int] == db);
                                            assert(d@[a as int] == db + 1);
                                        } else {
                                            assert(j + 1 <= jj < self.links_of(b).len()
                                                && self.links_of(b)[jj] == x);
                                        }
                                    }
                                }
                            }
                        } else {
                            proof {
                                assert forall|x: SectorId, j2: int|
                                    self.in_range(x) && 0 <= j2 < self.links_of(x).len() implies (
                                d@[x as int] <= d@[(#[trigger] self.links_of(x)[j2]) as int] + 1
                                    || wl@.contains(self.links_of(x)[j2]) || (self.links_of(
                                    x,
                                )[j2] == b && exists|jj: int|
                                    j + 1 <= jj < self.links_of(b).len() && self.links_of(b)[jj]
                                        == x)) by {
                                    let c = self.links_of(x)[j2];
                                    if !(d@[x as int] <= d@[c as int] + 1) && !wl@.contains(c) {
                                        assert(c == b);
                                        let jj = choose|jj: int|
                                            j <= jj < self.links_of(b).len() && self.links_of(
                                                b,
                                            )[jj] == x;
                                        if jj == j {
                                            assert(x == a);
                                            assert(d@[a as int] <= d@[b as int] + 1);
                                            assert(false);
                                        } else {
                                            assert(j + 1 <= jj < self.links_of(b).len()
                                                && self.links_of(b)[jj] == x);
                                        }
                                    }
                                }
                            }
                        }
                        j += 1;
                    }
                    proof {
                        assert forall|a: SectorId, j2: int|
                            self.in_range(a) && 0 <= j2 < self.links_of(a).len() implies (
                        d@[a as int] <= d@[(#[trigger] self.links_of(a)[j2]) as int] + 1
                            || wl@.contains(self.links_of(a)[j2])) by {
                            let c = self.links_of(a)[j2];
                            if !(d@[a as int] <= d@[c as int] + 1) && !wl@.contains(c) {
                                assert(c == b);
                                let jj = choose|jj: int|
                                    j <= jj < self.links_of(b).len() && self.links_of(b)[jj] == a;
                                assert(false);
                            }
                        }
                    }
                }
                proof {
                    assert forall|a: SectorId, j: int|
                        #![trigger d@[a as int], self.links_of(a)[j]]
                        self.in_range(a) && 0 <= j < self.links_of(a).len() implies d@[a as int]
                        <= d@[self.links_of(a)[j] as int] + 1 by {
                        assert(!wl@.contains(self.links_of(a)[j]));
                    }
                }
            }
            s += 1;
        }
        proof {
            assert forall|u: SectorId| self.in_range(u) implies reaches(
                self,
                ROOT_SECTOR_ID,
                u,
            ) by {
                assert(old(self).in_range(u));
                assert(reaches(old(self), ROOT_SECTOR_ID, u));
                crate::reach::lemma_reaches_mono(old(self), self, ROOT_SECTOR_ID, u);
            }
        }
        d
    }
}

/// A sequence of distinct ids drawn from `1..=n` cannot hold more than `n`
/// entries.
proof fn lemma_distinct_ids_bounded(q: Seq<SectorId>, n: nat)
    requires
        forall|i: int| 0 <= i < q.len() ==> 1 <= #[trigger] q[i] <= n,
        forall|i: int, j: int| 0 <= i < j < q.len() ==> q[i] != q[j],
    ensures
        q.len() <= n,
{
    let ids = Set::new(|x: int| 1 <= x <= n);
    vstd::set_lib::lemma_int_range(1, n as int + 1);
    assert(ids =~= vstd::set_lib::set_int_range(1, n as int + 1));
    let m = q.map(|i: int, x: SectorId| x as int);
    assert(m.len() == q.len());
    assert forall|i: int, j: int| i != j && 0 <= i < m.len() && 0 <= j < m.len() implies m[i]
        != m[j] by {
        assert(q[i] != q[j]);
    }
    assert(m.no_duplicates());
    let taken = m.to_set();
    assert forall|e: int| taken.contains(e) implies ids.contains(e) by {
        let i = choose|i: int| 0 <= i < m.len() && m[i] == e;
        assert(1 <= q[i] <= n);
    }
    vstd::set_lib::lemma_len_subset(taken, ids);
    m.unique_seq_to_set();
}

} // verus!
