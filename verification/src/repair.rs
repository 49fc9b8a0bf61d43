use vstd::prelude::*;
use crate::galaxy::{Galaxy, DEAD_END_RATIO, RANDOM_ATTEMPTS, ROOT_SECTOR_ID};
use crate::sector::MAX_SECTOR_LINKS;
use crate::ids::append_ids;
use crate::reach::{
    marked_closed, reaches, lemma_reaches_mono, lemma_reaches_rev, lemma_reaches_step,
    lemma_reaches_trans,
};
use crate::rng::random_in_range;
use crate::sector::SectorId;

verus! {

impl Galaxy {
    /// Picks a linking candidate out of `pool`, preferring a random member
    /// that is neither the root nor at the link cap; after a bounded number
    /// of draws it scans for one, and only a pool with no member below the
    /// cap makes it settle for an arbitrary member, reported by the flag.
    fn pick_link_candidate(&self, pool: &Vec<SectorId>, exclude_root: bool) -> (r: (SectorId, bool))
        requires
            self.wf(),
            pool@.len() >= 1,
            forall|i: int| 0 <= i < pool@.len() ==> self.in_range(#[trigger] pool@[i]),
        ensures
            pool@.contains(r.0),
            r.1 ==> self.degree(r.0) < MAX_SECTOR_LINKS,
    {
        let n = pool.len();
        let mut attempt: usize = 0;
        while attempt < RANDOM_ATTEMPTS
            invariant
                self.wf(),
                n == pool@.len(),
                n >= 1,
                forall|i: int| 0 <= i < pool@.len() ==> self.in_range(#[trigger] pool@[i]),
            decreases RANDOM_ATTEMPTS - attempt,
        {
            let ix = random_in_range(0, n);
            let cand = pool[ix];
            if !(exclude_root && cand == ROOT_SECTOR_ID)
                && self.sector_at(cand).get_link_count() < MAX_SECTOR_LINKS {
                return (cand, true);
            }
            attempt += 1;
        }
        // Deterministic fallback: first member below the cap, skipping the
        // root if another choice remains.
        let mut i: usize = 0;
        while i < n
            invariant
                self.wf(),
                n == pool@.len(),
                forall|k: int| 0 <= k < pool@.len() ==> self.in_range(#[trigger] pool@[k]),
                0 <= i <= n,
            decreases n - i,
        {
            let cand = pool[i];
            if !(exclude_root && cand == ROOT_SECTOR_ID)
                && self.sector_at(cand).get_link_count() < MAX_SECTOR_LINKS {
                return (cand, true);
            }
            i += 1;
        }
        let mut i: usize = 0;
        while i < n
            invariant
                self.wf(),
                n == pool@.len(),
                forall|k: int| 0 <= k < pool@.len() ==> self.in_range(#[trigger] pool@[k]),
                0 <= i <= n,
            decreases n - i,
        {
            let cand = pool[i];
            if self.sector_at(cand).get_link_count() < MAX_SECTOR_LINKS {
                return (cand, true);
            }
            i += 1;
        }
        (pool[0], false)
    }

    /// Splices every glob of sectors that cannot reach the root onto the
    /// connected body of the galaxy, then pairs up surplus dead ends,
    /// leaving roughly one dead end per `DEAD_END_RATIO` sectors.
    ///
    /// Afterwards every sector can be reached from the root. The returned
    /// flag reports whether the repair stayed within the link cap: it is
    /// false only when some glob could be attached solely through sectors
    /// already carrying the maximum number of links.
    pub fn repair_connectivity(&mut self) -> (capped_ok: bool)
        requires
            old(self).wf(),
            old(self).sym_links(),
            old(self).sector_count() >= 1,
            old(self).sector_count() < usize::MAX,
        ensures
            final(self).wf(),
            final(self).sym_links(),
            final(self).sector_count() == old(self).sector_count(),
            final(self).spec_ports() == old(self).spec_ports(),
            final(self).spec_galaxy_id() == old(self).spec_galaxy_id(),
            final(self).spec_galaxy_name() == old(self).spec_galaxy_name(),
            forall|s: int|
                0 <= s < old(self).sector_count() ==> (#[trigger] final(self).spec_sectors()[s]).sector_id
                    == old(self).spec_sectors()[s].sector_id && final(self).spec_sectors()[s].port_id
                    == old(self).spec_sectors()[s].port_id && final(self).spec_sectors()[s].planet_id
                    == old(self).spec_sectors()[s].planet_id,
            old(self).links_subset_of(final(self)),
            forall|s: SectorId|
                final(self).in_range(s) ==> reaches(final(self), ROOT_SECTOR_ID, s),
            capped_ok ==> forall|s: SectorId|
                final(self).in_range(s) ==> final(self).degree(s) <= MAX_SECTOR_LINKS
                    || final(self).degree(s) <= old(self).degree(s),
    {
        let count = self.sectors.len();
        let mut assigned: Vec<bool> = Vec::new();
        let mut z: usize = 0;
        while z < count + 1
            invariant
                count < usize::MAX,
                0 <= z <= count + 1,
                assigned@.len() == z,
                forall|i: int| 0 <= i < z ==> !assigned@[i],
            decreases count + 1 - z,
        {
            assigned.push(false);
            z += 1;
        }
        let mut pool = self.collect_component(ROOT_SECTOR_ID, &mut assigned);
        let mut capped_ok = true;
        proof {
            assert forall|x: int| 1 <= x <= count && assigned@[x] implies reaches(
                self,
                ROOT_SECTOR_ID,
                x as SectorId,
            ) by {
                assert(pool@.contains(x as SectorId));
                let i = choose|i: int| 0 <= i < pool@.len() && pool@[i] == x as SectorId;
                assert(reaches(self, ROOT_SECTOR_ID, pool@[i]));
            }
        }
        let mut s: usize = 1;
        while s <= count
            invariant
                self.wf(),
                self.sym_links(),
                count == self.sector_count(),
                count < usize::MAX,
                count >= 1,
                1 <= s <= count + 1,
                assigned@.len() == count + 1,
                marked_closed(self, assigned@),
                self.sector_count() == old(self).sector_count(),
                self.spec_ports() == old(self).spec_ports(),
                self.spec_galaxy_id() == old(self).spec_galaxy_id(),
                self.spec_galaxy_name() == old(self).spec_galaxy_name(),
                forall|t: int|
                    0 <= t < old(self).sector_count() ==> (#[trigger] self.spec_sectors()[t]).sector_id
                        == old(self).spec_sectors()[t].sector_id && self.spec_sectors()[t].port_id
                        == old(self).spec_sectors()[t].port_id && self.spec_sectors()[t].planet_id
                        == old(self).spec_sectors()[t].planet_id,
                old(self).links_subset_of(self),
                pool@.len() >= 1,
                forall|i: int|
                    0 <= i < pool@.len() ==> self.in_range(#[trigger] pool@[i])
                        && assigned@[pool@[i] as int],
                forall|x: int|
                    1 <= x <= count && assigned@[x] ==> reaches(
                        self,
                        ROOT_SECTOR_ID,
                        x as SectorId,
                    ),
                forall|x: int| 1 <= x < s ==> assigned@[x],
                capped_ok ==> forall|t: SectorId|
                    self.in_range(t) ==> self.degree(t) <= MAX_SECTOR_LINKS || self.degree(t)
                        <= old(self).degree(t),
            decreases count + 1 - s,
        {
            if !assigned[s] {
                let ghost assigned_pre = assigned@;
                let comp = self.collect_component(s, &mut assigned);
                let picked = self.pick_link_candidate(&pool, true);
                let s1 = picked.0;
                let picked2 = self.pick_link_candidate(&comp, false);
                let s2 = picked2.0;
                proof {
                    let i1 = choose|i: int| 0 <= i < pool@.len() && pool@[i] == s1;
                    assert(assigned_pre[s1 as int]);
                    let i2 = choose|i: int| 0 <= i < comp@.len() && comp@[i] == s2;
                    assert(!assigned_pre[comp@[i2] as int]);
                    assert(s1 != s2);
                    assert(self.in_range(comp@[i2]));
                }
                let ghost g_before = *self;
                self.link_pair(s1, s2);
                if !(picked.1 && picked2.1) {
                    capped_ok = false;
                }
                proof {
                    assert(g_before.links_subset_of(self));
                    // Mutual links keep the graph symmetric.
                    assert forall|a: SectorId, b: SectorId| #[trigger] self.linked(a, b) implies self.linked(
                        b,
                        a,
                    ) by {
                        if g_before.linked(a, b) {
                            assert(g_before.linked(b, a));
                        }
                    }
                    // The marking stays closed: the new link joins two
                    // marked sectors.
                    assert forall|s2x: SectorId, j: int|
                        self.in_range(s2x) && #[trigger] assigned@[s2x as int] && 0 <= j
                            < self.links_of(s2x).len() implies assigned@[(
                        #[trigger] self.links_of(s2x)[j]) as int] by {
                        let tgt = self.links_of(s2x)[j];
                        assert(self.links_of(s2x).contains(tgt));
                        assert(self.linked(s2x, tgt));
                        if g_before.linked(s2x, tgt) {
                            let jj = choose|jj: int|
                                0 <= jj < g_before.links_of(s2x).len() && g_before.links_of(
                                    s2x,
                                )[jj] == tgt;
                            assert(assigned@[g_before.links_of(s2x)[jj] as int]);
                        } else {
                            let i2 = choose|i: int| 0 <= i < comp@.len() && comp@[i] == s2;
                            assert(assigned@[comp@[i2] as int]);
                            let i1 = choose|i: int| 0 <= i < pool@.len() && pool@[i] == s1;
                            assert(assigned@[pool@[i1] as int]);
                        }
                    }
                    // Every newly collected sector can now reach the root:
                    // through the fresh link and back along the glob.
                    let i1 = choose|i: int| 0 <= i < pool@.len() && pool@[i] == s1;
                    assert(reaches(&g_before, ROOT_SECTOR_ID, s1));
                    lemma_reaches_mono(&g_before, self, ROOT_SECTOR_ID, s1);
                    lemma_reaches_step(self, ROOT_SECTOR_ID, s1, s2);
                    let i2 = choose|i: int| 0 <= i < comp@.len() && comp@[i] == s2;
                    assert(reaches(&g_before, s as SectorId, comp@[i2]));
                    lemma_reaches_mono(&g_before, self, s as SectorId, s2);
                    lemma_reaches_rev(self, s as SectorId, s2);
                    lemma_reaches_trans(self, ROOT_SECTOR_ID, s2, s as SectorId);
                    assert forall|x: int| 1 <= x <= count && assigned@[x] implies reaches(
                        self,
                        ROOT_SECTOR_ID,
                        x as SectorId,
                    ) by {
                        if assigned_pre[x] {
                            lemma_reaches_mono(&g_before, self, ROOT_SECTOR_ID, x as SectorId);
                        } else {
                            assert(comp@.contains(x as SectorId));
                            let ix = choose|i: int| 0 <= i < comp@.len() && comp@[i] == x as SectorId;
                            assert(reaches(&g_before, s as SectorId, comp@[ix]));
                            lemma_reaches_mono(&g_before, self, s as SectorId, x as SectorId);
                            lemma_reaches_trans(
                                self,
                                ROOT_SECTOR_ID,
                                s as SectorId,
                                x as SectorId,
                            );
                        }
                    }
                    // Degree accounting for the cap flag.
                    if picked.1 && picked2.1 && capped_ok {
                        assert(g_before.degree(s1) < MAX_SECTOR_LINKS);
                        assert(g_before.degree(s2) < MAX_SECTOR_LINKS);
                        assert(self.degree(s1) <= g_before.degree(s1) + 1);
                        assert(self.degree(s2) <= g_before.degree(s2) + 1);
                        assert forall|t: SectorId|
                            self.in_range(t) implies self.degree(t) <= MAX_SECTOR_LINKS
                            || self.degree(t) <= old(self).degree(t) by {
                            if t != s1 && t != s2 {
                                assert(self.links_of(t) == g_before.links_of(t));
                                assert(g_before.in_range(t));
                                assert(g_before.degree(t) <= MAX_SECTOR_LINKS || g_before.degree(t)
                                    <= old(self).degree(t));
                            }
                        }
                    }
                }
                let ghost pool_pre = pool@;
                append_ids(&mut pool, &comp);
                proof {
                    assert forall|i: int|
                        0 <= i < pool@.len() implies self.in_range(#[trigger] pool@[i])
                        && assigned@[pool@[i] as int] by {
                        if i < pool_pre.len() {
                            assert(pool@[i] == pool_pre[i]);
                        } else {
                            assert(pool@[i] == comp@[i - pool_pre.len()]);
                        }
                    }
                }
            }
            s += 1;
        }

        let ghost g_mid = *self;
        proof {
            assert forall|x: SectorId| g_mid.in_range(x) implies reaches(
                &g_mid,
                ROOT_SECTOR_ID,
                x,
            ) by {
                assert(assigned@[x as int]);
                assert(reaches(self, ROOT_SECTOR_ID, (x as int) as SectorId));
            }
        }

        // Pair up surplus dead ends, keeping roughly one per
        // `DEAD_END_RATIO` sectors as deliberate hiding spots.
        let mut dead_ends: Vec<SectorId> = Vec::new();
        let mut t: usize = 1;
        while t <= count
            invariant
                self.wf(),
                *self == g_mid,
                count == self.sector_count(),
                count < usize::MAX,
                1 <= t <= count + 1,
                forall|i: int|
                    0 <= i < dead_ends@.len() ==> self.in_range(#[trigger] dead_ends@[i])
                        && self.degree(dead_ends@[i]) == 1,
                forall|i: int, j: int|
                    0 <= i < j < dead_ends@.len() ==> dead_ends@[i] != dead_ends@[j],
                forall|i: int| 0 <= i < dead_ends@.len() ==> dead_ends@[i] < t,
            decreases count + 1 - t,
        {
            if self.sector_at(t).get_link_count() == 1 {
                dead_ends.push(t);
            }
            t += 1;
        }
        let keep = count / DEAD_END_RATIO;
        let mut head: usize = 0;
        while dead_ends.len() - head > keep && dead_ends.len() - head >= 2
            invariant
                self.wf(),
                self.sym_links(),
                count == self.sector_count(),
                count < usize::MAX,
                count >= 1,
                0 <= head <= dead_ends@.len(),
                head % 2 == 0,
                self.sector_count() == old(self).sector_count(),
                self.spec_ports() == old(self).spec_ports(),
                self.spec_galaxy_id() == old(self).spec_galaxy_id(),
                self.spec_galaxy_name() == old(self).spec_galaxy_name(),
                forall|u: int|
                    0 <= u < old(self).sector_count() ==> (#[trigger] self.spec_sectors()[u]).sector_id
                        == old(self).spec_sectors()[u].sector_id && self.spec_sectors()[u].port_id
                        == old(self).spec_sectors()[u].port_id && self.spec_sectors()[u].planet_id
                        == old(self).spec_sectors()[u].planet_id,
                old(self).links_subset_of(self),
                g_mid.links_subset_of(self),
                forall|x: SectorId| g_mid.in_range(x) ==> reaches(&g_mid, ROOT_SECTOR_ID, x),
                forall|i: int|
                    0 <= i < dead_ends@.len() ==> self.in_range(#[trigger] dead_ends@[i]),
                forall|i: int, j: int|
                    0 <= i < j < dead_ends@.len() ==> dead_ends@[i] != dead_ends@[j],
                forall|i: int|
                    head <= i < dead_ends@.len() ==> self.degree(#[trigger] dead_ends@[i]) == 1,
                capped_ok ==> forall|u: SectorId|
                    self.in_range(u) ==> self.degree(u) <= MAX_SECTOR_LINKS || self.degree(u)
                        <= old(self).degree(u),
            decreases dead_ends@.len() - head,
        {
            let a = dead_ends[head];
            let b = dead_ends[head + 1];
            proof {
                assert(a == dead_ends@[head as int]);
                assert(b == dead_ends@[head as int + 1]);
                assert(self.degree(a) == 1);
                assert(self.degree(b) == 1);
            }
            let ghost g_before = *self;
            self.link_pair(a, b);
            head += 2;
            proof {
                assert forall|x: SectorId, y: SectorId| #[trigger] self.linked(x, y) implies self.linked(
                    y,
                    x,
                ) by {
                    if g_before.linked(x, y) {
                        assert(g_before.linked(y, x));
                    }
                }
                assert forall|i: int|
                    head <= i < dead_ends@.len() implies self.degree(#[trigger] dead_ends@[i])
                    == 1 by {
                    assert(dead_ends@[i] != a && dead_ends@[i] != b);
                    assert(self.links_of(dead_ends@[i]) == g_before.links_of(dead_ends@[i]));
                }
                if capped_ok {
                    assert forall|u: SectorId|
                        self.in_range(u) implies self.degree(u) <= MAX_SECTOR_LINKS || self.degree(
                        u,
                    ) <= old(self).degree(u) by {
                        if u != a && u != b {
                            assert(self.links_of(u) == g_before.links_of(u));
                            assert(g_before.in_range(u));
                            assert(g_before.degree(u) <= MAX_SECTOR_LINKS || g_before.degree(u)
                                <= old(self).degree(u));
                        } else {
                            assert(g_before.degree(u) == 1);
                            assert(self.degree(u) <= g_before.degree(u) + 1);
                        }
                    }
                }
            }
        }
        proof {
            assert forall|x: SectorId| self.in_range(x) implies reaches(
                self,
                ROOT_SECTOR_ID,
                x,
            ) by {
                assert(g_mid.in_range(x));
                assert(reaches(&g_mid, ROOT_SECTOR_ID, x));
                lemma_reaches_mono(&g_mid, self, ROOT_SECTOR_ID, x);
            }
        }
        capped_ok
    }
}

} // verus!
