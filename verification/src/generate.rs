use vstd::prelude::*;
use crate::galaxy::{Galaxy, GalaxyId, DISTANCE_LIMIT, LINK_WINDOW, PORT_RATIO, RANDOM_ATTEMPTS,
    ROOT_SECTOR_ID};
use crate::placer::MIN_PORT_DISTANCE;
use crate::reach::{
    dist_consistent, is_path, reaches, reaches_within, lemma_consistent_dist_lower_bound,
    lemma_reaches_mono, lemma_reaches_within_mono, lemma_reaches_within_widen,
};
use crate::rng::random_in_range;
use crate::sector::{SectorId, MAX_SECTOR_LINKS};

verus! {

/// Whether `t` lies in the window of candidate link targets around `s` in a
/// galaxy of `n` sectors: within `LINK_WINDOW` ids either way, clamped to
/// the arena.
pub open spec fn in_link_window(n: nat, s: SectorId, t: SectorId) -> bool {
    1 <= t <= n && s - LINK_WINDOW <= t <= s + LINK_WINDOW
}

/// After the linking pass a sector either carries some link or has no room
/// anywhere in its candidate window.
pub open spec fn linked_or_window_saturated(g: &Galaxy, u: SectorId) -> bool {
    g.degree(u) >= 1 || (forall|t: SectorId|
        in_link_window(g.sector_count(), u, t) && t != u ==> #[trigger] g.degree(t)
            >= MAX_SECTOR_LINKS)
}

/// The saturation property survives any change that only grows degrees.
proof fn lemma_saturation_monotone(g1: &Galaxy, g2: &Galaxy, u: SectorId)
    requires
        g1.sector_count() == g2.sector_count(),
        forall|t: SectorId| g2.in_range(t) ==> #[trigger] g1.degree(t) <= g2.degree(t),
        g1.in_range(u),
        linked_or_window_saturated(g1, u),
    ensures
        linked_or_window_saturated(g2, u),
{
    if g1.degree(u) >= 1 {
        assert(g1.degree(u) <= g2.degree(u));
    } else {
        assert forall|t: SectorId|
            in_link_window(g2.sector_count(), u, t) && t != u implies #[trigger] g2.degree(t)
            >= MAX_SECTOR_LINKS by {
            assert(g1.degree(t) >= MAX_SECTOR_LINKS);
        }
    }
}

impl Galaxy {
    /// The Topology Builder's linking pass: walks the sectors in id order
    /// and, for each one still below the link cap, draws candidate targets
    /// from the window of `LINK_WINDOW` ids around it (clamped to the
    /// arena), rejecting the sector itself and targets at the cap; a draw
    /// that sticks becomes a mutual link. Draws are bounded, and after an
    /// unlucky streak the window is scanned instead, so a sector is left
    /// unlinked only when its whole window sits at the cap.
    pub fn randomize_links(&mut self)
        requires
            old(self).wf(),
            old(self).sym_links(),
            old(self).sector_count() >= 1,
            old(self).sector_count() <= usize::MAX - 2 * LINK_WINDOW - 1,
            forall|u: SectorId|
                old(self).in_range(u) ==> #[trigger] old(self).degree(u) <= MAX_SECTOR_LINKS,
        ensures
            final(self).wf(),
            final(self).sym_links(),
            final(self).sector_count() == old(self).sector_count(),
            final(self).spec_ports() == old(self).spec_ports(),
            final(self).spec_galaxy_id() == old(self).spec_galaxy_id(),
            final(self).spec_galaxy_name() == old(self).spec_galaxy_name(),
            forall|s: int|
                0 <= s < old(self).sector_count() ==> (#[trigger] final(self).spec_sectors()[s]).sector_id
                    == old(self).spec_sectors()[s].sector_id && final(self).spec_sectors()[s].port_id
                    == old(self).spec_sectors()[s].port_id && final(self).spec_sectors()[s].planet_id
                    == old(self).spec_sectors()[s].planet_id,
            old(self).links_subset_of(final(self)),
            forall|u: SectorId|
                final(self).in_range(u) ==> #[trigger] final(self).degree(u) <= MAX_SECTOR_LINKS,
            forall|u: SectorId|
                final(self).in_range(u) ==> linked_or_window_saturated(final(self), u),
    {
        let count = self.sectors.len();
        let mut sector_id: usize = 1;
        while sector_id <= count
            invariant
                self.wf(),
                self.sym_links(),
                count == self.sector_count(),
                count >= 1,
                count <= usize::MAX - 2 * LINK_WINDOW - 1,
                1 <= sector_id <= count + 1,
                self.sector_count() == old(self).sector_count(),
                self.spec_ports() == old(self).spec_ports(),
                self.spec_galaxy_id() == old(self).spec_galaxy_id(),
                self.spec_galaxy_name() == old(self).spec_galaxy_name(),
                forall|s: int|
                    0 <= s < old(self).sector_count() ==> (#[trigger] self.spec_sectors()[s]).sector_id
                        == old(self).spec_sectors()[s].sector_id && self.spec_sectors()[s].port_id
                        == old(self).spec_sectors()[s].port_id && self.spec_sectors()[s].planet_id
                        == old(self).spec_sectors()[s].planet_id,
                old(self).links_subset_of(self),
                forall|u: SectorId|
                    self.in_range(u) ==> #[trigger] self.degree(u) <= MAX_SECTOR_LINKS,
                forall|u: SectorId|
                    1 <= u < sector_id ==> linked_or_window_saturated(self, u),
            decreases count + 1 - sector_id,
        {
            let ghost g_entry = *self;
            let below_cap = self.sector_at(sector_id).get_link_count() < MAX_SECTOR_LINKS;
            let mut linked_up = false;
            if below_cap {
                let mut attempt: usize = 0;
                while attempt < RANDOM_ATTEMPTS && !linked_up
                    invariant
                        self.wf(),
                        self.sym_links(),
                        count == self.sector_count(),
                        count >= 1,
                        count <= usize::MAX - 2 * LINK_WINDOW - 1,
                        1 <= sector_id <= count,
                        attempt <= RANDOM_ATTEMPTS,
                        self.sector_count() == old(self).sector_count(),
                        self.spec_ports() == old(self).spec_ports(),
                        self.spec_galaxy_id() == old(self).spec_galaxy_id(),
                        self.spec_galaxy_name() == old(self).spec_galaxy_name(),
                        forall|s: int|
                            0 <= s < old(self).sector_count() ==> (
                            #[trigger] self.spec_sectors()[s]).sector_id == old(self).spec_sectors()[s].sector_id
                                && self.spec_sectors()[s].port_id == old(self).spec_sectors()[s].port_id
                                && self.spec_sectors()[s].planet_id == old(self).spec_sectors()[s].planet_id,
                        old(self).links_subset_of(self),
                        forall|u: SectorId|
                            self.in_range(u) ==> #[trigger] self.degree(u) <= MAX_SECTOR_LINKS,
                        forall|u: SectorId|
                            1 <= u < sector_id ==> linked_or_window_saturated(self, u),
                        !linked_up ==> *self == g_entry,
                        !linked_up ==> self.degree(sector_id) < MAX_SECTOR_LINKS,
                        linked_up ==> self.degree(sector_id) >= 1,
                    decreases RANDOM_ATTEMPTS - attempt + (if linked_up {
                        0int
                    } else {
                        1int
                    }),
                {
                    // Draw an offset in the window around this sector's id
                    // and clamp the target into the arena; offsets that land
                    // on the sector itself are rejected.
                    let offset = random_in_range(0, 2 * LINK_WINDOW + 1);
                    let raw = sector_id + offset;
                    let mut target: usize = if raw < LINK_WINDOW + 1 {
                        1
                    } else {
                        raw - LINK_WINDOW
                    };
                    if target > count {
                        target = count;
                    }
                    if target != sector_id && self.sector_at(target).get_link_count()
                        < MAX_SECTOR_LINKS && self.sector_at(sector_id).get_link_count()
                        < MAX_SECTOR_LINKS {
                        let ghost g_before = *self;
                        self.link_pair(sector_id, target);
                        linked_up = true;
                        proof {
                            self.lemma_after_link(&g_before, sector_id, target);
                            assert(self.links_of(sector_id).contains(target));
                            let w = choose|w: int|
                                0 <= w < self.links_of(sector_id).len() && self.links_of(
                                    sector_id,
                                )[w] == target;
                            assert(self.degree(sector_id) >= 1);
                        }
                    }
                    attempt += 1;
                }
                if !linked_up {
                    // Deterministic completion: take the first window member
                    // with room, if any has some.
                    let lo = if sector_id > LINK_WINDOW {
                        sector_id - LINK_WINDOW
                    } else {
                        1
                    };
                    let hi = if sector_id + LINK_WINDOW <= count {
                        sector_id + LINK_WINDOW
                    } else {
                        count
                    };
                    let mut t = lo;
                    while t <= hi && !linked_up
                        invariant
                            self.wf(),
                            self.sym_links(),
                            count == self.sector_count(),
                            count >= 1,
                            count <= usize::MAX - 2 * LINK_WINDOW - 1,
                            1 <= sector_id <= count,
                            1 <= lo <= t,
                            hi <= count,
                            t <= hi + 1,
                            self.sector_count() == old(self).sector_count(),
                            self.spec_ports() == old(self).spec_ports(),
                            self.spec_galaxy_id() == old(self).spec_galaxy_id(),
                            self.spec_galaxy_name() == old(self).spec_galaxy_name(),
                            forall|s: int|
                                0 <= s < old(self).sector_count() ==> (
                                #[trigger] self.spec_sectors()[s]).sector_id == old(self).spec_sectors()[s].sector_id
                                    && self.spec_sectors()[s].port_id == old(self).spec_sectors()[s].port_id
                                    && self.spec_sectors()[s].planet_id == old(self).spec_sectors()[s].planet_id,
                            old(self).links_subset_of(self),
                            forall|u: SectorId|
                                self.in_range(u) ==> #[trigger] self.degree(u)
                                    <= MAX_SECTOR_LINKS,
                            forall|u: SectorId|
                                1 <= u < sector_id ==> linked_or_window_saturated(self, u),
                            !linked_up ==> self.degree(sector_id) < MAX_SECTOR_LINKS,
                            linked_up ==> self.degree(sector_id) >= 1,
                            !linked_up ==> forall|x: SectorId|
                                lo <= x < t && x != sector_id ==> #[trigger] self.degree(x)
                                    >= MAX_SECTOR_LINKS,
                        decreases hi + 1 - t + (if linked_up {
                            0int
                        } else {
                            1int
                        }),
                    {
                        if t != sector_id && self.sector_at(t).get_link_count()
                            < MAX_SECTOR_LINKS {
                            let ghost g_before = *self;
                            self.link_pair(sector_id, t);
                            linked_up = true;
                            proof {
                                self.lemma_after_link(&g_before, sector_id, t);
                                assert(self.links_of(sector_id).contains(t));
                                let w = choose|w: int|
                                    0 <= w < self.links_of(sector_id).len() && self.links_of(
                                        sector_id,
                                    )[w] == t;
                                assert(self.degree(sector_id) >= 1);
                            }
                        }
                        t += 1;
                    }
                    proof {
                        if !linked_up {
                            assert(t == hi + 1);
                            assert forall|x: SectorId|
                                in_link_window(self.sector_count(), sector_id, x) && x
                                    != sector_id implies #[trigger] self.degree(x)
                                >= MAX_SECTOR_LINKS by {
                                assert(lo <= x <= hi);
                            }
                        }
                    }
                }
            }
            proof {
                if !below_cap {
                    assert(g_entry.degree(sector_id) >= MAX_SECTOR_LINKS);
                    assert(*self == g_entry);
                    assert(self.degree(sector_id) >= 1);
                }
                assert(linked_or_window_saturated(self, sector_id));
                assert forall|u: SectorId|
                    1 <= u < sector_id + 1 implies linked_or_window_saturated(self, u) by {
                }
            }
            sector_id += 1;
        }
    }

    /// After linking two sectors that sat below the cap, the graph is still
    /// symmetric, everything still respects the cap, no degree shrank, and
    /// sectors already linked or saturated stay that way.
    proof fn lemma_after_link(&self, g_before: &Galaxy, a: SectorId, b: SectorId)
        requires
            self.wf(),
            g_before.wf(),
            g_before.sym_links(),
            g_before.sector_count() == self.sector_count(),
            g_before.in_range(a),
            g_before.in_range(b),
            a != b,
            g_before.degree(a) < MAX_SECTOR_LINKS,
            g_before.degree(b) < MAX_SECTOR_LINKS,
            forall|u: SectorId|
                g_before.in_range(u) ==> #[trigger] g_before.degree(u) <= MAX_SECTOR_LINKS,
            self.links_of(a) == if g_before.linked(a, b) {
                g_before.links_of(a)
            } else {
                g_before.links_of(a).push(b)
            },
            self.links_of(b) == if g_before.linked(b, a) {
                g_before.links_of(b)
            } else {
                g_before.links_of(b).push(a)
            },
            forall|s: int|
                0 <= s < g_before.sector_count() && s != a - 1 && s != b - 1
                    ==> self.spec_sectors()[s] == g_before.spec_sectors()[s],
            forall|x: SectorId, y: SectorId|
                #[trigger] g_before.linked(x, y) ==> self.linked(x, y),
            forall|x: SectorId, y: SectorId|
                #[trigger] self.linked(x, y) ==> g_before.linked(x, y) || (x == a && y == b) || (x
                    == b && y == a),
            self.linked(a, b),
            self.linked(b, a),
        ensures
            self.sym_links(),
            forall|u: SectorId| self.in_range(u) ==> #[trigger] self.degree(u) <= MAX_SECTOR_LINKS,
            forall|u: SectorId| self.in_range(u) ==> #[trigger] g_before.degree(u) <= self.degree(u),
            forall|u: SectorId|
                g_before.in_range(u) && linked_or_window_saturated(g_before, u)
                    ==> linked_or_window_saturated(self, u),
    {
        assert forall|x: SectorId, y: SectorId| #[trigger] self.linked(x, y) implies self.linked(
            y,
            x,
        ) by {
            if g_before.linked(x, y) {
                assert(g_before.linked(y, x));
            }
        }
        assert forall|u: SectorId|
            self.in_range(u) implies #[trigger] self.degree(u) <= MAX_SECTOR_LINKS
            && g_before.degree(u) <= self.degree(u) by {
            if u != a && u != b {
                assert(self.spec_sectors()[u - 1] == g_before.spec_sectors()[u - 1]);
                assert(self.links_of(u) == g_before.links_of(u));
                assert(g_before.in_range(u));
                assert(g_before.degree(u) <= MAX_SECTOR_LINKS);
            }
        }
        assert forall|u: SectorId|
            g_before.in_range(u) && linked_or_window_saturated(g_before, u) implies (
        linked_or_window_saturated(self, u)) by {
            lemma_saturation_monotone(g_before, self, u);
        }
    }

    /// Builds a complete conventional galaxy: `sector_count` sectors with
    /// sector 1 as the root, randomized local links under the cap, repaired
    /// connectivity, eccentricity bounded by `DISTANCE_LIMIT` through
    /// one-way escape links, and one port per `PORT_RATIO` sectors placed at
    /// least `MIN_PORT_DISTANCE` jumps from the root.
    ///
    /// The boolean of the result reports whether connectivity repair stayed
    /// within the link cap (it practically always does; see
    /// `repair_connectivity`). When it holds, only sectors that gained an
    /// escape link to the root exceed the cap, by exactly that one link.
    pub fn new_conventional_galaxy(
        galaxy_id: GalaxyId,
        galaxy_name: String,
        sector_count: usize,
    ) -> (r: (Galaxy, bool))
        requires
            1 <= sector_count,
            sector_count <= usize::MAX - 2 * LINK_WINDOW - 1,
        ensures
            r.0.wf(),
            r.0.sector_count() == sector_count,
            r.0.spec_galaxy_id() == galaxy_id,
            r.0.spec_galaxy_name() == galaxy_name@,
            forall|s: SectorId| r.0.in_range(s) ==> reaches(&r.0, ROOT_SECTOR_ID, s),
            forall|s: SectorId|
                r.0.in_range(s) ==> reaches_within(
                    &r.0,
                    s,
                    ROOT_SECTOR_ID,
                    DISTANCE_LIMIT as nat,
                ),
            forall|s: SectorId|
                r.0.in_range(s) && #[trigger] r.0.ported(s) ==> !reaches_within(
                    &r.0,
                    s,
                    ROOT_SECTOR_ID,
                    (MIN_PORT_DISTANCE - 1) as nat,
                ),
            r.0.spec_ports().len() <= sector_count as int / PORT_RATIO as int,
            r.0.spec_ports().len() < sector_count as int / PORT_RATIO as int ==> forall|s: SectorId|
                r.0.in_range(s) ==> r.0.ported(s) || reaches_within(
                    &r.0,
                    s,
                    ROOT_SECTOR_ID,
                    (MIN_PORT_DISTANCE - 1) as nat,
                ),
            r.1 ==> forall|s: SectorId|
                r.0.in_range(s) ==> #[trigger] r.0.degree(s) <= MAX_SECTOR_LINKS || (r.0.degree(s)
                    <= MAX_SECTOR_LINKS + 1 && r.0.linked(s, ROOT_SECTOR_ID)),
    {
        let mut galaxy = Galaxy::new(galaxy_id, galaxy_name);
        let mut created: usize = 0;
        while created < sector_count
            invariant
                galaxy.wf(),
                sector_count <= usize::MAX - 2 * LINK_WINDOW - 1,
                0 <= created <= sector_count,
                galaxy.sector_count() == created,
                galaxy.spec_ports().len() == 0,
                galaxy.spec_galaxy_id() == galaxy_id,
                galaxy.spec_galaxy_name() == galaxy_name@,
                forall|u: SectorId|
                    galaxy.in_range(u) ==> #[trigger] galaxy.links_of(u) =~= Seq::<
                        SectorId,
                    >::empty(),
                forall|s: int|
                    0 <= s < created ==> (#[trigger] galaxy.spec_sectors()[s]).port_id is None,
            decreases sector_count - created,
        {
            let ghost g_prev = galaxy;
            let id = galaxy.add_sector();
            created += 1;
            proof {
                assert forall|u: SectorId|
                    galaxy.in_range(u) implies #[trigger] galaxy.links_of(u) =~= Seq::<
                    SectorId,
                >::empty() by {
                    if u != id {
                        assert(galaxy.spec_sectors()[u - 1] == g_prev.spec_sectors()[u - 1]);
                        assert(g_prev.links_of(u) =~= Seq::<SectorId>::empty());
                    }
                }
            }
        }
        proof {
            assert forall|a: SectorId, b: SectorId| #[trigger] galaxy.linked(a, b) implies galaxy.linked(
                b,
                a,
            ) by {
                assert(galaxy.links_of(a) =~= Seq::<SectorId>::empty());
            }
            assert forall|u: SectorId|
                galaxy.in_range(u) implies #[trigger] galaxy.degree(u) <= MAX_SECTOR_LINKS by {
                assert(galaxy.links_of(u) =~= Seq::<SectorId>::empty());
            }
        }
        galaxy.randomize_links();
        let ghost g_rand = galaxy;
        let capped_ok = galaxy.repair_connectivity();
        let ghost g_repaired = galaxy;
        let d = galaxy.bound_eccentricity(DISTANCE_LIMIT);
        let ghost g_bounded = galaxy;
        let port_quota = sector_count / PORT_RATIO;
        let placed = galaxy.place_ports(&d, port_quota);
        proof {
            // Port placement leaves every link untouched, so reachability
            // facts and distance consistency carry over unchanged.
            assert forall|a: SectorId, b: SectorId| #[trigger] g_bounded.linked(a, b) implies galaxy.linked(
                a,
                b,
            ) by {
                assert(galaxy.links_of(a) == g_bounded.links_of(a));
            }
            assert forall|a: SectorId, b: SectorId| #[trigger] galaxy.linked(a, b) implies g_bounded.linked(
                a,
                b,
            ) by {
                if galaxy.in_range(a) {
                    assert(galaxy.links_of(a) == g_bounded.links_of(a));
                }
            }
            assert(g_bounded.links_subset_of(&galaxy));
            assert(galaxy.links_subset_of(&g_bounded));
            assert forall|s: SectorId| galaxy.in_range(s) implies reaches(
                &galaxy,
                ROOT_SECTOR_ID,
                s,
            ) && reaches_within(&galaxy, s, ROOT_SECTOR_ID, DISTANCE_LIMIT as nat) by {
                assert(g_bounded.in_range(s));
                assert(reaches(&g_bounded, ROOT_SECTOR_ID, s));
                lemma_reaches_mono(&g_bounded, &galaxy, ROOT_SECTOR_ID, s);
                assert(reaches_within(&g_bounded, s, ROOT_SECTOR_ID, d@[s as int] as nat));
                lemma_reaches_within_widen(
                    &g_bounded,
                    s,
                    ROOT_SECTOR_ID,
                    d@[s as int] as nat,
                    DISTANCE_LIMIT as nat,
                );
                lemma_reaches_within_mono(
                    &g_bounded,
                    &galaxy,
                    s,
                    ROOT_SECTOR_ID,
                    DISTANCE_LIMIT as nat,
                );
            }
            assert forall|a: SectorId, j: int|
                #![trigger galaxy.links_of(a)[j]]
                galaxy.in_range(a) && 0 <= j < galaxy.links_of(a).len() implies d@[a as int]
                <= d@[galaxy.links_of(a)[j] as int] + 1 by {
                assert(galaxy.links_of(a) == g_bounded.links_of(a));
                assert(d@[a as int] <= d@[g_bounded.links_of(a)[j] as int] + 1);
            }
            assert(dist_consistent(&galaxy, d@));
            // A ported sector records distance at least `MIN_PORT_DISTANCE`,
            // and the consistent table makes that a true lower bound on
            // every walk to the root.
            assert forall|s: SectorId|
                galaxy.in_range(s) && #[trigger] galaxy.ported(s) implies !reaches_within(
                &galaxy,
                s,
                ROOT_SECTOR_ID,
                (MIN_PORT_DISTANCE - 1) as nat,
            ) by {
                assert(!g_repaired.ported(s));
                assert(d@[s as int] >= MIN_PORT_DISTANCE);
                if reaches_within(&galaxy, s, ROOT_SECTOR_ID, (MIN_PORT_DISTANCE - 1) as nat) {
                    let p = choose|p: Seq<SectorId>|
                        is_path(&galaxy, p, s, ROOT_SECTOR_ID) && p.len() <= (MIN_PORT_DISTANCE
                            - 1) + 1;
                    lemma_consistent_dist_lower_bound(&galaxy, d@, p, s, ROOT_SECTOR_ID);
                    assert(d@[ROOT_SECTOR_ID as int] == 0);
                    assert(false);
                }
            }
            // Falling short of the quota means no eligible site was left.
            if placed < port_quota {
                assert forall|s: SectorId|
                    galaxy.in_range(s) implies galaxy.ported(s) || reaches_within(
                    &galaxy,
                    s,
                    ROOT_SECTOR_ID,
                    (MIN_PORT_DISTANCE - 1) as nat,
                ) by {
                    if !galaxy.ported(s) {
                        assert(d@[s as int] < MIN_PORT_DISTANCE);
                        assert(reaches_within(&g_bounded, s, ROOT_SECTOR_ID, d@[s as int] as nat));
                        lemma_reaches_within_widen(
                            &g_bounded,
                            s,
                            ROOT_SECTOR_ID,
                            d@[s as int] as nat,
                            (MIN_PORT_DISTANCE - 1) as nat,
                        );
                        lemma_reaches_within_mono(
                            &g_bounded,
                            &galaxy,
                            s,
                            ROOT_SECTOR_ID,
                            (MIN_PORT_DISTANCE - 1) as nat,
                        );
                    }
                }
            }
            // The cap report: within the cap everywhere, except that an
            // escape link may add one to a sector that points at the root.
            if capped_ok {
                assert forall|s: SectorId|
                    galaxy.in_range(s) implies #[trigger] galaxy.degree(s) <= MAX_SECTOR_LINKS || (
                galaxy.degree(s) <= MAX_SECTOR_LINKS + 1 && galaxy.linked(s, ROOT_SECTOR_ID)) by {
                    assert(galaxy.links_of(s) == g_bounded.links_of(s));
                    assert(g_rand.in_range(s));
                    assert(g_rand.degree(s) <= MAX_SECTOR_LINKS);
                    assert(g_repaired.in_range(s));
                    assert(g_repaired.degree(s) <= MAX_SECTOR_LINKS || g_repaired.degree(s)
                        <= g_rand.degree(s));
                    assert(g_repaired.degree(s) <= MAX_SECTOR_LINKS);
                    if g_bounded.links_of(s) == g_repaired.links_of(s) {
                        assert(galaxy.degree(s) <= MAX_SECTOR_LINKS);
                    } else {
                        assert(g_bounded.links_of(s) == g_repaired.links_of(s).push(
                            ROOT_SECTOR_ID,
                        ));
                        assert(g_bounded.links_of(s)[g_bounded.links_of(s).len() - 1]
                            == ROOT_SECTOR_ID);
                        assert(g_bounded.links_of(s).contains(ROOT_SECTOR_ID));
                    }
                }
            }
        }
        (galaxy, capped_ok)
    }
}

} // verus!
