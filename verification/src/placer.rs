use vstd::prelude::*;
use crate::galaxy::{Galaxy, RANDOM_ATTEMPTS};
use crate::port::Port;
use crate::rng::random_in_range;
use crate::sector::SectorId;
use crate::text::usize_to_string;

verus! {

/// The minimum number of jumps a port-bearing sector must sit from the root.
pub const MIN_PORT_DISTANCE: usize = 3;

impl Galaxy {
    /// Creates a fresh port record and attaches it to the given unported
    /// sector. Port ids are dense, so the new id is one past the current
    /// count.
    fn attach_new_port(&mut self, sector_id: SectorId)
        requires
            old(self).wf(),
            old(self).in_range(sector_id),
            !old(self).ported(sector_id),
            old(self).spec_ports().len() < usize::MAX,
        ensures
            final(self).wf(),
            final(self).sector_count() == old(self).sector_count(),
            final(self).spec_galaxy_id() == old(self).spec_galaxy_id(),
            final(self).spec_galaxy_name() == old(self).spec_galaxy_name(),
            final(self).spec_ports().len() == old(self).spec_ports().len() + 1,
            forall|p: int|
                0 <= p < old(self).spec_ports().len() ==> final(self).spec_ports()[p] == old(self).spec_ports()[p],
            final(self).ported(sector_id),
            final(self).port_of(sector_id) == Some((old(self).spec_ports().len() + 1) as usize),
            forall|s: int|
                0 <= s < old(self).sector_count() && s != sector_id - 1 ==> final(self).spec_sectors()[s] == old(self).spec_sectors()[s],
            forall|u: SectorId|
                final(self).in_range(u) ==> #[trigger] final(self).links_of(u) == old(self).links_of(u),
            forall|s: int|
                0 <= s < old(self).sector_count() ==> (#[trigger] final(self).spec_sectors()[s]).sector_id
                    == old(self).spec_sectors()[s].sector_id && final(self).spec_sectors()[s].planet_id
                    == old(self).spec_sectors()[s].planet_id,
    {
        let port_id = self.ports.len() + 1;
        let mut port_name = "Port ".to_owned();
        port_name.append(usize_to_string(port_id).as_str());
        self.ports.push(Port { port_id, port_name });
        let sector = &mut self.sectors[sector_id - 1];
        sector.port_id = Some(port_id);
        proof {
            assert forall|i: int| 0 <= i < self.sectors@.len() implies (
            #[trigger] self.sectors@[i]).wf(self.sector_count()) && self.sectors@[i].sector_id == i
                + 1 by {
                assert(old(self).spec_sectors()[i].wf(old(self).sector_count()));
            }
            assert forall|s1: int, s2: int|
                0 <= s1 < s2 < self.sectors@.len() && (#[trigger] self.sectors@[s1]).port_id
                    is Some && (#[trigger] self.sectors@[s2]).port_id is Some implies self.sectors@[s1].port_id
                != self.sectors@[s2].port_id by {
                if s1 != sector_id - 1 && s2 != sector_id - 1 {
                    assert(self.sectors@[s1] == old(self).spec_sectors()[s1]);
                    assert(self.sectors@[s2] == old(self).spec_sectors()[s2]);
                }
            }
        }
    }

    /// Scatters `port_count` ports onto sectors that carry none yet and
    /// whose recorded root distance in `d` is at least `MIN_PORT_DISTANCE`.
    /// Sites are drawn at random; after a bounded streak of failed draws the
    /// remainder is filled by a scan, so the call always returns. The result
    /// says how many ports were placed: it falls short of `port_count` only
    /// when no eligible sector is left.
    pub fn place_ports(&mut self, d: &Vec<usize>, port_count: usize) -> (placed: usize)
        requires
            old(self).wf(),
            old(self).sector_count() >= 1,
            old(self).sector_count() < usize::MAX,
            d@.len() == old(self).sector_count() + 1,
            old(self).spec_ports().len() + port_count <= usize::MAX,
        ensures
            final(self).wf(),
            final(self).sector_count() == old(self).sector_count(),
            final(self).spec_galaxy_id() == old(self).spec_galaxy_id(),
            final(self).spec_galaxy_name() == old(self).spec_galaxy_name(),
            placed <= port_count,
            final(self).spec_ports().len() == old(self).spec_ports().len() + placed,
            forall|u: SectorId|
                final(self).in_range(u) ==> #[trigger] final(self).links_of(u) == old(self).links_of(u),
            forall|s: int|
                0 <= s < old(self).sector_count() ==> (#[trigger] final(self).spec_sectors()[s]).sector_id
                    == old(self).spec_sectors()[s].sector_id && final(self).spec_sectors()[s].planet_id
                    == old(self).spec_sectors()[s].planet_id,
            forall|u: SectorId|
                final(self).in_range(u) && old(self).ported(u) ==> final(self).port_of(u) == old(self).port_of(u),
            forall|u: SectorId|
                final(self).in_range(u) && !old(self).ported(u) && #[trigger] final(self).ported(
                    u,
                ) ==> d@[u as int] >= MIN_PORT_DISTANCE,
            placed < port_count ==> forall|u: SectorId|
                final(self).in_range(u) ==> final(self).ported(u) || #[trigger] d@[u as int]
                    < MIN_PORT_DISTANCE,
    {
        let count = self.sectors.len();
        let mut remaining = port_count;
        let mut exhausted = false;
        while remaining > 0 && !exhausted
            invariant
                self.wf(),
                count == self.sector_count(),
                count >= 1,
                count < usize::MAX,
                d@.len() == count + 1,
                remaining <= port_count,
                self.sector_count() == old(self).sector_count(),
                self.spec_galaxy_id() == old(self).spec_galaxy_id(),
                self.spec_galaxy_name() == old(self).spec_galaxy_name(),
                self.spec_ports().len() == old(self).spec_ports().len() + (port_count - remaining),
                forall|u: SectorId|
                    self.in_range(u) ==> #[trigger] self.links_of(u) == old(self).links_of(u),
                forall|s: int|
                    0 <= s < old(self).sector_count() ==> (#[trigger] self.spec_sectors()[s]).sector_id
                        == old(self).spec_sectors()[s].sector_id && self.spec_sectors()[s].planet_id
                        == old(self).spec_sectors()[s].planet_id,
                forall|u: SectorId|
                    self.in_range(u) && old(self).ported(u) ==> self.port_of(u) == old(self).port_of(u),
                forall|u: SectorId|
                    self.in_range(u) && !old(self).ported(u) && #[trigger] self.ported(u)
                        ==> d@[u as int] >= MIN_PORT_DISTANCE,
                old(self).spec_ports().len() + port_count <= usize::MAX,
            decreases remaining, (if exhausted {
                0int
            } else {
                1int
            }),
        {
            let mut attempt: usize = 0;
            let mut found = false;
            while attempt < RANDOM_ATTEMPTS && !found
                invariant
                    self.wf(),
                    count == self.sector_count(),
                    count >= 1,
                    count < usize::MAX,
                    d@.len() == count + 1,
                    remaining <= port_count,
                    remaining > 0,
                    attempt <= RANDOM_ATTEMPTS,
                    self.sector_count() == old(self).sector_count(),
                    self.spec_galaxy_id() == old(self).spec_galaxy_id(),
                    self.spec_galaxy_name() == old(self).spec_galaxy_name(),
                    !found ==> self.spec_ports().len() == old(self).spec_ports().len() + (
                    port_count - remaining),
                    found ==> self.spec_ports().len() == old(self).spec_ports().len() + (
                    port_count - remaining) + 1,
                    forall|u: SectorId|
                        self.in_range(u) ==> #[trigger] self.links_of(u) == old(self).links_of(u),
                    forall|s: int|
                        0 <= s < old(self).sector_count() ==> (#[trigger] self.spec_sectors()[s]).sector_id
                            == old(self).spec_sectors()[s].sector_id && self.spec_sectors()[s].planet_id
                            == old(self).spec_sectors()[s].planet_id,
                    forall|u: SectorId|
                        self.in_range(u) && old(self).ported(u) ==> self.port_of(u) == old(self).port_of(u),
                    forall|u: SectorId|
                        self.in_range(u) && !old(self).ported(u) && #[trigger] self.ported(u)
                            ==> d@[u as int] >= MIN_PORT_DISTANCE,
                    old(self).spec_ports().len() + port_count <= usize::MAX,
                decreases RANDOM_ATTEMPTS - attempt + (if found {
                    0int
                } else {
                    1int
                }),
            {
                let site = random_in_range(1, count + 1);
                if !self.sector_at(site).has_port() && d[site] >= MIN_PORT_DISTANCE {
                    let ghost g_pre = *self;
                    self.attach_new_port(site);
                    found = true;
                    proof {
                        assert forall|u: SectorId|
                            self.in_range(u) && old(self).ported(u) implies self.port_of(u) == old(self).port_of(u) by {
                            if u != site {
                                assert(self.spec_sectors()[u - 1] == g_pre.spec_sectors()[u - 1]);
                            }
                        }
                        assert forall|u: SectorId|
                            self.in_range(u) && !old(self).ported(u) && #[trigger] self.ported(u)
                            implies d@[u as int] >= MIN_PORT_DISTANCE by {
                            if u != site {
                                assert(self.spec_sectors()[u - 1] == g_pre.spec_sectors()[u - 1]);
                                assert(g_pre.ported(u));
                                assert(d@[u as int] >= MIN_PORT_DISTANCE);
                            }
                        }
                    }
                }
                attempt += 1;
            }
            if found {
                remaining -= 1;
            } else {
                exhausted = true;
            }
        }

        // Deterministic completion: sweep the arena for whatever eligible
        // sites remain.
        let mut site: usize = 1;
        while site <= count && remaining > 0
            invariant
                self.wf(),
                count == self.sector_count(),
                count >= 1,
                count < usize::MAX,
                d@.len() == count + 1,
                1 <= site <= count + 1,
                remaining <= port_count,
                self.sector_count() == old(self).sector_count(),
                self.spec_galaxy_id() == old(self).spec_galaxy_id(),
                self.spec_galaxy_name() == old(self).spec_galaxy_name(),
                self.spec_ports().len() == old(self).spec_ports().len() + (port_count - remaining),
                forall|u: SectorId|
                    self.in_range(u) ==> #[trigger] self.links_of(u) == old(self).links_of(u),
                forall|s: int|
                    0 <= s < old(self).sector_count() ==> (#[trigger] self.spec_sectors()[s]).sector_id
                        == old(self).spec_sectors()[s].sector_id && self.spec_sectors()[s].planet_id
                        == old(self).spec_sectors()[s].planet_id,
                forall|u: SectorId|
                    self.in_range(u) && old(self).ported(u) ==> self.port_of(u) == old(self).port_of(u),
                forall|u: SectorId|
                    self.in_range(u) && !old(self).ported(u) && #[trigger] self.ported(u)
                        ==> d@[u as int] >= MIN_PORT_DISTANCE,
                remaining > 0 ==> forall|u: SectorId|
                    1 <= u < site ==> self.ported(u) || #[trigger] d@[u as int]
                        < MIN_PORT_DISTANCE,
                old(self).spec_ports().len() + port_count <= usize::MAX,
            decreases count + 1 - site,
        {
            if !self.sector_at(site).has_port() && d[site] >= MIN_PORT_DISTANCE {
                let ghost g_pre = *self;
                self.attach_new_port(site);
                remaining -= 1;
                proof {
                    assert forall|u: SectorId|
                        self.in_range(u) && old(self).ported(u) implies self.port_of(u) == old(self).port_of(u) by {
                        if u != site {
                            assert(self.spec_sectors()[u - 1] == g_pre.spec_sectors()[u - 1]);
                        }
                    }
                    assert forall|u: SectorId|
                        self.in_range(u) && !old(self).ported(u) && #[trigger] self.ported(u)
                        implies d@[u as int] >= MIN_PORT_DISTANCE by {
                        if u != site {
                            assert(self.spec_sectors()[u - 1] == g_pre.spec_sectors()[u - 1]);
                            assert(g_pre.ported(u));
                            assert(d@[u as int] >= MIN_PORT_DISTANCE);
                        }
                    }
                    assert forall|u: SectorId|
                        remaining > 0 && 1 <= u < site + 1 implies self.ported(u)
                        || #[trigger] d@[u as int] < MIN_PORT_DISTANCE by {
                        if u < site {
                            if g_pre.ported(u) {
                                assert(self.spec_sectors()[u - 1] == g_pre.spec_sectors()[u - 1]
                                    || u == site);
                            }
                        }
                    }
                }
            }
            site += 1;
        }
        port_count - remaining
    }
}

} // verus!
