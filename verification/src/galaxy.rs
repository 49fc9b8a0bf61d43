use vstd::prelude::*;
use crate::port::Port;
use crate::sector::{Sector, SectorId, MAX_SECTOR_LINKS};

verus! {

use crate::sector::PortId;

pub type GalaxyId = usize;

/// The designated origin sector from which distances are measured.
pub const ROOT_SECTOR_ID: SectorId = 1;

/// No sector may end up farther than this many jumps from the root.
pub const DISTANCE_LIMIT: usize = 20;

/// Candidate link targets are drawn from the window of ids this far above or
/// below the source sector's id.
pub const LINK_WINDOW: usize = 10;

/// Roughly one sector per this many is allowed to remain a dead end.
pub const DEAD_END_RATIO: usize = 10;

/// One port is placed per this many sectors.
pub const PORT_RATIO: usize = 15;

/// How many random draws a selection loop spends before it falls back to a
/// deterministic scan, so that generation always terminates.
pub const RANDOM_ATTEMPTS: usize = 64;

/// A spatial graph of sectors, owned as a dense arena indexed by sector id:
/// the sector with id `i` lives at position `i - 1`. The galaxy also owns
/// every port record placed on its sectors.
pub struct Galaxy {
    pub galaxy_id: GalaxyId,
    pub galaxy_name: String,
    pub sectors: Vec<Sector>,
    pub ports: Vec<Port>,
}

/// No sector of a well-formed galaxy links to itself; since every phase of
/// generation keeps the galaxy well-formed, this holds before and after
/// repair alike.
pub proof fn lemma_no_self_links(g: &Galaxy)
    requires
        g.wf(),
    ensures
        forall|s: SectorId| !g.linked(s, s),
{
    assert forall|s: SectorId| !g.linked(s, s) by {
        if g.linked(s, s) {
            let j = choose|j: int| 0 <= j < g.links_of(s).len() && g.links_of(s)[j] == s;
            assert(g.spec_sectors()[s - 1].wf(g.sector_count()));
            assert(g.spec_sectors()[s - 1].sector_links@[j] != g.spec_sectors()[s - 1].sector_id);
        }
    }
}

impl Galaxy {
    pub open spec fn spec_sectors(&self) -> Seq<Sector> {
        self.sectors@
    }

    pub open spec fn spec_ports(&self) -> Seq<Port> {
        self.ports@
    }

    pub open spec fn spec_galaxy_id(&self) -> GalaxyId {
        self.galaxy_id
    }

    pub open spec fn spec_galaxy_name(&self) -> Seq<char> {
        self.galaxy_name@
    }

    pub open spec fn sector_count(&self) -> nat {
        self.sectors@.len()
    }

    pub open spec fn in_range(&self, s: SectorId) -> bool {
        1 <= s <= self.sector_count()
    }

    /// The link targets recorded by sector `s`.
    pub open spec fn links_of(&self, s: SectorId) -> Seq<SectorId>
        recommends
            self.in_range(s),
    {
        self.sectors@[s - 1].sector_links@
    }

    /// Whether the galaxy holds a (directed) link from `a` to `b`.
    pub open spec fn linked(&self, a: SectorId, b: SectorId) -> bool {
        self.in_range(a) && self.links_of(a).contains(b)
    }

    pub open spec fn degree(&self, s: SectorId) -> nat
        recommends
            self.in_range(s),
    {
        self.links_of(s).len()
    }

    pub open spec fn port_of(&self, s: SectorId) -> Option<PortId>
        recommends
            self.in_range(s),
    {
        self.sectors@[s - 1].port_id
    }

    pub open spec fn ported(&self, s: SectorId) -> bool
        recommends
            self.in_range(s),
    {
        self.port_of(s) is Some
    }

    /// Every sector sits at the arena slot matching its id and is itself
    /// well-formed: in particular no sector links to itself.
    pub open spec fn sectors_wf(&self) -> bool {
        forall|i: int|
            0 <= i < self.sectors@.len() ==> (#[trigger] self.sectors@[i]).wf(self.sector_count())
                && self.sectors@[i].sector_id == i + 1
    }

    /// Port records are dense (port id `p` at slot `p - 1`), every attached
    /// port id refers to a record, and no two sectors share a port.
    pub open spec fn ports_wf(&self) -> bool {
        &&& forall|i: int|
            0 <= i < self.ports@.len() ==> (#[trigger] self.ports@[i]).port_id == i + 1
        &&& forall|s: int|
            0 <= s < self.sectors@.len() ==> ((#[trigger] self.sectors@[s]).port_id matches Some(
                p,
            ) ==> 1 <= p <= self.ports@.len())
        &&& forall|s1: int, s2: int|
            0 <= s1 < s2 < self.sectors@.len() && (#[trigger] self.sectors@[s1]).port_id is Some
                && (#[trigger] self.sectors@[s2]).port_id is Some ==> self.sectors@[s1].port_id
                != self.sectors@[s2].port_id
    }

    pub open spec fn wf(&self) -> bool {
        self.sectors_wf() && self.ports_wf()
    }

    /// Every link is mutual. This holds after topology building and
    /// connectivity repair; the eccentricity bounder then weakens it to
    /// `sym_links_except_root`.
    pub open spec fn sym_links(&self) -> bool {
        forall|a: SectorId, b: SectorId| #[trigger] self.linked(a, b) ==> self.linked(b, a)
    }

    /// Every link is mutual except possibly one-way escape links into the
    /// root sector.
    pub open spec fn sym_links_except_root(&self) -> bool {
        forall|a: SectorId, b: SectorId|
            #[trigger] self.linked(a, b) && b != ROOT_SECTOR_ID ==> self.linked(b, a)
    }

    /// `other` carries every link this galaxy carries (over the same sector
    /// set); used to transport reachability facts along the generation
    /// pipeline, which only ever adds links.
    pub open spec fn links_subset_of(&self, other: &Galaxy) -> bool {
        &&& self.sector_count() == other.sector_count()
        &&& forall|a: SectorId, b: SectorId| #[trigger] self.linked(a, b) ==> other.linked(a, b)
    }

    pub fn new(galaxy_id: GalaxyId, galaxy_name: String) -> (g: Galaxy)
        ensures
            g.wf(),
            g.spec_galaxy_id() == galaxy_id,
            g.spec_galaxy_name() == galaxy_name@,
            g.sector_count() == 0,
            g.spec_ports().len() == 0,
    {
        Galaxy { galaxy_id, galaxy_name, sectors: Vec::new(), ports: Vec::new() }
    }

    pub fn get_galaxy_id(&self) -> (r: GalaxyId)
        ensures
            r == self.spec_galaxy_id(),
    {
        self.galaxy_id
    }

    pub fn get_galaxy_name(&self) -> (r: &String)
        ensures
            r@ == self.spec_galaxy_name(),
    {
        &self.galaxy_name
    }

    pub fn num_sectors(&self) -> (r: usize)
        ensures
            r == self.sector_count(),
    {
        self.sectors.len()
    }

    pub fn num_ports(&self) -> (r: usize)
        ensures
            r == self.spec_ports().len(),
    {
        self.ports.len()
    }

    /// Appends a fresh, unlinked sector and returns its id.
    pub fn add_sector(&mut self) -> (id: SectorId)
        requires
            old(self).wf(),
            old(self).sector_count() < usize::MAX,
        ensures
            final(self).wf(),
            id == old(self).sector_count() + 1,
            final(self).sector_count() == old(self).sector_count() + 1,
            final(self).spec_sectors() == old(self).spec_sectors().push(
                final(self).spec_sectors()[id - 1],
            ),
            final(self).spec_sectors()[id - 1].sector_id == id,
            final(self).spec_sectors()[id - 1].planet_id is None,
            final(self).spec_sectors()[id - 1].port_id is None,
            final(self).links_of(id) =~= Seq::<SectorId>::empty(),
            forall|s: int|
                0 <= s < old(self).sector_count() ==> final(self).spec_sectors()[s] == old(self).spec_sectors()[s],
            final(self).spec_ports() == old(self).spec_ports(),
            final(self).spec_galaxy_id() == old(self).spec_galaxy_id(),
            final(self).spec_galaxy_name() == old(self).spec_galaxy_name(),
    {
        let id = self.sectors.len() + 1;
        let sector = Sector::new(id);
        self.sectors.push(sector);
        proof {
            assert forall|i: int| 0 <= i < self.sectors@.len() implies (
            #[trigger] self.sectors@[i]).wf(self.sector_count()) && self.sectors@[i].sector_id == i
                + 1 by {
                if i < self.sectors@.len() - 1 {
                    assert(old(self).spec_sectors()[i].wf(old(self).sector_count()));
                }
            }
        }
        id
    }

    /// Borrows the sector with id `s`.
    pub fn sector_at(&self, s: SectorId) -> (r: &Sector)
        requires
            self.wf(),
            self.in_range(s),
        ensures
            *r == self.spec_sectors()[s - 1],
    {
        &self.sectors[s - 1]
    }

    /// Looks up a port record by id, returning a copy.
    pub fn port_record(&self, port_id: PortId) -> (r: Option<Port>)
        requires
            self.wf(),
        ensures
            match r {
                Some(p) => 1 <= port_id <= self.spec_ports().len() && p.port_id == port_id
                    && p.port_name@ == self.spec_ports()[port_id - 1].port_name@,
                None => !(1 <= port_id <= self.spec_ports().len()),
            },
    {
        if 1 <= port_id && port_id <= self.ports.len() {
            Some(self.ports[port_id - 1].clone())
        } else {
            None
        }
    }

    /// Inserts a one-way link from `a` to `b`: only `a`'s links change, and
    /// only if `b` was not among them. The eccentricity bounder uses this for
    /// escape links back to the root.
    pub(crate) fn add_one_way_link(&mut self, a: SectorId, b: SectorId)
        requires
            old(self).wf(),
            old(self).in_range(a),
            old(self).in_range(b),
            a != b,
        ensures
            final(self).wf(),
            final(self).sector_count() == old(self).sector_count(),
            final(self).spec_ports() == old(self).spec_ports(),
            final(self).spec_galaxy_id() == old(self).spec_galaxy_id(),
            final(self).spec_galaxy_name() == old(self).spec_galaxy_name(),
            final(self).linked(a, b),
            final(self).links_of(a) == if old(self).linked(a, b) {
                old(self).links_of(a)
            } else {
                old(self).links_of(a).push(b)
            },
            forall|s: int|
                0 <= s < old(self).sector_count() && s != a - 1 ==> final(self).spec_sectors()[s]
                    == old(self).spec_sectors()[s],
            forall|s: int|
                0 <= s < old(self).sector_count() ==> (#[trigger] final(self).spec_sectors()[s]).sector_id
                    == old(self).spec_sectors()[s].sector_id && final(self).spec_sectors()[s].port_id
                    == old(self).spec_sectors()[s].port_id && final(self).spec_sectors()[s].planet_id
                    == old(self).spec_sectors()[s].planet_id,
            forall|x: SectorId, y: SectorId|
                #[trigger] old(self).linked(x, y) ==> final(self).linked(x, y),
            forall|x: SectorId, y: SectorId|
                #[trigger] final(self).linked(x, y) ==> old(self).linked(x, y) || (x == a && y == b),
    {
        let sector_a = &mut self.sectors[a - 1];
        sector_a.insert_link_to(b);
        proof {
            broadcast use vstd::seq_lib::lemma_seq_contains_after_push;

            assert(self.links_of(a) == if old(self).linked(a, b) {
                old(self).links_of(a)
            } else {
                old(self).links_of(a).push(b)
            });
            assert(self.links_of(a).contains(b));
            assert forall|i: int| 0 <= i < self.sectors@.len() implies (
            #[trigger] self.sectors@[i]).wf(self.sector_count()) && self.sectors@[i].sector_id == i
                + 1 by {
                assert(old(self).spec_sectors()[i].wf(old(self).sector_count()));
            }
            assert forall|x: SectorId, y: SectorId| #[trigger] self.linked(x, y) implies (
            old(self).linked(x, y) || (x == a && y == b)) by {
                if x != a {
                    assert(self.links_of(x) == old(self).links_of(x));
                }
            }
            assert forall|x: SectorId, y: SectorId| #[trigger] old(self).linked(x, y) implies self.linked(
                x,
                y,
            ) by {
                if x != a {
                    assert(self.links_of(x) == old(self).links_of(x));
                }
            }
        }
    }

    /// Inserts a mutual link between two distinct sectors; if the pair is
    /// already linked the galaxy is unchanged. Only the links of `a` and `b`
    /// are touched, and each list grows by at most one entry, the other's
    /// id.
    pub fn link_pair(&mut self, a: SectorId, b: SectorId)
        requires
            old(self).wf(),
            old(self).in_range(a),
            old(self).in_range(b),
            a != b,
        ensures
            final(self).wf(),
            final(self).sector_count() == old(self).sector_count(),
            final(self).spec_ports() == old(self).spec_ports(),
            final(self).spec_galaxy_id() == old(self).spec_galaxy_id(),
            final(self).spec_galaxy_name() == old(self).spec_galaxy_name(),
            final(self).linked(a, b) && final(self).linked(b, a),
            final(self).links_of(a) == if old(self).linked(a, b) {
                old(self).links_of(a)
            } else {
                old(self).links_of(a).push(b)
            },
            final(self).links_of(b) == if old(self).linked(b, a) {
                old(self).links_of(b)
            } else {
                old(self).links_of(b).push(a)
            },
            forall|s: int|
                0 <= s < old(self).sector_count() && s != a - 1 && s != b - 1 ==> final(self).spec_sectors()[s] == old(self).spec_sectors()[s],
            forall|s: int|
                0 <= s < old(self).sector_count() ==> (#[trigger] final(self).spec_sectors()[s]).sector_id
                    == old(self).spec_sectors()[s].sector_id && final(self).spec_sectors()[s].port_id
                    == old(self).spec_sectors()[s].port_id && final(self).spec_sectors()[s].planet_id
                    == old(self).spec_sectors()[s].planet_id,
            forall|x: SectorId, y: SectorId|
                #[trigger] old(self).linked(x, y) ==> final(self).linked(x, y),
            forall|x: SectorId, y: SectorId|
                #[trigger] final(self).linked(x, y) ==> old(self).linked(x, y) || (x == a && y == b)
                    || (x == b && y == a),
    {
        let sector_a = &mut self.sectors[a - 1];
        sector_a.insert_link_to(b);
        let sector_b = &mut self.sectors[b - 1];
        sector_b.insert_link_to(a);
        proof {
            broadcast use vstd::seq_lib::lemma_seq_contains_after_push;

            assert(self.links_of(a) == if old(self).linked(a, b) {
                old(self).links_of(a)
            } else {
                old(self).links_of(a).push(b)
            });
            assert(self.links_of(b) == if old(self).linked(b, a) {
                old(self).links_of(b)
            } else {
                old(self).links_of(b).push(a)
            });
            assert(self.links_of(a).contains(b));
            assert(self.links_of(b).contains(a));
            assert forall|i: int| 0 <= i < self.sectors@.len() implies (
            #[trigger] self.sectors@[i]).wf(self.sector_count()) && self.sectors@[i].sector_id == i
                + 1 by {
                assert(old(self).spec_sectors()[i].wf(old(self).sector_count()));
            }
            assert forall|x: SectorId, y: SectorId| #[trigger] old(self).linked(x, y) implies self.linked(
                x,
                y,
            ) by {
                if x != a && x != b {
                    assert(self.links_of(x) == old(self).links_of(x));
                }
            }
            assert forall|x: SectorId, y: SectorId| #[trigger] self.linked(x, y) implies (
            old(self).linked(x, y) || (x == a && y == b) || (x == b && y == a)) by {
                if x != a && x != b {
                    assert(self.links_of(x) == old(self).links_of(x));
                }
            }
        }
    }
}

} // verus!
