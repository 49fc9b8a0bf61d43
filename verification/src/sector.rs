use vstd::prelude::*;
use crate::galaxy::Galaxy;
use crate::planet::Planet;
use crate::text::{dec_digits, usize_to_string};

verus! {

/// Identifies a sector within a galaxy. Sector ids are dense and start at 1,
/// which is the designated root sector.
pub type SectorId = usize;

/// Identifies a port attached to a sector.
pub type PortId = usize;

/// Identifies a planet attached to a sector.
pub type PlanetId = usize;

/// The maximum number of links an ordinary sector may carry; only the one-way
/// escape links added by the eccentricity bounder may push a sector past it.
pub const MAX_SECTOR_LINKS: usize = 6;

/// A location in space, conceptually contained within a galaxy.
/// Sectors have no names, being identified only by their integer id.
/// A sector may contain a port and may contain a planet.
pub struct Sector {
    pub sector_id: SectorId,
    pub planet_id: Option<PlanetId>,
    pub port_id: Option<PortId>,
    pub sector_links: Vec<SectorId>,
}

impl Sector {
    /// Structural soundness of one sector inside a galaxy of `sector_count`
    /// sectors: the id is in range, every link target is a distinct other
    /// in-range sector, and no link points back at the sector itself.
    pub open spec fn wf(&self, sector_count: nat) -> bool {
        &&& 1 <= self.sector_id <= sector_count
        &&& forall|i: int|
            0 <= i < self.sector_links@.len() ==> 1 <= #[trigger] self.sector_links@[i]
                <= sector_count && self.sector_links@[i] != self.sector_id
        &&& forall|i: int, j: int|
            0 <= i < j < self.sector_links@.len() ==> self.sector_links@[i]
                != self.sector_links@[j]
    }

    /// Whether this sector records a link to `target`.
    pub open spec fn spec_linked_to(&self, target: SectorId) -> bool {
        self.sector_links@.contains(target)
    }

    pub fn new(sector_id: SectorId) -> (s: Sector)
        ensures
            s.sector_id == sector_id,
            s.planet_id is None,
            s.port_id is None,
            s.sector_links@ =~= Seq::<SectorId>::empty(),
    {
        Sector { sector_id, planet_id: None, port_id: None, sector_links: Vec::new() }
    }

    pub fn get_link_count(&self) -> (r: usize)
        ensures
            r == self.sector_links@.len(),
    {
        self.sector_links.len()
    }

    pub fn has_max_links(&self) -> (r: bool)
        ensures
            r == (self.sector_links@.len() >= MAX_SECTOR_LINKS),
    {
        self.sector_links.len() >= MAX_SECTOR_LINKS
    }

    pub fn has_planet(&self) -> (r: bool)
        ensures
            r == (self.planet_id is Some),
    {
        self.planet_id.is_some()
    }

    pub fn has_port(&self) -> (r: bool)
        ensures
            r == (self.port_id is Some),
    {
        self.port_id.is_some()
    }

    /// Whether this sector records a link to `target`.
    pub fn linked_to(&self, target: SectorId) -> (r: bool)
        ensures
            r == self.spec_linked_to(target),
    {
        let n = self.sector_links.len();
        let mut i: usize = 0;
        while i < n
            invariant
                n == self.sector_links@.len(),
                0 <= i <= n,
                forall|k: int| 0 <= k < i ==> self.sector_links@[k] != target,
            decreases n - i,
        {
            if self.sector_links[i] == target {
                return true;
            }
            i += 1;
        }
        false
    }

    /// Records a one-way link from this sector to `target`; recording an
    /// already-present link changes nothing.
    pub fn insert_link_to(&mut self, target: SectorId)
        requires
            target != old(self).sector_id,
        ensures
            final(self).sector_id == old(self).sector_id,
            final(self).planet_id == old(self).planet_id,
            final(self).port_id == old(self).port_id,
            final(self).sector_links@ == if old(self).spec_linked_to(target) {
                old(self).sector_links@
            } else {
                old(self).sector_links@.push(target)
            },
    {
        if !self.linked_to(target) {
            self.sector_links.push(target);
        }
    }

    /// Describes the sector as lines of text for a player: its id, its
    /// links, and the names of its planet and port where present.
    pub fn get_description(&self, galaxy: &Galaxy, planets: &Vec<Planet>) -> (r: Vec<String>)
        requires
            galaxy.wf(),
            self.port_id matches Some(p) ==> 1 <= p <= galaxy.spec_ports().len(),
            self.planet_id matches Some(pid) ==> exists|i: int|
                0 <= i < planets@.len() && (#[trigger] planets@[i]).planet_id == pid,
        ensures
            r@.len() == 2 + (if self.planet_id is Some {
                1int
            } else {
                0int
            }) + (if self.port_id is Some {
                1int
            } else {
                0int
            }),
            r@[0]@ == "Sector "@ + dec_digits(self.sector_id as nat),
            r@[1]@ == "  Links to: "@ + joined_ids(self.sector_links@),
            self.planet_id matches Some(pid) ==> exists|i: int|
                0 <= i < planets@.len() && (#[trigger] planets@[i]).planet_id == pid && (forall|
                    j: int,
                |
                    0 <= j < i ==> (#[trigger] planets@[j]).planet_id != pid) && r@[2]@
                    == "  Planet: "@ + planets@[i].planet_name@,
            self.port_id matches Some(p) ==> r@[r@.len() - 1]@ == "  Port: "@
                + galaxy.spec_ports()[p - 1].port_name@,
    {
        let mut r: Vec<String> = Vec::new();
        let mut head = "Sector ".to_owned();
        head.append(usize_to_string(self.sector_id).as_str());
        r.push(head);
        let mut links_line = "  Links to: ".to_owned();
        links_line.append(join_link_ids(&self.sector_links).as_str());
        r.push(links_line);
        if self.planet_id.is_some() {
            let planet = crate::planet::get_planet(planets, self.planet_id.unwrap());
            let mut planet_line = "  Planet: ".to_owned();
            planet_line.append(planet.unwrap().planet_name.as_str());
            r.push(planet_line);
        }
        if self.port_id.is_some() {
            let port = galaxy.port_record(self.port_id.unwrap());
            let mut port_line = "  Port: ".to_owned();
            port_line.append(port.unwrap().port_name.as_str());
            r.push(port_line);
        }
        r
    }

    pub fn clone(&self) -> (s: Sector)
        ensures
            s.sector_id == self.sector_id,
            s.planet_id == self.planet_id,
            s.port_id == self.port_id,
            s.sector_links@ == self.sector_links@,
    {
        let mut links: Vec<SectorId> = Vec::new();
        let n = self.sector_links.len();
        let mut i: usize = 0;
        while i < n
            invariant
                n == self.sector_links@.len(),
                0 <= i <= n,
                links@ =~= self.sector_links@.subrange(0, i as int),
            decreases n - i,
        {
            links.push(self.sector_links[i]);
            i += 1;
        }
        proof {
            assert(links@ =~= self.sector_links@);
        }
        Sector {
            sector_id: self.sector_id,
            planet_id: self.planet_id,
            port_id: self.port_id,
            sector_links: links,
        }
    }
}

/// The ids of `l` rendered in decimal and joined with single spaces.
pub open spec fn joined_ids(l: Seq<SectorId>) -> Seq<char>
    decreases l.len(),
{
    if l.len() == 0 {
        Seq::empty()
    } else if l.len() == 1 {
        dec_digits(l[0] as nat)
    } else {
        joined_ids(l.drop_last()) + seq![' '] + dec_digits(l.last() as nat)
    }
}

fn join_link_ids(l: &Vec<SectorId>) -> (s: String)
    ensures
        s@ == joined_ids(l@),
{
    let n = l.len();
    let mut s = String::new();
    let mut i: usize = 0;
    while i < n
        invariant
            n == l@.len(),
            0 <= i <= n,
            s@ == joined_ids(l@.subrange(0, i as int)),
        decreases n - i,
    {
        if i > 0 {
            s.append(" ");
        }
        s.append(usize_to_string(l[i]).as_str());
        i += 1;
        proof {
            reveal_strlit(" ");
            let pre = l@.subrange(0, i - 1);
            let cur = l@.subrange(0, i as int);
            assert(cur.drop_last() =~= pre);
            assert(cur.last() == l@[i - 1]);
            if i == 1 {
                assert(s@ =~= joined_ids(cur));
            } else {
                assert(" "@ =~= seq![' ']);
                assert(s@ =~= joined_ids(cur));
            }
        }
    }
    proof {
        assert(l@.subrange(0, n as int) =~= l@);
    }
    s
}

/// Appends a fresh, unlinked sector to the galaxy and returns its id.
pub fn create_sector(galaxy: &mut Galaxy) -> (id: SectorId)
    requires
        old(galaxy).wf(),
        old(galaxy).sector_count() < usize::MAX,
    ensures
        final(galaxy).wf(),
        id == old(galaxy).sector_count() + 1,
        final(galaxy).sector_count() == old(galaxy).sector_count() + 1,
        final(galaxy).spec_sectors()[id - 1].sector_id == id,
        final(galaxy).spec_sectors()[id - 1].planet_id is None,
        final(galaxy).spec_sectors()[id - 1].port_id is None,
        final(galaxy).links_of(id) =~= Seq::<SectorId>::empty(),
        forall|s: int|
            0 <= s < old(galaxy).sector_count() ==> final(galaxy).spec_sectors()[s] == old(galaxy).spec_sectors()[s],
        final(galaxy).spec_ports() == old(galaxy).spec_ports(),
        final(galaxy).spec_galaxy_id() == old(galaxy).spec_galaxy_id(),
        final(galaxy).spec_galaxy_name() == old(galaxy).spec_galaxy_name(),
{
    galaxy.add_sector()
}

/// Looks up a sector by id, returning a copy of its record, or nothing when
/// the id is unknown; that outcome is an ordinary query result, not an
/// error.
pub fn get_sector(galaxy: &Galaxy, sector_id: SectorId) -> (r: Option<Sector>)
    requires
        galaxy.wf(),
    ensures
        match r {
            Some(s) => galaxy.in_range(sector_id) && s.sector_id == sector_id && s.planet_id
                == galaxy.spec_sectors()[sector_id - 1].planet_id && s.port_id == galaxy.port_of(
                sector_id,
            ) && s.sector_links@ == galaxy.links_of(sector_id),
            None => !galaxy.in_range(sector_id),
        },
{
    if 1 <= sector_id && sector_id <= galaxy.num_sectors() {
        Some(galaxy.sector_at(sector_id).clone())
    } else {
        None
    }
}

/// Inserts a mutual link between two distinct sectors, both of which must
/// exist and sit below the link cap, as the generator guarantees for every
/// link it requests.
pub fn link_sectors(galaxy: &mut Galaxy, sector_id1: SectorId, sector_id2: SectorId)
    requires
        old(galaxy).wf(),
        old(galaxy).in_range(sector_id1),
        old(galaxy).in_range(sector_id2),
        sector_id1 != sector_id2,
        old(galaxy).degree(sector_id1) < MAX_SECTOR_LINKS,
        old(galaxy).degree(sector_id2) < MAX_SECTOR_LINKS,
    ensures
        final(galaxy).wf(),
        final(galaxy).sector_count() == old(galaxy).sector_count(),
        final(galaxy).spec_ports() == old(galaxy).spec_ports(),
        final(galaxy).linked(sector_id1, sector_id2),
        final(galaxy).linked(sector_id2, sector_id1),
        final(galaxy).degree(sector_id1) <= MAX_SECTOR_LINKS,
        final(galaxy).degree(sector_id2) <= MAX_SECTOR_LINKS,
        final(galaxy).links_of(sector_id1) == if old(galaxy).linked(sector_id1, sector_id2) {
            old(galaxy).links_of(sector_id1)
        } else {
            old(galaxy).links_of(sector_id1).push(sector_id2)
        },
        final(galaxy).links_of(sector_id2) == if old(galaxy).linked(sector_id2, sector_id1) {
            old(galaxy).links_of(sector_id2)
        } else {
            old(galaxy).links_of(sector_id2).push(sector_id1)
        },
        forall|s: int|
            0 <= s < old(galaxy).sector_count() && s != sector_id1 - 1 && s != sector_id2 - 1
                ==> final(galaxy).spec_sectors()[s] == old(galaxy).spec_sectors()[s],
        forall|x: SectorId, y: SectorId|
            #[trigger] old(galaxy).linked(x, y) ==> final(galaxy).linked(x, y),
        forall|x: SectorId, y: SectorId|
            #[trigger] final(galaxy).linked(x, y) ==> old(galaxy).linked(x, y) || (x == sector_id1
                && y == sector_id2) || (x == sector_id2 && y == sector_id1),
{
    galaxy.link_pair(sector_id1, sector_id2);
}

/// Records a planet on a sector; used while reconstructing a galaxy from
/// storage.
pub fn set_planet_id(galaxy: &mut Galaxy, sector_id: SectorId, planet_id: PlanetId)
    requires
        old(galaxy).wf(),
        old(galaxy).in_range(sector_id),
    ensures
        final(galaxy).wf(),
        final(galaxy).sector_count() == old(galaxy).sector_count(),
        final(galaxy).spec_ports() == old(galaxy).spec_ports(),
        final(galaxy).spec_sectors()[sector_id - 1].planet_id == Some(planet_id),
        final(galaxy).spec_sectors()[sector_id - 1].sector_id == old(galaxy).spec_sectors()[sector_id
            - 1].sector_id,
        final(galaxy).spec_sectors()[sector_id - 1].port_id == old(galaxy).spec_sectors()[sector_id
            - 1].port_id,
        final(galaxy).spec_sectors()[sector_id - 1].sector_links@ == old(galaxy).spec_sectors()[sector_id - 1].sector_links@,
        forall|s: int|
            0 <= s < old(galaxy).sector_count() && s != sector_id - 1 ==> final(galaxy).spec_sectors()[s] == old(galaxy).spec_sectors()[s],
{
    let sector = &mut galaxy.sectors[sector_id - 1];
    sector.planet_id = Some(planet_id);
    proof {
        assert forall|i: int| 0 <= i < galaxy.sectors@.len() implies (
        #[trigger] galaxy.sectors@[i]).wf(galaxy.sector_count()) && galaxy.sectors@[i].sector_id
            == i + 1 by {
            assert(old(galaxy).spec_sectors()[i].wf(old(galaxy).sector_count()));
        }
    }
}

/// Records a port on a sector; used while reconstructing a galaxy from
/// storage. The port must be a record of this galaxy that no other sector
/// holds, and the sector must not hold one yet.
pub fn set_sector_port_id(galaxy: &mut Galaxy, sector_id: SectorId, port_id: PortId)
    requires
        old(galaxy).wf(),
        old(galaxy).in_range(sector_id),
        !old(galaxy).ported(sector_id),
        1 <= port_id <= old(galaxy).spec_ports().len(),
        forall|s: SectorId|
            old(galaxy).in_range(s) ==> #[trigger] old(galaxy).port_of(s) != Some(port_id),
    ensures
        final(galaxy).wf(),
        final(galaxy).sector_count() == old(galaxy).sector_count(),
        final(galaxy).spec_ports() == old(galaxy).spec_ports(),
        final(galaxy).port_of(sector_id) == Some(port_id),
        final(galaxy).spec_sectors()[sector_id - 1].sector_id == old(galaxy).spec_sectors()[sector_id
            - 1].sector_id,
        final(galaxy).spec_sectors()[sector_id - 1].planet_id == old(galaxy).spec_sectors()[sector_id
            - 1].planet_id,
        final(galaxy).spec_sectors()[sector_id - 1].sector_links@ == old(galaxy).spec_sectors()[sector_id - 1].sector_links@,
        forall|s: int|
            0 <= s < old(galaxy).sector_count() && s != sector_id - 1 ==> final(galaxy).spec_sectors()[s] == old(galaxy).spec_sectors()[s],
{
    let sector = &mut galaxy.sectors[sector_id - 1];
    sector.port_id = Some(port_id);
    proof {
        assert forall|i: int| 0 <= i < galaxy.sectors@.len() implies (
        #[trigger] galaxy.sectors@[i]).wf(galaxy.sector_count()) && galaxy.sectors@[i].sector_id
            == i + 1 by {
            assert(old(galaxy).spec_sectors()[i].wf(old(galaxy).sector_count()));
        }
        assert forall|s1: int, s2: int|
            0 <= s1 < s2 < galaxy.sectors@.len() && (#[trigger] galaxy.sectors@[s1]).port_id
                is Some && (#[trigger] galaxy.sectors@[s2]).port_id is Some implies galaxy.sectors@[s1].port_id
            != galaxy.sectors@[s2].port_id by {
            if s1 != sector_id - 1 && s2 != sector_id - 1 {
                assert(galaxy.sectors@[s1] == old(galaxy).spec_sectors()[s1]);
                assert(galaxy.sectors@[s2] == old(galaxy).spec_sectors()[s2]);
            } else if s1 == sector_id - 1 {
                assert(old(galaxy).port_of((s2 + 1) as SectorId) != Some(port_id));
            } else {
                assert(old(galaxy).port_of((s1 + 1) as SectorId) != Some(port_id));
            }
        }
    }
}

} // verus!
