use vstd::prelude::*;

verus! {

use crate::sector::PlanetId;

/// A named planet attached to at most one sector.
pub struct Planet {
    pub planet_id: PlanetId,
    pub planet_name: String,
}

impl Planet {
    pub fn clone(&self) -> (p: Planet)
        ensures
            p.planet_id == self.planet_id,
            p.planet_name@ == self.planet_name@,
    {
        Planet { planet_id: self.planet_id, planet_name: self.planet_name.clone() }
    }
}

/// Looks up a planet by id, returning a copy of the first record that
/// carries it, or nothing when no record does.
pub fn get_planet(planets: &Vec<Planet>, planet_id: PlanetId) -> (r: Option<Planet>)
    ensures
        match r {
            Some(p) => exists|i: int|
                0 <= i < planets@.len() && (#[trigger] planets@[i]).planet_id == planet_id && (
                forall|j: int| 0 <= j < i ==> (#[trigger] planets@[j]).planet_id != planet_id)
                    && p.planet_id == planet_id && p.planet_name@ == planets@[i].planet_name@,
            None => forall|i: int|
                0 <= i < planets@.len() ==> (#[trigger] planets@[i]).planet_id != planet_id,
        },
{
    let n = planets.len();
    let mut i: usize = 0;
    while i < n
        invariant
            n == planets@.len(),
            0 <= i <= n,
            forall|j: int| 0 <= j < i ==> (#[trigger] planets@[j]).planet_id != planet_id,
        decreases n - i,
    {
        if planets[i].planet_id == planet_id {
            let p = planets[i].clone();
            proof {
                assert(planets@[i as int].planet_id == planet_id);
            }
            return Some(p);
        }
        i += 1;
    }
    None
}

} // verus!
