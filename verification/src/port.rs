use vstd::prelude::*;
use crate::galaxy::Galaxy;

verus! {

use crate::sector::PortId;

/// A resource node attached to at most one sector. The galaxy owns every
/// port record; sectors refer to ports by id.
pub struct Port {
    pub port_id: PortId,
    pub port_name: String,
}

impl Port {
    pub fn clone(&self) -> (p: Port)
        ensures
            p.port_id == self.port_id,
            p.port_name@ == self.port_name@,
    {
        Port { port_id: self.port_id, port_name: self.port_name.clone() }
    }
}

/// Looks up a port of the galaxy by id, returning a copy of its record.
pub fn get_port(galaxy: &Galaxy, port_id: PortId) -> (r: Option<Port>)
    requires
        galaxy.wf(),
    ensures
        match r {
            Some(p) => 1 <= port_id <= galaxy.spec_ports().len() && p.port_id == port_id
                && p.port_name@ == galaxy.spec_ports()[port_id - 1].port_name@,
            None => !(1 <= port_id <= galaxy.spec_ports().len()),
        },
{
    galaxy.port_record(port_id)
}

} // verus!
