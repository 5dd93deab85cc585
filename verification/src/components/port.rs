use vstd::prelude::*;

use std::sync::atomic::AtomicI32;
use std::sync::Arc;

use super::connection::Connection;
use super::connection::{load_cell, share_cell, store_cell};

verus! {

/// Mathematical shape of a `Port`.
///
/// A disconnected port owns its value, so the model carries it. A connected
/// port reads and writes a wire that other machines may change at any
/// moment, so the model carries the wire's shared cell and its id — never a
/// value. Two ports whose models carry the same cell share one wire.
pub enum PortV {
    Connected(Arc<AtomicI32>, Option<usize>),
    Disconnected(i32),
}

/// A register used for communication between a machine and other components.
///
/// Either it owns a private integer (`Disconnected`), or it shares a wire's
/// cell with every other port connected to the same wire (`Connected`).
/// Reads and writes go through `get`/`set` uniformly in both states.
#[derive(Debug)]
pub enum Port {
    Connected(Arc<AtomicI32>, Option<usize>),
    Disconnected(i32),
}

impl View for Port {
    type V = PortV;

    open spec fn view(&self) -> PortV {
        match self {
            Port::Connected(cell, id) => PortV::Connected(*cell, *id),
            Port::Disconnected(value) => PortV::Disconnected(*value),
        }
    }
}

/// The value of a disconnected port, as far as the model knows it.
pub open spec fn port_value(p: PortV) -> Option<i32> {
    match p {
        PortV::Disconnected(value) => Some(value),
        PortV::Connected(_, _) => None,
    }
}

impl Port {
    pub fn new(value: i32) -> (r: Port)
        ensures
            r@ == PortV::Disconnected(value),
    {
        Port::Disconnected(value)
    }

    pub fn get_id(&self) -> (r: Option<usize>)
        ensures
            r == match self@ {
                PortV::Connected(_, id) => id,
                PortV::Disconnected(_) => None::<usize>,
            },
    {
        match self {
            Port::Connected(_, id) => *id,
            Port::Disconnected(_) => None,
        }
    }

    /// Reads the port's value: the private integer when disconnected, the
    /// shared cell's current content when connected. A connected read may
    /// differ between two calls, since other machines write the same wire.
    pub fn get(&mut self) -> (r: i32)
        ensures
            final(self)@ == old(self)@,
            port_value(old(self)@) is Some ==> r == port_value(old(self)@).unwrap(),
    {
        match self {
            Port::Connected(cell, _) => load_cell(cell),
            Port::Disconnected(value) => *value,
        }
    }

    /// Writes the port's value: into the private integer when disconnected,
    /// into the shared cell (visible to every port on the same wire) when
    /// connected.
    pub fn set(&mut self, new_value: i32)
        ensures
            final(self)@ == match old(self)@ {
                PortV::Connected(cell, id) => PortV::Connected(cell, id),
                PortV::Disconnected(_) => PortV::Disconnected(new_value),
            },
    {
        match self {
            Port::Connected(cell, _) => store_cell(cell, new_value),
            Port::Disconnected(value) => *value = new_value,
        }
    }

    /// Hands out a mutable borrow of this port itself.
    pub fn get_ref_mut(&mut self) -> (r: &mut Self)
        ensures
            (*r)@ == old(self)@,
            final(self)@ == (*final(r))@,
    {
        self
    }

    pub fn get_conn_id(&mut self) -> (r: Option<usize>)
        ensures
            final(self)@ == old(self)@,
            r == match old(self)@ {
                PortV::Connected(_, id) => id,
                PortV::Disconnected(_) => None::<usize>,
            },
    {
        match self {
            Port::Connected(_, id) => *id,
            Port::Disconnected(_) => None,
        }
    }

    /// Attaches this port to a wire: the port's state becomes `Connected`,
    /// sharing the wire's own cell and carrying the wire's identity. Every
    /// port connected to the same wire carries the same cell.
    pub fn connect(&mut self, connection: &mut Connection)
        ensures
            final(self)@ == PortV::Connected(old(connection)@.cell, old(connection)@.id),
            final(connection)@ == old(connection)@,
    {
        *self = Port::Connected(connection.get(), connection.get_id());
    }

    /// Detaches this port from its wire, freezing the value observed at the
    /// moment of detachment into a fresh private integer. The wire itself is
    /// unaffected and later writes to it no longer reach this port.
    pub fn disconnect(&mut self, connection: &mut Connection)
        ensures
            final(self)@ is Disconnected,
            final(connection)@ == old(connection)@,
            old(self)@ is Disconnected ==> final(self)@ == old(self)@,
    {
        let value = self.get();
        *self = Port::Disconnected(value);
    }
}

impl Clone for Port {
    /// Cloning a connected port yields a second port on the same wire; cloning
    /// a disconnected port copies its private value.
    fn clone(&self) -> (res: Self)
        ensures
            res@ == self@,
    {
        match self {
            Port::Connected(cell, id) => Port::Connected(share_cell(cell), *id),
            Port::Disconnected(value) => Port::Disconnected(*value),
        }
    }
}

} // verus!
