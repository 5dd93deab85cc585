use vstd::prelude::*;

use super::connection::Connection;
use crate::text::{append_usize, nat_to_chars};
use vstd::string::StringExecFns;
use super::port::{Port, PortV};

verus! {

/// Mathematical shape of a `Ram` block.
#[verifier::ext_equal]
pub struct RamV {
    pub id: Option<usize>,
    pub index: nat,
    pub data: Seq<i32>,
    pub index_port: PortV,
    pub data_port: PortV,
    pub mode_port: PortV,
}

/// A simple addressable memory block driven through three ports: an index, a
/// data cell, and a mode switch. It has no execution step of its own; the
/// owning driver calls `refresh` explicitly.
#[derive(Debug)]
pub struct Ram {
    id: Option<usize>,
    index: usize,
    data: Vec<i32>,
    index_port: Port,
    data_port: Port,
    mode_port: Port,
}

impl View for Ram {
    type V = RamV;

    closed spec fn view(&self) -> RamV {
        RamV {
            id: self.id,
            index: self.index as nat,
            data: self.data@,
            index_port: self.index_port@,
            data_port: self.data_port@,
            mode_port: self.mode_port@,
        }
    }
}

/// The memory index a raw port reading addresses: negative readings collapse
/// to zero, and anything past the end is clamped to the last cell.
pub open spec fn clamped_index(raw: i32, len: nat) -> nat
    recommends
        len >= 1,
{
    let i = if raw >= 0 {
        raw as nat
    } else {
        0
    };
    if i >= len {
        (len - 1) as nat
    } else {
        i
    }
}

/// The block after one refresh, with `iv`, `mv` and `dv` standing in for
/// wire readings of the index, mode and data ports. Mode zero stores the
/// data port's reading into memory; any other mode drives the data port
/// from memory.
pub open spec fn refresh_step(s: RamV, iv: i32, mv: i32, dv: i32) -> RamV
    recommends
        s.data.len() >= 1,
{
    let raw = match s.index_port {
        PortV::Disconnected(v) => v,
        PortV::Connected(_, _) => iv,
    };
    let mode = match s.mode_port {
        PortV::Disconnected(v) => v,
        PortV::Connected(_, _) => mv,
    };
    let idx = clamped_index(raw, s.data.len());
    if mode == 0 {
        let value = match s.data_port {
            PortV::Disconnected(v) => v,
            PortV::Connected(_, _) => dv,
        };
        RamV { index: idx, data: s.data.update(idx as int, value), ..s }
    } else {
        let dp = match s.data_port {
            PortV::Disconnected(_) => PortV::Disconnected(s.data[idx as int]),
            PortV::Connected(cell, id) => PortV::Connected(cell, id),
        };
        RamV { index: idx, data_port: dp, ..s }
    }
}

/// Whether none of the block's ports is wired, so that a refresh is a
/// function of the block alone.
pub open spec fn ram_standalone(s: RamV) -> bool {
    &&& s.index_port is Disconnected
    &&& s.mode_port is Disconnected
    &&& s.data_port is Disconnected
}

impl Ram {
    /// Structural well-formedness: the memory has at least one cell and the
    /// index lies inside it.
    pub open spec fn well_formed(&self) -> bool {
        &&& self@.data.len() >= 1
        &&& self@.index < self@.data.len()
    }

    /// Creates a block of 32 zeroed cells with all ports disconnected.
    pub fn new() -> (r: Ram)
        ensures
            r@ == (RamV {
                id: None,
                index: 0,
                data: Seq::new(32, |i: int| 0i32),
                index_port: PortV::Disconnected(0),
                data_port: PortV::Disconnected(0),
                mode_port: PortV::Disconnected(0),
            }),
            r.well_formed(),
    {
        let mut data: Vec<i32> = Vec::new();
        for i in 0..32usize
            invariant
                data@.len() == i,
                forall|j: int| 0 <= j < i ==> data@[j] == 0,
        {
            data.push(0);
        }
        let r = Ram {
            id: None,
            index: 0,
            data,
            index_port: Port::new(0),
            data_port: Port::new(0),
            mode_port: Port::new(0),
        };
        proof {
            assert(r@ =~= (RamV {
                id: None,
                index: 0,
                data: Seq::new(32, |i: int| 0i32),
                index_port: PortV::Disconnected(0),
                data_port: PortV::Disconnected(0),
                mode_port: PortV::Disconnected(0),
            }));
        }
        r
    }

    /// Replaces the memory with `size` zeroed cells.
    pub fn with_size(self, size: usize) -> (r: Ram)
        requires
            size >= 1,
        ensures
            r@ == (RamV { data: Seq::new(size as nat, |i: int| 0i32), index: self@.index, ..self@ }),
            self@.index < size ==> r.well_formed(),
    {
        let mut data: Vec<i32> = Vec::new();
        for i in 0..size
            invariant
                data@.len() == i,
                forall|j: int| 0 <= j < i ==> data@[j] == 0,
        {
            data.push(0);
        }
        let mut r = self;
        r.data = data;
        proof {
            assert(r@ =~= (RamV {
                data: Seq::new(size as nat, |i: int| 0i32),
                index: r@.index,
                ..r@
            }));
        }
        r
    }

    /// Gives the block an identity.
    pub fn with_id(self, id: usize) -> (r: Ram)
        ensures
            r@ == (RamV { id: Some(id), ..self@ }),
            self.well_formed() ==> r.well_formed(),
    {
        let mut r = self;
        r.id = Some(id);
        proof {
            assert(r@ =~= (RamV { id: Some(id), ..r@ }));
        }
        r
    }

    /// Gives the block an identity and a memory of `size` zeroed cells.
    pub fn with_id_and_size(self, id: usize, size: usize) -> (r: Ram)
        requires
            size >= 1,
        ensures
            r@ == (RamV {
                id: Some(id),
                data: Seq::new(size as nat, |i: int| 0i32),
                index: self@.index,
                ..self@
            }),
            self@.index < size ==> r.well_formed(),
    {
        let mut r = self;
        r.id = Some(id);
        let mut data: Vec<i32> = Vec::new();
        for i in 0..size
            invariant
                data@.len() == i,
                forall|j: int| 0 <= j < i ==> data@[j] == 0,
        {
            data.push(0);
        }
        r.data = data;
        proof {
            assert(r@ =~= (RamV {
                id: Some(id),
                data: Seq::new(size as nat, |i: int| 0i32),
                index: r@.index,
                ..r@
            }));
        }
        r
    }

    pub fn connect_index_port(&mut self, connection: &mut Connection)
        ensures
            final(self)@ == (RamV {
                index_port: PortV::Connected(old(connection)@.cell, old(connection)@.id),
                ..old(self)@
            }),
            final(connection)@ == old(connection)@,
            old(self).well_formed() ==> final(self).well_formed(),
    {
        self.index_port.connect(connection);
        proof {
            assert(self@ =~= (RamV {
                index_port: PortV::Connected(old(connection)@.cell, old(connection)@.id),
                ..old(self)@
            }));
        }
    }

    pub fn connect_data_port(&mut self, connection: &mut Connection)
        ensures
            final(self)@ == (RamV {
                data_port: PortV::Connected(old(connection)@.cell, old(connection)@.id),
                ..old(self)@
            }),
            final(connection)@ == old(connection)@,
            old(self).well_formed() ==> final(self).well_formed(),
    {
        self.data_port.connect(connection);
        proof {
            assert(self@ =~= (RamV {
                data_port: PortV::Connected(old(connection)@.cell, old(connection)@.id),
                ..old(self)@
            }));
        }
    }

    pub fn connect_mode_port(&mut self, connection: &mut Connection)
        ensures
            final(self)@ == (RamV {
                mode_port: PortV::Connected(old(connection)@.cell, old(connection)@.id),
                ..old(self)@
            }),
            final(connection)@ == old(connection)@,
            old(self).well_formed() ==> final(self).well_formed(),
    {
        self.mode_port.connect(connection);
        proof {
            assert(self@ =~= (RamV {
                mode_port: PortV::Connected(old(connection)@.cell, old(connection)@.id),
                ..old(self)@
            }));
        }
    }

    /// Detaches the index port, freezing its last observed value.
    pub fn disconnect_index_port(&mut self)
        ensures
            final(self)@.index_port is Disconnected,
            old(self)@.index_port is Disconnected ==> final(self)@.index_port == old(
                self,
            )@.index_port,
            final(self)@ == (RamV { index_port: final(self)@.index_port, ..old(self)@ }),
            old(self).well_formed() ==> final(self).well_formed(),
    {
        let value = self.index_port.get();
        self.index_port = Port::new(value);
        proof {
            assert(self@ =~= (RamV { index_port: PortV::Disconnected(value), ..old(self)@ }));
        }
    }

    /// Detaches the data port, freezing its last observed value.
    pub fn disconnect_data_port(&mut self)
        ensures
            final(self)@.data_port is Disconnected,
            old(self)@.data_port is Disconnected ==> final(self)@.data_port == old(
                self,
            )@.data_port,
            final(self)@ == (RamV { data_port: final(self)@.data_port, ..old(self)@ }),
            old(self).well_formed() ==> final(self).well_formed(),
    {
        let value = self.data_port.get();
        self.data_port = Port::new(value);
        proof {
            assert(self@ =~= (RamV { data_port: PortV::Disconnected(value), ..old(self)@ }));
        }
    }

    /// Detaches the mode port, freezing its last observed value.
    pub fn disconnect_mode_port(&mut self)
        ensures
            final(self)@.mode_port is Disconnected,
            old(self)@.mode_port is Disconnected ==> final(self)@.mode_port == old(
                self,
            )@.mode_port,
            final(self)@ == (RamV { mode_port: final(self)@.mode_port, ..old(self)@ }),
            old(self).well_formed() ==> final(self).well_formed(),
    {
        let value = self.mode_port.get();
        self.mode_port = Port::new(value);
        proof {
            assert(self@ =~= (RamV { mode_port: PortV::Disconnected(value), ..old(self)@ }));
        }
    }

    /// The bookkeeping tag recorded on a wire for one of this block's
    /// ports: the marker R, the wire's id, a colon, the port's kind.
    pub open spec fn ram_tag(cid: nat, kind: Seq<char>) -> Seq<char> {
        seq!['R'] + nat_to_chars(cid) + seq![':'] + kind
    }

    /// Detaches the index port and, when it carried its wire's id, removes
    /// the matching tag from the wire's bookkeeping list. As with a
    /// machine's ports, the tag is built from the wire's own id; a tag
    /// recorded under a different block id stays on the list.
    pub fn disconnect_and_unlist_index_port(&mut self, conn: &mut Connection)
        ensures
            final(self)@.index_port is Disconnected,
            old(self)@.index_port is Disconnected ==> final(self)@.index_port == old(
                self,
            )@.index_port,
            final(self)@ == (RamV { index_port: final(self)@.index_port, ..old(self)@ }),
            old(self).well_formed() ==> final(self).well_formed(),
            final(conn)@.id == old(conn)@.id,
            final(conn)@.ports == match old(self)@.index_port {
                PortV::Connected(_, Some(cid)) => old(conn)@.ports.filter(
                    (|s: Seq<char>| s != Self::ram_tag(cid as nat, "index"@)),
                ),
                _ => old(conn)@.ports,
            },
    {
        let value = self.index_port.get();
        let id = self.index_port.get_id();
        if let Some(id) = id {
            let mut tag = String::new();
            tag.append("R");
            append_usize(&mut tag, id);
            tag.append(":index");
            proof {
                reveal_strlit("R");
                reveal_strlit(":index");
                reveal_strlit("index");
                assert(":index"@ =~= seq![':'] + "index"@);
                assert(tag@ =~= Self::ram_tag(id as nat, "index"@));
                assert((|s: Seq<char>| s != tag@) =~= (|s: Seq<char>|
                    s != Self::ram_tag(id as nat, "index"@)));
            }
            conn.remove_port_id(tag);
        }
        self.index_port = Port::new(value);
        proof {
            assert(self@ =~= (RamV { index_port: PortV::Disconnected(value), ..old(self)@ }));
        }
    }

    /// Detaches the data port and, when it carried its wire's id, removes
    /// the matching tag from the wire's bookkeeping list.
    pub fn disconnect_and_unlist_data_port(&mut self, conn: &mut Connection)
        ensures
            final(self)@.data_port is Disconnected,
            old(self)@.data_port is Disconnected ==> final(self)@.data_port == old(
                self,
            )@.data_port,
            final(self)@ == (RamV { data_port: final(self)@.data_port, ..old(self)@ }),
            old(self).well_formed() ==> final(self).well_formed(),
            final(conn)@.id == old(conn)@.id,
            final(conn)@.ports == match old(self)@.data_port {
                PortV::Connected(_, Some(cid)) => old(conn)@.ports.filter(
                    (|s: Seq<char>| s != Self::ram_tag(cid as nat, "data"@)),
                ),
                _ => old(conn)@.ports,
            },
    {
        let value = self.data_port.get();
        let id = self.data_port.get_id();
        if let Some(id) = id {
            let mut tag = String::new();
            tag.append("R");
            append_usize(&mut tag, id);
            tag.append(":data");
            proof {
                reveal_strlit("R");
                reveal_strlit(":data");
                reveal_strlit("data");
                assert(":data"@ =~= seq![':'] + "data"@);
                assert(tag@ =~= Self::ram_tag(id as nat, "data"@));
                assert((|s: Seq<char>| s != tag@) =~= (|s: Seq<char>|
                    s != Self::ram_tag(id as nat, "data"@)));
            }
            conn.remove_port_id(tag);
        }
        self.data_port = Port::new(value);
        proof {
            assert(self@ =~= (RamV { data_port: PortV::Disconnected(value), ..old(self)@ }));
        }
    }

    /// Detaches the mode port and, when it carried its wire's id, removes
    /// the matching tag from the wire's bookkeeping list.
    pub fn disconnect_and_unlist_mode_port(&mut self, conn: &mut Connection)
        ensures
            final(self)@.mode_port is Disconnected,
            old(self)@.mode_port is Disconnected ==> final(self)@.mode_port == old(
                self,
            )@.mode_port,
            final(self)@ == (RamV { mode_port: final(self)@.mode_port, ..old(self)@ }),
            old(self).well_formed() ==> final(self).well_formed(),
            final(conn)@.id == old(conn)@.id,
            final(conn)@.ports == match old(self)@.mode_port {
                PortV::Connected(_, Some(cid)) => old(conn)@.ports.filter(
                    (|s: Seq<char>| s != Self::ram_tag(cid as nat, "mode"@)),
                ),
                _ => old(conn)@.ports,
            },
    {
        let value = self.mode_port.get();
        let id = self.mode_port.get_id();
        if let Some(id) = id {
            let mut tag = String::new();
            tag.append("R");
            append_usize(&mut tag, id);
            tag.append(":mode");
            proof {
                reveal_strlit("R");
                reveal_strlit(":mode");
                reveal_strlit("mode");
                assert(":mode"@ =~= seq![':'] + "mode"@);
                assert(tag@ =~= Self::ram_tag(id as nat, "mode"@));
                assert((|s: Seq<char>| s != tag@) =~= (|s: Seq<char>|
                    s != Self::ram_tag(id as nat, "mode"@)));
            }
            conn.remove_port_id(tag);
        }
        self.mode_port = Port::new(value);
        proof {
            assert(self@ =~= (RamV { mode_port: PortV::Disconnected(value), ..old(self)@ }));
        }
    }

    /// Hands out a mutable borrow of the index port.
    pub fn get_index_port_ref(&mut self) -> (r: &mut Port)
        ensures
            (*r)@ == old(self)@.index_port,
            final(self)@ == (RamV { index_port: (*final(r))@, ..old(self)@ }),
    {
        &mut self.index_port
    }

    /// Hands out a mutable borrow of the data port.
    pub fn get_data_port_ref(&mut self) -> (r: &mut Port)
        ensures
            (*r)@ == old(self)@.data_port,
            final(self)@ == (RamV { data_port: (*final(r))@, ..old(self)@ }),
    {
        &mut self.data_port
    }

    pub fn get_index_port(&self) -> (r: Port)
        ensures
            r@ == self@.index_port,
    {
        self.index_port.clone()
    }

    pub fn get_data_port(&self) -> (r: Port)
        ensures
            r@ == self@.data_port,
    {
        self.data_port.clone()
    }

    pub fn get_mode_port(&self) -> (r: Port)
        ensures
            r@ == self@.mode_port,
    {
        self.mode_port.clone()
    }

    pub fn get_data_ref(&mut self) -> (r: &Vec<i32>)
        ensures
            final(self)@ == old(self)@,
            r@ == old(self)@.data,
    {
        &self.data
    }

    /// Sets the cell at `index` to `value`; an index past the memory is
    /// silently no write at all.
    pub fn set_value(&mut self, index: usize, value: i32)
        ensures
            final(self)@ == (RamV {
                data: if index < old(self)@.data.len() {
                    old(self)@.data.update(index as int, value)
                } else {
                    old(self)@.data
                },
                ..old(self)@
            }),
            old(self).well_formed() ==> final(self).well_formed(),
    {
        if index >= self.data.len() {
            proof {
                assert(self@ =~= (RamV { data: old(self)@.data, ..old(self)@ }));
            }
            return ;
        }
        self.data[index] = value;
        proof {
            assert(self@ =~= (RamV {
                data: old(self)@.data.update(index as int, value),
                ..old(self)@
            }));
        }
    }

    /// One step of the block: reads the index and mode ports and either
    /// stores the data port's value into memory (mode zero) or drives the
    /// data port from memory (any other mode).
    pub fn refresh(&mut self)
        requires
            old(self).well_formed(),
        ensures
            final(self).well_formed(),
            exists|iv: i32, mv: i32, dv: i32|
                final(self)@ == #[trigger] refresh_step(old(self)@, iv, mv, dv),
            ram_standalone(old(self)@) ==> final(self)@ == refresh_step(old(self)@, 0, 0, 0),
    {
        let raw = self.index_port.get();
        let idx: usize = if raw >= 0 {
            raw as usize
        } else {
            0
        };
        let idx = if idx >= self.data.len() {
            self.data.len() - 1
        } else {
            idx
        };
        self.index = idx;
        let mode = self.mode_port.get();
        if mode == 0 {
            let value = self.data_port.get();
            self.data[idx] = value;
            proof {
                assert(self@ =~= refresh_step(old(self)@, raw, mode, value));
            }
        } else {
            self.data_port.set(self.data[idx]);
            proof {
                assert(self@ =~= refresh_step(old(self)@, raw, mode, 0));
            }
        }
    }
}

} // verus!
