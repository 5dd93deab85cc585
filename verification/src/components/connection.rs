use vstd::prelude::*;
use vstd::string::StrSliceExecFns;

use crate::text::{find_char, find_from, lemma_find_char_skip, parse_usize, spec_parse_usize, str_eq};

use std::sync::atomic::AtomicI32;
use std::sync::atomic::Ordering;
use std::sync::Arc;

verus! {

/// Relies on `Arc::clone`: hands back a second handle to the very cell it
/// was given — the clone is the same allocation, so the result equals its
/// argument as a value. Nothing is claimed of the cell's content, which
/// other holders of the handle may change at any time.
#[verifier::external_body]
pub(crate) fn share_cell(cell: &Arc<AtomicI32>) -> (r: Arc<AtomicI32>)
    ensures
        r == *cell,
{
    cell.clone()
}

/// Reads the integer held by a shared cell. The value depends on what other
/// holders of the cell have stored, so nothing is claimed of it.
pub(crate) fn load_cell(cell: &Arc<AtomicI32>) -> i32 {
    cell.load(Ordering::SeqCst)
}

/// Stores an integer into a shared cell, where every other holder of the
/// cell can observe it.
pub(crate) fn store_cell(cell: &Arc<AtomicI32>, value: i32) {
    cell.store(value, Ordering::SeqCst);
}

/// Creates a fresh shared cell holding the given integer.
pub(crate) fn new_cell(value: i32) -> Arc<AtomicI32> {
    Arc::new(AtomicI32::new(value))
}

/// Mathematical shape of a `Connection`: the identity of its shared cell
/// and the bookkeeping data. The cell's *content* is outside the model,
/// since independently scheduled machines may change it at any moment, but
/// the cell itself is carried, so that sharing one wire is a provable,
/// structural fact.
pub struct ConnectionV {
    /// The shared integer cell this wire consists of.
    pub cell: Arc<AtomicI32>,
    /// Port identifiers recorded as attached to this wire, in order of addition.
    pub ports: Seq<Seq<char>>,
    /// Optional numeric identity of the wire.
    pub id: Option<usize>,
}

/// Whether a port id names a memory block rather than a machine.
pub open spec fn starts_with_r(s: Seq<char>) -> bool {
    s.len() > 0 && s[0] == 'R'
}

/// The text before the first occurrence of `d`.
pub open spec fn first_piece(s: Seq<char>, d: char) -> Seq<char> {
    s.take(find_char(s, d))
}

/// The text between the first occurrence of `d` and the next one, or the
/// end.
pub open spec fn second_piece(s: Seq<char>, d: char) -> Seq<char> {
    let rest = s.skip(find_char(s, d) + 1);
    rest.take(find_char(rest, d))
}

/// The port ids on a wire that name machines, in order.
pub open spec fn non_ram_ids(ports: Seq<Seq<char>>) -> Seq<Seq<char>> {
    ports.filter(|s: Seq<char>| !starts_with_r(s))
}

/// The port ids on a wire that name memory blocks, in order.
pub open spec fn ram_ids(ports: Seq<Seq<char>>) -> Seq<Seq<char>> {
    ports.filter(|s: Seq<char>| starts_with_r(s))
}

pub proof fn lemma_non_ram_ids_push(ports: Seq<Seq<char>>, x: Seq<char>)
    ensures
        non_ram_ids(ports.push(x)) == if !starts_with_r(x) {
            non_ram_ids(ports).push(x)
        } else {
            non_ram_ids(ports)
        },
{
    ports.lemma_filter_push(x, |s: Seq<char>| !starts_with_r(s));
}

pub proof fn lemma_ram_ids_push(ports: Seq<Seq<char>>, x: Seq<char>)
    ensures
        ram_ids(ports.push(x)) == if starts_with_r(x) {
            ram_ids(ports).push(x)
        } else {
            ram_ids(ports)
        },
{
    ports.lemma_filter_push(x, |s: Seq<char>| starts_with_r(s));
}

/// A machine port id: a machine number, the delimiter, a port number.
pub open spec fn valid_vm_port_id(s: Seq<char>, d: char) -> bool {
    &&& find_char(s, d) < s.len()
    &&& spec_parse_usize(first_piece(s, d)) is Some
    &&& spec_parse_usize(second_piece(s, d)) is Some
}

/// The pair a machine port id denotes.
pub open spec fn vm_port_pair_of(s: Seq<char>, d: char, p: (usize, usize)) -> bool {
    &&& spec_parse_usize(first_piece(s, d)) == Some(p.0 as nat)
    &&& spec_parse_usize(second_piece(s, d)) == Some(p.1 as nat)
}

/// The number part of a memory-block id: between the leading marker and the
/// first colon.
pub open spec fn ram_num_piece(s: Seq<char>) -> Seq<char> {
    let rest = s.skip(1);
    rest.take(find_char(rest, ':'))
}

/// The kind part of a memory-block id: between the first colon and the next
/// one, or the end.
pub open spec fn ram_kind_piece(s: Seq<char>) -> Seq<char> {
    let rest = s.skip(1);
    let after = rest.skip(find_char(rest, ':') + 1);
    after.take(find_char(after, ':'))
}

/// A memory-block id: the marker, a number, a colon, a kind.
pub open spec fn valid_ram_id(s: Seq<char>) -> bool {
    &&& s.len() >= 1
    &&& 1 + find_char(s.skip(1), ':') < s.len()
    &&& spec_parse_usize(ram_num_piece(s)) is Some
}

/// The pair a memory-block id denotes: its number, and its kind read as an
/// index (the index port, the data port, the mode port, or the index port
/// again for anything unrecognized).
pub open spec fn ram_pair_of(s: Seq<char>, p: (usize, usize)) -> bool {
    &&& spec_parse_usize(ram_num_piece(s)) == Some(p.0 as nat)
    &&& p.1 as int == {
        let kind = ram_kind_piece(s);
        if kind == "index"@ {
            0int
        } else if kind == "data"@ {
            1int
        } else if kind == "mode"@ {
            2int
        } else {
            0int
        }
    }
}

/// `out` lists, in order, the pair each machine port id of `ids` denotes.
pub open spec fn vm_pairs_match(ids: Seq<Seq<char>>, d: char, out: Seq<(usize, usize)>) -> bool {
    &&& out.len() == ids.len()
    &&& forall|k: int| 0 <= k < ids.len() ==> vm_port_pair_of(#[trigger] ids[k], d, out[k])
}

proof fn lemma_vm_pairs_match_push(
    ids: Seq<Seq<char>>,
    d: char,
    out: Seq<(usize, usize)>,
    x: Seq<char>,
    p: (usize, usize),
)
    requires
        vm_pairs_match(ids, d, out),
        vm_port_pair_of(x, d, p),
    ensures
        vm_pairs_match(ids.push(x), d, out.push(p)),
{
    assert forall|k: int| 0 <= k < ids.push(x).len() implies vm_port_pair_of(
        #[trigger] ids.push(x)[k],
        d,
        out.push(p)[k],
    ) by {
        if k < ids.len() {
            assert(ids.push(x)[k] == ids[k]);
            assert(out.push(p)[k] == out[k]);
        }
    }
}

/// `out` lists, in order, the pair each memory-block id of `ids` denotes.
pub open spec fn ram_pairs_match(ids: Seq<Seq<char>>, out: Seq<(usize, usize)>) -> bool {
    &&& out.len() == ids.len()
    &&& forall|k: int| 0 <= k < ids.len() ==> ram_pair_of(#[trigger] ids[k], out[k])
}

proof fn lemma_ram_pairs_match_push(
    ids: Seq<Seq<char>>,
    out: Seq<(usize, usize)>,
    x: Seq<char>,
    p: (usize, usize),
)
    requires
        ram_pairs_match(ids, out),
        ram_pair_of(x, p),
    ensures
        ram_pairs_match(ids.push(x), out.push(p)),
{
    assert forall|k: int| 0 <= k < ids.push(x).len() implies ram_pair_of(
        #[trigger] ids.push(x)[k],
        out.push(p)[k],
    ) by {
        if k < ids.len() {
            assert(ids.push(x)[k] == ids[k]);
            assert(out.push(p)[k] == out[k]);
        }
    }
}

/// Shared data used to connect machines, analogous to a wire between them.
#[derive(Debug)]
pub struct Connection {
    /// The shared integer cell.
    data: Arc<AtomicI32>,
    /// Identifiers of the ports attached to this wire; informational only.
    ports: Vec<String>,
    /// Optional identity of the wire.
    id: Option<usize>,
}

impl View for Connection {
    type V = ConnectionV;

    closed spec fn view(&self) -> ConnectionV {
        ConnectionV {
            cell: self.data,
            ports: self.ports@.map_values(|s: String| s@),
            id: self.id,
        }
    }
}

impl Connection {
    pub fn new() -> (c: Connection)
        ensures
            c@.ports == Seq::<Seq<char>>::empty(),
            c@.id is None,
    {
        let c = Connection { data: new_cell(0), ports: Vec::new(), id: None };
        proof {
            assert(c@.ports =~= Seq::<Seq<char>>::empty());
        }
        c
    }

    pub fn new_with_id(id: usize) -> (c: Connection)
        ensures
            c@.ports == Seq::<Seq<char>>::empty(),
            c@.id == Some(id),
    {
        let c = Connection { data: new_cell(0), ports: Vec::new(), id: Some(id) };
        proof {
            assert(c@.ports =~= Seq::<Seq<char>>::empty());
        }
        c
    }

    pub fn get_id(&self) -> (r: Option<usize>)
        ensures
            r == self@.id,
    {
        self.id
    }

    /// Hands out a new handle to this wire's own shared cell.
    pub fn get(&self) -> (r: Arc<AtomicI32>)
        ensures
            r == self@.cell,
    {
        share_cell(&self.data)
    }

    /// Adds a port id to the list of attached ports, unless it is already
    /// listed.
    pub fn add_port_id(&mut self, id: String)
        ensures
            final(self)@.cell == old(self)@.cell,
            final(self)@.id == old(self)@.id,
            final(self)@.ports == if old(self)@.ports.contains(id@) {
                old(self)@.ports
            } else {
                old(self)@.ports.push(id@)
            },
    {
        let n = self.ports.len();
        for i in 0..n
            invariant
                n == self.ports.len(),
                forall|j: int| 0 <= j < i ==> (#[trigger] self.ports@[j])@ != id@,
        {
            if self.ports[i].eq(&id) {
                assert(self@.ports.contains(id@)) by {
                    assert(self@.ports[i as int] == id@);
                }
                return ;
            }
        }
        assert(!self@.ports.contains(id@)) by {
            assert(forall|j: int| 0 <= j < n ==> self@.ports[j] != id@);
        }
        let ghost before = self@.ports;
        self.ports.push(id);
        proof {
            assert(self@.ports =~= before.push(id@));
        }
    }

    /// Removes every occurrence of a port id from the list of attached ports.
    pub fn remove_port_id(&mut self, id: String)
        ensures
            final(self)@.cell == old(self)@.cell,
            final(self)@.id == old(self)@.id,
            final(self)@.ports == old(self)@.ports.filter(|s: Seq<char>| s != id@),
    {
        let mut kept: Vec<String> = Vec::new();
        let n = self.ports.len();
        for i in 0..n
            invariant
                n == self.ports.len(),
                kept@.map_values(|s: String| s@) == self.ports@.map_values(
                    |s: String| s@,
                ).take(i as int).filter(|s: Seq<char>| s != id@),
        {
            let ghost full = self.ports@.map_values(|s: String| s@);
            let ghost kept_before = kept@.map_values(|s: String| s@);
            let keep = !self.ports[i].eq(&id);
            if keep {
                let item = self.ports[i].clone();
                kept.push(item);
                proof {
                    assert(kept@.map_values(|s: String| s@) =~= kept_before.push(full[i as int]));
                }
            }
            proof {
                assert(full[i as int] == self.ports@[i as int]@);
                assert(full.take(i + 1) =~= full.take(i as int).push(full[i as int]));
                full.take(i as int).lemma_filter_push(full[i as int], |s: Seq<char>| s != id@);
                assert(keep == (full[i as int] != id@));
            }
        }
        proof {
            assert(self.ports@.map_values(|s: String| s@).take(n as int) =~= self.ports@.map_values(
                |s: String| s@,
            ));
        }
        self.ports = kept;
    }

    /// Gets the machine ids and port indexes recorded on this wire, read
    /// from every id not belonging to a memory block: the number before the
    /// delimiter and the number after it.
    pub fn get_connected_vms_and_ports(&mut self, delimiter: char) -> (r: Vec<(usize, usize)>)
        requires
            forall|i: int|
                0 <= i < old(self)@.ports.len() && !starts_with_r(#[trigger] old(self)@.ports[i])
                    ==> valid_vm_port_id(old(self)@.ports[i], delimiter),
        ensures
            final(self)@ == old(self)@,
            vm_pairs_match(non_ram_ids(old(self)@.ports), delimiter, r@),
    {
        let mut out: Vec<(usize, usize)> = Vec::new();
        let n = self.ports.len();
        for i in 0..n
            invariant
                n == self.ports.len(),
                forall|k: int|
                    0 <= k < self@.ports.len() && !starts_with_r(#[trigger] self@.ports[k])
                        ==> valid_vm_port_id(self@.ports[k], delimiter),
                vm_pairs_match(non_ram_ids(self@.ports.take(i as int)), delimiter, out@),
        {
            let ghost full = self@.ports;
            proof {
                assert(full.take(i + 1) =~= full.take(i as int).push(full[i as int]));
                lemma_non_ram_ids_push(full.take(i as int), full[i as int]);
                assert(full[i as int] == self.ports@[i as int]@);
            }
            let id = &self.ports[i];
            let len = id.unicode_len();
            let is_ram = len > 0 && id.get_char(0) == 'R';
            let ghost out_before = out@;
            if !is_ram {
                proof {
                    assert(valid_vm_port_id(id@, delimiter));
                }
                let d1 = find_from(id, 0, delimiter);
                proof {
                    lemma_find_char_skip(id@, delimiter, 0, d1 as int);
                    assert(id@.skip(0) =~= id@);
                    assert(find_char(id@, delimiter) == d1);
                }
                let piece0 = id.substring_char(0, d1);
                let start1 = d1 + 1;
                let d2 = find_from(id, start1, delimiter);
                let piece1 = id.substring_char(start1, d2);
                proof {
                    lemma_find_char_skip(
                        id@.skip(start1 as int),
                        delimiter,
                        0,
                        d2 - start1,
                    );
                    assert(id@.skip(start1 as int).skip(0) =~= id@.skip(start1 as int));
                    assert(piece0@ =~= first_piece(id@, delimiter));
                    assert(piece1@ =~= second_piece(id@, delimiter));
                }
                let vm_id = match parse_usize(piece0) {
                    Some(v) => v,
                    None => 0,
                };
                let port_index = match parse_usize(piece1) {
                    Some(v) => v,
                    None => 0,
                };
                let pair = (vm_id, port_index);
                proof {
                    assert(vm_port_pair_of(id@, delimiter, pair));
                }
                out.push(pair);
                proof {
                    lemma_vm_pairs_match_push(
                        non_ram_ids(full.take(i as int)),
                        delimiter,
                        out_before,
                        id@,
                        pair,
                    );
                    assert(non_ram_ids(full.take(i + 1)) =~= non_ram_ids(
                        full.take(i as int),
                    ).push(id@));
                }
            } else {
                proof {
                    assert(non_ram_ids(full.take(i + 1)) =~= non_ram_ids(full.take(i as int)));
                }
            }
        }
        proof {
            assert(self@.ports.take(n as int) =~= self@.ports);
        }
        out
    }

    /// Gets the memory-block ids and port kinds recorded on this wire, read
    /// from every id belonging to a memory block: the number between the
    /// leading marker and the colon, and the word after the colon.
    pub fn get_connected_rams(&mut self) -> (r: Vec<(usize, usize)>)
        requires
            forall|i: int|
                0 <= i < old(self)@.ports.len() && starts_with_r(#[trigger] old(self)@.ports[i])
                    ==> valid_ram_id(old(self)@.ports[i]),
        ensures
            final(self)@ == old(self)@,
            ram_pairs_match(ram_ids(old(self)@.ports), r@),
    {
        let mut out: Vec<(usize, usize)> = Vec::new();
        let n = self.ports.len();
        for i in 0..n
            invariant
                n == self.ports.len(),
                forall|k: int|
                    0 <= k < self@.ports.len() && starts_with_r(#[trigger] self@.ports[k])
                        ==> valid_ram_id(self@.ports[k]),
                ram_pairs_match(ram_ids(self@.ports.take(i as int)), out@),
        {
            let ghost full = self@.ports;
            proof {
                assert(full.take(i + 1) =~= full.take(i as int).push(full[i as int]));
                lemma_ram_ids_push(full.take(i as int), full[i as int]);
                assert(full[i as int] == self.ports@[i as int]@);
            }
            let id = &self.ports[i];
            let len = id.unicode_len();
            let is_ram = len > 0 && id.get_char(0) == 'R';
            let ghost out_before = out@;
            if is_ram {
                proof {
                    assert(valid_ram_id(id@));
                }
                let c1 = find_from(id, 1, ':');
                proof {
                    lemma_find_char_skip(id@.skip(1), ':', 0, c1 - 1);
                    assert(id@.skip(1).skip(0) =~= id@.skip(1));
                }
                let piece0 = id.substring_char(1, c1);
                let start1 = c1 + 1;
                let c2 = find_from(id, start1, ':');
                let piece1 = id.substring_char(start1, c2);
                proof {
                    lemma_find_char_skip(id@.skip(start1 as int), ':', 0, c2 - start1);
                    assert(id@.skip(start1 as int).skip(0) =~= id@.skip(start1 as int));
                    assert(piece0@ =~= ram_num_piece(id@));
                    assert(id@.skip(1).skip(find_char(id@.skip(1), ':') + 1) =~= id@.skip(
                        start1 as int,
                    ));
                    assert(piece1@ =~= ram_kind_piece(id@));
                }
                let ram_id = match parse_usize(piece0) {
                    Some(v) => v,
                    None => 0,
                };
                let ram_port: usize = if str_eq(piece1, "index") {
                    0
                } else if str_eq(piece1, "data") {
                    1
                } else if str_eq(piece1, "mode") {
                    2
                } else {
                    0
                };
                let pair = (ram_id, ram_port);
                proof {
                    assert(ram_pair_of(id@, pair));
                }
                out.push(pair);
                proof {
                    lemma_ram_pairs_match_push(
                        ram_ids(full.take(i as int)),
                        out_before,
                        id@,
                        pair,
                    );
                    assert(ram_ids(full.take(i + 1)) =~= ram_ids(full.take(i as int)).push(id@));
                }
            } else {
                proof {
                    assert(ram_ids(full.take(i + 1)) =~= ram_ids(full.take(i as int)));
                }
            }
        }
        proof {
            assert(self@.ports.take(n as int) =~= self@.ports);
        }
        out
    }

    /// Gets the ids of the ports attached to this wire.
    pub fn get_connected_ports_ids(&self) -> (r: &Vec<String>)
        ensures
            r@.map_values(|s: String| s@) == self@.ports,
    {
        &self.ports
    }
}

impl Clone for Connection {
    /// Cloning a connection yields a second handle to the same wire: the
    /// shared cell is shared, the bookkeeping data is copied.
    fn clone(&self) -> (res: Self)
        ensures
            res@ == self@,
    {
        let mut ports: Vec<String> = Vec::new();
        let n = self.ports.len();
        for i in 0..n
            invariant
                n == self.ports.len(),
                ports@.map_values(|s: String| s@) == self.ports@.map_values(|s: String| s@).take(
                    i as int,
                ),
        {
            let ghost before = ports@.map_values(|s: String| s@);
            let ghost full = self.ports@.map_values(|s: String| s@);
            ports.push(self.ports[i].clone());
            proof {
                assert(ports@.map_values(|s: String| s@) =~= before.push(full[i as int]));
                assert(full.take(i + 1) =~= full.take(i as int).push(full[i as int]));
            }
        }
        proof {
            assert(self.ports@.map_values(|s: String| s@).take(n as int) =~= self.ports@.map_values(
                |s: String| s@,
            ));
        }
        let res = Connection { data: share_cell(&self.data), ports, id: self.id };
        proof {
            assert(res@.ports =~= self@.ports);
        }
        res
    }
}

impl Default for Connection {
    fn default() -> (c: Self)
        ensures
            c@.ports == Seq::<Seq<char>>::empty(),
            c@.id is None,
    {
        Self::new()
    }
}

} // verus!
