//! Fixed-size binary state records:
//! `[sequence: 4 bytes][player id: 4 bytes][payload]`, integers big-endian.

use std::collections::HashSet;
use vstd::prelude::*;

verus! {

/// Length in bytes of one state record.
pub const STATE_LEN: usize = 24;

/// Length in bytes of the opaque payload that follows the two header fields.
pub const PAYLOAD_LEN: usize = STATE_LEN - 8;

/// The value of the four big-endian bytes of `b` that start at `at`.
pub open spec fn be_value(b: Seq<u8>, at: int) -> int {
    b[at] * 0x1000000 + b[at + 1] * 0x10000 + b[at + 2] * 0x100 + b[at + 3]
}

/// The four big-endian bytes of `v`.
pub open spec fn be_bytes(v: u32) -> Seq<u8> {
    seq![
        (v / 0x1000000) as u8,
        (v / 0x10000 % 0x100) as u8,
        (v / 0x100 % 0x100) as u8,
        (v % 0x100) as u8,
    ]
}

/// The record that carries `sequence`, `id` and `payload`.
pub open spec fn record(sequence: u32, id: u32, payload: Seq<u8>) -> Seq<u8> {
    be_bytes(sequence) + be_bytes(id) + payload
}

/// A datagram whose length is not exactly one record.
#[derive(Debug, Clone, Copy, PartialEq, Eq, Structural)]
pub struct InvalidLength;

/// Big-endian value of four bytes of `b` starting at `at`.
fn read_be(b: &[u8], at: usize) -> (r: u32)
    requires
        at + 4 <= b@.len(),
    ensures
        r == be_value(b@, at as int),
{
    (b[at] as u32) * 0x1000000 + (b[at + 1] as u32) * 0x10000 + (b[at + 2] as u32) * 0x100
        + (b[at + 3] as u32)
}

/// Writes the big-endian bytes of `v` into `b` at `at`.
fn write_be(b: &mut [u8; STATE_LEN], at: usize, v: u32)
    requires
        at + 4 <= STATE_LEN,
    ensures
        final(b)@ == old(b)@.subrange(0, at as int) + be_bytes(v) + old(b)@.subrange(
            at + 4,
            STATE_LEN as int,
        ),
{
    b[at] = (v / 0x1000000) as u8;
    b[at + 1] = (v / 0x10000 % 0x100) as u8;
    b[at + 2] = (v / 0x100 % 0x100) as u8;
    b[at + 3] = (v % 0x100) as u8;
    assert(b@ =~= old(b)@.subrange(0, at as int) + be_bytes(v) + old(b)@.subrange(
        at + 4,
        STATE_LEN as int,
    ));
}

/// Encodes one state record.
pub fn encode_state_packet(sequence: u32, id: u32, payload: &[u8; PAYLOAD_LEN]) -> (r: [u8; STATE_LEN])
    ensures
        r@ == record(sequence, id, payload@),
{
    let mut b = [0u8; STATE_LEN];
    write_be(&mut b, 0, sequence);
    write_be(&mut b, 4, id);
    let mut i: usize = 0;
    while i < PAYLOAD_LEN
        invariant
            0 <= i <= PAYLOAD_LEN,
            b@.len() == STATE_LEN,
            b@.subrange(0, 8) == be_bytes(sequence) + be_bytes(id),
            forall|j: int| 0 <= j < i ==> b@[8 + j] == payload@[j],
        decreases PAYLOAD_LEN - i,
    {
        b[8 + i] = payload[i];
        i += 1;
    }
    assert(b@ =~= record(sequence, id, payload@));
    b
}

/// The big-endian reading of `be_bytes(v)` is `v`.
pub proof fn lemma_be_round_trip(v: u32)
    ensures
        be_value(be_bytes(v), 0) == v,
{
    let b = be_bytes(v);
    assert(b[0] as int == v / 0x1000000);
    assert(b[1] as int == v / 0x10000 % 0x100);
    assert(b[2] as int == v / 0x100 % 0x100);
    assert(b[3] as int == v % 0x100);
}

/// Decoding an encoded record gives back its sequence, id and payload.
pub proof fn lemma_record_round_trip(sequence: u32, id: u32, payload: Seq<u8>)
    requires
        payload.len() == PAYLOAD_LEN,
    ensures
        record(sequence, id, payload).len() == STATE_LEN,
        be_value(record(sequence, id, payload), 0) == sequence,
        be_value(record(sequence, id, payload), 4) == id,
        record(sequence, id, payload).subrange(8, STATE_LEN as int) == payload,
{
    let r = record(sequence, id, payload);
    lemma_be_round_trip(sequence);
    lemma_be_round_trip(id);
    assert(r.subrange(0, 4) =~= be_bytes(sequence));
    assert(r.subrange(4, 8) =~= be_bytes(id));
    assert(r.subrange(8, STATE_LEN as int) =~= payload);
}

/// What a snapshot holds: its record and the players it was sent to.
pub struct SnapshotView {
    pub bytes: [u8; STATE_LEN],
    pub sent_to: Set<u32>,
}

/// One received state record of a player, with the set of players it has
/// been selected for.
pub struct PlayerState {
    bytes: [u8; STATE_LEN],
    sent_to: HashSet<u32>,
}

impl View for PlayerState {
    type V = SnapshotView;

    closed spec fn view(&self) -> SnapshotView {
        SnapshotView { bytes: self.bytes, sent_to: self.sent_to@ }
    }
}

impl PlayerState {
    /// Reads a record: returns its player id, its sequence number, and a
    /// snapshot that holds the record and has not been sent to anyone.
    pub fn from_bytes(bytes: [u8; STATE_LEN]) -> (r: (u32, u32, Self))
        ensures
            r.0 == be_value(bytes@, 4),
            r.1 == be_value(bytes@, 0),
            r.2@ == (SnapshotView { bytes, sent_to: Set::empty() }),
    {
        let id = read_be(bytes.as_slice(), 4);
        let sequence = read_be(bytes.as_slice(), 0);
        (id, sequence, PlayerState { bytes, sent_to: HashSet::new() })
    }

    /// Whether this snapshot has been selected for player `to`.
    pub fn was_sent_to(&self, to: u32) -> (r: bool)
        ensures
            r == self@.sent_to.contains(to),
    {
        broadcast use vstd::std_specs::hash::group_hash_axioms;

        self.sent_to.contains(&to)
    }

    /// Records that this snapshot has been selected for player `to`.
    pub fn mark_sent_to(&mut self, to: u32)
        ensures
            final(self)@ == (SnapshotView { sent_to: old(self)@.sent_to.insert(to), ..old(self)@ }),
    {
        broadcast use vstd::std_specs::hash::group_hash_axioms;

        self.sent_to.insert(to);
    }

    /// The record this snapshot holds.
    pub fn bytes(&self) -> (r: [u8; STATE_LEN])
        ensures
            r == self@.bytes,
    {
        self.bytes
    }
}

/// Reads a datagram as one state record; fails unless it is exactly
/// `STATE_LEN` bytes long.
pub fn decode_state_packet(datagram: &[u8]) -> (r: Result<(u32, u32, PlayerState), InvalidLength>)
    ensures
        r is Err <==> datagram@.len() != STATE_LEN,
        r matches Ok(t) ==> {
            &&& t.0 == be_value(datagram@, 4)
            &&& t.1 == be_value(datagram@, 0)
            &&& t.2@.bytes@ == datagram@
            &&& t.2@.sent_to == Set::<u32>::empty()
        },
{
    if datagram.len() != STATE_LEN {
        return Err(InvalidLength);
    }
    let mut bytes = [0u8; STATE_LEN];
    let mut i: usize = 0;
    while i < STATE_LEN
        invariant
            0 <= i <= STATE_LEN,
            datagram@.len() == STATE_LEN,
            bytes@.len() == STATE_LEN,
            forall|j: int| 0 <= j < i ==> bytes@[j] == datagram@[j],
        decreases STATE_LEN - i,
    {
        bytes[i] = datagram[i];
        i += 1;
    }
    assert(bytes@ =~= datagram@);
    Ok(PlayerState::from_bytes(bytes))
}

} // verus!
