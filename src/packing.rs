//! Batching of outbound state records into datagrams that stay below the
//! payload size that typical networks carry without fragmentation.

use crate::codec::STATE_LEN;
use vstd::prelude::*;

verus! {

/// Largest UDP payload assumed to travel unfragmented.
pub const SAFE_UDP_PAYLOAD: usize = 508;

/// Most whole records that fit in one datagram.
pub const MAX_STATES_PER_PACKET: usize = SAFE_UDP_PAYLOAD / STATE_LEN;

/// The bytes of the records of `s`, one after another.
pub open spec fn concat_records(s: Seq<[u8; STATE_LEN]>) -> Seq<u8>
    decreases s.len(),
{
    if s.len() == 0 {
        Seq::empty()
    } else {
        concat_records(s.drop_last()) + s.last()@
    }
}

/// Number of datagrams that `k` records take: `k / MAX_STATES_PER_PACKET`,
/// rounded up.
pub open spec fn packet_count(k: nat) -> nat {
    ((k + MAX_STATES_PER_PACKET - 1) / MAX_STATES_PER_PACKET as int) as nat
}

/// The records that datagram `i` carries: the `i`-th run of
/// `MAX_STATES_PER_PACKET` records, the last run possibly shorter.
pub open spec fn batch(s: Seq<[u8; STATE_LEN]>, i: int) -> Seq<[u8; STATE_LEN]> {
    let start = i * MAX_STATES_PER_PACKET;
    let end = start + MAX_STATES_PER_PACKET;
    s.subrange(start, if end < s.len() { end } else { s.len() as int })
}

/// `concat_records` holds `STATE_LEN` bytes per record.
pub proof fn lemma_concat_len(s: Seq<[u8; STATE_LEN]>)
    ensures
        concat_records(s).len() == STATE_LEN * s.len(),
    decreases s.len(),
{
    if s.len() > 0 {
        lemma_concat_len(s.drop_last());
    }
}

/// Appends the bytes of `record` to `buf`.
fn append_record(buf: &mut Vec<u8>, record: &[u8; STATE_LEN])
    ensures
        final(buf)@ == old(buf)@ + record@,
{
    let mut i: usize = 0;
    while i < STATE_LEN
        invariant
            0 <= i <= STATE_LEN,
            record@.len() == STATE_LEN,
            buf@ == old(buf)@ + record@.subrange(0, i as int),
        decreases STATE_LEN - i,
    {
        buf.push(record[i]);
        proof {
            assert(record@.subrange(0, i + 1) =~= record@.subrange(0, i as int).push(record@[i as int]));
        }
        i += 1;
    }
    proof {
        assert(record@.subrange(0, STATE_LEN as int) =~= record@);
    }
}

/// Splits `records` into datagrams: records are packed in order, and a
/// datagram is closed when it holds `MAX_STATES_PER_PACKET` of them or the
/// records run out.
pub fn pack_datagrams(records: &Vec<[u8; STATE_LEN]>) -> (r: Vec<Vec<u8>>)
    ensures
        r@.len() == packet_count(records@.len()),
        forall|i: int| 0 <= i < r@.len() ==> #[trigger] r@[i]@ == concat_records(batch(records@, i)),
        forall|i: int|
            0 <= i < r@.len() ==> {
                &&& (#[trigger] r@[i]@).len() as int % STATE_LEN as int == 0
                &&& 0 < r@[i]@.len() <= SAFE_UDP_PAYLOAD
            },
{
    let k = records.len();
    assert(MAX_STATES_PER_PACKET == 21);
    let mut out: Vec<Vec<u8>> = Vec::new();
    let mut buf: Vec<u8> = Vec::new();
    let mut in_buf: usize = 0;
    let mut i: usize = 0;
    while i < k
        invariant
            k == records@.len(),
            MAX_STATES_PER_PACKET == 21,
            0 <= i <= k,
            i == out@.len() * MAX_STATES_PER_PACKET + in_buf,
            in_buf < MAX_STATES_PER_PACKET,
            forall|j: int| 0 <= j < out@.len() ==> #[trigger] out@[j]@ == concat_records(
                records@.subrange(
                    j * MAX_STATES_PER_PACKET,
                    j * MAX_STATES_PER_PACKET + MAX_STATES_PER_PACKET,
                ),
            ),
            buf@ == concat_records(records@.subrange(i - in_buf, i as int)),
        decreases k - i,
    {
        append_record(&mut buf, &records[i]);
        proof {
            let s = records@.subrange(i - in_buf, i + 1);
            assert(s.drop_last() =~= records@.subrange(i - in_buf, i as int));
        }
        in_buf += 1;
        i += 1;
        if in_buf == MAX_STATES_PER_PACKET {
            let ghost prev = out@;
            out.push(buf);
            buf = Vec::new();
            in_buf = 0;
            proof {
                let j = prev.len() as int;
                assert(out@[j]@ == concat_records(records@.subrange(j * 21, j * 21 + 21)));
                assert(forall|t: int| 0 <= t < j ==> out@[t] == prev[t]);
                assert(records@.subrange(i as int, i as int) =~= Seq::<[u8; STATE_LEN]>::empty());
            }
        }
    }
    if in_buf != 0 {
        out.push(buf);
    }
    proof {
        let m = MAX_STATES_PER_PACKET as int;
        let full = (k - in_buf) / m;
        assert(m == 21);
        assert(packet_count(k as nat) == out@.len()) by (nonlinear_arith)
            requires
                m == 21,
                k == full * m + in_buf,
                0 <= in_buf < m,
                out@.len() == full + if in_buf != 0 { 1int } else { 0 },
                packet_count(k as nat) == (k + m - 1) / m,
        ;
        assert forall|j: int| 0 <= j < out@.len() implies #[trigger] out@[j]@ == concat_records(batch(records@, j)) && (
        out@[j]@).len() as int % STATE_LEN as int == 0 && 0 < out@[j]@.len() <= SAFE_UDP_PAYLOAD by {
            lemma_concat_len(batch(records@, j));
        }
    }
    out
}

} // verus!
