//! Splitting a message into BLE-sized fragments. Each fragment is the
//! message identifier (16 bytes), the fragment's index and the fragment count
//! (2 bytes each, big-endian), then up to `CHUNK` bytes of the message.
use vstd::prelude::*;
use crate::ids::{id_bytes, msg_id_to_bytes};

verus! {

/// Largest number of message bytes in one fragment.
pub const CHUNK: usize = 160;

/// Length of a fragment header.
pub const HEADER_LEN: usize = 20;

/// The two big-endian bytes of a 16-bit value.
pub open spec fn be16(v: u16) -> Seq<u8> {
    seq![(v >> 8u16) as u8, v as u8]
}

/// Number of fragments a message of `len` bytes takes.
pub open spec fn fragment_count(len: nat) -> nat {
    ((len + CHUNK - 1) / CHUNK as int) as nat
}

/// The part of `data` that fragment `i` carries.
pub open spec fn chunk_of(data: Seq<u8>, i: int) -> Seq<u8> {
    let end = if (i + 1) * CHUNK <= data.len() { (i + 1) * CHUNK } else { data.len() as int };
    data.subrange(i * CHUNK, end)
}

/// Fragment `i` of the message `data` with identifier `id`, of `total`
/// fragments; index and count are written modulo 2^16.
pub open spec fn fragment_bytes(id: u128, i: int, total: nat, data: Seq<u8>) -> Seq<u8> {
    id_bytes(id) + be16(i as u16) + be16(total as u16) + chunk_of(data, i)
}

/// The fragments of the message `data` with identifier `id`, in order.
pub open spec fn spec_fragment(id: u128, data: Seq<u8>) -> Seq<Seq<u8>> {
    Seq::new(fragment_count(data.len()), |i: int| fragment_bytes(id, i, fragment_count(data.len()), data))
}

/// Appends `src[start..end]` to `out`.
pub(crate) fn append_range(out: &mut Vec<u8>, src: &[u8], start: usize, end: usize)
    requires
        start <= end <= src@.len(),
    ensures
        final(out)@ == old(out)@ + src@.subrange(start as int, end as int),
{
    let mut k = start;
    while k < end
        invariant
            start <= k <= end <= src@.len(),
            out@ == old(out)@ + src@.subrange(start as int, k as int),
        decreases end - k,
    {
        out.push(src[k]);
        k = k + 1;
        assert(out@ =~= old(out)@ + src@.subrange(start as int, k as int));
    }
}

/// Splits `data` into fragments of at most `CHUNK` bytes, each behind a
/// header naming the message, the fragment's index and the fragment count.
pub fn fragment(msg_id: u128, data: &[u8]) -> (parts: Vec<Vec<u8>>)
    ensures
        parts@.len() == fragment_count(data@.len()),
        forall|i: int| 0 <= i < parts@.len() ==> #[trigger] parts@[i]@ == spec_fragment(msg_id, data@)[i],
{
    let len = data.len();
    let total: usize = len / CHUNK + if len % CHUNK == 0 { 0 } else { 1 };
    proof {
        assert(total == fragment_count(len as nat)) by (nonlinear_arith)
            requires
                total == len / 160 + if len % 160 == 0 { 0int } else { 1int },
                fragment_count(len as nat) == ((len + 160 - 1) / 160 as int) as nat,
        ;
    }
    let id = msg_id_to_bytes(msg_id);
    let total16 = total as u16;
    let mut parts: Vec<Vec<u8>> = Vec::new();
    let mut i: usize = 0;
    while i < total
        invariant
            total == fragment_count(len as nat),
            len == data@.len(),
            total16 == total as u16,
            id@ == id_bytes(msg_id),
            0 <= i <= total,
            parts@.len() == i,
            forall|j: int| 0 <= j < i ==> #[trigger] parts@[j]@ == fragment_bytes(msg_id, j, total as nat, data@),
        decreases total - i,
    {
        proof {
            assert(i * 160 < len) by (nonlinear_arith)
                requires
                    i < total,
                    total == ((len + 160 - 1) / 160 as int),
            ;
        }
        let start = i * CHUNK;
        let end = if len - start >= CHUNK { start + CHUNK } else { len };
        let index16 = i as u16;
        let mut out: Vec<u8> = Vec::new();
        append_range(&mut out, &id, 0, 16);
        out.push((index16 >> 8u16) as u8);
        out.push(index16 as u8);
        out.push((total16 >> 8u16) as u8);
        out.push(total16 as u8);
        append_range(&mut out, data, start, end);
        proof {
            assert(id@.subrange(0, 16) =~= id@);
            assert(out@ =~= fragment_bytes(msg_id, i as int, total as nat, data@));
        }
        parts.push(out);
        i = i + 1;
    }
    proof {
        assert forall|j: int| 0 <= j < parts@.len() implies #[trigger] parts@[j]@ == spec_fragment(msg_id, data@)[j] by {
        }
    }
    parts
}

} // verus!
