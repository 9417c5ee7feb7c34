//! The persistence codec's byte-level building blocks: fixed little-endian
//! encodings of 32-bit and 64-bit integers, reads and writes of them at byte
//! offsets in a backing linear store, and the round-trip lemmas the record
//! codecs are proved from.

use vstd::prelude::*;

verus! {

/// The four little-endian bytes of `v`.
pub open spec fn u32_le_bytes(v: u32) -> Seq<u8> {
    seq![
        (v & 0xff) as u8,
        ((v >> 8) & 0xff) as u8,
        ((v >> 16) & 0xff) as u8,
        ((v >> 24) & 0xff) as u8,
    ]
}

/// The 32-bit value held by four little-endian bytes.
pub open spec fn u32_from_le(b0: u8, b1: u8, b2: u8, b3: u8) -> u32 {
    (b0 as u32) | ((b1 as u32) << 8) | ((b2 as u32) << 16) | ((b3 as u32) << 24)
}

/// The eight little-endian bytes of `v`.
pub open spec fn u64_le_bytes(v: u64) -> Seq<u8> {
    seq![
        (v & 0xff) as u8,
        ((v >> 8) & 0xff) as u8,
        ((v >> 16) & 0xff) as u8,
        ((v >> 24) & 0xff) as u8,
        ((v >> 32) & 0xff) as u8,
        ((v >> 40) & 0xff) as u8,
        ((v >> 48) & 0xff) as u8,
        ((v >> 56) & 0xff) as u8,
    ]
}

/// The 64-bit value held by eight little-endian bytes.
pub open spec fn u64_from_le(
    b0: u8,
    b1: u8,
    b2: u8,
    b3: u8,
    b4: u8,
    b5: u8,
    b6: u8,
    b7: u8,
) -> u64 {
    (b0 as u64) | ((b1 as u64) << 8) | ((b2 as u64) << 16) | ((b3 as u64) << 24) | ((b4 as u64)
        << 32) | ((b5 as u64) << 40) | ((b6 as u64) << 48) | ((b7 as u64) << 56)
}

/// Decoding the four little-endian bytes of a 32-bit value gives it back.
pub proof fn lemma_u32_le_roundtrip(v: u32)
    ensures
        u32_from_le(u32_le_bytes(v)[0], u32_le_bytes(v)[1], u32_le_bytes(v)[2], u32_le_bytes(v)[3])
            == v,
{
    assert(((v & 0xff) as u8 as u32) | ((((v >> 8) & 0xff) as u8 as u32) << 8) | ((((v >> 16)
        & 0xff) as u8 as u32) << 16) | ((((v >> 24) & 0xff) as u8 as u32) << 24) == v)
        by (bit_vector);
}

/// Decoding the eight little-endian bytes of a 64-bit value gives it back.
pub proof fn lemma_u64_le_roundtrip(v: u64)
    ensures
        u64_from_le(
            u64_le_bytes(v)[0],
            u64_le_bytes(v)[1],
            u64_le_bytes(v)[2],
            u64_le_bytes(v)[3],
            u64_le_bytes(v)[4],
            u64_le_bytes(v)[5],
            u64_le_bytes(v)[6],
            u64_le_bytes(v)[7],
        ) == v,
{
    assert(((v & 0xff) as u8 as u64) | ((((v >> 8) & 0xff) as u8 as u64) << 8) | ((((v >> 16)
        & 0xff) as u8 as u64) << 16) | ((((v >> 24) & 0xff) as u8 as u64) << 24) | ((((v >> 32)
        & 0xff) as u8 as u64) << 32) | ((((v >> 40) & 0xff) as u8 as u64) << 40) | ((((v >> 48)
        & 0xff) as u8 as u64) << 48) | ((((v >> 56) & 0xff) as u8 as u64) << 56) == v)
        by (bit_vector);
}

/// Appends the four little-endian bytes of `v`.
pub fn push_u32_le(buf: &mut Vec<u8>, v: u32)
    ensures
        final(buf)@ == old(buf)@ + u32_le_bytes(v),
{
    buf.push((v & 0xff) as u8);
    buf.push(((v >> 8) & 0xff) as u8);
    buf.push(((v >> 16) & 0xff) as u8);
    buf.push(((v >> 24) & 0xff) as u8);
    proof {
        assert(buf@ =~= old(buf)@ + u32_le_bytes(v));
    }
}

/// Appends the eight little-endian bytes of `v`.
pub fn push_u64_le(buf: &mut Vec<u8>, v: u64)
    ensures
        final(buf)@ == old(buf)@ + u64_le_bytes(v),
{
    buf.push((v & 0xff) as u8);
    buf.push(((v >> 8) & 0xff) as u8);
    buf.push(((v >> 16) & 0xff) as u8);
    buf.push(((v >> 24) & 0xff) as u8);
    buf.push(((v >> 32) & 0xff) as u8);
    buf.push(((v >> 40) & 0xff) as u8);
    buf.push(((v >> 48) & 0xff) as u8);
    buf.push(((v >> 56) & 0xff) as u8);
    proof {
        assert(buf@ =~= old(buf)@ + u64_le_bytes(v));
    }
}

/// Reads the 32-bit value whose little-endian bytes sit at `offset`.
pub fn read_u32_le(store: &Vec<u8>, offset: usize) -> (r: u32)
    requires
        offset + 4 <= store@.len(),
    ensures
        r == u32_from_le(
            store@[offset as int],
            store@[offset + 1],
            store@[offset + 2],
            store@[offset + 3],
        ),
{
    let n = store.len();
    proof {
        assert(offset + 4 <= n);
    }
    (store[offset] as u32) | ((store[offset + 1] as u32) << 8) | ((store[offset + 2] as u32) << 16)
        | ((store[offset + 3] as u32) << 24)
}

/// Reads the 64-bit value whose little-endian bytes sit at `offset`.
pub fn read_u64_le(store: &Vec<u8>, offset: usize) -> (r: u64)
    requires
        offset + 8 <= store@.len(),
    ensures
        r == u64_from_le(
            store@[offset as int],
            store@[offset + 1],
            store@[offset + 2],
            store@[offset + 3],
            store@[offset + 4],
            store@[offset + 5],
            store@[offset + 6],
            store@[offset + 7],
        ),
{
    let n = store.len();
    proof {
        assert(offset + 8 <= n);
    }
    (store[offset] as u64) | ((store[offset + 1] as u64) << 8) | ((store[offset + 2] as u64) << 16)
        | ((store[offset + 3] as u64) << 24) | ((store[offset + 4] as u64) << 32) | ((store[offset
        + 5] as u64) << 40) | ((store[offset + 6] as u64) << 48) | ((store[offset + 7] as u64)
        << 56)
}

/// Overwrites exactly `data.len()` bytes of the store at `offset`, leaving
/// every byte outside that slot untouched.
pub fn write_bytes_at(store: &mut Vec<u8>, offset: usize, data: &Vec<u8>)
    requires
        offset + data@.len() <= old(store)@.len(),
    ensures
        final(store)@.len() == old(store)@.len(),
        forall|k: int| 0 <= k < data@.len() ==> final(store)@[offset + k] == data@[k],
        forall|k: int|
            0 <= k < old(store)@.len() && !(offset <= k < offset + data@.len())
                ==> final(store)@[k] == old(store)@[k],
{
    let n = data.len();
    let total = store.len();
    let mut i: usize = 0;
    while i < n
        invariant
            n == data@.len(),
            offset + n <= old(store)@.len(),
            total == store@.len(),
            store@.len() == old(store)@.len(),
            i <= n,
            forall|k: int| 0 <= k < i ==> store@[offset + k] == data@[k],
            forall|k: int|
                0 <= k < old(store)@.len() && !(offset <= k < offset + i) ==> store@[k] == old(
                    store,
                )@[k],
        decreases n - i,
    {
        store.set(offset + i, data[i]);
        i += 1;
    }
}

} // verus!
