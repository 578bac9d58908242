//! Wire encoding of a 6-DOF pose.
//!
//! The pose crosses the network as one 48-byte datagram: six consecutive
//! 64-bit words, each little-endian.  The library produces and proves the
//! byte layout on the words' bit patterns; binding the socket and sending
//! the datagram stay outside.

use vstd::prelude::*;

verus! {

/// Number of bytes in one encoded pose datagram.
pub const WIRE_LEN: usize = 48;

/// Byte `j` of the little-endian encoding of `v`.
pub open spec fn wire_byte(v: u64, j: int) -> u8 {
    ((v >> ((8 * j) as u64)) & 0xff) as u8
}

/// The word assembled from bytes `8i .. 8i + j` of a wire payload.
pub open spec fn word_partial(s: Seq<u8>, i: int, j: int) -> u64
    decreases j,
{
    if j <= 0 {
        0u64
    } else {
        word_partial(s, i, j - 1) | ((s[8 * i + (j - 1)] as u64) << ((8 * (j - 1)) as u64))
    }
}

/// Word `i` of a wire payload: eight little-endian bytes reassembled.
pub open spec fn word_spec(s: Seq<u8>, i: int) -> u64 {
    word_partial(s, i, 8)
}

/// Encodes six 64-bit words as a 48-byte payload, little-endian.
pub fn emit(pose: &[u64; 6]) -> (r: Vec<u8>)
    ensures
        r@.len() == WIRE_LEN,
        forall|i: int, j: int| 0 <= i < 6 && 0 <= j < 8
            ==> r@[8 * i + j] == wire_byte(pose[i], j),
{
    let mut out: Vec<u8> = Vec::new();
    let mut i: usize = 0;
    while i < 6
        invariant
            0 <= i <= 6,
            out@.len() == 8 * i,
            forall|k: int, j: int| 0 <= k < i && 0 <= j < 8
                ==> out@[8 * k + j] == wire_byte(pose[k], j),
        decreases 6 - i,
    {
        let v: u64 = pose[i];
        let mut j: usize = 0;
        while j < 8
            invariant
                0 <= i < 6,
                0 <= j <= 8,
                v == pose[i as int],
                out@.len() == 8 * i + j,
                forall|k: int, jj: int| 0 <= k < i && 0 <= jj < 8
                    ==> out@[8 * k + jj] == wire_byte(pose[k], jj),
                forall|jj: int| 0 <= jj < j ==> out@[8 * i + jj] == wire_byte(pose[i as int], jj),
            decreases 8 - j,
        {
            let shift: u64 = (8 * j) as u64;
            let b: u8 = ((v >> shift) & 0xff) as u8;
            out.push(b);
            j = j + 1;
        }
        i = i + 1;
    }
    out
}

/// Decodes a 48-byte payload back into six 64-bit words.
pub fn decode(bytes: &Vec<u8>) -> (r: Vec<u64>)
    requires
        bytes@.len() == WIRE_LEN,
    ensures
        r@.len() == 6,
        forall|i: int| 0 <= i < 6 ==> r@[i] == word_spec(bytes@, i),
{
    let mut out: Vec<u64> = Vec::new();
    let mut i: usize = 0;
    while i < 6
        invariant
            bytes@.len() == WIRE_LEN,
            0 <= i <= 6,
            out@.len() == i,
            forall|k: int| 0 <= k < i ==> out@[k] == word_spec(bytes@, k),
        decreases 6 - i,
    {
        let mut w: u64 = 0;
        let mut j: usize = 0;
        while j < 8
            invariant
                bytes@.len() == WIRE_LEN,
                0 <= i < 6,
                0 <= j <= 8,
                w == word_partial(bytes@, i as int, j as int),
            decreases 8 - j,
        {
            let shift: u64 = (8 * j) as u64;
            let b: u8 = bytes[8 * i + j];
            w = w | ((b as u64) << shift);
            j = j + 1;
        }
        out.push(w);
        i = i + 1;
    }
    out
}

/// Reassembling the eight little-endian bytes of a word gives the word
/// back.
proof fn lemma_assemble(v: u64, b0: u8, b1: u8, b2: u8, b3: u8, b4: u8, b5: u8, b6: u8, b7: u8)
    requires
        b0 == ((v >> 0u64) & 0xff) as u8,
        b1 == ((v >> 8u64) & 0xff) as u8,
        b2 == ((v >> 16u64) & 0xff) as u8,
        b3 == ((v >> 24u64) & 0xff) as u8,
        b4 == ((v >> 32u64) & 0xff) as u8,
        b5 == ((v >> 40u64) & 0xff) as u8,
        b6 == ((v >> 48u64) & 0xff) as u8,
        b7 == ((v >> 56u64) & 0xff) as u8,
    ensures
        (((((((0u64 | ((b0 as u64) << 0u64)) | ((b1 as u64) << 8u64)) | ((b2 as u64) << 16u64))
            | ((b3 as u64) << 24u64)) | ((b4 as u64) << 32u64)) | ((b5 as u64) << 40u64)) | ((
        b6 as u64) << 48u64)) | ((b7 as u64) << 56u64) == v,
{
    assert((((((((0u64 | ((b0 as u64) << 0u64)) | ((b1 as u64) << 8u64)) | ((b2 as u64)
        << 16u64)) | ((b3 as u64) << 24u64)) | ((b4 as u64) << 32u64)) | ((b5 as u64) << 40u64))
        | ((b6 as u64) << 48u64)) | ((b7 as u64) << 56u64) == v) by (bit_vector)
        requires
            b0 == ((v >> 0u64) & 0xff) as u8,
            b1 == ((v >> 8u64) & 0xff) as u8,
            b2 == ((v >> 16u64) & 0xff) as u8,
            b3 == ((v >> 24u64) & 0xff) as u8,
            b4 == ((v >> 32u64) & 0xff) as u8,
            b5 == ((v >> 40u64) & 0xff) as u8,
            b6 == ((v >> 48u64) & 0xff) as u8,
            b7 == ((v >> 56u64) & 0xff) as u8,
    ;
}

/// Round trip: decoding word `i` of an encoded payload gives back the
/// word that was emitted.
pub proof fn lemma_wire_round_trip(pose: Seq<u64>, bytes: Seq<u8>, i: int)
    requires
        pose.len() == 6,
        bytes.len() == WIRE_LEN,
        0 <= i < 6,
        forall|k: int, j: int| 0 <= k < 6 && 0 <= j < 8 ==> bytes[8 * k + j] == wire_byte(
            pose[k],
            j,
        ),
    ensures
        word_spec(bytes, i) == pose[i],
{
    let v = pose[i];
    assert(bytes[8 * i + 0] == wire_byte(v, 0));
    assert(bytes[8 * i + 1] == wire_byte(v, 1));
    assert(bytes[8 * i + 2] == wire_byte(v, 2));
    assert(bytes[8 * i + 3] == wire_byte(v, 3));
    assert(bytes[8 * i + 4] == wire_byte(v, 4));
    assert(bytes[8 * i + 5] == wire_byte(v, 5));
    assert(bytes[8 * i + 6] == wire_byte(v, 6));
    assert(bytes[8 * i + 7] == wire_byte(v, 7));
    lemma_assemble(
        v,
        bytes[8 * i + 0],
        bytes[8 * i + 1],
        bytes[8 * i + 2],
        bytes[8 * i + 3],
        bytes[8 * i + 4],
        bytes[8 * i + 5],
        bytes[8 * i + 6],
        bytes[8 * i + 7],
    );
    assert(word_partial(bytes, i, 0) == 0u64);
    assert(word_partial(bytes, i, 1) == word_partial(bytes, i, 0) | ((bytes[8 * i + 0] as u64)
        << 0u64));
    assert(word_partial(bytes, i, 2) == word_partial(bytes, i, 1) | ((bytes[8 * i + 1] as u64)
        << 8u64));
    assert(word_partial(bytes, i, 3) == word_partial(bytes, i, 2) | ((bytes[8 * i + 2] as u64)
        << 16u64));
    assert(word_partial(bytes, i, 4) == word_partial(bytes, i, 3) | ((bytes[8 * i + 3] as u64)
        << 24u64));
    assert(word_partial(bytes, i, 5) == word_partial(bytes, i, 4) | ((bytes[8 * i + 4] as u64)
        << 32u64));
    assert(word_partial(bytes, i, 6) == word_partial(bytes, i, 5) | ((bytes[8 * i + 5] as u64)
        << 40u64));
    assert(word_partial(bytes, i, 7) == word_partial(bytes, i, 6) | ((bytes[8 * i + 6] as u64)
        << 48u64));
    assert(word_partial(bytes, i, 8) == word_partial(bytes, i, 7) | ((bytes[8 * i + 7] as u64)
        << 56u64));
}

} // verus!
