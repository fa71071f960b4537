//! Append-only byte-buffer primitives: booleans, little-endian 16-bit
//! integers, and length-prefixed sub-blobs.

use vstd::prelude::*;

verus! {

/// The two-byte little-endian encoding of a 16-bit value.
pub open spec fn le16(v: u16) -> Seq<u8> {
    seq![(v & 0xff) as u8, (v >> 8) as u8]
}

/// A length-prefixed sub-blob: the blob's length as little-endian `u16`,
/// followed by the blob itself.
pub open spec fn substr_bytes(src: Seq<u8>) -> Seq<u8>
    recommends
        src.len() <= 0xffff,
{
    le16(src.len() as u16) + src
}

/// Appends a boolean as a single byte, `1` for true and `0` for false.
pub fn add_bool(dest: &mut Vec<u8>, val: bool)
    ensures
        final(dest)@ == old(dest)@.push(if val { 1u8 } else { 0u8 }),
{
    dest.push(if val { 1u8 } else { 0u8 });
}

/// Appends a 16-bit value in little-endian byte order.
pub fn add_u16(dest: &mut Vec<u8>, val: u16)
    ensures
        final(dest)@ == old(dest)@ + le16(val),
{
    dest.push((val & 0xff) as u8);
    dest.push((val >> 8) as u8);
    proof {
        assert(final(dest)@ =~= old(dest)@ + le16(val));
    }
}

/// Appends `src` as a length-prefixed sub-blob: its length as a little-endian
/// `u16`, then its bytes.
pub fn add_substr(dest: &mut Vec<u8>, src: &Vec<u8>)
    requires
        src@.len() <= 0xffff,
    ensures
        final(dest)@ == old(dest)@ + substr_bytes(src@),
{
    add_u16(dest, src.len() as u16);
    let mut i: usize = 0;
    while i < src.len()
        invariant
            i <= src@.len(),
            src@.len() <= 0xffff,
            dest@ == old(dest)@ + le16(src@.len() as u16) + src@.subrange(0, i as int),
        decreases src@.len() - i,
    {
        dest.push(src[i]);
        i = i + 1;
        proof {
            assert(dest@ =~= old(dest)@ + le16(src@.len() as u16) + src@.subrange(
                0,
                i as int,
            ));
        }
    }
    proof {
        assert(src@.subrange(0, src@.len() as int) =~= src@);
        assert(dest@ =~= old(dest)@ + substr_bytes(src@));
    }
}

} // verus!
