//! A zlib stream whose deflate data is made of stored (uncompressed) blocks.

use vstd::prelude::*;
use vstd::arithmetic::div_mod::lemma_div_plus_one;

use crate::bytes::{be_bytes, push_be, push_range};

verus! {

/// The largest payload written into a single stored block.
pub const STORED_BLOCK_MAX: usize = 65530;

/// The Adler-32 checksum of `data`.
pub uninterp spec fn adler32_of(data: Seq<u8>) -> u32;

/// Relies on adler32's `RollingAdler32::from_buffer` followed by `hash`:
/// the zlib Adler-32 checksum of the whole buffer.
#[verifier::external_body]
fn adler32_checksum(data: &[u8]) -> (r: u32)
    ensures
        r == adler32_of(data@),
{
    adler32::RollingAdler32::from_buffer(data).hash()
}

/// The five bytes that open a stored block: the final-block flag, then the
/// payload length and its one's complement, each little-endian.
pub open spec fn block_header(last: bool, len: nat) -> Seq<u8> {
    seq![
        if last { 1u8 } else { 0u8 },
        (len % 0x100) as u8,
        ((len / 0x100) % 0x100) as u8,
        (0xff - len % 0x100) as u8,
        (0xff - (len / 0x100) % 0x100) as u8,
    ]
}

/// `data` cut into stored blocks of at most `STORED_BLOCK_MAX` bytes, the
/// last of them flagged as final. Empty data gives no block at all.
pub open spec fn stored_blocks(data: Seq<u8>) -> Seq<u8>
    decreases data.len(),
{
    if data.len() == 0 {
        seq![]
    } else if data.len() <= STORED_BLOCK_MAX {
        block_header(true, data.len()) + data
    } else {
        block_header(false, STORED_BLOCK_MAX as nat) + data.take(STORED_BLOCK_MAX as int)
            + stored_blocks(data.skip(STORED_BLOCK_MAX as int))
    }
}

/// The two-byte zlib header (deflate, 32K window, no dictionary).
pub open spec fn zlib_header() -> Seq<u8> {
    seq![0x78u8, 0x01u8]
}

/// A zlib stream carrying `data` in stored blocks, closed by `checksum`.
pub open spec fn zlib_stored(data: Seq<u8>, checksum: u32) -> Seq<u8> {
    zlib_header() + stored_blocks(data) + be_bytes(checksum)
}

/// Each stored block adds five bytes of framing to at most
/// `STORED_BLOCK_MAX` bytes of payload.
pub proof fn lemma_stored_blocks_len(data: Seq<u8>)
    ensures
        stored_blocks(data).len() <= data.len() + 5 * (data.len() / STORED_BLOCK_MAX as nat) + 5,
    decreases data.len(),
{
    if data.len() > STORED_BLOCK_MAX {
        let rest = data.skip(STORED_BLOCK_MAX as int);
        lemma_stored_blocks_len(rest);
        lemma_div_plus_one(rest.len() as int, STORED_BLOCK_MAX as int);
        assert(rest.len() + STORED_BLOCK_MAX == data.len());
    }
}

/// Appends the five header bytes of a stored block.
fn push_block_header(out: &mut Vec<u8>, last: bool, len: usize)
    requires
        len <= STORED_BLOCK_MAX,
    ensures
        final(out)@ == old(out)@ + block_header(last, len as nat),
{
    let flag: u8 = if last { 1 } else { 0 };
    let low: u8 = (len % 0x100) as u8;
    let high: u8 = ((len / 0x100) % 0x100) as u8;
    out.push(flag);
    out.push(low);
    out.push(high);
    out.push(0xff - low);
    out.push(0xff - high);
    assert(out@ =~= old(out)@ + block_header(last, len as nat));
}

/// Frames `data` as a zlib stream of stored blocks closed by the given
/// checksum.
pub fn frame_stored(data: &[u8], checksum: u32) -> (r: Vec<u8>)
    ensures
        r@ == zlib_stored(data@, checksum),
{
    let mut out: Vec<u8> = Vec::new();
    out.push(0x78);
    out.push(0x01);
    assert(out@ =~= zlib_header());
    let len = data.len();
    let mut start: usize = 0;
    assert(data@.skip(0) =~= data@);
    while start < len
        invariant
            len == data@.len(),
            start <= len,
            out@ + stored_blocks(data@.skip(start as int)) == zlib_header() + stored_blocks(
                data@,
            ),
        decreases len - start,
    {
        let ghost before = out@;
        let ghost rest = data@.skip(start as int);
        let remaining = len - start;
        if remaining <= STORED_BLOCK_MAX {
            push_block_header(&mut out, true, remaining);
            push_range(&mut out, data, start, len);
            assert(rest =~= data@.subrange(start as int, len as int));
            assert(data@.skip(len as int) =~= Seq::<u8>::empty());
            assert(out@ + stored_blocks(data@.skip(len as int)) =~= before + stored_blocks(rest));
            start = len;
        } else {
            let next = start + STORED_BLOCK_MAX;
            push_block_header(&mut out, false, STORED_BLOCK_MAX);
            push_range(&mut out, data, start, next);
            assert(rest.take(STORED_BLOCK_MAX as int) =~= data@.subrange(start as int, next as int));
            assert(rest.skip(STORED_BLOCK_MAX as int) =~= data@.skip(next as int));
            assert(out@ + stored_blocks(data@.skip(next as int)) =~= before + stored_blocks(rest));
            start = next;
        }
    }
    assert(data@.skip(len as int) =~= Seq::<u8>::empty());
    assert(out@ =~= zlib_header() + stored_blocks(data@));
    push_be(&mut out, checksum);
    out
}

/// Wraps `data` in a zlib stream of stored blocks, closed by the Adler-32
/// checksum of `data`.
pub fn compress(data: &[u8]) -> (r: Vec<u8>)
    ensures
        r@ == zlib_stored(data@, adler32_of(data@)),
{
    let checksum = adler32_checksum(data);
    frame_stored(data, checksum)
}

} // verus!
