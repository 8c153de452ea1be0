//! Fixed-width big-endian encoding of 32-bit fields.

use vstd::prelude::*;

verus! {

/// The four bytes of `value`, most significant first.
pub open spec fn be_bytes(value: u32) -> Seq<u8> {
    seq![
        (value / 0x100_0000) as u8,
        ((value / 0x1_0000) % 0x100) as u8,
        ((value / 0x100) % 0x100) as u8,
        (value % 0x100) as u8,
    ]
}

/// Splits `value` into its four bytes, most significant first.
pub fn to_bytes_big_endian(value: u32) -> (r: [u8; 4])
    ensures
        r@ == be_bytes(value),
{
    let r = [(value >> 24) as u8, (value >> 16) as u8, (value >> 8) as u8, value as u8];
    proof {
        assert((value >> 24) as u8 == (value / 0x100_0000) as u8) by (bit_vector);
        assert((value >> 16) as u8 == ((value / 0x1_0000) % 0x100) as u8) by (bit_vector);
        assert((value >> 8) as u8 == ((value / 0x100) % 0x100) as u8) by (bit_vector);
        assert(value as u8 == (value % 0x100) as u8) by (bit_vector);
        assert(r@ =~= be_bytes(value));
    }
    r
}

/// Appends the four big-endian bytes of `value` to `out`.
pub fn push_be(out: &mut Vec<u8>, value: u32)
    ensures
        final(out)@ == old(out)@ + be_bytes(value),
{
    let b = to_bytes_big_endian(value);
    out.push(b[0]);
    out.push(b[1]);
    out.push(b[2]);
    out.push(b[3]);
    assert(out@ =~= old(out)@ + be_bytes(value));
}

/// Appends `data[from..to]` to `out`.
pub fn push_range(out: &mut Vec<u8>, data: &[u8], from: usize, to: usize)
    requires
        from <= to <= data@.len(),
    ensures
        final(out)@ == old(out)@ + data@.subrange(from as int, to as int),
{
    let ghost start = out@;
    let mut k: usize = from;
    while k < to
        invariant
            from <= k <= to <= data@.len(),
            out@ == start + data@.subrange(from as int, k as int),
        decreases to - k,
    {
        out.push(data[k]);
        k = k + 1;
        assert(out@ =~= start + data@.subrange(from as int, k as int));
    }
}

} // verus!
