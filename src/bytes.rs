use vstd::prelude::*;

verus! {

/// The two bytes of `n` (taken modulo 2^16), most significant first.
pub open spec fn be16(n: int) -> Seq<u8> {
    seq![((n % 65536) / 256) as u8, (n % 256) as u8]
}

/// Relies on byteorder's `BigEndian::read_u16`: the first two bytes of the
/// buffer, most significant first (it panics on fewer than two).
#[verifier::external_body]
pub(crate) fn read_be16(buf: &[u8]) -> (r: u16)
    requires
        buf@.len() >= 2,
    ensures
        r as int == buf@[0] as int * 256 + buf@[1] as int,
{
    <byteorder::BigEndian as byteorder::ByteOrder>::read_u16(buf)
}

/// Relies on byteorder's `BigEndian::write_u16`: it stores `n` in the first two
/// bytes of the buffer, most significant first.
#[verifier::external_body]
pub(crate) fn write_be16(n: u16) -> (r: Vec<u8>)
    ensures
        r@ == be16(n as int),
{
    let mut buf = vec![0u8; 2];
    <byteorder::BigEndian as byteorder::ByteOrder>::write_u16(&mut buf, n);
    buf
}

/// Appends `src[from..to]` to `dst`.
pub(crate) fn append_range(dst: &mut Vec<u8>, src: &[u8], from: usize, to: usize)
    requires
        from <= to <= src@.len(),
    ensures
        final(dst)@ == old(dst)@ + src@.subrange(from as int, to as int),
{
    let mut i: usize = from;
    while i < to
        invariant
            from <= i <= to <= src@.len(),
            dst@ == old(dst)@ + src@.subrange(from as int, i as int),
        decreases to - i,
    {
        dst.push(src[i]);
        assert(src@.subrange(from as int, i + 1) == src@.subrange(from as int, i as int).push(src@[i as int]));
        i = i + 1;
    }
}

} // verus!
