use vstd::prelude::*;

verus! {

/// The four bytes of `v` in big-endian order (most significant first).
pub open spec fn be_bytes(v: u32) -> Seq<u8> {
    seq![
        (v / 0x100_0000) as u8,
        (v / 0x1_0000 % 0x100) as u8,
        (v / 0x100 % 0x100) as u8,
        (v % 0x100) as u8,
    ]
}

/// The number whose big-endian encoding is the first four bytes of `b`.
pub open spec fn be_value(b: Seq<u8>) -> u32
    recommends
        b.len() >= 4,
{
    (b[0] * 0x100_0000int + b[1] * 0x1_0000int + b[2] * 0x100int + b[3]) as u32
}

/// Decoding the encoding of a number gives the number back.
pub proof fn lemma_be_value_of_bytes(v: u32)
    ensures
        be_value(be_bytes(v)) == v,
        be_bytes(v).len() == 4,
{
}

/// Encoding the value of four bytes gives those bytes back.
pub proof fn lemma_be_bytes_of_value(b: Seq<u8>)
    requires
        b.len() == 4,
    ensures
        be_bytes(be_value(b)) == b,
{
    let (b0, b1, b2, b3) = (b[0], b[1], b[2], b[3]);
    assert({
        let v: u32 = (b0 * 0x100_0000int + b1 * 0x1_0000int + b2 * 0x100int + b3) as u32;
        &&& (v / 0x100_0000) as u8 == b0
        &&& (v / 0x1_0000 % 0x100) as u8 == b1
        &&& (v / 0x100 % 0x100) as u8 == b2
        &&& (v % 0x100) as u8 == b3
    }) by (bit_vector);
    assert(be_bytes(be_value(b)) =~= b);
}

/// Writes `v` as four big-endian bytes.
pub fn u32_to_be_bytes(v: u32) -> (r: [u8; 4])
    ensures
        r@ == be_bytes(v),
{
    let r = [(v / 0x100_0000) as u8, (v / 0x1_0000 % 0x100) as u8, (v / 0x100 % 0x100) as u8, (v % 0x100) as u8];
    assert(r@ =~= be_bytes(v));
    r
}

/// Reads four big-endian bytes starting at `pos`.
pub fn u32_from_be_bytes(b: &[u8], pos: usize) -> (r: u32)
    requires
        pos + 4 <= b@.len(),
    ensures
        r == be_value(b@.subrange(pos as int, pos + 4)),
{
    let v: u32 = (b[pos] as u32) * 0x100_0000 + (b[pos + 1] as u32) * 0x1_0000 + (b[pos + 2] as u32) * 0x100 + (b[pos + 3] as u32);
    v
}

/// Appends the bytes of `s` to `v`.
pub fn extend_bytes(v: &mut Vec<u8>, s: &[u8])
    ensures
        final(v)@ == old(v)@ + s@,
{
    let mut i: usize = 0;
    while i < s.len()
        invariant
            i <= s@.len(),
            v@ == old(v)@ + s@.subrange(0, i as int),
        decreases s@.len() - i,
    {
        v.push(s[i]);
        i = i + 1;
        assert(v@ =~= old(v)@ + s@.subrange(0, i as int));
    }
    assert(s@.subrange(0, s@.len() as int) =~= s@);
}

/// A new vector holding the bytes of `s`.
pub fn bytes_to_vec(s: &[u8]) -> (v: Vec<u8>)
    ensures
        v@ == s@,
{
    let mut v: Vec<u8> = Vec::new();
    extend_bytes(&mut v, s);
    assert(v@ =~= s@);
    v
}

} // verus!
