//! Little- and big-endian byte encodings of integers, and helpers that
//! append or overwrite them in byte buffers.
use vstd::prelude::*;

verus! {

/// The two bytes of `v`, least significant first.
pub open spec fn le16(v: u16) -> Seq<u8> {
    seq![(v & 0xff) as u8, ((v >> 8) & 0xff) as u8]
}

/// The four bytes of `v`, least significant first.
pub open spec fn le32(v: u32) -> Seq<u8> {
    seq![(v & 0xff) as u8, ((v >> 8) & 0xff) as u8, ((v >> 16) & 0xff) as u8, ((v >> 24) & 0xff) as u8]
}

/// The eight bytes of `v`, least significant first.
pub open spec fn le64(v: u64) -> Seq<u8> {
    le32((v & 0xffff_ffff) as u32) + le32((v >> 32) as u32)
}

/// The two bytes of `v`, most significant first.
pub open spec fn be16(v: u16) -> Seq<u8> {
    seq![((v >> 8) & 0xff) as u8, (v & 0xff) as u8]
}

/// The four bytes of `v`, most significant first.
pub open spec fn be32(v: u32) -> Seq<u8> {
    seq![((v >> 24) & 0xff) as u8, ((v >> 16) & 0xff) as u8, ((v >> 8) & 0xff) as u8, (v & 0xff) as u8]
}

/// `n` zero bytes.
pub open spec fn zeros(n: nat) -> Seq<u8> {
    Seq::new(n, |i: int| 0u8)
}

/// The 16-bit value stored little-endian at `off` in `s`.
pub open spec fn get_le16(s: Seq<u8>, off: int) -> u16 {
    (s[off] as u16) | ((s[off + 1] as u16) << 8)
}

/// The 32-bit value stored little-endian at `off` in `s`.
pub open spec fn get_le32(s: Seq<u8>, off: int) -> u32 {
    (s[off] as u32) | ((s[off + 1] as u32) << 8) | ((s[off + 2] as u32) << 16) | ((s[off + 3] as u32)
        << 24)
}

/// The 64-bit value stored little-endian at `off` in `s`.
pub open spec fn get_le64(s: Seq<u8>, off: int) -> u64 {
    (get_le32(s, off) as u64) | ((get_le32(s, off + 4) as u64) << 32)
}

/// `img` grown with zeros to at least `n` bytes.
pub open spec fn grown(img: Seq<u8>, n: int) -> Seq<u8> {
    if img.len() < n { img + zeros((n - img.len()) as nat) } else { img }
}

/// `s` with the bytes from `off` on replaced by `b`.
pub open spec fn splice(s: Seq<u8>, off: int, b: Seq<u8>) -> Seq<u8> {
    s.take(off) + b + s.skip(off + b.len())
}

/// Reading back a little-endian 16-bit encoding gives the value.
pub proof fn lemma_le16_roundtrip(v: u16, s: Seq<u8>, off: int)
    requires
        0 <= off,
        off + 2 <= s.len(),
        s.subrange(off, off + 2) == le16(v),
    ensures
        get_le16(s, off) == v,
{
    assert(s[off] == s.subrange(off, off + 2)[0]);
    assert(s[off + 1] == s.subrange(off, off + 2)[1]);
    let b0 = (v & 0xff) as u8;
    let b1 = ((v >> 8) & 0xff) as u8;
    assert(((b0 as u16) | ((b1 as u16) << 8)) == v) by (bit_vector)
        requires
            b0 == (v & 0xff) as u8,
            b1 == ((v >> 8) & 0xff) as u8,
    ;
}

/// Reading back a little-endian 32-bit encoding gives the value.
pub proof fn lemma_le32_roundtrip(v: u32, s: Seq<u8>, off: int)
    requires
        0 <= off,
        off + 4 <= s.len(),
        s.subrange(off, off + 4) == le32(v),
    ensures
        get_le32(s, off) == v,
{
    let t = s.subrange(off, off + 4);
    assert(s[off] == t[0] && s[off + 1] == t[1] && s[off + 2] == t[2] && s[off + 3] == t[3]);
    let b0 = (v & 0xff) as u8;
    let b1 = ((v >> 8) & 0xff) as u8;
    let b2 = ((v >> 16) & 0xff) as u8;
    let b3 = ((v >> 24) & 0xff) as u8;
    assert(((b0 as u32) | ((b1 as u32) << 8) | ((b2 as u32) << 16) | ((b3 as u32) << 24)) == v)
        by (bit_vector)
        requires
            b0 == (v & 0xff) as u8,
            b1 == ((v >> 8) & 0xff) as u8,
            b2 == ((v >> 16) & 0xff) as u8,
            b3 == ((v >> 24) & 0xff) as u8,
    ;
}

/// Reading back a little-endian 64-bit encoding gives the value.
pub proof fn lemma_le64_roundtrip(v: u64, s: Seq<u8>, off: int)
    requires
        0 <= off,
        off + 8 <= s.len(),
        s.subrange(off, off + 8) == le64(v),
    ensures
        get_le64(s, off) == v,
{
    let lo = (v & 0xffff_ffff) as u32;
    let hi = (v >> 32) as u32;
    assert(s.subrange(off, off + 4) =~= s.subrange(off, off + 8).subrange(0, 4));
    assert(s.subrange(off + 4, off + 8) =~= s.subrange(off, off + 8).subrange(4, 8));
    assert(le64(v).subrange(0, 4) =~= le32(lo));
    assert(le64(v).subrange(4, 8) =~= le32(hi));
    lemma_le32_roundtrip(lo, s, off);
    lemma_le32_roundtrip(hi, s, off + 4);
    assert(((lo as u64) | ((hi as u64) << 32)) == v) by (bit_vector)
        requires
            lo == (v & 0xffff_ffff) as u32,
            hi == (v >> 32) as u32,
    ;
}

/// Appends the little-endian encoding of `x`.
pub fn push_le16(v: &mut Vec<u8>, x: u16)
    ensures
        final(v)@ == old(v)@ + le16(x),
{
    v.push((x & 0xff) as u8);
    v.push(((x >> 8) & 0xff) as u8);
}

/// Appends the little-endian encoding of `x`.
pub fn push_le32(v: &mut Vec<u8>, x: u32)
    ensures
        final(v)@ == old(v)@ + le32(x),
{
    v.push((x & 0xff) as u8);
    v.push(((x >> 8) & 0xff) as u8);
    v.push(((x >> 16) & 0xff) as u8);
    v.push(((x >> 24) & 0xff) as u8);
}

/// Appends the little-endian encoding of `x`.
pub fn push_le64(v: &mut Vec<u8>, x: u64)
    ensures
        final(v)@ == old(v)@ + le64(x),
{
    push_le32(v, (x & 0xffff_ffff) as u32);
    push_le32(v, (x >> 32) as u32);
    assert(final(v)@ =~= old(v)@ + le64(x));
}

/// Appends the big-endian encoding of `x`.
pub fn push_be16(v: &mut Vec<u8>, x: u16)
    ensures
        final(v)@ == old(v)@ + be16(x),
{
    v.push(((x >> 8) & 0xff) as u8);
    v.push((x & 0xff) as u8);
}

/// Appends the big-endian encoding of `x`.
pub fn push_be32(v: &mut Vec<u8>, x: u32)
    ensures
        final(v)@ == old(v)@ + be32(x),
{
    v.push(((x >> 24) & 0xff) as u8);
    v.push(((x >> 16) & 0xff) as u8);
    v.push(((x >> 8) & 0xff) as u8);
    v.push((x & 0xff) as u8);
}

/// Appends `n` zero bytes.
pub fn push_zeros(v: &mut Vec<u8>, n: usize)
    ensures
        final(v)@ == old(v)@ + zeros(n as nat),
{
    let ghost start = v@;
    let mut i: usize = 0;
    while i < n
        invariant
            i <= n,
            v@ == start + zeros(i as nat),
        decreases n - i,
    {
        v.push(0u8);
        i = i + 1;
        assert(v@ =~= start + zeros(i as nat));
    }
}

/// Appends the bytes of `s`.
pub fn push_slice(v: &mut Vec<u8>, s: &[u8])
    ensures
        final(v)@ == old(v)@ + s@,
{
    let ghost start = v@;
    let mut i: usize = 0;
    while i < s.len()
        invariant
            i <= s@.len(),
            v@ == start + s@.take(i as int),
        decreases s@.len() - i,
    {
        v.push(s[i]);
        i = i + 1;
        assert(v@ =~= start + s@.take(i as int));
    }
    assert(s@.take(s@.len() as int) =~= s@);
}

/// Overwrites the bytes of `v` from `off` on with the bytes of `s`.
pub fn overwrite(v: &mut Vec<u8>, off: usize, s: &[u8])
    requires
        off + s@.len() <= old(v)@.len(),
    ensures
        final(v)@ == splice(old(v)@, off as int, s@),
        final(v)@.len() == old(v)@.len(),
{
    let ghost start = v@;
    let len = v.len();
    let mut i: usize = 0;
    while i < s.len()
        invariant
            i <= s@.len(),
            off + s@.len() <= start.len(),
            start.len() == len,
            v@.len() == start.len(),
            v@ == splice(start, off as int, s@.take(i as int)),
        decreases s@.len() - i,
    {
        v.set(off + i, s[i]);
        i = i + 1;
        assert(v@ =~= splice(start, off as int, s@.take(i as int)));
    }
    assert(s@.take(s@.len() as int) =~= s@);
}

} // verus!

verus! {

/// The bytes of a 512-byte buffer as an array.
pub fn to_array_512(v: &Vec<u8>) -> (a: [u8; 512])
    requires
        v@.len() == 512,
    ensures
        a@ == v@,
{
    let mut a = [0u8; 512];
    let mut i: usize = 0;
    while i < 512
        invariant
            i <= 512,
            v@.len() == 512,
            a@.len() == 512,
            forall|k: int| 0 <= k < i ==> a@[k] == v@[k],
        decreases 512 - i,
    {
        a[i] = v[i];
        i = i + 1;
    }
    assert(a@ =~= v@);
    a
}

/// The bytes of a 128-byte buffer as an array.
pub fn to_array_128(v: &Vec<u8>) -> (a: [u8; 128])
    requires
        v@.len() == 128,
    ensures
        a@ == v@,
{
    let mut a = [0u8; 128];
    let mut i: usize = 0;
    while i < 128
        invariant
            i <= 128,
            v@.len() == 128,
            a@.len() == 128,
            forall|k: int| 0 <= k < i ==> a@[k] == v@[k],
        decreases 128 - i,
    {
        a[i] = v[i];
        i = i + 1;
    }
    assert(a@ =~= v@);
    a
}

} // verus!

verus! {

/// A file's bytes after writing `b` at offset `off`: a write past the end
/// first fills the gap with zeros, and the file grows to hold `b`.
#[verifier::opaque]
pub open spec fn write_at_spec(f: Seq<u8>, off: int, b: Seq<u8>) -> Seq<u8> {
    let grown = if f.len() < off + b.len() { f + zeros((off + b.len() - f.len()) as nat) } else { f };
    splice(grown, off, b)
}

/// What a write at `off` leaves: the file is as long as it was or as the
/// end of the write, whichever is more; `b` stands at `off`; the bytes
/// before and after it are those of the file.
pub proof fn lemma_write_at(f: Seq<u8>, off: int, b: Seq<u8>)
    requires
        0 <= off,
    ensures
        write_at_spec(f, off, b).len() == if f.len() < off + b.len() { off + b.len() } else { f.len() as int },
        write_at_spec(f, off, b).subrange(off, off + b.len()) == b,
        forall|i: int|
            0 <= i < f.len() && !(off <= i < off + b.len()) ==> #[trigger] write_at_spec(f, off, b)[i] == f[i],
{
    reveal(write_at_spec);
    let w = write_at_spec(f, off, b);
    assert(w.subrange(off, off + b.len()) =~= b);
}

/// Writes `b` at offset `off` of the file image `f`, growing it as a seek
/// and write past the end of a file would.
pub fn write_at(f: &mut Vec<u8>, off: usize, b: &[u8])
    requires
        off + b@.len() <= usize::MAX,
    ensures
        final(f)@ == write_at_spec(old(f)@, off as int, b@),
        final(f)@.len() == if old(f)@.len() < off + b@.len() { off + b@.len() } else { old(f)@.len() as int },
{
    reveal(write_at_spec);
    let end = off + b.len();
    if f.len() < end {
        let n = end - f.len();
        push_zeros(f, n);
    }
    overwrite(f, off, b);
}

} // verus!
