//! Little-endian field access over byte sequences, stated against vstd's
//! byte-conversion specifications.
use vstd::bytes::*;
use vstd::prelude::*;
use vstd::slice::slice_to_vec;

verus! {

broadcast use vstd::seq_lib::group_seq_properties;

/// The `u16` stored little-endian at `at` in `s`.
pub open spec fn le16(s: Seq<u8>, at: int) -> u16 {
    spec_u16_from_le_bytes(s.subrange(at, at + 2))
}

/// The `u32` stored little-endian at `at` in `s`.
pub open spec fn le32(s: Seq<u8>, at: int) -> u32 {
    spec_u32_from_le_bytes(s.subrange(at, at + 4))
}

/// The `u64` stored little-endian at `at` in `s`.
pub open spec fn le64(s: Seq<u8>, at: int) -> u64 {
    spec_u64_from_le_bytes(s.subrange(at, at + 8))
}

/// Little-endian bytes of a `u16`.
pub open spec fn b16(v: u16) -> Seq<u8> {
    spec_u16_to_le_bytes(v)
}

/// Little-endian bytes of a `u32`.
pub open spec fn b32(v: u32) -> Seq<u8> {
    spec_u32_to_le_bytes(v)
}

/// Little-endian bytes of a `u64`.
pub open spec fn b64(v: u64) -> Seq<u8> {
    spec_u64_to_le_bytes(v)
}

/// `n` zero bytes.
pub open spec fn zeros(n: nat) -> Seq<u8> {
    Seq::new(n, |i: int| 0u8)
}

/// `s` with the bytes at `at..at + t.len()` replaced by `t`.
pub open spec fn splice(s: Seq<u8>, at: int, t: Seq<u8>) -> Seq<u8> {
    s.subrange(0, at) + t + s.subrange(at + t.len(), s.len() as int)
}

/// Encoding then decoding an integer gives it back, and encodings have
/// their fixed widths.
pub proof fn lemma_le_round_trips()
    ensures
        forall|x: u16| #[trigger] b16(x).len() == 2 && spec_u16_from_le_bytes(b16(x)) == x,
        forall|x: u32| #[trigger] b32(x).len() == 4 && spec_u32_from_le_bytes(b32(x)) == x,
        forall|x: u64| #[trigger] b64(x).len() == 8 && spec_u64_from_le_bytes(b64(x)) == x,
{
    lemma_auto_spec_u16_to_from_le_bytes();
    lemma_auto_spec_u32_to_from_le_bytes();
    lemma_auto_spec_u64_to_from_le_bytes();
}

/// Reading a field back out of a sequence that holds its encoding at `at`.
pub proof fn lemma_read_back(s: Seq<u8>, at: int)
    requires
        0 <= at,
    ensures
        at + 2 <= s.len() ==> (s.subrange(at, at + 2) == b16(le16(s, at))),
        at + 4 <= s.len() ==> (s.subrange(at, at + 4) == b32(le32(s, at))),
        at + 8 <= s.len() ==> (s.subrange(at, at + 8) == b64(le64(s, at))),
{
    lemma_auto_spec_u16_to_from_le_bytes();
    lemma_auto_spec_u32_to_from_le_bytes();
    lemma_auto_spec_u64_to_from_le_bytes();
}

/// Read the little-endian `u16` at `at`.
pub fn get_u16(b: &[u8], at: usize) -> (r: u16)
    requires
        at + 2 <= b@.len(),
    ensures
        r == le16(b@, at as int),
{
    let _n = b.len();
    u16_from_le_bytes(&b[at..at + 2])
}

/// Read the little-endian `u32` at `at`.
pub fn get_u32(b: &[u8], at: usize) -> (r: u32)
    requires
        at + 4 <= b@.len(),
    ensures
        r == le32(b@, at as int),
{
    let _n = b.len();
    u32_from_le_bytes(&b[at..at + 4])
}

/// Read the little-endian `u64` at `at`.
pub fn get_u64(b: &[u8], at: usize) -> (r: u64)
    requires
        at + 8 <= b@.len(),
    ensures
        r == le64(b@, at as int),
{
    let _n = b.len();
    u64_from_le_bytes(&b[at..at + 8])
}

/// Append the little-endian bytes of `v`.
pub fn push_u16(out: &mut Vec<u8>, v: u16)
    ensures
        final(out)@ == old(out)@ + b16(v),
{
    let mut t = u16_to_le_bytes(v);
    out.append(&mut t);
}

/// Append the little-endian bytes of `v`.
pub fn push_u32(out: &mut Vec<u8>, v: u32)
    ensures
        final(out)@ == old(out)@ + b32(v),
{
    let mut t = u32_to_le_bytes(v);
    out.append(&mut t);
}

/// Append the little-endian bytes of `v`.
pub fn push_u64(out: &mut Vec<u8>, v: u64)
    ensures
        final(out)@ == old(out)@ + b64(v),
{
    let mut t = u64_to_le_bytes(v);
    out.append(&mut t);
}

/// Append `n` zero bytes.
pub fn push_zeros(out: &mut Vec<u8>, n: usize)
    ensures
        final(out)@ == old(out)@ + zeros(n as nat),
{
    let ghost start = out@;
    let mut i: usize = 0;
    while i < n
        invariant
            i <= n,
            out@ == start + zeros(i as nat),
        decreases n - i,
    {
        out.push(0u8);
        i = i + 1;
        assert(out@ =~= start + zeros(i as nat));
    }
}

/// Append a copy of `s`.
pub fn push_slice(out: &mut Vec<u8>, s: &[u8])
    ensures
        final(out)@ == old(out)@ + s@,
{
    let mut t = slice_to_vec(s);
    out.append(&mut t);
}

/// Overwrite `buf[at..at + src.len()]` with `src`.
pub fn write_at(buf: &mut [u8], at: usize, src: &[u8])
    requires
        at + src@.len() <= old(buf)@.len(),
    ensures
        final(buf)@ == splice(old(buf)@, at as int, src@),
{
    let ghost orig = buf@;
    let _n = buf.len();
    let mut i: usize = 0;
    while i < src.len()
        invariant
            at + src@.len() <= buf@.len(),
            buf@.len() == orig.len(),
            buf@.len() <= usize::MAX,
            i <= src@.len(),
            forall|k: int| 0 <= k < buf@.len() ==> #[trigger] buf@[k] == if at <= k < at + i {
                src@[k - at]
            } else {
                orig[k]
            },
        decreases src@.len() - i,
    {
        buf[at + i] = src[i];
        i = i + 1;
    }
    assert(buf@ =~= splice(orig, at as int, src@));
}

/// Set `buf[at..at + n]` to zero.
pub fn fill_zero(buf: &mut [u8], at: usize, n: usize)
    requires
        at + n <= old(buf)@.len(),
    ensures
        final(buf)@ == splice(old(buf)@, at as int, zeros(n as nat)),
{
    let ghost orig = buf@;
    let _len = buf.len();
    let mut i: usize = 0;
    while i < n
        invariant
            at + n <= buf@.len(),
            buf@.len() == orig.len(),
            buf@.len() <= usize::MAX,
            i <= n,
            forall|k: int| 0 <= k < buf@.len() ==> #[trigger] buf@[k] == if at <= k < at + i {
                0u8
            } else {
                orig[k]
            },
        decreases n - i,
    {
        buf[at + i] = 0u8;
        i = i + 1;
    }
    assert(buf@ =~= splice(orig, at as int, zeros(n as nat)));
}

/// Whether two byte strings are equal.
pub fn bytes_eq(a: &[u8], b: &[u8]) -> (r: bool)
    ensures
        r == (a@ == b@),
{
    if a.len() != b.len() {
        return false;
    }
    let mut i: usize = 0;
    while i < a.len()
        invariant
            a@.len() == b@.len(),
            i <= a@.len(),
            forall|k: int| 0 <= k < i ==> a@[k] == b@[k],
        decreases a@.len() - i,
    {
        if a[i] != b[i] {
            return false;
        }
        i = i + 1;
    }
    assert(a@ =~= b@);
    true
}

} // verus!
