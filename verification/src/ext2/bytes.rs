//! Little-endian decoding and small helpers on byte strings.

use vstd::prelude::*;

verus! {

/// The two bytes at `off`, read as a little-endian number.
pub open spec fn le_u16(s: Seq<u8>, off: int) -> u16 {
    (s[off] as int + 256 * (s[off + 1] as int)) as u16
}

/// The four bytes at `off`, read as a little-endian number.
pub open spec fn le_u32(s: Seq<u8>, off: int) -> u32 {
    (s[off] as int + 256 * (s[off + 1] as int) + 65536 * (s[off + 2] as int) + 16777216 * (s[off
        + 3] as int)) as u32
}

/// A slice is never longer than `usize` can count.
pub proof fn lemma_len_fits(s: &[u8])
    ensures
        s@.len() <= usize::MAX,
{
    assert(s@.len() == s.len());
}

/// Decodes the little-endian `u16` stored at `off`.
pub fn read_u16(s: &[u8], off: usize) -> (r: u16)
    requires
        off + 2 <= s@.len(),
    ensures
        r == le_u16(s@, off as int),
{
    let b0: u16 = s[off] as u16;
    let b1: u16 = s[off + 1] as u16;
    b0 + 256 * b1
}

/// Decodes the little-endian `u32` stored at `off`.
pub fn read_u32(s: &[u8], off: usize) -> (r: u32)
    requires
        off + 4 <= s@.len(),
    ensures
        r == le_u32(s@, off as int),
{
    let b0: u32 = s[off] as u32;
    let b1: u32 = s[off + 1] as u32;
    let b2: u32 = s[off + 2] as u32;
    let b3: u32 = s[off + 3] as u32;
    b0 + 256 * b1 + 65536 * b2 + 16777216 * b3
}

/// The index of the first byte `b` of `s` at or after `from`, or the length
/// of `s` where there is none.
pub open spec fn position_of(s: Seq<u8>, b: u8, from: int) -> int
    decreases s.len() - from,
{
    if from >= s.len() {
        s.len() as int
    } else if s[from] == b {
        from
    } else {
        position_of(s, b, from + 1)
    }
}

/// `position_of` lies between `from` and the length, no byte before it is
/// `b`, and the byte at it is `b` where it is an index.
pub proof fn lemma_position_of(s: Seq<u8>, b: u8, from: int)
    requires
        0 <= from <= s.len(),
    ensures
        from <= position_of(s, b, from) <= s.len(),
        forall|i: int| from <= i < position_of(s, b, from) ==> s[i] != b,
        position_of(s, b, from) < s.len() ==> s[position_of(s, b, from)] == b,
    decreases s.len() - from,
{
    if from < s.len() && s[from] != b {
        lemma_position_of(s, b, from + 1);
    }
}

/// Where no byte from `from` on is `b`, `position_of` is the length.
pub proof fn lemma_position_of_none(s: Seq<u8>, b: u8, from: int)
    requires
        0 <= from <= s.len(),
        forall|i: int| from <= i < s.len() ==> s[i] != b,
    ensures
        position_of(s, b, from) == s.len(),
    decreases s.len() - from,
{
    if from < s.len() {
        lemma_position_of_none(s, b, from + 1);
    }
}

/// Finds the first byte `b` of `s` at or after `from`.
pub fn find_byte(s: &[u8], b: u8, from: usize) -> (at: usize)
    requires
        from <= s@.len(),
    ensures
        at == position_of(s@, b, from as int),
        from <= at <= s@.len(),
{
    let mut at = from;
    while at < s.len() && s[at] != b
        invariant
            from <= at <= s@.len(),
            position_of(s@, b, from as int) == position_of(s@, b, at as int),
        decreases s@.len() - at,
    {
        at += 1;
    }
    at
}

/// The bytes of `s` before its first zero byte; all of `s` where it has none.
pub open spec fn nul_prefix(s: Seq<u8>) -> Seq<u8> {
    s.subrange(0, position_of(s, 0, 0))
}

/// Cuts a byte string at its terminating zero byte.
pub fn until_nul<'a>(s: &'a [u8]) -> (r: &'a [u8])
    ensures
        r@ == nul_prefix(s@),
{
    let end = find_byte(s, 0, 0);
    vstd::slice::slice_subrange(s, 0, end)
}

/// Whether `s` begins with `prefix`.
pub open spec fn has_prefix(s: Seq<u8>, prefix: Seq<u8>) -> bool {
    prefix.len() <= s.len() && s.subrange(0, prefix.len() as int) == prefix
}

/// Whether `s` begins with `prefix`.
pub fn starts_with(s: &[u8], prefix: &[u8]) -> (r: bool)
    ensures
        r == has_prefix(s@, prefix@),
{
    if prefix.len() > s.len() {
        return false;
    }
    bytes_eq(vstd::slice::slice_subrange(s, 0, prefix.len()), prefix)
}

/// Whether `b` is a blank: a space, or one of the control characters from
/// tab to carriage return.
pub open spec fn is_blank(b: u8) -> bool {
    b == 32 || 9 <= b <= 13
}

/// `s` without the blanks at its end.
pub open spec fn trim_end(s: Seq<u8>) -> Seq<u8>
    decreases s.len(),
{
    if s.len() > 0 && is_blank(s.last()) {
        trim_end(s.drop_last())
    } else {
        s
    }
}

/// Cuts the blanks off the end of a byte string.
pub fn trimmed<'a>(s: &'a [u8]) -> (r: &'a [u8])
    ensures
        r@ == trim_end(s@),
{
    let mut end = s.len();
    proof {
        assert(s@.subrange(0, s@.len() as int) =~= s@);
    }
    while end > 0 && (s[end - 1] == 32 || (9 <= s[end - 1] && s[end - 1] <= 13))
        invariant
            end <= s@.len(),
            trim_end(s@) == trim_end(s@.subrange(0, end as int)),
        decreases end,
    {
        proof {
            assert(s@.subrange(0, end as int).drop_last() =~= s@.subrange(0, end - 1));
        }
        end -= 1;
    }
    vstd::slice::slice_subrange(s, 0, end)
}

/// Appends `bytes` to `out`.
pub fn append_bytes(out: &mut Vec<u8>, bytes: &[u8])
    ensures
        final(out)@ == old(out)@ + bytes@,
{
    out.extend_from_slice(bytes);
    assert(out@ =~= old(out)@ + bytes@);
}

/// Whether two byte strings hold the same bytes.
pub fn bytes_eq(a: &[u8], b: &[u8]) -> (r: bool)
    ensures
        r == (a@ == b@),
{
    if a.len() != b.len() {
        return false;
    }
    let mut i: usize = 0;
    while i < a.len()
        invariant
            i <= a@.len(),
            a@.len() == b@.len(),
            forall|j: int| 0 <= j < i ==> a@[j] == b@[j],
        decreases a@.len() - i,
    {
        if a[i] != b[i] {
            return false;
        }
        i += 1;
    }
    assert(a@ =~= b@);
    true
}

} // verus!
