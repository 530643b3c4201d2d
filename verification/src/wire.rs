//! Byte-level building blocks of the wire format: NUL-terminated fields and
//! big-endian 16-bit numbers.

use vstd::prelude::*;

verus! {

/// The position of the first zero byte of `s`, or the length of `s` where it
/// holds none: the length of the NUL-terminated field that `s` starts with.
pub open spec fn first_nul(s: Seq<u8>) -> nat
    decreases s.len(),
{
    if s.len() == 0 || s[0] == 0 {
        0
    } else {
        1 + first_nul(s.drop_first())
    }
}

/// Whether no byte of `s` is zero, so that `s` can stand in a NUL-terminated
/// field.
pub open spec fn nul_free(s: Seq<u8>) -> bool {
    forall|i: int| 0 <= i < s.len() ==> s[i] != 0
}

/// The 16-bit number that two bytes spell in network order.
pub open spec fn be16(hi: u8, lo: u8) -> u16 {
    (hi as int * 256 + lo as int) as u16
}

/// The high byte of a 16-bit number in network order.
pub open spec fn hi_byte(n: u16) -> u8 {
    (n / 256) as u8
}

/// The low byte of a 16-bit number in network order.
pub open spec fn lo_byte(n: u16) -> u8 {
    (n % 256) as u8
}

/// `first_nul` stops at a zero byte or at the end, and passes over no zero
/// byte on its way.
pub proof fn lemma_first_nul(s: Seq<u8>)
    ensures
        first_nul(s) <= s.len(),
        nul_free(s.take(first_nul(s) as int)),
        first_nul(s) < s.len() ==> s[first_nul(s) as int] == 0,
    decreases s.len(),
{
    if s.len() == 0 || s[0] == 0 {
    } else {
        let t = s.drop_first();
        lemma_first_nul(t);
        let k = first_nul(s) as int;
        assert forall|i: int| 0 <= i < s.take(k).len() implies s.take(k)[i] != 0 by {
            if i > 0 {
                assert(t.take(k - 1)[i - 1] == s[i]);
            }
        }
        if first_nul(s) < s.len() {
            assert(t[first_nul(t) as int] == s[k]);
        }
    }
}

/// A position that is preceded by no zero byte, and holds one unless it is
/// the end, is the one `first_nul` names.
pub proof fn lemma_first_nul_unique(s: Seq<u8>, k: int)
    requires
        0 <= k <= s.len(),
        forall|i: int| 0 <= i < k ==> s[i] != 0,
        k < s.len() ==> s[k] == 0,
    ensures
        first_nul(s) == k,
    decreases s.len(),
{
    if s.len() == 0 || s[0] == 0 {
    } else {
        let t = s.drop_first();
        assert forall|i: int| 0 <= i < k - 1 implies t[i] != 0 by {
            assert(t[i] == s[i + 1]);
        }
        if k < s.len() {
            assert(t[k - 1] == s[k]);
        }
        lemma_first_nul_unique(t, k - 1);
    }
}

/// A NUL-free field followed by a zero byte is found again by `first_nul`,
/// whatever follows.
pub proof fn lemma_first_nul_of_field(field: Seq<u8>, rest: Seq<u8>)
    requires
        nul_free(field),
    ensures
        first_nul(field + seq![0u8] + rest) == field.len(),
        first_nul(field) == field.len(),
{
    let s = field + seq![0u8] + rest;
    assert forall|i: int| 0 <= i < field.len() implies s[i] != 0 by {
        assert(s[i] == field[i]);
    }
    assert(s[field.len() as int] == 0);
    lemma_first_nul_unique(s, field.len() as int);
    lemma_first_nul_unique(field, field.len() as int);
}

/// The two bytes of a 16-bit number spell that number again.
pub proof fn lemma_be16_bytes(n: u16)
    ensures
        be16(hi_byte(n), lo_byte(n)) == n,
{
}

/// Finds the end of the NUL-terminated field that starts at `from`.
pub fn find_nul(buf: &[u8], from: usize) -> (at: usize)
    requires
        from <= buf.len(),
    ensures
        at == from + first_nul(buf@.skip(from as int)),
        from <= at <= buf.len(),
{
    let mut at: usize = from;
    while at < buf.len() && buf[at] != 0
        invariant
            from <= at <= buf.len(),
            forall|i: int| from <= i < at ==> buf@[i] != 0,
        decreases buf.len() - at,
    {
        at += 1;
    }
    proof {
        lemma_first_nul_unique(buf@.skip(from as int), at - from);
    }
    at
}

/// Reads a 16-bit number in network order.
pub fn read_be16(hi: u8, lo: u8) -> (n: u16)
    ensures
        n == be16(hi, lo),
{
    (hi as u16) * 256 + (lo as u16)
}

/// Copies the bytes `from..to` of a buffer into a vector of their own.
pub fn copy_range(buf: &[u8], from: usize, to: usize) -> (out: Vec<u8>)
    requires
        from <= to <= buf.len(),
    ensures
        out@ == buf@.subrange(from as int, to as int),
{
    let mut out: Vec<u8> = Vec::new();
    let mut i: usize = from;
    while i < to
        invariant
            from <= i <= to <= buf.len(),
            out@ == buf@.subrange(from as int, i as int),
        decreases to - i,
    {
        out.push(buf[i]);
        i += 1;
    }
    out
}

/// Appends the bytes of `src` to `out`.
pub fn append_bytes(out: &mut Vec<u8>, src: &[u8])
    ensures
        final(out)@ == old(out)@ + src@,
{
    let mut i: usize = 0;
    while i < src.len()
        invariant
            i <= src.len(),
            out@ == old(out)@ + src@.take(i as int),
        decreases src.len() - i,
    {
        out.push(src[i]);
        i += 1;
    }
    assert(src@.take(src.len() as int) =~= src@);
}

/// Writes `src` over the start of `buf` and leaves the rest of `buf` as it was.
pub fn fill_prefix(buf: &mut [u8], src: &[u8])
    requires
        src@.len() <= old(buf)@.len(),
    ensures
        final(buf)@ == src@ + old(buf)@.skip(src@.len() as int),
{
    let mut i: usize = 0;
    while i < src.len()
        invariant
            i <= src.len() <= buf@.len(),
            buf@.len() == old(buf)@.len(),
            buf@ == src@.take(i as int) + old(buf)@.skip(i as int),
        decreases src.len() - i,
    {
        buf[i] = src[i];
        i += 1;
    }
    assert(src@.take(src.len() as int) =~= src@);
}

} // verus!
