//! Little- and big-endian integer framing over byte sequences.
use vstd::prelude::*;

verus! {

/// The little-endian value of the four bytes of `s` starting at `i`.
pub open spec fn le_u32_at(s: Seq<u8>, i: int) -> int {
    s[i] + 256 * s[i + 1] + 65536 * s[i + 2] + 16777216 * s[i + 3]
}

/// The big-endian value of the four bytes of `s` starting at `i`.
pub open spec fn be_u32_at(s: Seq<u8>, i: int) -> int {
    16777216 * s[i] + 65536 * s[i + 1] + 256 * s[i + 2] + s[i + 3]
}

/// The little-endian value of the eight bytes of `s` starting at `i`.
pub open spec fn le_u64_at(s: Seq<u8>, i: int) -> int {
    le_u32_at(s, i) + 4294967296 * le_u32_at(s, i + 4)
}

/// The words of `s` read as consecutive little-endian `u32`s; a trailing
/// remainder of fewer than four bytes is not read.
pub open spec fn le_u32_words(s: Seq<u8>) -> Seq<u32> {
    Seq::new(s.len() / 4, |k: int| le_u32_at(s, 4 * k) as u32)
}

/// The words of `s` read as consecutive little-endian `u64`s; a trailing
/// remainder of fewer than eight bytes is not read.
pub open spec fn le_u64_words(s: Seq<u8>) -> Seq<u64> {
    Seq::new(s.len() / 8, |k: int| le_u64_at(s, 8 * k) as u64)
}

/// Byte `k` (0 = least significant) of `w`.
pub open spec fn byte_of(w: u32, k: int) -> u8 {
    if k == 0 {
        (w % 256) as u8
    } else if k == 1 {
        ((w / 256) % 256) as u8
    } else if k == 2 {
        ((w / 65536) % 256) as u8
    } else {
        (w / 16777216) as u8
    }
}

/// The little-endian encoding of the words `ws`, four bytes per word.
pub open spec fn words_le_bytes(ws: Seq<u32>) -> Seq<u8> {
    Seq::new(4 * ws.len(), |j: int| byte_of(ws[j / 4], j % 4))
}

proof fn lemma_digits(w: u32)
    ensures
        byte_of(w, 0) + 256 * byte_of(w, 1) + 65536 * byte_of(w, 2) + 16777216 * byte_of(w, 3)
            == w,
{
    assert(w == (w % 256) + 256 * ((w / 256) % 256) + 65536 * ((w / 65536) % 256) + 16777216 * (w
        / 16777216)) by (bit_vector);
    assert((w / 16777216) < 256) by (bit_vector);
}

/// Reads the little-endian `u32` at byte offset `i`.
pub fn read_le_u32(s: &[u8], i: usize) -> (r: u32)
    requires
        i + 4 <= s@.len(),
    ensures
        r == le_u32_at(s@, i as int),
{
    let b0 = s[i] as u32;
    let b1 = s[i + 1] as u32;
    let b2 = s[i + 2] as u32;
    let b3 = s[i + 3] as u32;
    b0 + 256 * b1 + 65536 * b2 + 16777216 * b3
}

/// Reads the big-endian `u32` at byte offset `i`.
pub fn read_be_u32(s: &[u8], i: usize) -> (r: u32)
    requires
        i + 4 <= s@.len(),
    ensures
        r == be_u32_at(s@, i as int),
{
    let b0 = s[i] as u32;
    let b1 = s[i + 1] as u32;
    let b2 = s[i + 2] as u32;
    let b3 = s[i + 3] as u32;
    16777216 * b0 + 65536 * b1 + 256 * b2 + b3
}

/// Reads the little-endian `u64` at byte offset `i`.
pub fn read_le_u64(s: &[u8], i: usize) -> (r: u64)
    requires
        i + 8 <= s@.len(),
    ensures
        r == le_u64_at(s@, i as int),
{
    assert(s@.len() == s.len());
    let lo = read_le_u32(s, i) as u64;
    let hi = read_le_u32(s, i + 4) as u64;
    lo + 4294967296 * hi
}

/// Decodes `s[start..]` as consecutive little-endian `u32` words, dropping a
/// trailing remainder of fewer than four bytes.
pub fn le_u32_words_from(s: &[u8], start: usize) -> (r: Vec<u32>)
    requires
        start <= s@.len(),
    ensures
        r@ == le_u32_words(s@.subrange(start as int, s@.len() as int)),
{
    let ghost t = s@.subrange(start as int, s@.len() as int);
    let count = (s.len() - start) / 4;
    let mut out: Vec<u32> = Vec::new();
    let mut k: usize = 0;
    while k < count
        invariant
            count == t.len() / 4,
            t == s@.subrange(start as int, s@.len() as int),
            start <= s@.len(),
            k <= count,
            out@.len() == k,
            forall|j: int| 0 <= j < k ==> out@[j] == le_u32_at(t, 4 * j) as u32,
        decreases count - k,
    {
        assert(4 * k + 4 <= t.len()) by (nonlinear_arith)
            requires
                k < count,
                count == t.len() / 4,
        ;
        assert(s@.len() == s.len());
        let w = read_le_u32(s, start + 4 * k);
        proof {
            assert(le_u32_at(s@, start + 4 * k) == le_u32_at(t, 4 * k));
        }
        out.push(w);
        k = k + 1;
    }
    assert(out@ =~= le_u32_words(t));
    out
}

/// Decodes `s[start..]` as consecutive little-endian `u64` words, dropping a
/// trailing remainder of fewer than eight bytes.
pub fn le_u64_words_from(s: &[u8], start: usize) -> (r: Vec<u64>)
    requires
        start <= s@.len(),
    ensures
        r@ == le_u64_words(s@.subrange(start as int, s@.len() as int)),
{
    let ghost t = s@.subrange(start as int, s@.len() as int);
    let count = (s.len() - start) / 8;
    let mut out: Vec<u64> = Vec::new();
    let mut k: usize = 0;
    while k < count
        invariant
            count == t.len() / 8,
            t == s@.subrange(start as int, s@.len() as int),
            start <= s@.len(),
            k <= count,
            out@.len() == k,
            forall|j: int| 0 <= j < k ==> out@[j] == le_u64_at(t, 8 * j) as u64,
        decreases count - k,
    {
        assert(8 * k + 8 <= t.len()) by (nonlinear_arith)
            requires
                k < count,
                count == t.len() / 8,
        ;
        assert(s@.len() == s.len());
        let w = read_le_u64(s, start + 8 * k);
        proof {
            assert(le_u64_at(s@, start + 8 * k) == le_u64_at(t, 8 * k));
        }
        out.push(w);
        k = k + 1;
    }
    assert(out@ =~= le_u64_words(t));
    out
}

/// Encodes `ws` as little-endian bytes, four per word, in order.
pub fn words_to_le_bytes(ws: &[u32]) -> (r: Vec<u8>)
    requires
        4 * ws@.len() <= usize::MAX,
    ensures
        r@ == words_le_bytes(ws@),
{
    let mut out: Vec<u8> = Vec::new();
    let mut k: usize = 0;
    while k < ws.len()
        invariant
            4 * ws@.len() <= usize::MAX,
            k <= ws@.len(),
            out@.len() == 4 * k,
            forall|j: int| 0 <= j < 4 * k ==> out@[j] == byte_of(ws@[j / 4], j % 4),
        decreases ws@.len() - k,
    {
        let w = ws[k];
        out.push((w % 256) as u8);
        out.push(((w / 256) % 256) as u8);
        out.push(((w / 65536) % 256) as u8);
        out.push((w / 16777216) as u8);
        k = k + 1;
    }
    assert(out@ =~= words_le_bytes(ws@));
    out
}

/// Decoding undoes encoding: the little-endian words of the little-endian
/// bytes of `ws` are `ws` again.
pub proof fn lemma_words_roundtrip(ws: Seq<u32>)
    ensures
        le_u32_words(words_le_bytes(ws)) == ws,
{
    let b = words_le_bytes(ws);
    assert forall|k: int| 0 <= k < ws.len() implies #[trigger] le_u32_words(b)[k] == ws[k] by {
        assert(b[4 * k] == byte_of(ws[k], 0));
        assert(b[4 * k + 1] == byte_of(ws[k], 1));
        assert(b[4 * k + 2] == byte_of(ws[k], 2));
        assert(b[4 * k + 3] == byte_of(ws[k], 3));
        lemma_digits(ws[k]);
    }
    assert(le_u32_words(b) =~= ws);
}

} // verus!
