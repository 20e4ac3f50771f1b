//! The scale chain of the multi-scale pipeline and the size and alpha
//! rules of the batch path.
use vstd::prelude::*;
use crate::order::{bytes_lt, compare_bytes, ByteOrder, lemma_lt_total, lemma_lt_transitive};

verus! {

/// The number of scales the metric evaluates at most.
pub const K_NUM_SCALES: usize = 6;

/// The smallest width and height an image (or a scale) may have.
pub const MIN_DIM: usize = 8;

/// One side of a 2x box downsample: `ceil(x / 2)`.
pub open spec fn halve(x: usize) -> usize {
    (x / 2 + x % 2) as usize
}

/// The scales evaluated from scale `k` on, where `(cw, ch)` are the
/// dimensions the previous scale had (the input's for `k == 0`): a scale
/// exists while fewer than six have been taken and the previous dimensions
/// are at least 8x8; scale 0 keeps the input size and every later scale
/// halves the previous one (rounding up).
pub open spec fn chain_from(cw: usize, ch: usize, k: int) -> Seq<(usize, usize)>
    decreases 6 - k,
{
    if k >= 6 || k < 0 || cw < 8 || ch < 8 {
        Seq::empty()
    } else {
        let d: (usize, usize) = if k == 0 {
            (cw, ch)
        } else {
            (halve(cw), halve(ch))
        };
        seq![d] + chain_from(d.0, d.1, k + 1)
    }
}

/// The dimensions of every scale evaluated for a `w x h` image.
pub open spec fn scale_chain_spec(w: usize, h: usize) -> Seq<(usize, usize)> {
    chain_from(w, h, 0)
}

proof fn lemma_chain_from_shape(cw: usize, ch: usize, k: int)
    requires
        0 <= k <= 6,
    ensures
        ({
            let c = chain_from(cw, ch, k);
            &&& c.len() <= 6 - k
            &&& (c.len() == 0 <==> (k >= 6 || cw < 8 || ch < 8))
            &&& c.len() > 0 && k == 0 ==> c[0] == (cw, ch)
            &&& c.len() > 0 && k > 0 ==> c[0] == (halve(cw), halve(ch))
            &&& forall|i: int|
                1 <= i < c.len() ==> #[trigger] c[i] == (halve(c[i - 1].0), halve(c[i - 1].1))
            &&& forall|i: int| 0 <= i < c.len() - 1 ==> (#[trigger] c[i]).0 >= 8 && c[i].1 >= 8
            &&& c.len() > 0 && k + c.len() < 6 ==> c[c.len() - 1].0 < 8 || c[c.len() - 1].1 < 8
        }),
    decreases 6 - k,
{
    if !(k >= 6 || cw < 8 || ch < 8) {
        let d: (usize, usize) = if k == 0 {
            (cw, ch)
        } else {
            (halve(cw), halve(ch))
        };
        lemma_chain_from_shape(d.0, d.1, k + 1);
        let rest = chain_from(d.0, d.1, k + 1);
        let c = chain_from(cw, ch, k);
        assert(c == seq![d] + rest);
        assert forall|i: int| 1 <= i < c.len() implies #[trigger] c[i] == (
            halve(c[i - 1].0),
            halve(c[i - 1].1),
        ) by {
            if i >= 2 {
                assert(c[i] == rest[i - 1]);
                assert(c[i - 1] == rest[i - 2]);
            }
        }
        assert forall|i: int| 0 <= i < c.len() - 1 implies (#[trigger] c[i]).0 >= 8 && c[i].1
            >= 8 by {
            if i >= 1 {
                assert(c[i] == rest[i - 1]);
            } else if rest.len() > 0 {
            }
        }
    }
}

/// The dimensions of every scale evaluated for a `w x h` image: scale 0 is
/// the image itself; each further scale halves the previous one (rounding
/// up) and is taken only while the previous scale is at least 8x8, up to
/// six scales.
pub fn scale_chain(w: usize, h: usize) -> (r: Vec<(usize, usize)>)
    ensures
        r@ == scale_chain_spec(w, h),
        r@.len() <= K_NUM_SCALES,
        r@.len() == 0 <==> (w < MIN_DIM || h < MIN_DIM),
        r@.len() > 0 ==> r@[0] == (w, h),
        forall|i: int|
            1 <= i < r@.len() ==> #[trigger] r@[i] == (halve(r@[i - 1].0), halve(r@[i - 1].1)),
        forall|i: int| 0 <= i < r@.len() - 1 ==> (#[trigger] r@[i]).0 >= 8 && r@[i].1 >= 8,
        r@.len() > 0 && r@.len() < K_NUM_SCALES ==> r@[r@.len() - 1].0 < 8 || r@[r@.len()
            - 1].1 < 8,
{
    proof {
        lemma_chain_from_shape(w, h, 0);
    }
    let mut out: Vec<(usize, usize)> = Vec::new();
    let mut cw = w;
    let mut ch = h;
    let mut k: usize = 0;
    while k < K_NUM_SCALES && cw >= MIN_DIM && ch >= MIN_DIM
        invariant
            k <= 6,
            out@ + chain_from(cw, ch, k as int) == chain_from(w, h, 0),
        decreases 6 - k,
    {
        if k > 0 {
            let nw = downsample_len(cw);
            let nh = downsample_len(ch);
            cw = nw;
            ch = nh;
        }
        proof {
            let d = (cw, ch);
            assert(out@.push(d) + chain_from(cw, ch, k + 1) =~= out@ + (seq![d] + chain_from(
                cw,
                ch,
                k + 1,
            )));
        }
        out.push((cw, ch));
        k = k + 1;
    }
    assert(out@ =~= out@ + chain_from(cw, ch, k as int));
    out
}

/// One side of a 2x box downsample: `ceil(x / 2)`.
pub fn downsample_len(x: usize) -> (r: usize)
    ensures
        r == halve(x),
        2 * r == x || 2 * r == x + 1,
{
    x / 2 + x % 2
}

/// The output dimensions of a 2x box downsample of an `iw x ih` image.
pub fn downsample_dims(iw: usize, ih: usize) -> (r: (usize, usize))
    ensures
        r == (halve(iw), halve(ih)),
{
    (downsample_len(iw), downsample_len(ih))
}

/// Whether a `w x h` image is large enough to be scored (at least 8x8).
pub fn meets_min_size(w: usize, h: usize) -> (r: bool)
    ensures
        r == (w >= MIN_DIM && h >= MIN_DIM),
{
    w >= MIN_DIM && h >= MIN_DIM
}

/// Why an image cannot take part in a cached batch.
#[derive(Clone, Copy, Debug, PartialEq, Eq, Structural)]
pub enum BatchError {
    /// The shared original is smaller than 8x8.
    OriginalTooSmall,
    /// The shared original has alpha (its worst-of-backgrounds dual pass
    /// would need two different cached preparations).
    OriginalHasAlpha,
    /// A variant's size differs from the original's.
    VariantSizeMismatch,
    /// A variant has alpha (the cached path is alpha-free only).
    VariantHasAlpha,
}

/// Checks the shared original of a cached batch: at least 8x8, then
/// alpha-free.
pub fn check_batch_original(w: usize, h: usize, has_alpha: bool) -> (r: Result<(), BatchError>)
    ensures
        (w < MIN_DIM || h < MIN_DIM) ==> r == Err::<(), BatchError>(BatchError::OriginalTooSmall),
        !(w < MIN_DIM || h < MIN_DIM) && has_alpha ==> r == Err::<(), BatchError>(
            BatchError::OriginalHasAlpha,
        ),
        !(w < MIN_DIM || h < MIN_DIM) && !has_alpha ==> r == Ok::<(), BatchError>(()),
{
    if !meets_min_size(w, h) {
        Err(BatchError::OriginalTooSmall)
    } else if has_alpha {
        Err(BatchError::OriginalHasAlpha)
    } else {
        Ok(())
    }
}

/// Checks a variant against the batch's original: the sizes must match,
/// then, on the cached path (`alpha_free_only`), the variant must be
/// alpha-free.
pub fn check_batch_variant(
    orig_w: usize,
    orig_h: usize,
    w: usize,
    h: usize,
    has_alpha: bool,
    alpha_free_only: bool,
) -> (r: Result<(), BatchError>)
    ensures
        (w != orig_w || h != orig_h) ==> r == Err::<(), BatchError>(
            BatchError::VariantSizeMismatch,
        ),
        w == orig_w && h == orig_h && has_alpha && alpha_free_only ==> r == Err::<(), BatchError>(
            BatchError::VariantHasAlpha,
        ),
        w == orig_w && h == orig_h && !(has_alpha && alpha_free_only) ==> r == Ok::<
            (),
            BatchError,
        >(()),
{
    if w != orig_w || h != orig_h {
        Err(BatchError::VariantSizeMismatch)
    } else if has_alpha && alpha_free_only {
        Err(BatchError::VariantHasAlpha)
    } else {
        Ok(())
    }
}

/// The bytes a path is ordered by (its UTF-8 encoding).
pub open spec fn path_key(p: String) -> Seq<u8> {
    vstd::utf8::encode_utf8(p@)
}

/// `s` is in non-decreasing byte order of its paths.
pub open spec fn paths_sorted(s: Seq<String>) -> bool {
    forall|i: int, j: int| 0 <= i < j < s.len() ==> !bytes_lt(path_key(s[j]), path_key(s[i]))
}

fn path_lt(a: &String, b: &String) -> (r: bool)
    ensures
        r == bytes_lt(path_key(*a), path_key(*b)),
{
    let ab = a.as_str().as_bytes();
    let bb = b.as_str().as_bytes();
    match compare_bytes(ab, bb) {
        ByteOrder::Less => true,
        _ => false,
    }
}

/// Puts the variant paths of a batch in byte order (the order `String`
/// sorts in), so that a batch always runs in the same sequence; `None` when
/// there are no variants.
pub fn order_variants(paths: Vec<String>) -> (r: Option<Vec<String>>)
    ensures
        paths@.len() == 0 <==> r is None,
        r matches Some(v) ==> paths_sorted(v@) && v@.to_multiset() == paths@.to_multiset(),
{
    if paths.len() == 0 {
        return None;
    }
    let mut out: Vec<String> = Vec::new();
    let mut i: usize = 0;
    assert(paths@.take(0) =~= out@);
    while i < paths.len()
        invariant
            i <= paths@.len(),
            paths_sorted(out@),
            out@.to_multiset() == paths@.take(i as int).to_multiset(),
            out@.len() == i,
        decreases paths@.len() - i,
    {
        let x = paths[i].clone();
        let mut p: usize = 0;
        while p < out.len() && !path_lt(&x, &out[p])
            invariant
                p <= out@.len(),
                i < paths@.len(),
                x == paths@[i as int],
                paths_sorted(out@),
                forall|j: int| 0 <= j < p ==> !bytes_lt(path_key(x), path_key(#[trigger] out@[j])),
            decreases out@.len() - p,
        {
            p = p + 1;
        }
        proof {
            let o = out@;
            let kx = path_key(x);
            assert forall|j: int| p <= j < o.len() implies bytes_lt(kx, #[trigger] path_key(o[j])) by {
                assert(bytes_lt(kx, path_key(o[p as int])));
                if j > p {
                    assert(!bytes_lt(path_key(o[j]), path_key(o[p as int])));
                    lemma_lt_total(path_key(o[j]), path_key(o[p as int]));
                    if path_key(o[j]) != path_key(o[p as int]) {
                        lemma_lt_transitive(kx, path_key(o[p as int]), path_key(o[j]));
                    }
                }
            }
            let t = o.insert(p as int, x);
            assert forall|a: int, b: int| 0 <= a < b < t.len() implies !bytes_lt(
                path_key(t[b]),
                path_key(t[a]),
            ) by {
                if b < p {
                    assert(t[a] == o[a] && t[b] == o[b]);
                } else if b == p {
                    assert(t[a] == o[a]);
                } else if a < p {
                    assert(t[a] == o[a] && t[b] == o[b - 1]);
                    assert(!bytes_lt(kx, path_key(o[a])));
                    assert(bytes_lt(kx, path_key(o[b - 1])));
                    lemma_lt_total(kx, path_key(o[a]));
                    if kx != path_key(o[a]) {
                        lemma_lt_transitive(path_key(o[a]), kx, path_key(o[b - 1]));
                    }
                    lemma_lt_total(path_key(o[a]), path_key(o[b - 1]));
                } else if a == p {
                    assert(t[b] == o[b - 1]);
                    lemma_lt_total(kx, path_key(o[b - 1]));
                } else {
                    assert(t[a] == o[a - 1] && t[b] == o[b - 1]);
                }
            }
            vstd::seq_lib::to_multiset_insert(o, p as int, x);
            assert(paths@.take(i + 1) =~= paths@.take(i as int).push(x));
            vstd::seq_lib::to_multiset_build(paths@.take(i as int), x);
        }
        out.insert(p, x);
        i = i + 1;
    }
    assert(paths@.take(i as int) =~= paths@);
    Some(out)
}

} // verus!
