//! Push-constant layout of the recursive-Gaussian blur passes.
use vstd::prelude::*;
use crate::bytes::{words_le_bytes, words_to_le_bytes};

verus! {

/// The push constants of both blur passes: width, height and kernel
/// radius as little-endian `u32`s, in that order (12 bytes).
pub fn blur_push_bytes(w: u32, h: u32, radius: u32) -> (r: Vec<u8>)
    ensures
        r@ == words_le_bytes(seq![w, h, radius]),
        r@.len() == 12,
{
    let words: [u32; 3] = [w, h, radius];
    assert(words@ =~= seq![w, h, radius]);
    words_to_le_bytes(words.as_slice())
}

} // verus!
