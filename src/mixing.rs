//! The mixing function G and the rounds of the compression function.
use vstd::prelude::*;
use crate::model::{rotr, mix, round, sigma};

verus! {

/// Rotates `x` right by `n` places.
fn rotate(x: u32, n: u32) -> (r: u32)
    requires
        0 < n < 32,
    ensures
        r == rotr(x, n),
{
    (x >> n) | (x << (32 - n))
}

/// G on words `a`, `b`, `c`, `d` of `v`, with message words `x` and `y`.
pub fn g(v: &mut [u32; 16], a: usize, b: usize, c: usize, d: usize, x: u32, y: u32)
    requires
        a < 16,
        b < 16,
        c < 16,
        d < 16,
    ensures
        final(v)@ == mix(old(v)@, a as int, b as int, c as int, d as int, x, y),
{
    let a1 = v[a].wrapping_add(v[b]).wrapping_add(x);
    let d1 = rotate(v[d] ^ a1, 16);
    let c1 = v[c].wrapping_add(d1);
    let b1 = rotate(v[b] ^ c1, 12);
    let a2 = a1.wrapping_add(b1).wrapping_add(y);
    let d2 = rotate(d1 ^ a2, 8);
    let c2 = c1.wrapping_add(d2);
    let b2 = rotate(b1 ^ c2, 7);
    v[a] = a2;
    v[b] = b2;
    v[c] = c2;
    v[d] = d2;
}

/// Row `r` of the message schedule.
fn schedule(r: usize) -> (s: [usize; 16])
    requires
        r < 10,
    ensures
        forall|i: int| 0 <= i < 16 ==> s@[i] == sigma(r as int)[i],
{
    let s: [usize; 16] = if r == 0 {
        [0, 1, 2, 3, 4, 5, 6, 7, 8, 9, 10, 11, 12, 13, 14, 15]
    } else if r == 1 {
        [14, 10, 4, 8, 9, 15, 13, 6, 1, 12, 0, 2, 11, 7, 5, 3]
    } else if r == 2 {
        [11, 8, 12, 0, 5, 2, 15, 13, 10, 14, 3, 6, 7, 1, 9, 4]
    } else if r == 3 {
        [7, 9, 3, 1, 13, 12, 11, 14, 2, 6, 5, 10, 4, 0, 15, 8]
    } else if r == 4 {
        [9, 0, 5, 7, 2, 4, 10, 15, 14, 1, 11, 12, 6, 8, 3, 13]
    } else if r == 5 {
        [2, 12, 6, 10, 0, 11, 8, 3, 4, 13, 7, 5, 15, 14, 1, 9]
    } else if r == 6 {
        [12, 5, 1, 15, 14, 13, 4, 10, 0, 7, 6, 3, 9, 2, 8, 11]
    } else if r == 7 {
        [13, 11, 7, 14, 12, 1, 3, 9, 5, 0, 15, 4, 8, 6, 2, 10]
    } else if r == 8 {
        [6, 15, 14, 9, 11, 3, 0, 8, 12, 2, 13, 7, 1, 4, 10, 5]
    } else {
        [10, 2, 8, 4, 7, 6, 1, 5, 15, 11, 9, 14, 3, 12, 13, 0]
    };
    s
}

/// Round `r` of the compression function on the working vector `v`, with
/// message words `m`.
pub fn mix_round(v: &mut [u32; 16], m: &[u32; 16], r: usize)
    requires
        r < 10,
    ensures
        final(v)@ == round(old(v)@, m@, r as int),
{
    let s = schedule(r);
    g(v, 0, 4, 8, 12, m[s[0]], m[s[1]]);
    g(v, 1, 5, 9, 13, m[s[2]], m[s[3]]);
    g(v, 2, 6, 10, 14, m[s[4]], m[s[5]]);
    g(v, 3, 7, 11, 15, m[s[6]], m[s[7]]);
    g(v, 0, 5, 10, 15, m[s[8]], m[s[9]]);
    g(v, 1, 6, 11, 12, m[s[10]], m[s[11]]);
    g(v, 2, 7, 8, 13, m[s[12]], m[s[13]]);
    g(v, 3, 4, 9, 14, m[s[14]], m[s[15]]);
}

} // verus!
