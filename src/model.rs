//! The mathematical model of BLAKE2s over sequences of words and bytes.
use vstd::prelude::*;

verus! {

/// Bytes in one message block.
pub const BLOCK_BYTES: usize = 64;

/// Largest digest, in bytes.
pub const OUT_BYTES: usize = 32;

/// Largest key, in bytes.
pub const KEY_BYTES: usize = 32;

/// The initialization vector: the first 32 bits of the fractional parts of
/// the square roots of the first eight primes.
pub open spec fn iv() -> Seq<u32> {
    seq![
        0x6a09e667u32, 0xbb67ae85u32, 0x3c6ef372u32, 0xa54ff53au32,
        0x510e527fu32, 0x9b05688cu32, 0x1f83d9abu32, 0x5be0cd19u32,
    ]
}

/// Row `r` of the message schedule: which message word each mixing step reads.
pub open spec fn sigma(r: int) -> Seq<int> {
    if r == 0 {
        seq![0, 1, 2, 3, 4, 5, 6, 7, 8, 9, 10, 11, 12, 13, 14, 15]
    } else if r == 1 {
        seq![14, 10, 4, 8, 9, 15, 13, 6, 1, 12, 0, 2, 11, 7, 5, 3]
    } else if r == 2 {
        seq![11, 8, 12, 0, 5, 2, 15, 13, 10, 14, 3, 6, 7, 1, 9, 4]
    } else if r == 3 {
        seq![7, 9, 3, 1, 13, 12, 11, 14, 2, 6, 5, 10, 4, 0, 15, 8]
    } else if r == 4 {
        seq![9, 0, 5, 7, 2, 4, 10, 15, 14, 1, 11, 12, 6, 8, 3, 13]
    } else if r == 5 {
        seq![2, 12, 6, 10, 0, 11, 8, 3, 4, 13, 7, 5, 15, 14, 1, 9]
    } else if r == 6 {
        seq![12, 5, 1, 15, 14, 13, 4, 10, 0, 7, 6, 3, 9, 2, 8, 11]
    } else if r == 7 {
        seq![13, 11, 7, 14, 12, 1, 3, 9, 5, 0, 15, 4, 8, 6, 2, 10]
    } else if r == 8 {
        seq![6, 15, 14, 9, 11, 3, 0, 8, 12, 2, 13, 7, 1, 4, 10, 5]
    } else {
        seq![10, 2, 8, 4, 7, 6, 1, 5, 15, 11, 9, 14, 3, 12, 13, 0]
    }
}

/// Rotation of a 32-bit word right by `n` places.
pub open spec fn rotr(x: u32, n: u32) -> u32 {
    (x >> n) | (x << (32 - n) as u32)
}

/// The quarter-round G on words `a`, `b`, `c`, `d` of the working vector,
/// with message words `x` and `y`. Additions wrap modulo 2^32.
pub open spec fn mix(v: Seq<u32>, a: int, b: int, c: int, d: int, x: u32, y: u32) -> Seq<u32> {
    let a1 = v[a].wrapping_add(v[b]).wrapping_add(x);
    let d1 = rotr(v[d] ^ a1, 16);
    let c1 = v[c].wrapping_add(d1);
    let b1 = rotr(v[b] ^ c1, 12);
    let a2 = a1.wrapping_add(b1).wrapping_add(y);
    let d2 = rotr(d1 ^ a2, 8);
    let c2 = c1.wrapping_add(d2);
    let b2 = rotr(b1 ^ c2, 7);
    v.update(a, a2).update(b, b2).update(c, c2).update(d, d2)
}

/// Round `r`: G on the four columns, then on the four diagonals, each step
/// reading the two message words that row `r` of the schedule names.
pub open spec fn round(v: Seq<u32>, m: Seq<u32>, r: int) -> Seq<u32> {
    let s = sigma(r);
    let v = mix(v, 0, 4, 8, 12, m[s[0]], m[s[1]]);
    let v = mix(v, 1, 5, 9, 13, m[s[2]], m[s[3]]);
    let v = mix(v, 2, 6, 10, 14, m[s[4]], m[s[5]]);
    let v = mix(v, 3, 7, 11, 15, m[s[6]], m[s[7]]);
    let v = mix(v, 0, 5, 10, 15, m[s[8]], m[s[9]]);
    let v = mix(v, 1, 6, 11, 12, m[s[10]], m[s[11]]);
    let v = mix(v, 2, 7, 8, 13, m[s[12]], m[s[13]]);
    mix(v, 3, 4, 9, 14, m[s[14]], m[s[15]])
}

/// The first `n` rounds applied to `v`.
pub open spec fn rounds(v: Seq<u32>, m: Seq<u32>, n: nat) -> Seq<u32>
    decreases n,
{
    if n == 0 {
        v
    } else {
        round(rounds(v, m, (n - 1) as nat), m, n - 1)
    }
}

/// The word stored little-endian in bytes `off .. off + 4` of `b`.
pub open spec fn le_word(b: Seq<u8>, off: int) -> u32 {
    (b[off] + b[off + 1] * 0x100 + b[off + 2] * 0x1_0000 + b[off + 3] * 0x100_0000) as u32
}

/// Byte `k` (0 for the least significant) of the word `w`.
pub open spec fn byte_of(w: u32, k: int) -> u8 {
    if k == 0 {
        (w % 0x100) as u8
    } else if k == 1 {
        ((w / 0x100) % 0x100) as u8
    } else if k == 2 {
        ((w / 0x1_0000) % 0x100) as u8
    } else {
        (w / 0x100_0000) as u8
    }
}

/// The words of `h`, each written as four little-endian bytes.
pub open spec fn le_bytes(h: Seq<u32>) -> Seq<u8> {
    Seq::new(4 * h.len(), |i: int| byte_of(h[i / 4], i % 4))
}

/// The sixteen message words of a 64-byte block.
pub open spec fn block_words(block: Seq<u8>) -> Seq<u32> {
    Seq::new(16, |i: int| le_word(block, 4 * i))
}

/// Low word of a byte count, taken modulo 2^64.
pub open spec fn count_low(t: int) -> u32 {
    ((t % 0x1_0000_0000_0000_0000) % 0x1_0000_0000) as u32
}

/// High word of a byte count, taken modulo 2^64.
pub open spec fn count_high(t: int) -> u32 {
    ((t % 0x1_0000_0000_0000_0000) / 0x1_0000_0000) as u32
}

/// The working vector that the rounds start from: the chain value, the
/// initialization vector, and the byte count and final-block flag folded into
/// its upper half.
pub open spec fn working_vector(h: Seq<u32>, t: int, last: bool) -> Seq<u32> {
    let f0: u32 = if last { 0xffff_ffffu32 } else { 0u32 };
    h.subrange(0, 8) + seq![
        iv()[0], iv()[1], iv()[2], iv()[3],
        count_low(t) ^ iv()[4], count_high(t) ^ iv()[5],
        f0 ^ iv()[6], iv()[7],
    ]
}

/// The compression function: the chain value `h` after one 64-byte `block`,
/// with `t` bytes counted so far and `last` set for the final block.
#[verifier::opaque]
pub open spec fn compress(h: Seq<u32>, block: Seq<u8>, t: int, last: bool) -> Seq<u32> {
    let v = rounds(working_vector(h, t, last), block_words(block), 10);
    Seq::new(8, |i: int| h[i] ^ v[i] ^ v[i + 8])
}

/// The 64-byte parameter block: digest length, key length, fanout 1, depth 1.
pub open spec fn param_block(size: nat, key_len: nat) -> Seq<u8> {
    seq![size as u8, key_len as u8, 1u8, 1u8] + Seq::new(60, |i: int| 0u8)
}

/// The chain value before any block: the initialization vector with the
/// parameter block folded in.
pub open spec fn initial_chain(size: nat, key_len: nat) -> Seq<u32> {
    Seq::new(8, |i: int| iv()[i] ^ le_word(param_block(size, key_len), 4 * i))
}

/// `n` zero bytes.
pub open spec fn zeros(n: nat) -> Seq<u8> {
    Seq::new(n, |i: int| 0u8)
}

/// What a key contributes to the message: nothing for no key, else the key
/// padded with zeros to one block.
pub open spec fn key_block(key: Seq<u8>) -> Seq<u8> {
    if key.len() == 0 {
        seq![]
    } else {
        key + zeros((BLOCK_BYTES - key.len()) as nat)
    }
}

/// Block `i` of `data`.
pub open spec fn block_at(data: Seq<u8>, i: int) -> Seq<u8> {
    data.subrange(64 * i, 64 * i + 64)
}

/// The chain value after the first `n` blocks of `data`, none of them final.
pub open spec fn absorb(h: Seq<u32>, data: Seq<u8>, n: nat) -> Seq<u32>
    decreases n,
{
    if n == 0 {
        h
    } else {
        compress(absorb(h, data, (n - 1) as nat), block_at(data, n - 1), 64 * n as int, false)
    }
}

/// How many blocks of `data` come before its final block, which holds 1 to 64
/// bytes, or none when `data` is empty.
pub open spec fn leading_blocks(data: Seq<u8>) -> nat {
    if data.len() == 0 {
        0
    } else {
        ((data.len() - 1) / 64) as nat
    }
}

/// The final block of `data`, padded with zeros to 64 bytes.
pub open spec fn final_block(data: Seq<u8>) -> Seq<u8> {
    let rest = data.subrange(64 * leading_blocks(data) as int, data.len() as int);
    rest + zeros((64 - rest.len()) as nat)
}

/// The 32-byte digest of `data`, starting from the chain value `h`.
pub open spec fn digest(h: Seq<u32>, data: Seq<u8>) -> Seq<u8> {
    let n = leading_blocks(data);
    le_bytes(compress(absorb(h, data, n), final_block(data), data.len() as int, true))
}

/// The BLAKE2s digest of `msg` under `key` (empty for none), with a digest
/// length of `size` bytes fixed in the parameter block. The digest is the
/// first `size` bytes of this sequence.
pub open spec fn blake2s(size: nat, key: Seq<u8>, msg: Seq<u8>) -> Seq<u8> {
    digest(initial_chain(size, key.len()), key_block(key) + msg)
}

/// The compression function reads the byte count only modulo 2^64.
pub proof fn lemma_compress_count_mod(h: Seq<u32>, block: Seq<u8>, t: int, last: bool)
    ensures
        compress(h, block, t % 0x1_0000_0000_0000_0000, last) == compress(h, block, t, last),
{
    reveal(compress);
    vstd::arithmetic::div_mod::lemma_mod_twice(t, 0x1_0000_0000_0000_0000);
    assert(working_vector(h, t % 0x1_0000_0000_0000_0000, last) =~= working_vector(h, t, last));
}

/// The chain value after `n` blocks depends only on the first `n` blocks.
pub proof fn lemma_absorb_prefix(h: Seq<u32>, d1: Seq<u8>, d2: Seq<u8>, n: nat)
    requires
        64 * n <= d1.len() <= d2.len(),
        d2.subrange(0, d1.len() as int) == d1,
    ensures
        absorb(h, d1, n) == absorb(h, d2, n),
    decreases n,
{
    if n > 0 {
        lemma_absorb_prefix(h, d1, d2, (n - 1) as nat);
        assert(block_at(d1, n - 1) =~= block_at(d2, n - 1));
    }
}

} // verus!
