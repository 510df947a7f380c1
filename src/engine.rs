//! The incremental hasher.
use vstd::prelude::*;
use crate::bytes::{load32, store32};
use crate::mixing::mix_round;
use crate::model::{
    absorb, block_at, block_words, byte_of, compress, digest, final_block, initial_chain, iv,
    key_block, le_bytes, le_word, leading_blocks, lemma_absorb_prefix, lemma_compress_count_mod,
    param_block, rounds, working_vector, zeros, KEY_BYTES, OUT_BYTES,
};

verus! {

/// A BLAKE2s hasher: construct it, feed it bytes with `update`, and read the
/// digest with `finalize`.
///
/// The buffer holds up to two blocks, so that a full block is compressed only
/// once it is known not to be the last one.
#[derive(Clone, Copy)]
pub struct Blake2s {
    h: [u32; 8],
    t: [u32; 2],
    f: [u32; 2],
    buf: [u8; 128],
    buf_len: usize,
    start: Ghost<Seq<u32>>,
    absorbed: Ghost<Seq<u8>>,
}

fn initialization_vector() -> (r: [u32; 8])
    ensures
        r@ == iv(),
{
    let r: [u32; 8] = [
        0x6a09e667, 0xbb67ae85, 0x3c6ef372, 0xa54ff53a,
        0x510e527f, 0x9b05688c, 0x1f83d9ab, 0x5be0cd19,
    ];
    assert(r@ =~= iv());
    r
}

/// The parameter block for a digest of `size` bytes and a key of `key_len`.
fn encode_params(size: u8, key_len: u8) -> (p: [u8; 64])
    ensures
        p@ == param_block(size as nat, key_len as nat),
{
    let mut p = [0u8; 64];
    p[0] = size;
    p[1] = key_len;
    p[2] = 1;
    p[3] = 1;
    assert(p@ =~= param_block(size as nat, key_len as nat));
    p
}

/// The initial chain value for a digest of `size` bytes and a key of `key_len`.
fn init_chain(size: u8, key_len: u8) -> (h: [u32; 8])
    ensures
        h@ == initial_chain(size as nat, key_len as nat),
{
    let p = encode_params(size, key_len);
    let mut h = initialization_vector();
    let mut i: usize = 0;
    while i < 8
        invariant
            i <= 8,
            forall|j: int| 0 <= j < i ==> h@[j] == iv()[j] ^ le_word(p@, 4 * j),
            forall|j: int| i <= j < 8 ==> h@[j] == iv()[j],
        decreases 8 - i,
    {
        h[i] = h[i] ^ load32(&p, 4 * i);
        i += 1;
    }
    assert(h@ =~= initial_chain(size as nat, key_len as nat));
    h
}

/// Copies `m[pos .. pos + n]` into `buf` at `at`.
fn copy_into(buf: &mut [u8; 128], at: usize, m: &[u8], pos: usize, n: usize)
    requires
        at + n <= 128,
        pos + n <= m@.len(),
    ensures
        final(buf)@ == old(buf)@.subrange(0, at as int) + m@.subrange(pos as int, pos + n)
            + old(buf)@.subrange(at + n, 128),
{
    let len = m.len();
    let mut i: usize = 0;
    while i < n
        invariant
            i <= n,
            at + n <= 128,
            pos + n <= len,
            len == m@.len(),
            buf@.len() == 128,
            forall|j: int| 0 <= j < at ==> buf@[j] == old(buf)@[j],
            forall|j: int| at <= j < at + i ==> buf@[j] == m@[pos + j - at],
            forall|j: int| at + i <= j < 128 ==> buf@[j] == old(buf)@[j],
        decreases n - i,
    {
        buf[at + i] = m[pos + i];
        i += 1;
    }
    assert(buf@ =~= old(buf)@.subrange(0, at as int) + m@.subrange(pos as int, pos + n)
        + old(buf)@.subrange(at + n, 128));
}

/// Moves the second block of `buf` to the front.
fn shift_down(buf: &mut [u8; 128])
    ensures
        final(buf)@.subrange(0, 64) == old(buf)@.subrange(64, 128),
{
    let mut i: usize = 0;
    while i < 64
        invariant
            i <= 64,
            buf@.len() == 128,
            forall|j: int| 0 <= j < i ==> buf@[j] == old(buf)@[j + 64],
            forall|j: int| 64 <= j < 128 ==> buf@[j] == old(buf)@[j],
        decreases 64 - i,
    {
        buf[i] = buf[i + 64];
        i += 1;
    }
    assert(buf@.subrange(0, 64) =~= old(buf)@.subrange(64, 128));
}

/// Zeroes `buf` from `from` on.
fn zero_tail(buf: &mut [u8; 128], from: usize)
    requires
        from <= 128,
    ensures
        final(buf)@ == old(buf)@.subrange(0, from as int) + zeros((128 - from) as nat),
{
    let mut i: usize = from;
    while i < 128
        invariant
            from <= i <= 128,
            buf@.len() == 128,
            forall|j: int| 0 <= j < from ==> buf@[j] == old(buf)@[j],
            forall|j: int| from <= j < i ==> buf@[j] == 0,
        decreases 128 - i,
    {
        buf[i] = 0;
        i += 1;
    }
    assert(buf@ =~= old(buf)@.subrange(0, from as int) + zeros((128 - from) as nat));
}

impl Blake2s {
    /// A hasher without a key, for a digest of `size` bytes.
    pub fn new(size: usize) -> (r: Blake2s)
        requires
            0 < size <= OUT_BYTES,
        ensures
            r.wf(),
            r.start() == initial_chain(size as nat, 0),
            r.absorbed() == Seq::<u8>::empty(),
    {
        let h = init_chain(size as u8, 0);
        let r = Blake2s {
            h,
            t: [0, 0],
            f: [0, 0],
            buf: [0u8; 128],
            buf_len: 0,
            start: Ghost(h@),
            absorbed: Ghost(Seq::empty()),
        };
        assert(r.buf@.subrange(0, 0) =~= r.absorbed@.subrange(0, 0));
        r
    }

    /// A hasher for a digest of `size` bytes, keyed with `key`. The key,
    /// padded with zeros to one block, is the first block hashed.
    pub fn new_with_key(size: usize, key: &[u8]) -> (r: Blake2s)
        requires
            0 < size <= OUT_BYTES,
            0 < key@.len() <= KEY_BYTES,
        ensures
            r.wf(),
            r.start() == initial_chain(size as nat, key@.len()),
            r.absorbed() == key_block(key@),
    {
        let h = init_chain(size as u8, key.len() as u8);
        let mut r = Blake2s {
            h,
            t: [0, 0],
            f: [0, 0],
            buf: [0u8; 128],
            buf_len: 0,
            start: Ghost(h@),
            absorbed: Ghost(Seq::empty()),
        };
        assert(r.buf@.subrange(0, 0) =~= r.absorbed@.subrange(0, 0));

        let mut block = [0u8; 64];
        let mut i: usize = 0;
        while i < key.len()
            invariant
                i <= key@.len() <= KEY_BYTES,
                forall|j: int| 0 <= j < i ==> block@[j] == key@[j],
                forall|j: int| i <= j < 64 ==> block@[j] == 0,
            decreases key@.len() - i,
        {
            block[i] = key[i];
            i += 1;
        }
        assert(block@ =~= key_block(key@));
        r.update(&block);
        assert(r.absorbed() =~= key_block(key@));
        r
    }

    /// Feeds `m` to the hasher. Full blocks are compressed once a later byte
    /// shows that they are not the last.
    pub fn update(&mut self, m: &[u8])
        requires
            old(self).wf(),
        ensures
            final(self).wf(),
            final(self).start() == old(self).start(),
            final(self).absorbed() == old(self).absorbed() + m@,
    {
        let ghost d0 = self.absorbed@;
        let len = m.len();
        let mut pos: usize = 0;
        while pos < len
            invariant
                pos <= len,
                len == m@.len(),
                self.wf(),
                self.start() == old(self).start(),
                self.absorbed() == d0 + m@.subrange(0, pos as int),
            decreases len - pos, self.buf_len,
        {
            let fill = 128 - self.buf_len;
            if len - pos > fill {
                self.append(m, pos, fill);
                pos = pos + fill;
                self.flush_block();
            } else {
                self.append(m, pos, len - pos);
                pos = len;
            }
            assert(self.absorbed() =~= d0 + m@.subrange(0, pos as int));
        }
        assert(m@.subrange(0, len as int) =~= m@);
    }

    /// Writes the digest of everything fed in into `out`: its first
    /// `min(out.len(), 32)` bytes. The caller takes as many bytes as the digest
    /// length given at construction. The hasher is spent afterwards.
    pub fn finalize(&mut self, out: &mut [u8])
        requires
            old(self).wf(),
        ensures
            digest(old(self).start(), old(self).absorbed()).len() == OUT_BYTES,
            final(out)@.len() == old(out)@.len(),
            forall|i: int|
                0 <= i < old(out)@.len() ==> final(out)@[i] == if i < OUT_BYTES {
                    digest(old(self).start(), old(self).absorbed())[i]
                } else {
                    old(out)@[i]
                },
            final(self).start() == old(self).start(),
            final(self).absorbed() == old(self).absorbed(),
    {
        if self.buf_len > 64 {
            self.flush_block();
        }
        let ghost data = self.absorbed@;
        let ghost done = self.done();
        let ghost h0 = self.h@;
        let ghost result = digest(self.start@, data);
        let tail = self.buf_len;
        self.increment_counter(tail as u32);
        self.f[0] = 0xffff_ffff;
        zero_tail(&mut self.buf, tail);
        self.compress();
        proof {
            let len = data.len() as int;
            let big = 0x1_0000_0000_0000_0000int;
            vstd::arithmetic::div_mod::lemma_fundamental_div_mod(done, 64);
            if len > 0 {
                vstd::arithmetic::div_mod::lemma_fundamental_div_mod_converse(
                    len - 1,
                    64,
                    done / 64,
                    tail - 1,
                );
            }
            assert(leading_blocks(data) == done / 64);
            assert(self.buf@.subrange(0, 64) =~= final_block(data));
            vstd::arithmetic::div_mod::lemma_small_mod(tail as nat, big as nat);
            vstd::arithmetic::div_mod::lemma_add_mod_noop(done, tail as int, big);
            vstd::arithmetic::div_mod::lemma_mod_twice(done, big);
            lemma_compress_count_mod(h0, final_block(data), len, true);
            assert(le_bytes(self.h@) == result);
        }

        let mut bytes = [0u8; 32];
        let mut i: usize = 0;
        while i < 8
            invariant
                i <= 8,
                le_bytes(self.h@) == result,
                forall|j: int| 0 <= j < 4 * i ==> bytes@[j] == byte_of(self.h@[j / 4], j % 4),
            decreases 8 - i,
        {
            store32(&mut bytes, 4 * i, self.h[i]);
            i += 1;
        }
        assert(bytes@ =~= result);

        let n = if out.len() < OUT_BYTES { out.len() } else { OUT_BYTES };
        let mut k: usize = 0;
        while k < n
            invariant
                k <= n <= OUT_BYTES,
                n <= old(out)@.len(),
                n == old(out)@.len() || n == OUT_BYTES,
                out@.len() == old(out)@.len(),
                bytes@ == result,
                forall|j: int| 0 <= j < k ==> out@[j] == result[j],
                forall|j: int| k <= j < out@.len() ==> out@[j] == old(out)@[j],
            decreases n - k,
        {
            out[k] = bytes[k];
            k += 1;
        }
    }

    /// The chain value that the hasher started from, which fixes the digest
    /// length and key length.
    pub closed spec fn start(&self) -> Seq<u32> {
        self.start@
    }

    /// Every byte fed in so far, the padded key block first.
    pub closed spec fn absorbed(&self) -> Seq<u8> {
        self.absorbed@
    }

    /// The 64-bit byte counter.
    closed spec fn count(&self) -> int {
        self.t[0] + self.t[1] * 0x1_0000_0000
    }

    /// The bytes already compressed: all but those in the buffer.
    closed spec fn done(&self) -> int {
        self.absorbed@.len() - self.buf_len
    }

    /// The hasher's state agrees with its model: the chain value is that of
    /// the compressed blocks, the buffer holds the rest, and it is never empty
    /// once anything was fed in.
    pub closed spec fn wf(&self) -> bool {
        &&& self.start@.len() == 8
        &&& self.buf_len <= 128
        &&& 0 <= self.done()
        &&& self.done() % 64 == 0
        &&& self.absorbed@.len() > 0 ==> self.buf_len > 0
        &&& self.buf@.subrange(0, self.buf_len as int) == self.absorbed@.subrange(
            self.done(),
            self.absorbed@.len() as int,
        )
        &&& self.h@ == absorb(self.start@, self.absorbed@, (self.done() / 64) as nat)
        &&& self.count() == self.done() % 0x1_0000_0000_0000_0000
        &&& self.f[0] == 0
        &&& self.f[1] == 0
    }

    /// Adds `inc` to the byte counter, modulo 2^64.
    fn increment_counter(&mut self, inc: u32)
        ensures
            final(self).count() == (old(self).count() + inc) % 0x1_0000_0000_0000_0000,
            final(self).h == old(self).h,
            final(self).f == old(self).f,
            final(self).buf == old(self).buf,
            final(self).buf_len == old(self).buf_len,
            final(self).start == old(self).start,
            final(self).absorbed == old(self).absorbed,
    {
        self.t[0] = self.t[0].wrapping_add(inc);
        let carry: u32 = if self.t[0] < inc { 1 } else { 0 };
        self.t[1] = self.t[1].wrapping_add(carry);
    }

    /// Appends `m[pos .. pos + n]` to the buffer, which has room for it.
    fn append(&mut self, m: &[u8], pos: usize, n: usize)
        requires
            old(self).wf(),
            old(self).buf_len + n <= 128,
            pos + n <= m@.len(),
        ensures
            final(self).wf(),
            final(self).start() == old(self).start(),
            final(self).absorbed() == old(self).absorbed() + m@.subrange(pos as int, pos + n),
            final(self).buf_len == old(self).buf_len + n,
    {
        let ghost d0 = self.absorbed@;
        copy_into(&mut self.buf, self.buf_len, m, pos, n);
        self.buf_len = self.buf_len + n;
        self.absorbed = Ghost(d0 + m@.subrange(pos as int, pos + n));
        proof {
            let d1 = self.absorbed@;
            assert(d1.subrange(0, d0.len() as int) =~= d0);
            lemma_absorb_prefix(self.start@, d0, d1, (self.done() / 64) as nat);
            assert(self.buf@.subrange(0, self.buf_len as int) =~= d1.subrange(
                self.done(),
                d1.len() as int,
            ));
        }
    }

    /// Compresses the first block of a buffer that holds more than one block,
    /// as a block known not to be the last, and moves the rest to the front.
    fn flush_block(&mut self)
        requires
            old(self).wf(),
            old(self).buf_len > 64,
        ensures
            final(self).wf(),
            final(self).start() == old(self).start(),
            final(self).absorbed() == old(self).absorbed(),
            final(self).buf_len == old(self).buf_len - 64,
    {
        let ghost done0 = self.done();
        let ghost data = self.absorbed@;
        self.increment_counter(64);
        proof {
            vstd::arithmetic::div_mod::lemma_add_mod_noop(done0, 64, 0x1_0000_0000_0000_0000);
            vstd::arithmetic::div_mod::lemma_mod_twice(64int, 0x1_0000_0000_0000_0000);
            vstd::arithmetic::div_mod::lemma_mod_twice(done0, 0x1_0000_0000_0000_0000);
            assert(self.count() == (done0 + 64) % 0x1_0000_0000_0000_0000);
        }
        let ghost buf0 = self.buf@;
        self.compress();
        shift_down(&mut self.buf);
        self.buf_len = self.buf_len - 64;
        proof {
            let k = done0 / 64;
            vstd::arithmetic::div_mod::lemma_fundamental_div_mod(done0, 64);
            assert(done0 == 64 * k);
            assert(self.done() == done0 + 64);
            vstd::arithmetic::div_mod::lemma_fundamental_div_mod_converse(self.done(), 64, k + 1, 0);
            assert(self.done() / 64 == k + 1);
            assert(buf0.subrange(0, 64) =~= block_at(data, k));
            lemma_compress_count_mod(absorb(self.start@, data, k as nat), block_at(data, k), 64 * (k + 1), false);
            let len0 = self.buf_len + 64;
            assert(buf0.subrange(0, len0 as int) == data.subrange(done0, data.len() as int));
            assert forall|j: int| 0 <= j < self.buf_len implies self.buf@[j] == data[self.done() + j] by {
                assert(self.buf@[j] == self.buf@.subrange(0, 64)[j]);
                assert(buf0[j + 64] == buf0.subrange(0, len0 as int)[j + 64]);
            }
            assert(self.buf@.subrange(0, self.buf_len as int) =~= data.subrange(
                self.done(),
                data.len() as int,
            ));
        }
    }

    /// Compresses the first block of the buffer into the chain value, as the
    /// final block when the first flag word is set.
    fn compress(&mut self)
        requires
            old(self).f[0] == 0 || old(self).f[0] == 0xffff_ffff,
            old(self).f[1] == 0,
        ensures
            final(self).h@ == compress(
                old(self).h@,
                old(self).buf@.subrange(0, 64),
                old(self).count(),
                old(self).f[0] == 0xffff_ffff,
            ),
            final(self).t == old(self).t,
            final(self).f == old(self).f,
            final(self).buf == old(self).buf,
            final(self).buf_len == old(self).buf_len,
            final(self).start == old(self).start,
            final(self).absorbed == old(self).absorbed,
    {
        let mut m = [0u32; 16];
        let mut i: usize = 0;
        while i < 16
            invariant
                i <= 16,
                forall|j: int| 0 <= j < i ==> m@[j] == le_word(self.buf@, 4 * j),
            decreases 16 - i,
        {
            m[i] = load32(&self.buf, 4 * i);
            i += 1;
        }
        assert(m@ =~= block_words(self.buf@.subrange(0, 64)));

        let iv = initialization_vector();
        let mut v: [u32; 16] = [
            self.h[0], self.h[1], self.h[2], self.h[3],
            self.h[4], self.h[5], self.h[6], self.h[7],
            iv[0], iv[1], iv[2], iv[3],
            self.t[0] ^ iv[4], self.t[1] ^ iv[5],
            self.f[0] ^ iv[6], self.f[1] ^ iv[7],
        ];
        let ghost last = self.f[0] == 0xffff_ffff;
        proof {
            let c = self.count();
            vstd::arithmetic::div_mod::lemma_fundamental_div_mod_converse(
                c,
                0x1_0000_0000,
                self.t[1] as int,
                self.t[0] as int,
            );
            assert(c % 0x1_0000_0000_0000_0000 == c);
            let x = iv[7];
            assert(0u32 ^ x == x) by (bit_vector);
            assert(v@ =~= working_vector(self.h@, c, last));
        }
        let ghost v0 = v@;

        let mut r: usize = 0;
        while r < 10
            invariant
                r <= 10,
                v@ == rounds(v0, m@, r as nat),
            decreases 10 - r,
        {
            mix_round(&mut v, &m, r);
            r += 1;
        }

        let ghost h0 = self.h@;
        let mut i: usize = 0;
        while i < 8
            invariant
                i <= 8,
                self.t == old(self).t,
                self.f == old(self).f,
                self.buf == old(self).buf,
                self.buf_len == old(self).buf_len,
                self.start == old(self).start,
                self.absorbed == old(self).absorbed,
                h0 == old(self).h@,
                forall|j: int| 0 <= j < i ==> self.h@[j] == h0[j] ^ v@[j] ^ v@[j + 8],
                forall|j: int| i <= j < 8 ==> self.h@[j] == h0[j],
            decreases 8 - i,
        {
            self.h[i] = self.h[i] ^ v[i] ^ v[i + 8];
            i += 1;
        }
        reveal(compress);
        assert(self.h@ =~= compress(h0, old(self).buf@.subrange(0, 64), old(self).count(), last));
    }
}

} // verus!
