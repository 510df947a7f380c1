//! Properties of the hasher as a whole, stated over the model.
use vstd::prelude::*;
use crate::engine::Blake2s;
use crate::model::{blake2s, digest, initial_chain, key_block};

verus! {

/// Splitting the input across `update` calls does not change the digest:
/// feeding `a` and then `b` after `prior` absorbs the same bytes, and so gives
/// the same digest, as feeding `a + b` at once.
pub proof fn lemma_update_chunking(start: Seq<u32>, prior: Seq<u8>, a: Seq<u8>, b: Seq<u8>)
    ensures
        (prior + a) + b == prior + (a + b),
        digest(start, (prior + a) + b) == digest(start, prior + (a + b)),
{
    assert((prior + a) + b =~= prior + (a + b));
}

/// Two hashers built with the same parameters and fed the same bytes, in any
/// chunks, finalize to the same digest: the digest depends on nothing but the
/// starting chain value and the bytes absorbed.
pub proof fn lemma_deterministic(x: Blake2s, y: Blake2s)
    requires
        x.wf(),
        y.wf(),
        x.start() == y.start(),
        x.absorbed() == y.absorbed(),
    ensures
        digest(x.start(), x.absorbed()) == digest(y.start(), y.absorbed()),
{
}

/// A hasher made by `new(size)` and fed `msg` holds the unkeyed BLAKE2s
/// digest of `msg`; one made by `new_with_key(size, key)` and fed `msg` holds
/// the keyed digest.
pub proof fn lemma_digest_is_blake2s(size: nat, key: Seq<u8>, msg: Seq<u8>)
    requires
        0 < size <= 32,
        key.len() <= 32,
    ensures
        key.len() == 0 ==> digest(initial_chain(size, 0), Seq::<u8>::empty() + msg)
            == blake2s(size, key, msg),
        key.len() > 0 ==> digest(initial_chain(size, key.len()), key_block(key) + msg)
            == blake2s(size, key, msg),
{
}

} // verus!
