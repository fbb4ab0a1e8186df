//! The shared nonce counter of the sealed store.
//!
//! The nonce is a fixed-width byte string read as a big-endian unsigned
//! integer. Every encryption advances it by exactly one, so no two
//! ciphertexts under the same key ever share a nonce; once every byte is at
//! its maximum the counter is exhausted and encryption must stop for good,
//! because reusing a nonce under the same key would break the AEAD's
//! guarantees.

use crate::error::ApplicationError;
use vstd::prelude::*;

verus! {

/// The AEAD nonce width in bytes.
pub const NONCE_LEN: usize = 12;

/// The value of a byte string read as a big-endian unsigned integer.
pub open spec fn be_value(s: Seq<u8>) -> nat
    decreases s.len(),
{
    if s.len() == 0 {
        0
    } else {
        be_value(s.drop_last()) * 256 + s.last() as nat
    }
}

/// Every byte of the string is at its maximum, so the counter cannot advance.
pub open spec fn all_max(s: Seq<u8>) -> bool {
    forall|i: int| 0 <= i < s.len() ==> s[i] == 0xff
}

/// The shape of one advancement: the byte at `k` is incremented, the bytes
/// after it fall from the maximum back to zero, and the bytes before it are
/// untouched.
pub open spec fn advances_at(pre: Seq<u8>, post: Seq<u8>, k: int) -> bool {
    &&& 0 <= k < pre.len()
    &&& post.len() == pre.len()
    &&& pre[k] != 0xff
    &&& post[k] == pre[k] + 1
    &&& (forall|j: int| k < j < pre.len() ==> pre[j] == 0xff)
    &&& (forall|j: int| k < j < pre.len() ==> post[j] == 0)
    &&& (forall|j: int| 0 <= j < k ==> post[j] == pre[j])
}

/// An advancement of the carry-chain shape raises the big-endian value by
/// exactly one.
pub proof fn lemma_advance_increments(pre: Seq<u8>, post: Seq<u8>, k: int)
    requires
        advances_at(pre, post, k),
    ensures
        be_value(post) == be_value(pre) + 1,
    decreases pre.len(),
{
    if k == pre.len() - 1 {
        assert(pre.drop_last() =~= post.drop_last());
    } else {
        lemma_advance_increments(pre.drop_last(), post.drop_last(), k);
        assert(pre.last() == 0xff);
        assert(post.last() == 0);
        assert(be_value(post.drop_last()) * 256 == be_value(pre.drop_last()) * 256 + 256);
    }
}

/// Two byte strings with different big-endian values are different strings:
/// the counter never repeats a nonce while it keeps advancing.
pub proof fn lemma_distinct_values_distinct_nonces(a: Seq<u8>, b: Seq<u8>)
    requires
        be_value(a) != be_value(b),
    ensures
        a != b,
{
}

/// Advances the counter by one, scanning from the least-significant byte:
/// bytes at the maximum wrap to zero and carry on, and the first byte that is
/// not at the maximum is incremented. A counter whose bytes are all at the
/// maximum has exhausted its capacity: advancing it fails and leaves it
/// unchanged.
pub fn advance_vec(bytes: &mut Vec<u8>) -> (r: Result<(), ApplicationError>)
    ensures
        final(bytes)@.len() == old(bytes)@.len(),
        r is Err <==> all_max(old(bytes)@),
        r is Err ==> final(bytes)@ == old(bytes)@ && r == Err::<(), ApplicationError>(
            ApplicationError::CryptographyError,
        ),
        r is Ok ==> exists|k: int| advances_at(old(bytes)@, final(bytes)@, k),
        r is Ok ==> be_value(final(bytes)@) == be_value(old(bytes)@) + 1,
        r is Ok ==> be_value(final(bytes)@) > be_value(old(bytes)@),
{
    let n = bytes.len();

    // Scan from the end for the last byte that is not at the maximum.
    let mut i: usize = n;
    while i > 0 && bytes[i - 1] == 0xff
        invariant
            i <= n,
            n == bytes@.len(),
            bytes@ == old(bytes)@,
            forall|j: int| i <= j < n ==> bytes@[j] == 0xff,
        decreases i,
    {
        i = i - 1;
    }

    if i == 0 {
        return Err(ApplicationError::CryptographyError);
    }

    let k = i - 1;
    let ghost pre = bytes@;

    // The carried-over suffix wraps to zero.
    let mut j: usize = k + 1;
    while j < n
        invariant
            k + 1 <= j <= n,
            n == bytes@.len(),
            forall|m: int| 0 <= m <= k ==> bytes@[m] == pre[m],
            forall|m: int| k < m < j ==> bytes@[m] == 0,
            forall|m: int| j <= m < n ==> bytes@[m] == pre[m],
        decreases n - j,
    {
        bytes[j] = 0;
        j = j + 1;
    }

    // The first byte below the maximum takes the carry.
    let incremented = bytes[k] + 1;
    bytes[k] = incremented;

    proof {
        assert(advances_at(pre, bytes@, k as int));
        lemma_advance_increments(pre, bytes@, k as int);
        assert(!all_max(pre));
    }

    Ok(())
}

} // verus!
