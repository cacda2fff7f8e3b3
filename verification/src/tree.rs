//! The hash tree of a message.
//!
//! Every chunk of the message is hashed to a label, and the labels are folded
//! from the left: the first with the second, the result with the third, and
//! so on. Every combine is given the length of the whole message. Exactly one
//! operation is marked as the root: the only chunk hash of a one-chunk
//! message, else the last combine. Its label is the digest.
//!
//! The two hash operations are parameters here: `hc` stands for the chunk
//! hash, `hi` for the combine, both on plain bytes, and what is stated holds
//! for every pair.
//!
//! For messages of at most two chunks this is the tree that `bab_rs` builds.
//! For longer ones `bab_rs` pairs subtrees at powers of two and gives each
//! combine the length of its own subtree.

use crate::chunks::{chunk_count, chunk_of};
use crate::digest::CHUNK_SIZE;
use vstd::prelude::*;

verus! {

/// The label of the first `k` chunks of `bytes` folded from the left, for
/// `1 <= k <= chunk_count(bytes.len())`, under the chunk hash `hc` and the
/// combine `hi`.
pub open spec fn folded_label(
    hc: spec_fn(Seq<u8>, bool) -> Seq<u8>,
    hi: spec_fn(Seq<u8>, Seq<u8>, u64, bool) -> Seq<u8>,
    bytes: Seq<u8>,
    k: nat,
) -> Seq<u8>
    decreases k,
{
    let n = chunk_count(bytes.len());
    if k <= 1 {
        hc(chunk_of(bytes, 0), n == 1)
    } else {
        hi(
            folded_label(hc, hi, bytes, (k - 1) as nat),
            hc(chunk_of(bytes, (k - 1) as nat), false),
            bytes.len() as u64,
            k == n,
        )
    }
}

/// The root label of the hash tree of `bytes`.
pub open spec fn tree_label(
    hc: spec_fn(Seq<u8>, bool) -> Seq<u8>,
    hi: spec_fn(Seq<u8>, Seq<u8>, u64, bool) -> Seq<u8>,
    bytes: Seq<u8>,
) -> Seq<u8> {
    folded_label(hc, hi, bytes, chunk_count(bytes.len()))
}

/// A message of at most 1024 bytes is one chunk, and its root label is the
/// hash of the whole message as a chunk, marked as the root.
pub proof fn lemma_single_chunk(
    hc: spec_fn(Seq<u8>, bool) -> Seq<u8>,
    hi: spec_fn(Seq<u8>, Seq<u8>, u64, bool) -> Seq<u8>,
    bytes: Seq<u8>,
)
    requires
        bytes.len() <= CHUNK_SIZE,
    ensures
        chunk_count(bytes.len()) == 1,
        tree_label(hc, hi, bytes) == hc(bytes, true),
{
    assert(chunk_of(bytes, 0) =~= bytes);
}

/// A message of 1025 to 2048 bytes is two chunks, split after byte 1024. Its
/// root label is one combine of the two chunk labels, neither of them marked
/// as the root, with the length of the message and the root mark.
pub proof fn lemma_two_chunks(
    hc: spec_fn(Seq<u8>, bool) -> Seq<u8>,
    hi: spec_fn(Seq<u8>, Seq<u8>, u64, bool) -> Seq<u8>,
    bytes: Seq<u8>,
)
    requires
        CHUNK_SIZE < bytes.len() <= 2 * CHUNK_SIZE,
    ensures
        chunk_count(bytes.len()) == 2,
        tree_label(hc, hi, bytes) == hi(
            hc(bytes.subrange(0, CHUNK_SIZE as int), false),
            hc(bytes.subrange(CHUNK_SIZE as int, bytes.len() as int), false),
            bytes.len() as u64,
            true,
        ),
{
    assert(chunk_of(bytes, 0) =~= bytes.subrange(0, CHUNK_SIZE as int));
    assert(chunk_of(bytes, 1) =~= bytes.subrange(CHUNK_SIZE as int, bytes.len() as int));
    assert(folded_label(hc, hi, bytes, 1) == hc(chunk_of(bytes, 0), false));
    assert(folded_label(hc, hi, bytes, 2) == hi(
        folded_label(hc, hi, bytes, 1),
        hc(chunk_of(bytes, 1), false),
        bytes.len() as u64,
        true,
    ));
}

/// A message of more than one chunk has as its root label the combine, marked
/// as the root, of the fold of all chunks but the last with the label of the
/// last; no operation below it is marked.
pub proof fn lemma_root_combine(
    hc: spec_fn(Seq<u8>, bool) -> Seq<u8>,
    hi: spec_fn(Seq<u8>, Seq<u8>, u64, bool) -> Seq<u8>,
    bytes: Seq<u8>,
)
    requires
        bytes.len() > CHUNK_SIZE,
    ensures
        chunk_count(bytes.len()) >= 2,
        tree_label(hc, hi, bytes) == hi(
            folded_label(hc, hi, bytes, (chunk_count(bytes.len()) - 1) as nat),
            hc(chunk_of(bytes, (chunk_count(bytes.len()) - 1) as nat), false),
            bytes.len() as u64,
            true,
        ),
{
}

} // verus!
