//! Hashing a whole message in one call.
//!
//! The digest is computed by `bab_rs`. For a message of at most two chunks
//! it is the root label of the hash tree of [`crate::tree`] over the chunk
//! hash and the combine of WILLIAM3. `bab_rs` keeps those two operations to
//! itself, so they stand here as names only: [`chunk_label`] and
//! [`inner_label`]. For longer messages `bab_rs` builds another tree, and
//! nothing is stated of the digest but its name, [`william3`].

use crate::chunks::chunk_count;
use crate::digest::{Digest, CHUNK_SIZE};
use crate::hex::hex_of;
use crate::tree::{lemma_single_chunk, lemma_two_chunks, tree_label};
use vstd::prelude::*;

verus! {

/// The WILLIAM3 digest of a message, as `bab_rs::batch_hash` computes it.
pub uninterp spec fn william3(bytes: Seq<u8>) -> Seq<u8>;

/// The label that the chunk hash of WILLIAM3 gives a chunk: what the
/// function `hash_chunk` of `bab_rs` writes under the unkeyed context.
/// `bab_rs` does not export that function, and nothing here calls it.
pub uninterp spec fn chunk_label(data: Seq<u8>, is_root: bool) -> Seq<u8>;

/// The label that the combine of WILLIAM3 gives a pair of labels: what the
/// function `hash_inner` of `bab_rs` writes under the unkeyed context.
/// `bab_rs` does not export that function, and nothing here calls it.
pub uninterp spec fn inner_label(
    left: Seq<u8>,
    right: Seq<u8>,
    total_length: u64,
    is_root: bool,
) -> Seq<u8>;

/// Calls `bab_rs::batch_hash` on a fresh `bab_rs::William3Digest` and copies
/// the digest's bytes out. Trusted, as the source of `bab_rs` shows it:
/// * the bytes returned are a function of the message alone, [`william3`];
/// * a message of at most 1024 bytes is hashed by one call of `hash_chunk`
///   on the whole message, marked as the root;
/// * a message of 1025 to 2048 bytes is split after byte 1024, both parts
///   are hashed by `hash_chunk`, neither marked as the root, and the two
///   labels are combined by one call of `hash_inner`, with the length of
///   the message and the root mark.
#[verifier::external_body]
fn william3_label(bytes: &[u8]) -> (out: [u8; 32])
    ensures
        out@ == william3(bytes@),
        bytes@.len() <= CHUNK_SIZE ==> out@ == chunk_label(bytes@, true),
        CHUNK_SIZE < bytes@.len() <= 2 * CHUNK_SIZE ==> out@ == inner_label(
            chunk_label(bytes@.subrange(0, CHUNK_SIZE as int), false),
            chunk_label(bytes@.subrange(CHUNK_SIZE as int, bytes@.len() as int), false),
            bytes@.len() as u64,
            true,
        ),
{
    let mut digest = bab_rs::William3Digest::default();
    bab_rs::batch_hash(bytes, &mut digest);
    *digest.as_bytes()
}

/// The chunk hash of WILLIAM3 as a function on bytes.
pub open spec fn william3_chunk_hash() -> spec_fn(Seq<u8>, bool) -> Seq<u8> {
    |data: Seq<u8>, is_root: bool| chunk_label(data, is_root)
}

/// The combine of WILLIAM3 as a function on bytes.
pub open spec fn william3_combine() -> spec_fn(Seq<u8>, Seq<u8>, u64, bool) -> Seq<u8> {
    |left: Seq<u8>, right: Seq<u8>, total_length: u64, is_root: bool|
        inner_label(left, right, total_length, is_root)
}

/// The root label of the hash tree of `bytes` over the chunk hash and the
/// combine of WILLIAM3.
pub open spec fn william3_tree(bytes: Seq<u8>) -> Seq<u8> {
    tree_label(william3_chunk_hash(), william3_combine(), bytes)
}

/// The hash tree of a message of at most two chunks over the operations of
/// WILLIAM3: one chunk is hashed as the root; two chunks are hashed, neither
/// as the root, and combined once as the root with the message's length.
pub proof fn lemma_william3_tree(bytes: Seq<u8>)
    requires
        bytes.len() <= 2 * CHUNK_SIZE,
    ensures
        bytes.len() <= CHUNK_SIZE ==> chunk_count(bytes.len()) == 1 && william3_tree(bytes)
            == chunk_label(bytes, true),
        bytes.len() > CHUNK_SIZE ==> chunk_count(bytes.len()) == 2 && william3_tree(bytes)
            == inner_label(
            chunk_label(bytes.subrange(0, CHUNK_SIZE as int), false),
            chunk_label(bytes.subrange(CHUNK_SIZE as int, bytes.len() as int), false),
            bytes.len() as u64,
            true,
        ),
{
    if bytes.len() <= CHUNK_SIZE {
        lemma_single_chunk(william3_chunk_hash(), william3_combine(), bytes);
    } else {
        lemma_two_chunks(william3_chunk_hash(), william3_combine(), bytes);
    }
}

/// Hashing is a function of the message: whenever two digests were computed
/// of the same bytes, they are the same digest.
pub proof fn lemma_batch_hash_deterministic(bytes: Seq<u8>, first: Digest, second: Digest)
    requires
        first@ == william3(bytes),
        second@ == william3(bytes),
    ensures
        first == second,
        hex_of(first@) == hex_of(second@),
{
    first.lemma_equal_by_view(second);
}

/// The digest of `bytes`. Every byte string, the empty one included, has one.
///
/// A message of at most 1024 bytes has as its digest the label of the whole
/// message as one chunk, marked as the root. A message of 1025 to 2048 bytes
/// has the root combine of the labels of its first 1024 bytes and of the
/// rest. In both cases that is the root label of the hash tree.
pub fn batch_hash(bytes: &[u8]) -> (d: Digest)
    ensures
        d@ == william3(bytes@),
        bytes@.len() <= CHUNK_SIZE ==> d@ == chunk_label(bytes@, true),
        CHUNK_SIZE < bytes@.len() <= 2 * CHUNK_SIZE ==> d@ == inner_label(
            chunk_label(bytes@.subrange(0, CHUNK_SIZE as int), false),
            chunk_label(bytes@.subrange(CHUNK_SIZE as int, bytes@.len() as int), false),
            bytes@.len() as u64,
            true,
        ),
        bytes@.len() <= 2 * CHUNK_SIZE ==> d@ == william3_tree(bytes@),
{
    proof {
        if bytes@.len() <= 2 * CHUNK_SIZE {
            lemma_william3_tree(bytes@);
        }
    }
    Digest::from_bytes(william3_label(bytes))
}

/// The digest of `bytes` in its text form.
pub fn hash_hex(bytes: &[u8]) -> (s: String)
    ensures
        s@ == hex_of(william3(bytes@)),
        s@.len() == 64,
{
    let d = batch_hash(bytes);
    proof {
        d.lemma_view();
    }
    d.to_hex()
}

} // verus!
