//! Cutting a message into chunks.
//!
//! A message is cut into chunks of `CHUNK_SIZE` bytes, the last one holding
//! what is left. The empty message is one empty chunk; no other chunk is empty.

use crate::digest::CHUNK_SIZE;
use vstd::prelude::*;

verus! {

/// How many chunks a message of `len` bytes has.
pub open spec fn chunk_count(len: nat) -> nat {
    if len == 0 {
        1
    } else {
        ((len + CHUNK_SIZE - 1) / (CHUNK_SIZE as int)) as nat
    }
}

/// Where chunk number `index` starts.
pub open spec fn chunk_start(index: nat) -> nat {
    index * CHUNK_SIZE as nat
}

/// Where chunk number `index` of a message of `len` bytes ends.
pub open spec fn chunk_end(len: nat, index: nat) -> nat {
    if chunk_start(index + 1) <= len {
        chunk_start(index + 1)
    } else {
        len
    }
}

/// Chunk number `index` of `bytes`.
pub open spec fn chunk_of(bytes: Seq<u8>, index: nat) -> Seq<u8> {
    bytes.subrange(chunk_start(index) as int, chunk_end(bytes.len(), index) as int)
}

/// The first `k` chunks of `bytes`, one after the other.
pub open spec fn chunks_joined(bytes: Seq<u8>, k: nat) -> Seq<u8>
    decreases k,
{
    if k == 0 {
        Seq::empty()
    } else {
        chunks_joined(bytes, (k - 1) as nat) + chunk_of(bytes, (k - 1) as nat)
    }
}

/// Every chunk lies inside the message; all but the last hold 1024 bytes, and
/// the last ends where the message ends and is empty only if the message is.
pub proof fn lemma_chunk_bounds(len: nat, index: nat)
    requires
        index < chunk_count(len),
    ensures
        chunk_start(index) <= chunk_end(len, index) <= len,
        chunk_end(len, index) - chunk_start(index) <= CHUNK_SIZE,
        index + 1 < chunk_count(len) ==> chunk_end(len, index) == chunk_start(index) + CHUNK_SIZE,
        index + 1 == chunk_count(len) ==> chunk_end(len, index) == len,
        len > 0 ==> chunk_start(index) < chunk_end(len, index),
{
}

/// The chunks partition the message: joined in order they give it back.
pub proof fn lemma_chunks_cover(bytes: Seq<u8>)
    ensures
        chunks_joined(bytes, chunk_count(bytes.len())) == bytes,
{
    let n = chunk_count(bytes.len());
    lemma_chunks_prefix(bytes, n);
    lemma_chunk_bounds(bytes.len(), (n - 1) as nat);
    assert(bytes.subrange(0, bytes.len() as int) =~= bytes);
}

/// The first `k` chunks joined are the message up to the end of the last of them.
proof fn lemma_chunks_prefix(bytes: Seq<u8>, k: nat)
    requires
        1 <= k <= chunk_count(bytes.len()),
    ensures
        chunks_joined(bytes, k) == bytes.subrange(
            0,
            chunk_end(bytes.len(), (k - 1) as nat) as int,
        ),
    decreases k,
{
    let len = bytes.len();
    lemma_chunk_bounds(len, (k - 1) as nat);
    if k == 1 {
        assert(chunks_joined(bytes, 0) =~= Seq::<u8>::empty());
        assert(chunks_joined(bytes, 1) =~= chunk_of(bytes, 0));
    } else {
        lemma_chunks_prefix(bytes, (k - 1) as nat);
        lemma_chunk_bounds(len, (k - 2) as nat);
        assert(chunks_joined(bytes, k) =~= bytes.subrange(
            0,
            chunk_end(len, (k - 1) as nat) as int,
        ));
    }
}

/// How many chunks a message of `len` bytes has.
pub fn count_chunks(len: usize) -> (n: usize)
    ensures
        n == chunk_count(len as nat),
        n >= 1,
{
    if len == 0 {
        1
    } else {
        (len - 1) / CHUNK_SIZE + 1
    }
}

/// The byte range of chunk number `index` of a message of `len` bytes, if the
/// message has that many chunks.
pub fn chunk_range(len: usize, index: usize) -> (r: Option<(usize, usize)>)
    ensures
        r is Some <==> index < chunk_count(len as nat),
        r matches Some((start, end)) ==> start == chunk_start(index as nat) && end == chunk_end(
            len as nat,
            index as nat,
        ),
{
    if index >= count_chunks(len) {
        return None;
    }
    proof {
        lemma_chunk_bounds(len as nat, index as nat);
    }
    let start: usize = index * CHUNK_SIZE;
    let end: usize = if len - start >= CHUNK_SIZE {
        start + CHUNK_SIZE
    } else {
        len
    };
    Some((start, end))
}

} // verus!
