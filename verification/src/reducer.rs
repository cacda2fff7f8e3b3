//! A reducer that walks the hash tree of a message one hash operation at a
//! time.
//!
//! The reducer never hashes. It names the operation to perform next, a chunk
//! hash or a combine, and takes the label that came of it; after the last one
//! it hands out the digest. [`tree_hash`] runs it to the end over a chunk hash
//! and a combine given as functions.

use crate::chunks::{chunk_count, chunk_end, chunk_of, chunk_start, count_chunks, lemma_chunk_bounds};
use crate::digest::{Digest, Label, CHUNK_SIZE};
use crate::tree::{folded_label, tree_label};
use vstd::pervasive::unreached;
use vstd::prelude::*;

verus! {

/// What the reducer asks for next.
#[derive(Clone, Copy, Debug, PartialEq, Eq)]
pub enum Operation {
    /// Hash the bytes `start..end` of the message as one chunk.
    HashChunk { start: usize, end: usize, is_root: bool },
    /// Combine two labels; `total_length` is the length of the whole message.
    HashInner { left: Label, right: Label, total_length: u64, is_root: bool },
    /// Nothing is left to hash.
    Done { digest: Digest },
}

impl Operation {
    /// Whether this operation is the one that yields the digest.
    pub open spec fn marks_root(self) -> bool {
        match self {
            Operation::HashChunk { is_root, .. } => is_root,
            Operation::HashInner { is_root, .. } => is_root,
            Operation::Done { .. } => false,
        }
    }

    /// The bytes of the label that `hc` and `hi` give for this operation on
    /// `bytes`.
    pub open spec fn answer(
        self,
        hc: spec_fn(Seq<u8>, bool) -> Seq<u8>,
        hi: spec_fn(Seq<u8>, Seq<u8>, u64, bool) -> Seq<u8>,
        bytes: Seq<u8>,
    ) -> Seq<u8> {
        match self {
            Operation::HashChunk { start, end, is_root } => hc(
                bytes.subrange(start as int, end as int),
                is_root,
            ),
            Operation::HashInner { left, right, total_length, is_root } => hi(
                left@,
                right@,
                total_length,
                is_root,
            ),
            Operation::Done { digest } => digest@,
        }
    }
}

/// The reducer's state as plain values.
pub struct ReducerState {
    /// Length of the message.
    pub total_len: nat,
    /// How many chunks have been folded into `acc`.
    pub folded: nat,
    /// The label of the chunks folded so far; `None` before the first.
    pub acc: Option<Label>,
    /// The label of chunk number `folded`, hashed but not yet combined.
    pub pending: Option<Label>,
}

impl ReducerState {
    /// The state before any operation.
    pub open spec fn start(total_len: nat) -> ReducerState {
        ReducerState { total_len, folded: 0, acc: None, pending: None }
    }

    /// How many chunks the message has.
    pub open spec fn chunks(self) -> nat {
        chunk_count(self.total_len)
    }

    /// What holds of every state the reducer can be in.
    pub open spec fn wf(self) -> bool {
        &&& self.total_len <= usize::MAX
        &&& self.folded <= self.chunks()
        &&& (self.folded == 0 <==> self.acc is None)
        &&& (self.pending is Some ==> 1 <= self.folded < self.chunks())
    }

    /// Whether every chunk has been folded.
    pub open spec fn finished(self) -> bool {
        self.folded >= self.chunks()
    }

    /// How many operations have been answered.
    pub open spec fn answered(self) -> nat {
        if self.folded == 0 {
            0
        } else if self.pending is Some {
            2 * self.folded
        } else {
            (2 * self.folded - 1) as nat
        }
    }

    /// How many operations are still to be answered: a message of `n` chunks
    /// takes `n` chunk hashes and `n - 1` combines.
    pub open spec fn remaining(self) -> nat {
        (2 * self.chunks() - 1 - self.answered()) as nat
    }

    /// The operation to perform in this state.
    pub open spec fn request(self) -> Operation {
        if self.finished() {
            Operation::Done { digest: Digest::of_label(self.acc.unwrap()) }
        } else if self.pending is Some {
            Operation::HashInner {
                left: self.acc.unwrap(),
                right: self.pending.unwrap(),
                total_length: self.total_len as u64,
                is_root: self.folded + 1 == self.chunks(),
            }
        } else {
            Operation::HashChunk {
                start: chunk_start(self.folded) as usize,
                end: chunk_end(self.total_len, self.folded) as usize,
                is_root: self.chunks() == 1,
            }
        }
    }

    /// The state after `label` has come back for the operation requested.
    /// A finished state stays as it is.
    pub open spec fn advance(self, label: Label) -> ReducerState {
        if self.finished() {
            self
        } else if self.pending is Some {
            ReducerState { folded: self.folded + 1, acc: Some(label), pending: None, ..self }
        } else if self.folded == 0 {
            ReducerState { folded: 1, acc: Some(label), ..self }
        } else {
            ReducerState { pending: Some(label), ..self }
        }
    }

    /// The state after the labels `labels` have come back, one for each
    /// operation requested, in order.
    pub open spec fn run(self, labels: Seq<Label>) -> ReducerState
        decreases labels.len(),
    {
        if labels.len() == 0 {
            self
        } else {
            self.advance(labels[0]).run(labels.drop_first())
        }
    }

    /// Whether `labels` are what `hc` and `hi` give for the operations
    /// requested from this state on, in order.
    pub open spec fn answered_by(
        self,
        hc: spec_fn(Seq<u8>, bool) -> Seq<u8>,
        hi: spec_fn(Seq<u8>, Seq<u8>, u64, bool) -> Seq<u8>,
        bytes: Seq<u8>,
        labels: Seq<Label>,
    ) -> bool
        decreases labels.len(),
    {
        if labels.len() == 0 {
            true
        } else {
            &&& labels[0]@ == self.request().answer(hc, hi, bytes)
            &&& self.advance(labels[0]).answered_by(hc, hi, bytes, labels.drop_first())
        }
    }

    /// How many of the operations requested while `labels` come back, one
    /// for each, are marked as the root.
    pub open spec fn root_marks(self, labels: Seq<Label>) -> nat
        decreases labels.len(),
    {
        if labels.len() == 0 {
            0
        } else {
            let here: nat = if self.request().marks_root() {
                1
            } else {
                0
            };
            here + self.advance(labels[0]).root_marks(labels.drop_first())
        }
    }

    /// Whether the labels held are those that `hc` and `hi` give on `bytes`.
    pub open spec fn agrees_with(
        self,
        hc: spec_fn(Seq<u8>, bool) -> Seq<u8>,
        hi: spec_fn(Seq<u8>, Seq<u8>, u64, bool) -> Seq<u8>,
        bytes: Seq<u8>,
    ) -> bool {
        &&& self.wf()
        &&& self.total_len == bytes.len()
        &&& (self.acc matches Some(acc) ==> acc@ == folded_label(hc, hi, bytes, self.folded))
        &&& (self.pending matches Some(pending) ==> pending@ == hc(
            chunk_of(bytes, self.folded),
            false,
        ))
    }
}

impl ReducerState {
    /// The start state is well formed, holds no label yet, and has one chunk
    /// hash per chunk and one combine per chunk after the first before it.
    pub proof fn lemma_start(
        hc: spec_fn(Seq<u8>, bool) -> Seq<u8>,
        hi: spec_fn(Seq<u8>, Seq<u8>, u64, bool) -> Seq<u8>,
        bytes: Seq<u8>,
    )
        requires
            bytes.len() <= usize::MAX,
        ensures
            Self::start(bytes.len()).agrees_with(hc, hi, bytes),
            Self::start(bytes.len()).remaining() == 2 * chunk_count(bytes.len()) - 1,
            !Self::start(bytes.len()).finished(),
    {
    }

    /// Whatever label comes back, the next state is well formed, and one
    /// operation fewer remains. The state is finished exactly when none does.
    pub proof fn lemma_advance(self, label: Label)
        requires
            self.wf(),
        ensures
            self.advance(label).wf(),
            self.advance(label).total_len == self.total_len,
            self.finished() <==> self.remaining() == 0,
            self.finished() ==> self.advance(label) == self,
            !self.finished() ==> self.advance(label).remaining() + 1 == self.remaining(),
    {
    }

    /// What is requested before the end: a chunk hash asks for the next chunk
    /// of the message, which lies inside it; a combine is given the length of
    /// the whole message. The operation is marked as the root exactly when it
    /// is the last one.
    pub proof fn lemma_request(self, bytes: Seq<u8>)
        requires
            self.wf(),
            !self.finished(),
            bytes.len() == self.total_len,
        ensures
            self.request().marks_root() <==> self.remaining() == 1,
            self.request() matches Operation::HashChunk { start, end, .. } ==> {
                &&& start <= end <= bytes.len()
                &&& end - start <= CHUNK_SIZE
                &&& bytes.subrange(start as int, end as int) == chunk_of(bytes, self.folded)
            },
            self.request() matches Operation::HashInner { total_length, .. } ==> total_length
                == bytes.len(),
            !(self.request() is Done),
    {
        lemma_chunk_bounds(self.total_len, self.folded);
    }

    /// If the labels held are those of `hc` and `hi`, and the label that
    /// comes back is what they give for the operation requested, the labels
    /// held afterwards are theirs too.
    pub proof fn lemma_advance_agrees(
        self,
        hc: spec_fn(Seq<u8>, bool) -> Seq<u8>,
        hi: spec_fn(Seq<u8>, Seq<u8>, u64, bool) -> Seq<u8>,
        bytes: Seq<u8>,
        label: Label,
    )
        requires
            self.agrees_with(hc, hi, bytes),
            !self.finished(),
            label@ == self.request().answer(hc, hi, bytes),
        ensures
            self.advance(label).agrees_with(hc, hi, bytes),
    {
        self.lemma_request(bytes);
        if self.pending is Some {
            assert(folded_label(hc, hi, bytes, self.folded + 1) == hi(
                folded_label(hc, hi, bytes, self.folded),
                hc(chunk_of(bytes, self.folded), false),
                bytes.len() as u64,
                self.folded + 1 == chunk_count(bytes.len()),
            ));
        } else if self.folded == 0 {
            assert(folded_label(hc, hi, bytes, 1) == hc(
                chunk_of(bytes, 0),
                chunk_count(bytes.len()) == 1,
            ));
        } else {
            assert(self.chunks() != 1);
        }
    }

    /// A finished state whose labels are those of `hc` and `hi` hands out the
    /// root label of the tree as the digest.
    pub proof fn lemma_finished(
        self,
        hc: spec_fn(Seq<u8>, bool) -> Seq<u8>,
        hi: spec_fn(Seq<u8>, Seq<u8>, u64, bool) -> Seq<u8>,
        bytes: Seq<u8>,
    )
        requires
            self.agrees_with(hc, hi, bytes),
            self.finished(),
        ensures
            self.request() matches Operation::Done { digest } && digest@ == tree_label(
                hc,
                hi,
                bytes,
            ),
    {
        broadcast use Digest::lemma_of_label;

    }

    /// Running on from a state whose labels are those of `hc` and `hi`, with
    /// every operation that remains answered by them, ends in a finished
    /// state whose labels are theirs.
    proof fn lemma_run_from(
        self,
        hc: spec_fn(Seq<u8>, bool) -> Seq<u8>,
        hi: spec_fn(Seq<u8>, Seq<u8>, u64, bool) -> Seq<u8>,
        bytes: Seq<u8>,
        labels: Seq<Label>,
    )
        requires
            self.agrees_with(hc, hi, bytes),
            labels.len() == self.remaining(),
            self.answered_by(hc, hi, bytes, labels),
        ensures
            self.run(labels).agrees_with(hc, hi, bytes),
            self.run(labels).finished(),
        decreases labels.len(),
    {
        if labels.len() > 0 {
            self.lemma_advance(labels[0]);
            self.lemma_advance_agrees(hc, hi, bytes, labels[0]);
            self.advance(labels[0]).lemma_run_from(hc, hi, bytes, labels.drop_first());
        } else {
            self.lemma_advance(arbitrary());
        }
    }

    /// While the operations that remain are answered, whatever the labels,
    /// exactly one of them is marked as the root, unless none remains.
    proof fn lemma_root_marks_from(self, labels: Seq<Label>)
        requires
            self.wf(),
            labels.len() == self.remaining(),
        ensures
            self.root_marks(labels) == if self.finished() {
                0nat
            } else {
                1nat
            },
        decreases labels.len(),
    {
        if labels.len() > 0 {
            let next = self.advance(labels[0]);
            self.lemma_advance(labels[0]);
            self.lemma_request(Seq::new(self.total_len, |i: int| 0u8));
            next.lemma_advance(labels[0]);
            next.lemma_root_marks_from(labels.drop_first());
        } else {
            self.lemma_advance(arbitrary());
        }
    }

    /// Over a whole run exactly one operation is marked as the root, whatever
    /// the message and whatever the labels that come back.
    pub proof fn lemma_one_root_mark(len: nat, labels: Seq<Label>)
        requires
            len <= usize::MAX,
            labels.len() == 2 * chunk_count(len) - 1,
        ensures
            Self::start(len).root_marks(labels) == 1,
    {
        Self::start(len).lemma_root_marks_from(labels);
    }

    /// The run on a message of at most 1024 bytes: the whole message is asked
    /// for as one chunk, marked as the root, and the label that comes back
    /// is the digest. No combine takes place.
    pub proof fn lemma_single_chunk_run(len: nat, label: Label)
        requires
            len <= CHUNK_SIZE,
        ensures
            Self::start(len).request() == (Operation::HashChunk {
                start: 0,
                end: len as usize,
                is_root: true,
            }),
            Self::start(len).advance(label).request() == (Operation::Done {
                digest: Digest::of_label(label),
            }),
    {
    }

    /// The run on a message of 1025 to 2048 bytes: its first 1024 bytes and
    /// the rest are asked for as chunks, neither marked as the root; then one
    /// combine of the two labels that came back, with the length of the
    /// message and the root mark; and the label of that combine is the digest.
    pub proof fn lemma_two_chunk_run(len: nat, left: Label, right: Label, root: Label)
        requires
            CHUNK_SIZE < len <= 2 * CHUNK_SIZE,
        ensures
            ({
                let s0 = Self::start(len);
                let s1 = s0.advance(left);
                let s2 = s1.advance(right);
                let s3 = s2.advance(root);
                &&& s0.request() == (Operation::HashChunk {
                    start: 0,
                    end: CHUNK_SIZE,
                    is_root: false,
                })
                &&& s1.request() == (Operation::HashChunk {
                    start: CHUNK_SIZE,
                    end: len as usize,
                    is_root: false,
                })
                &&& s2.request() == (Operation::HashInner {
                    left,
                    right,
                    total_length: len as u64,
                    is_root: true,
                })
                &&& s3.request() == (Operation::Done { digest: Digest::of_label(root) })
            }),
    {
    }

    /// A whole run: from the start state, with one label for every chunk
    /// hash and every combine, each what `hc` or `hi` gives for the operation
    /// requested, the reducer is finished and hands out the root label of the
    /// tree as the digest.
    pub proof fn lemma_run(
        hc: spec_fn(Seq<u8>, bool) -> Seq<u8>,
        hi: spec_fn(Seq<u8>, Seq<u8>, u64, bool) -> Seq<u8>,
        bytes: Seq<u8>,
        labels: Seq<Label>,
    )
        requires
            bytes.len() <= usize::MAX,
            labels.len() == 2 * chunk_count(bytes.len()) - 1,
            Self::start(bytes.len()).answered_by(hc, hi, bytes, labels),
        ensures
            Self::start(bytes.len()).run(labels).finished(),
            Self::start(bytes.len()).run(labels).request() matches Operation::Done { digest }
                && digest@ == tree_label(hc, hi, bytes),
    {
        let s = Self::start(bytes.len());
        Self::lemma_start(hc, hi, bytes);
        s.lemma_run_from(hc, hi, bytes, labels);
        s.run(labels).lemma_finished(hc, hi, bytes);
    }
}

/// Walks the hash tree of one message. It never hashes: [`TreeReducer::request`]
/// names the operation to perform, and [`TreeReducer::advance`] takes the
/// label that came of it.
#[derive(Clone, Copy, Debug)]
pub struct TreeReducer {
    total_len: usize,
    folded: usize,
    acc: Option<Label>,
    pending: Option<Label>,
}

impl View for TreeReducer {
    type V = ReducerState;

    closed spec fn view(&self) -> ReducerState {
        ReducerState {
            total_len: self.total_len as nat,
            folded: self.folded as nat,
            acc: self.acc,
            pending: self.pending,
        }
    }
}

impl TreeReducer {
    #[verifier::type_invariant]
    spec fn well_formed(self) -> bool {
        self@.wf()
    }

    /// A reducer for a message of `total_len` bytes, before any operation.
    pub fn new(total_len: usize) -> (r: TreeReducer)
        ensures
            r@ == ReducerState::start(total_len as nat),
    {
        TreeReducer { total_len, folded: 0, acc: None, pending: None }
    }

    /// Length of the message.
    pub fn total_len(&self) -> (len: usize)
        ensures
            len == self@.total_len,
    {
        self.total_len
    }

    /// Whether every chunk has been folded, so that the digest is at hand.
    pub fn is_finished(&self) -> (b: bool)
        ensures
            b == self@.finished(),
    {
        self.folded >= count_chunks(self.total_len)
    }

    /// How many operations are still to be answered.
    pub fn remaining(&self) -> (n: usize)
        ensures
            n == self@.remaining(),
    {
        proof {
            use_type_invariant(self);
        }
        let chunks = count_chunks(self.total_len);
        let left = chunks - self.folded;
        if self.folded == 0 {
            left + (left - 1)
        } else if self.pending.is_some() {
            left + (left - 1)
        } else {
            left + left
        }
    }

    /// The operation to perform now.
    pub fn request(&self) -> (op: Operation)
        ensures
            op == self@.request(),
            self@.wf(),
    {
        proof {
            use_type_invariant(self);
        }
        let chunks = count_chunks(self.total_len);
        if self.folded >= chunks {
            match self.acc {
                Some(label) => Operation::Done { digest: Digest::from_bytes(label) },
                None => unreached(),
            }
        } else {
            match (self.acc, self.pending) {
                (Some(left), Some(right)) => Operation::HashInner {
                    left,
                    right,
                    total_length: self.total_len as u64,
                    is_root: self.folded + 1 == chunks,
                },
                _ => {
                    proof {
                        lemma_chunk_bounds(self.total_len as nat, self.folded as nat);
                    }
                    let start: usize = self.folded * CHUNK_SIZE;
                    let end: usize = if self.total_len - start >= CHUNK_SIZE {
                        start + CHUNK_SIZE
                    } else {
                        self.total_len
                    };
                    Operation::HashChunk { start, end, is_root: chunks == 1 }
                },
            }
        }
    }

    /// Takes the label that came of the operation last named by
    /// [`TreeReducer::request`]. A finished reducer ignores it.
    pub fn advance(&mut self, label: Label)
        ensures
            final(self)@ == old(self)@.advance(label),
            old(self)@.wf(),
            final(self)@.wf(),
    {
        proof {
            use_type_invariant(&*self);
            self@.lemma_advance(label);
        }
        let chunks = count_chunks(self.total_len);
        if self.folded >= chunks {
        } else if self.pending.is_some() {
            *self = TreeReducer {
                total_len: self.total_len,
                folded: self.folded + 1,
                acc: Some(label),
                pending: None,
            };
        } else if self.folded == 0 {
            *self = TreeReducer {
                total_len: self.total_len,
                folded: 1,
                acc: Some(label),
                pending: None,
            };
        } else {
            *self = TreeReducer {
                total_len: self.total_len,
                folded: self.folded,
                acc: self.acc,
                pending: Some(label),
            };
        }
    }

    /// The digest, once every chunk has been folded.
    pub fn digest(&self) -> (d: Option<Digest>)
        ensures
            d is Some <==> self@.finished(),
            d matches Some(digest) ==> self@.request() == (Operation::Done { digest }),
    {
        match self.request() {
            Operation::Done { digest } => Some(digest),
            _ => None,
        }
    }
}

/// Whether the executable chunk hash `f` computes `hc`: whatever it returns
/// for a chunk is what `hc` gives for the chunk's bytes.
pub open spec fn chunk_hash_computes<C: Fn(&[u8], bool) -> Label>(
    f: C,
    hc: spec_fn(Seq<u8>, bool) -> Seq<u8>,
) -> bool {
    forall|data: &[u8], is_root: bool, out: Label| #[trigger]
        f.ensures((data, is_root), out) ==> out@ == hc(data@, is_root)
}

/// Whether the executable combine `g` computes `hi`.
pub open spec fn inner_hash_computes<I: Fn(&Label, &Label, u64, bool) -> Label>(
    g: I,
    hi: spec_fn(Seq<u8>, Seq<u8>, u64, bool) -> Seq<u8>,
) -> bool {
    forall|left: &Label, right: &Label, total_length: u64, is_root: bool, out: Label| #[trigger]
        g.ensures((left, right, total_length, is_root), out) ==> out@ == hi(
            left@,
            right@,
            total_length,
            is_root,
        )
}

/// The digest of `bytes` under the chunk hash `hash_chunk` and the combine
/// `hash_inner`: every chunk is handed to `hash_chunk`, every pair of labels
/// to `hash_inner`, in the order of the tree, and the label of the operation
/// marked as the root comes back as the digest.
pub fn tree_hash<C, I>(bytes: &[u8], hash_chunk: C, hash_inner: I) -> (digest: Digest) where
    C: Fn(&[u8], bool) -> Label,
    I: Fn(&Label, &Label, u64, bool) -> Label,

    requires
        forall|data: &[u8], is_root: bool|
            data@.len() <= CHUNK_SIZE ==> #[trigger] hash_chunk.requires((data, is_root)),
        forall|left: &Label, right: &Label, total_length: u64, is_root: bool| #[trigger]
            hash_inner.requires((left, right, total_length, is_root)),
    ensures
        forall|
            hc: spec_fn(Seq<u8>, bool) -> Seq<u8>,
            hi: spec_fn(Seq<u8>, Seq<u8>, u64, bool) -> Seq<u8>,
        |
            #![trigger chunk_hash_computes(hash_chunk, hc), inner_hash_computes(hash_inner, hi)]
            chunk_hash_computes(hash_chunk, hc) && inner_hash_computes(hash_inner, hi)
                ==> digest@ == tree_label(hc, hi, bytes@),
{
    let mut reducer = TreeReducer::new(bytes.len());
    proof {
        assert forall|
            hc: spec_fn(Seq<u8>, bool) -> Seq<u8>,
            hi: spec_fn(Seq<u8>, Seq<u8>, u64, bool) -> Seq<u8>,
        |
            #![trigger chunk_hash_computes(hash_chunk, hc), inner_hash_computes(hash_inner, hi)]
            chunk_hash_computes(hash_chunk, hc) && inner_hash_computes(
                hash_inner,
                hi,
            ) implies reducer@.agrees_with(hc, hi, bytes@) by {
            ReducerState::lemma_start(hc, hi, bytes@);
        }
    }
    while !reducer.is_finished()
        invariant
            reducer@.wf(),
            reducer@.total_len == bytes@.len(),
            forall|data: &[u8], is_root: bool|
                data@.len() <= CHUNK_SIZE ==> #[trigger] hash_chunk.requires((data, is_root)),
            forall|left: &Label, right: &Label, total_length: u64, is_root: bool| #[trigger]
                hash_inner.requires((left, right, total_length, is_root)),
            forall|
                hc: spec_fn(Seq<u8>, bool) -> Seq<u8>,
                hi: spec_fn(Seq<u8>, Seq<u8>, u64, bool) -> Seq<u8>,
            |
                #![trigger chunk_hash_computes(hash_chunk, hc), inner_hash_computes(hash_inner, hi)]
                chunk_hash_computes(hash_chunk, hc) && inner_hash_computes(hash_inner, hi)
                    ==> reducer@.agrees_with(hc, hi, bytes@),
        decreases reducer@.remaining(),
    {
        let op = reducer.request();
        let ghost before = reducer@;
        proof {
            before.lemma_request(bytes@);
        }
        let label: Label = match op {
            Operation::HashChunk { start, end, is_root } => {
                let chunk: &[u8] = &bytes[start..end];
                hash_chunk(chunk, is_root)
            },
            Operation::HashInner { left, right, total_length, is_root } => hash_inner(
                &left,
                &right,
                total_length,
                is_root,
            ),
            Operation::Done { .. } => unreached(),
        };
        reducer.advance(label);
        proof {
            before.lemma_advance(label);
            assert forall|
                hc: spec_fn(Seq<u8>, bool) -> Seq<u8>,
                hi: spec_fn(Seq<u8>, Seq<u8>, u64, bool) -> Seq<u8>,
            |
                #![trigger chunk_hash_computes(hash_chunk, hc), inner_hash_computes(hash_inner, hi)]
                chunk_hash_computes(hash_chunk, hc) && inner_hash_computes(
                    hash_inner,
                    hi,
                ) implies reducer@.agrees_with(hc, hi, bytes@) by {
                assert(label@ == op.answer(hc, hi, bytes@));
                before.lemma_advance_agrees(hc, hi, bytes@, label);
            }
        }
    }
    let op = reducer.request();
    proof {
        assert forall|
            hc: spec_fn(Seq<u8>, bool) -> Seq<u8>,
            hi: spec_fn(Seq<u8>, Seq<u8>, u64, bool) -> Seq<u8>,
        |
            #![trigger chunk_hash_computes(hash_chunk, hc), inner_hash_computes(hash_inner, hi)]
            chunk_hash_computes(hash_chunk, hc) && inner_hash_computes(
                hash_inner,
                hi,
            ) implies (op matches Operation::Done { digest } && digest@ == tree_label(
            hc,
            hi,
            bytes@,
        )) by {
            reducer@.lemma_finished(hc, hi, bytes@);
        }
    }
    match op {
        Operation::Done { digest } => digest,
        _ => unreached(),
    }
}

} // verus!
