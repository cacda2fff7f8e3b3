//! The digest value: thirty-two bytes, produced once and never changed.

use crate::hex::{bytes_to_hex, hex_of};
use vstd::prelude::*;

verus! {

/// Number of bytes in a digest and in every label of the hash tree.
pub const WIDTH: usize = 32;

/// Number of bytes in every chunk of a message but the last.
pub const CHUNK_SIZE: usize = 1024;

/// The result of one hash operation: of a chunk, or of a pair of labels.
pub type Label = [u8; 32];

/// The digest of a message: the label at the root of its hash tree.
#[derive(Clone, Copy, Debug, Eq, Hash)]
pub struct Digest {
    bytes: [u8; 32],
}

impl View for Digest {
    type V = Seq<u8>;

    closed spec fn view(&self) -> Seq<u8> {
        self.bytes@
    }
}

impl PartialEq for Digest {
    /// Compares all thirty-two bytes, whatever the first difference.
    fn eq(&self, other: &Digest) -> (same: bool) {
        let mut same = true;
        let mut i: usize = 0;
        while i < WIDTH
            invariant
                i <= WIDTH,
                same <==> self.bytes@.subrange(0, i as int) =~= other.bytes@.subrange(0, i as int),
            decreases WIDTH - i,
        {
            let equal_here = self.bytes[i] == other.bytes[i];
            proof {
                let a = self.bytes@;
                let b = other.bytes@;
                assert(a.subrange(0, i + 1) =~= a.subrange(0, i as int).push(a[i as int]));
                assert(b.subrange(0, i + 1) =~= b.subrange(0, i as int).push(b[i as int]));
                if a.subrange(0, i + 1) == b.subrange(0, i + 1) {
                    assert(a.subrange(0, i as int) =~= a.subrange(0, i + 1).drop_last());
                    assert(b.subrange(0, i as int) =~= b.subrange(0, i + 1).drop_last());
                    assert(a[i as int] == a.subrange(0, i + 1).last());
                    assert(b[i as int] == b.subrange(0, i + 1).last());
                }
            }
            same = same && equal_here;
            i += 1;
        }
        proof {
            assert(self.bytes@.subrange(0, WIDTH as int) =~= self.bytes@);
            assert(other.bytes@.subrange(0, WIDTH as int) =~= other.bytes@);
        }
        same
    }
}

impl vstd::std_specs::cmp::PartialEqSpecImpl for Digest {
    open spec fn obeys_eq_spec() -> bool {
        true
    }

    open spec fn eq_spec(&self, other: &Digest) -> bool {
        self@ == other@
    }
}

impl Digest {
    /// The label this digest holds, as an array.
    pub closed spec fn label(&self) -> Label {
        self.bytes
    }

    /// A digest always views as exactly `WIDTH` bytes, those of its label.
    pub broadcast proof fn lemma_view(self)
        ensures
            #![trigger self@]
            self@.len() == WIDTH,
            self@ == self.label()@,
    {
    }

    /// The digest that holds `bytes`.
    pub closed spec fn of_label(bytes: Label) -> Digest {
        Digest { bytes }
    }

    /// A digest is determined by the label it holds.
    pub broadcast proof fn lemma_of_label(bytes: Label)
        ensures
            #![trigger Digest::of_label(bytes)]
            Digest::of_label(bytes).label() == bytes,
            Digest::of_label(bytes)@ == bytes@,
    {
    }

    /// Digests with the same bytes are the same digest.
    pub proof fn lemma_equal_by_view(self, other: Digest)
        requires
            self@ == other@,
        ensures
            self == other,
    {
        assert(self.bytes@ =~= other.bytes@);
        assert(self.bytes == other.bytes);
    }

    /// Wraps a root label as a digest.
    pub fn from_bytes(bytes: Label) -> (d: Digest)
        ensures
            d == Digest::of_label(bytes),
            d.label() == bytes,
            d@ == bytes@,
    {
        Digest { bytes }
    }

    /// The thirty-two raw bytes.
    pub fn as_bytes(&self) -> (b: &Label)
        ensures
            *b == self.label(),
            b@ == self@,
    {
        &self.bytes
    }

    /// The thirty-two raw bytes, by value.
    pub fn into_bytes(self) -> (b: Label)
        ensures
            b == self.label(),
            b@ == self@,
    {
        self.bytes
    }

    /// The canonical text form: sixty-four lowercase hexadecimal digits.
    pub fn to_hex(&self) -> (s: String)
        ensures
            s@ == hex_of(self@),
            s@.len() == 2 * WIDTH,
    {
        bytes_to_hex(self.bytes.as_slice())
    }
}

} // verus!
