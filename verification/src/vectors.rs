//! Records of inputs and their digests, as written out for comparison with
//! other implementations of the same hash.

use crate::batch::{hash_hex, william3};
use crate::hex::hex_of;
use crate::text::{append_decimal, decimal, lemma_repeated, repeat_text, repeated};
use vstd::prelude::*;
use vstd::string::{StrSliceExecFns, StringExecFns};
use vstd::utf8::{
    decode_utf8, encode_utf8, encode_utf8_decode_utf8, encode_utf8_valid_utf8, is_ascii_chars,
    is_ascii_chars_encode_utf8, is_char_boundary, is_char_boundary_iff_not_is_continuation_byte,
    is_continuation_byte, valid_utf8_split,
};

verus! {

/// Longest input, in bytes, that a record shows in full.
pub const PREVIEW_LIMIT: usize = 100;

/// What follows the shown part of a longer input, up to its length.
pub open spec fn preview_open() -> Seq<char> {
    "... ("@
}

/// What follows the length.
pub open spec fn preview_close() -> Seq<char> {
    " bytes total)"@
}

/// Whether `text` can be shown: it has at most `PREVIEW_LIMIT` bytes, or no
/// character of it lies across byte `PREVIEW_LIMIT`.
pub open spec fn previewable(text: Seq<char>) -> bool {
    encode_utf8(text).len() > PREVIEW_LIMIT ==> is_char_boundary(
        encode_utf8(text),
        PREVIEW_LIMIT as int,
    )
}

/// How a record shows `text`: in full if it has at most `PREVIEW_LIMIT`
/// bytes, else its first `PREVIEW_LIMIT` bytes and its length in bytes.
pub open spec fn preview_text(text: Seq<char>) -> Seq<char> {
    let bytes = encode_utf8(text);
    if bytes.len() > PREVIEW_LIMIT {
        decode_utf8(bytes.subrange(0, PREVIEW_LIMIT as int)) + preview_open() + decimal(
            bytes.len(),
        ) + preview_close()
    } else {
        text
    }
}

/// Text of ASCII characters has one byte per character, so it can be shown
/// whatever its length, and the part shown is its first `PREVIEW_LIMIT`
/// characters.
pub proof fn lemma_preview_ascii(text: Seq<char>)
    requires
        is_ascii_chars(text),
    ensures
        previewable(text),
        encode_utf8(text).len() == text.len(),
        text.len() <= PREVIEW_LIMIT ==> preview_text(text) == text,
        text.len() > PREVIEW_LIMIT ==> preview_text(text) == text.subrange(
            0,
            PREVIEW_LIMIT as int,
        ) + preview_open() + decimal(text.len()) + preview_close(),
{
    let bytes = encode_utf8(text);
    is_ascii_chars_encode_utf8(text);
    encode_utf8_valid_utf8(text);
    if text.len() > PREVIEW_LIMIT {
        let b = bytes[PREVIEW_LIMIT as int];
        assert(b == text[PREVIEW_LIMIT as int] as u8);
        assert(b < 128);
        assert(!is_continuation_byte(b)) by (bit_vector)
            requires
                b < 128,
        ;
        is_char_boundary_iff_not_is_continuation_byte(bytes, PREVIEW_LIMIT as int);
        let head = text.subrange(0, PREVIEW_LIMIT as int);
        assert(is_ascii_chars(head));
        is_ascii_chars_encode_utf8(head);
        assert(encode_utf8(head) =~= bytes.subrange(0, PREVIEW_LIMIT as int));
        encode_utf8_decode_utf8(head);
    }
}

/// Whether `text` can be shown in a record.
pub fn can_preview(text: &str) -> (ok: bool)
    ensures
        ok == previewable(text@),
{
    let data = text.as_bytes();
    data.len() <= PREVIEW_LIMIT || text.is_char_boundary(PREVIEW_LIMIT)
}

/// How a record shows `text`.
pub fn input_preview(text: &str) -> (r: String)
    requires
        previewable(text@),
    ensures
        r@ == preview_text(text@),
{
    let data = text.as_bytes();
    let n = data.len();
    if n > PREVIEW_LIMIT {
        let (head, _) = text.split_at(PREVIEW_LIMIT);
        let mut r = String::from_str(head);
        r.append("... (");
        append_decimal(&mut r, n);
        r.append(" bytes total)");
        proof {
            let bytes = encode_utf8(text@);
            encode_utf8_valid_utf8(text@);
            valid_utf8_split(bytes, PREVIEW_LIMIT as int);
            encode_utf8_decode_utf8(head@);
            assert(encode_utf8(head@) == bytes.subrange(0, PREVIEW_LIMIT as int));
            assert(head@ == decode_utf8(bytes.subrange(0, PREVIEW_LIMIT as int)));
            assert(r@ =~= preview_text(text@));
        }
        r
    } else {
        String::from_str(text)
    }
}

/// One test vector: an input and the digest expected for it.
#[derive(Clone, Debug, PartialEq, Eq)]
pub struct TestVector {
    /// What the input is meant to exercise.
    pub description: String,
    /// The input as text, shortened if it is long.
    pub input_text: String,
    /// The input bytes, all of them.
    pub input_bytes: Vec<u8>,
    /// The digest of the input bytes, in its text form.
    pub expected_hash: String,
}

impl TestVector {
    /// Whether this is the vector for the input `text` under `description`.
    pub open spec fn describes(self, description: Seq<char>, text: Seq<char>) -> bool {
        &&& self.description@ == description
        &&& self.input_text@ == preview_text(text)
        &&& self.input_bytes@ == encode_utf8(text)
        &&& self.expected_hash@ == hex_of(william3(encode_utf8(text)))
    }
}

/// The test vector for the input `text`.
pub fn make_vector(description: &str, text: &str) -> (v: TestVector)
    requires
        previewable(text@),
    ensures
        v.describes(description@, text@),
{
    let data = text.as_bytes();
    TestVector {
        description: String::from_str(description),
        input_text: input_preview(text),
        input_bytes: text.as_bytes_vec(),
        expected_hash: hash_hex(data),
    }
}

/// The input of one comparison case.
#[derive(Clone, Debug, PartialEq, Eq)]
pub struct TestInput {
    /// The input as text, in full.
    pub text: String,
    /// The input bytes.
    pub bytes: Vec<u8>,
    /// The chunk size the case is labelled with. Hashing always cuts chunks
    /// of `CHUNK_SIZE` bytes, whatever stands here.
    pub chunk_size: usize,
}

/// One comparison case: an input and the digest computed for it.
#[derive(Clone, Debug, PartialEq, Eq)]
pub struct TestOutput {
    /// Name of the case.
    pub name: String,
    /// The input.
    pub input: TestInput,
    /// The digest of the input bytes, in its text form.
    pub batch_hash: String,
}

impl TestOutput {
    /// Whether this is the case `name` for the input `text`, labelled with
    /// `chunk_size`.
    pub open spec fn describes(self, name: Seq<char>, text: Seq<char>, chunk_size: usize) -> bool {
        &&& self.name@ == name
        &&& self.input.text@ == text
        &&& self.input.bytes@ == encode_utf8(text)
        &&& self.input.chunk_size == chunk_size
        &&& self.batch_hash@ == hex_of(william3(encode_utf8(text)))
    }
}

/// The comparison case `name` for the input `text`.
pub fn make_output(name: &str, text: &str, chunk_size: usize) -> (out: TestOutput)
    ensures
        out.describes(name@, text@, chunk_size),
{
    let data = text.as_bytes();
    TestOutput {
        name: String::from_str(name),
        input: TestInput {
            text: String::from_str(text),
            bytes: text.as_bytes_vec(),
            chunk_size,
        },
        batch_hash: hash_hex(data),
    }
}

/// How many standard test vectors there are.
pub const VECTOR_COUNT: usize = 11;

/// The sentence that the long comparison input repeats.
pub open spec fn fox_sentence() -> Seq<char> {
    "The quick brown fox jumps over the lazy dog. This is a longer text that will span multiple chunks."@
}

/// Description and text of standard test vector number `i`.
pub open spec fn vector_input(i: int) -> (Seq<char>, Seq<char>) {
    if i == 0 {
        ("empty string"@, ""@)
    } else if i == 1 {
        ("single character"@, "a"@)
    } else if i == 2 {
        ("hello"@, "hello"@)
    } else if i == 3 {
        ("hello world"@, "hello world"@)
    } else if i == 4 {
        ("BLAKE3"@, "BLAKE3"@)
    } else if i == 5 {
        ("WILLIAM3"@, "WILLIAM3"@)
    } else if i == 6 {
        ("256 bytes of 'a'"@, repeated("a"@, 256))
    } else if i == 7 {
        ("1024 bytes of 'b'"@, repeated("b"@, 1024))
    } else if i == 8 {
        ("1025 bytes (crosses chunk boundary)"@, repeated("x"@, 1025))
    } else if i == 9 {
        ("2048 bytes"@, repeated("c"@, 2048))
    } else {
        (
            "all ASCII printable chars"@,
            " !\"#$%&'()*+,-./0123456789:;<=>?@ABCDEFGHIJKLMNOPQRSTUVWXYZ[\\]^_`abcdefghijklmnopqrstuvwxyz{|}~"@,
        )
    }
}

/// How many comparison cases there are.
pub const COMPARISON_COUNT: usize = 4;

/// Name, text and chunk-size label of comparison case number `i`.
pub open spec fn comparison_input(i: int) -> (Seq<char>, Seq<char>, usize) {
    if i == 0 {
        ("simple"@, "hello world"@, 1024)
    } else if i == 1 {
        ("empty"@, ""@, 1024)
    } else if i == 2 {
        ("single_chunk"@, "hello"@, 1024)
    } else {
        ("multiple_chunks"@, repeated(fox_sentence(), 20), 1024)
    }
}

/// Repeating ASCII text gives ASCII text.
proof fn lemma_repeated_ascii(s: Seq<char>, n: nat)
    requires
        is_ascii_chars(s),
    ensures
        is_ascii_chars(repeated(s, n)),
        repeated(s, n).len() == n * s.len(),
{
    lemma_repeated(s, n);
    assert forall|i: int| 0 <= i < repeated(s, n).len() implies '\0' <= #[trigger] repeated(
        s,
        n,
    )[i] <= '\u{7f}' by {
        let k = i % (s.len() as int);
        assert(0 <= k < s.len()) by (nonlinear_arith)
            requires
                0 <= i < n * s.len(),
                k == i % (s.len() as int),
        ;
        assert(repeated(s, n)[i] == s[k]);
    }
}

/// Every standard test vector has ASCII text, so every one can be shown.
pub proof fn lemma_vector_inputs_ascii(i: int)
    requires
        0 <= i < VECTOR_COUNT,
    ensures
        is_ascii_chars(vector_input(i).1),
        previewable(vector_input(i).1),
{
    reveal_strlit("");
    reveal_strlit("a");
    reveal_strlit("b");
    reveal_strlit("c");
    reveal_strlit("x");
    reveal_strlit("hello");
    reveal_strlit("hello world");
    reveal_strlit("BLAKE3");
    reveal_strlit("WILLIAM3");
    reveal_strlit(
        " !\"#$%&'()*+,-./0123456789:;<=>?@ABCDEFGHIJKLMNOPQRSTUVWXYZ[\\]^_`abcdefghijklmnopqrstuvwxyz{|}~",
    );
    if i == 6 {
        lemma_repeated_ascii("a"@, 256);
    } else if i == 7 {
        lemma_repeated_ascii("b"@, 1024);
    } else if i == 8 {
        lemma_repeated_ascii("x"@, 1025);
    } else if i == 9 {
        lemma_repeated_ascii("c"@, 2048);
    }
    lemma_preview_ascii(vector_input(i).1);
}

/// Descriptions and texts of the standard test vectors, in order.
pub fn vector_inputs() -> (cases: Vec<(String, String)>)
    ensures
        cases@.len() == VECTOR_COUNT,
        forall|i: int|
            0 <= i < VECTOR_COUNT ==> (#[trigger] cases@[i]).0@ == vector_input(i).0 && cases@[i].1@
                == vector_input(i).1,
{
    let mut cases: Vec<(String, String)> = Vec::new();
    cases.push((String::from_str("empty string"), String::from_str("")));
    cases.push((String::from_str("single character"), String::from_str("a")));
    cases.push((String::from_str("hello"), String::from_str("hello")));
    cases.push((String::from_str("hello world"), String::from_str("hello world")));
    cases.push((String::from_str("BLAKE3"), String::from_str("BLAKE3")));
    cases.push((String::from_str("WILLIAM3"), String::from_str("WILLIAM3")));
    cases.push((String::from_str("256 bytes of 'a'"), repeat_text("a", 256)));
    cases.push((String::from_str("1024 bytes of 'b'"), repeat_text("b", 1024)));
    cases.push((String::from_str("1025 bytes (crosses chunk boundary)"), repeat_text("x", 1025)));
    cases.push((String::from_str("2048 bytes"), repeat_text("c", 2048)));
    cases.push(
        (
            String::from_str("all ASCII printable chars"),
            String::from_str(
                " !\"#$%&'()*+,-./0123456789:;<=>?@ABCDEFGHIJKLMNOPQRSTUVWXYZ[\\]^_`abcdefghijklmnopqrstuvwxyz{|}~",
            ),
        ),
    );
    cases
}

/// The standard test vectors, in order.
pub fn generate_vectors() -> (vectors: Vec<TestVector>)
    ensures
        vectors@.len() == VECTOR_COUNT,
        forall|i: int|
            0 <= i < VECTOR_COUNT ==> (#[trigger] vectors@[i]).describes(
                vector_input(i).0,
                vector_input(i).1,
            ),
{
    let cases = vector_inputs();
    let mut vectors: Vec<TestVector> = Vec::new();
    let mut k: usize = 0;
    while k < cases.len()
        invariant
            k <= cases@.len(),
            cases@.len() == VECTOR_COUNT,
            forall|i: int|
                0 <= i < VECTOR_COUNT ==> (#[trigger] cases@[i]).0@ == vector_input(i).0
                    && cases@[i].1@ == vector_input(i).1,
            vectors@.len() == k,
            forall|i: int|
                0 <= i < k ==> (#[trigger] vectors@[i]).describes(
                    vector_input(i).0,
                    vector_input(i).1,
                ),
        decreases cases@.len() - k,
    {
        proof {
            lemma_vector_inputs_ascii(k as int);
        }
        let v = make_vector(cases[k].0.as_str(), cases[k].1.as_str());
        vectors.push(v);
        k += 1;
    }
    vectors
}

/// The long comparison input: the sentence twenty times over, 1960 bytes,
/// which is two chunks.
pub fn long_message() -> (text: String)
    ensures
        text@ == repeated(fox_sentence(), 20),
{
    repeat_text(
        "The quick brown fox jumps over the lazy dog. This is a longer text that will span multiple chunks.",
        20,
    )
}

/// Names, texts and chunk-size labels of the comparison cases, in order.
pub fn comparison_inputs() -> (cases: Vec<(String, String, usize)>)
    ensures
        cases@.len() == COMPARISON_COUNT,
        forall|i: int|
            0 <= i < COMPARISON_COUNT ==> (#[trigger] cases@[i]).0@ == comparison_input(i).0
                && cases@[i].1@ == comparison_input(i).1 && cases@[i].2 == comparison_input(i).2,
{
    let mut cases: Vec<(String, String, usize)> = Vec::new();
    cases.push((String::from_str("simple"), String::from_str("hello world"), 1024));
    cases.push((String::from_str("empty"), String::from_str(""), 1024));
    cases.push((String::from_str("single_chunk"), String::from_str("hello"), 1024));
    cases.push((String::from_str("multiple_chunks"), long_message(), 1024));
    cases
}

/// The comparison cases with their digests, in order.
pub fn comparison_outputs() -> (outputs: Vec<TestOutput>)
    ensures
        outputs@.len() == COMPARISON_COUNT,
        forall|i: int|
            0 <= i < COMPARISON_COUNT ==> (#[trigger] outputs@[i]).describes(
                comparison_input(i).0,
                comparison_input(i).1,
                comparison_input(i).2,
            ),
{
    let cases = comparison_inputs();
    let mut outputs: Vec<TestOutput> = Vec::new();
    let mut k: usize = 0;
    while k < cases.len()
        invariant
            k <= cases@.len(),
            cases@.len() == COMPARISON_COUNT,
            forall|i: int|
                0 <= i < COMPARISON_COUNT ==> (#[trigger] cases@[i]).0@ == comparison_input(i).0
                    && cases@[i].1@ == comparison_input(i).1 && cases@[i].2 == comparison_input(
                    i,
                ).2,
            outputs@.len() == k,
            forall|i: int|
                0 <= i < k ==> (#[trigger] outputs@[i]).describes(
                    comparison_input(i).0,
                    comparison_input(i).1,
                    comparison_input(i).2,
                ),
        decreases cases@.len() - k,
    {
        let out = make_output(cases[k].0.as_str(), cases[k].1.as_str(), cases[k].2);
        outputs.push(out);
        k += 1;
    }
    outputs
}

} // verus!
