//! Lowercase hexadecimal text: two digits per byte, high nibble first, no separators.

use vstd::prelude::*;
use vstd::string::StringExecFns;

verus! {

/// The sixteen digits, in order of value.
pub open spec fn hex_alphabet() -> Seq<char> {
    seq!['0', '1', '2', '3', '4', '5', '6', '7', '8', '9', 'a', 'b', 'c', 'd', 'e', 'f']
}

/// The digit that stands for `n`, for `0 <= n < 16`.
pub open spec fn hex_digit(n: int) -> char {
    hex_alphabet()[n]
}

/// The character at position `i` of the text form of `bytes`.
pub open spec fn hex_char_at(bytes: Seq<u8>, i: int) -> char {
    if i % 2 == 0 {
        hex_digit(bytes[i / 2] as int / 16)
    } else {
        hex_digit(bytes[i / 2] as int % 16)
    }
}

/// The text form of `bytes`.
pub open spec fn hex_of(bytes: Seq<u8>) -> Seq<char> {
    Seq::new(2 * bytes.len(), |i: int| hex_char_at(bytes, i))
}

/// The value of a digit of the alphabet; sixteen for any other character.
pub open spec fn hex_value(c: char) -> int {
    if hex_alphabet().contains(c) {
        hex_alphabet().index_of(c)
    } else {
        16
    }
}

/// Every digit reads back as the value it stands for.
pub proof fn lemma_hex_value_of_digit(n: int)
    requires
        0 <= n < 16,
    ensures
        hex_value(hex_digit(n)) == n,
        hex_alphabet().contains(hex_digit(n)),
{
    let a = hex_alphabet();
    assert(a[n] == hex_digit(n));
    assert(a.contains(hex_digit(n)));
    let j = a.index_of(hex_digit(n));
    assert(0 <= j < 16 && a[j] == a[n]);
    assert(forall|x: int, y: int| 0 <= x < y < 16 ==> a[x] != a[y]);
}

/// The text form has two characters per byte, each one a digit of the alphabet.
pub proof fn lemma_hex_of_shape(bytes: Seq<u8>)
    ensures
        hex_of(bytes).len() == 2 * bytes.len(),
        forall|i: int| 0 <= i < 2 * bytes.len() ==> hex_alphabet().contains(#[trigger] hex_of(bytes)[i]),
{
    assert forall|i: int| 0 <= i < 2 * bytes.len() implies hex_alphabet().contains(
        #[trigger] hex_of(bytes)[i],
    ) by {
        let b = bytes[i / 2] as int;
        lemma_hex_value_of_digit(b / 16);
        lemma_hex_value_of_digit(b % 16);
    }
}

/// The text form of a concatenation is the concatenation of the text forms.
pub proof fn lemma_hex_of_concat(a: Seq<u8>, b: Seq<u8>)
    ensures
        hex_of(a + b) == hex_of(a) + hex_of(b),
{
    let l = hex_of(a + b);
    let r = hex_of(a) + hex_of(b);
    assert(l.len() == r.len());
    assert forall|i: int| 0 <= i < l.len() implies l[i] == r[i] by {
        if i < 2 * a.len() {
            assert((a + b)[i / 2] == a[i / 2]);
        } else {
            let j = i - 2 * a.len();
            assert(j / 2 == i / 2 - a.len());
            assert(j % 2 == i % 2);
            assert((a + b)[i / 2] == b[j / 2]);
            assert(r[i] == hex_of(b)[j]);
        }
    }
    assert(l =~= r);
}

/// Different byte strings have different text forms.
pub proof fn lemma_hex_of_injective(a: Seq<u8>, b: Seq<u8>)
    requires
        hex_of(a) == hex_of(b),
    ensures
        a == b,
{
    assert(hex_of(a).len() == 2 * a.len());
    assert(hex_of(b).len() == 2 * b.len());
    assert(a.len() == b.len());
    assert forall|k: int| 0 <= k < a.len() implies a[k] == b[k] by {
        let x = a[k] as int;
        let y = b[k] as int;
        assert((2 * k) / 2 == k && (2 * k) % 2 == 0);
        assert((2 * k + 1) / 2 == k && (2 * k + 1) % 2 == 1);
        assert(hex_of(a)[2 * k] == hex_digit(x / 16));
        assert(hex_of(b)[2 * k] == hex_digit(y / 16));
        assert(hex_of(a)[2 * k + 1] == hex_digit(x % 16));
        assert(hex_of(b)[2 * k + 1] == hex_digit(y % 16));
        lemma_hex_value_of_digit(x / 16);
        lemma_hex_value_of_digit(y / 16);
        lemma_hex_value_of_digit(x % 16);
        lemma_hex_value_of_digit(y % 16);
        assert(x / 16 == y / 16);
        assert(x % 16 == y % 16);
    }
    assert(a =~= b);
}

/// One digit as a string slice.
fn digit_str(n: u8) -> (s: &'static str)
    requires
        n < 16,
    ensures
        s@ == seq![hex_digit(n as int)],
{
    proof {
        reveal_strlit("0");
        reveal_strlit("1");
        reveal_strlit("2");
        reveal_strlit("3");
        reveal_strlit("4");
        reveal_strlit("5");
        reveal_strlit("6");
        reveal_strlit("7");
        reveal_strlit("8");
        reveal_strlit("9");
        reveal_strlit("a");
        reveal_strlit("b");
        reveal_strlit("c");
        reveal_strlit("d");
        reveal_strlit("e");
        reveal_strlit("f");
    }
    let s = match n {
        0 => "0",
        1 => "1",
        2 => "2",
        3 => "3",
        4 => "4",
        5 => "5",
        6 => "6",
        7 => "7",
        8 => "8",
        9 => "9",
        10 => "a",
        11 => "b",
        12 => "c",
        13 => "d",
        14 => "e",
        _ => "f",
    };
    assert(s@ =~= seq![hex_digit(n as int)]);
    s
}

/// Writes `bytes` as lowercase hexadecimal text.
pub fn bytes_to_hex(bytes: &[u8]) -> (s: String)
    ensures
        s@ == hex_of(bytes@),
        s@.len() == 2 * bytes@.len(),
{
    let mut s = String::new();
    let mut i: usize = 0;
    while i < bytes.len()
        invariant
            i <= bytes.len(),
            s@ == hex_of(bytes@.subrange(0, i as int)),
        decreases bytes.len() - i,
    {
        let b: u8 = bytes[i];
        let ghost before = s@;
        s.append(digit_str(b / 16));
        s.append(digit_str(b % 16));
        proof {
            let head = bytes@.subrange(0, i as int);
            let next = bytes@.subrange(0, i + 1);
            assert(next =~= head + seq![b]);
            lemma_hex_of_concat(head, seq![b]);
            assert(hex_of(seq![b]) =~= seq![hex_digit(b as int / 16), hex_digit(b as int % 16)]);
            assert(s@ =~= before + hex_of(seq![b]));
        }
        i += 1;
    }
    assert(bytes@.subrange(0, i as int) =~= bytes@);
    s
}

} // verus!
