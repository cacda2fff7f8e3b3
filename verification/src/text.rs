//! Small text tools: decimal numerals and repeated text.

use vstd::prelude::*;
use vstd::string::StringExecFns;

verus! {

/// The ten decimal digits, in order of value.
pub open spec fn decimal_alphabet() -> Seq<char> {
    seq!['0', '1', '2', '3', '4', '5', '6', '7', '8', '9']
}

/// The digit that stands for `d`, for `0 <= d < 10`.
pub open spec fn decimal_digit(d: int) -> char {
    decimal_alphabet()[d]
}

/// The decimal numeral of `n`: no sign, no leading zero but for zero itself.
pub open spec fn decimal(n: nat) -> Seq<char>
    decreases n,
{
    if n < 10 {
        seq![decimal_digit(n as int)]
    } else {
        decimal(n / 10).push(decimal_digit((n % 10) as int))
    }
}

/// The value of a decimal digit; ten for any other character.
pub open spec fn decimal_digit_value(c: char) -> nat {
    if decimal_alphabet().contains(c) {
        decimal_alphabet().index_of(c) as nat
    } else {
        10
    }
}

/// The number that a string of decimal digits stands for.
pub open spec fn decimal_value(s: Seq<char>) -> nat
    decreases s.len(),
{
    if s.len() == 0 {
        0
    } else {
        decimal_value(s.drop_last()) * 10 + decimal_digit_value(s.last())
    }
}

/// Every decimal digit reads back as the value it stands for.
pub proof fn lemma_decimal_digit_value(d: int)
    requires
        0 <= d < 10,
    ensures
        decimal_digit_value(decimal_digit(d)) == d,
        decimal_alphabet().contains(decimal_digit(d)),
{
    let a = decimal_alphabet();
    assert(a[d] == decimal_digit(d));
    assert(a.contains(decimal_digit(d)));
    let j = a.index_of(decimal_digit(d));
    assert(0 <= j < 10 && a[j] == a[d]);
    assert(forall|x: int, y: int| 0 <= x < y < 10 ==> a[x] != a[y]);
}

/// A numeral is not empty, holds decimal digits only, starts with `0` only
/// if it is the numeral of zero, and reads back as the number it was made of.
pub proof fn lemma_decimal(n: nat)
    ensures
        decimal(n).len() >= 1,
        forall|i: int|
            0 <= i < decimal(n).len() ==> decimal_alphabet().contains(#[trigger] decimal(n)[i]),
        decimal(n)[0] == '0' ==> n == 0,
        decimal_value(decimal(n)) == n,
    decreases n,
{
    let s = decimal(n);
    if n < 10 {
        lemma_decimal_digit_value(n as int);
        assert(s.drop_last() =~= Seq::<char>::empty());
        assert(decimal_value(s.drop_last()) == 0);
        assert(s.last() == decimal_digit(n as int));
        assert(decimal_value(s) == n);
    } else {
        let head = decimal(n / 10);
        lemma_decimal(n / 10);
        lemma_decimal_digit_value((n % 10) as int);
        assert(s.drop_last() =~= head);
        assert(s.last() == decimal_digit((n % 10) as int));
        assert(s[0] == head[0]);
        assert forall|i: int| 0 <= i < s.len() implies decimal_alphabet().contains(
            #[trigger] s[i],
        ) by {
            if i < head.len() {
                assert(s[i] == head[i]);
            }
        }
    }
}

/// Different numbers have different numerals.
pub proof fn lemma_decimal_injective(a: nat, b: nat)
    requires
        decimal(a) == decimal(b),
    ensures
        a == b,
{
    lemma_decimal(a);
    lemma_decimal(b);
}

/// `s` written `n` times in a row.
pub open spec fn repeated(s: Seq<char>, n: nat) -> Seq<char>
    decreases n,
{
    if n == 0 {
        Seq::empty()
    } else {
        repeated(s, (n - 1) as nat) + s
    }
}

/// Repeated text is as long as its parts together, and position `i` of it
/// holds what position `i` modulo the part's length holds in the part.
pub proof fn lemma_repeated(s: Seq<char>, n: nat)
    ensures
        repeated(s, n).len() == n * s.len(),
        forall|i: int|
            0 <= i < n * s.len() ==> #[trigger] repeated(s, n)[i] == s[i % (s.len() as int)],
    decreases n,
{
    if n == 0 {
        assert(n * s.len() == 0);
    } else {
        let m = (n - 1) as nat;
        lemma_repeated(s, m);
        let len = s.len() as int;
        assert(n * s.len() == m * s.len() + s.len()) by (nonlinear_arith)
            requires
                n == m + 1,
        ;
        assert forall|i: int| 0 <= i < n * s.len() implies #[trigger] repeated(s, n)[i] == s[i % len] by {
            if i >= m * s.len() {
                let j = i - m * s.len();
                assert(repeated(s, n)[i] == s[j]);
                assert(i % len == j) by (nonlinear_arith)
                    requires
                        i == m * len + j,
                        0 <= j < len,
                ;
            }
        }
    }
}

/// One decimal digit as a string slice.
fn decimal_digit_str(d: u8) -> (s: &'static str)
    requires
        d < 10,
    ensures
        s@ == seq![decimal_digit(d as int)],
{
    proof {
        reveal_strlit("0");
        reveal_strlit("1");
        reveal_strlit("2");
        reveal_strlit("3");
        reveal_strlit("4");
        reveal_strlit("5");
        reveal_strlit("6");
        reveal_strlit("7");
        reveal_strlit("8");
        reveal_strlit("9");
    }
    let s = match d {
        0 => "0",
        1 => "1",
        2 => "2",
        3 => "3",
        4 => "4",
        5 => "5",
        6 => "6",
        7 => "7",
        8 => "8",
        _ => "9",
    };
    assert(s@ =~= seq![decimal_digit(d as int)]);
    s
}

/// Appends the decimal numeral of `n` to `out`.
pub fn append_decimal(out: &mut String, n: usize)
    ensures
        final(out)@ == old(out)@ + decimal(n as nat),
    decreases n,
{
    if n >= 10 {
        append_decimal(out, n / 10);
    }
    let ghost before = out@;
    let d: u8 = (n % 10) as u8;
    out.append(decimal_digit_str(d));
    proof {
        if n >= 10 {
            assert(out@ =~= old(out)@ + decimal((n / 10) as nat).push(decimal_digit(d as int)));
        } else {
            assert(out@ =~= old(out)@ + seq![decimal_digit(d as int)]);
        }
    }
}

/// The decimal numeral of `n`.
pub fn usize_to_decimal(n: usize) -> (s: String)
    ensures
        s@ == decimal(n as nat),
{
    let mut s = String::new();
    append_decimal(&mut s, n);
    assert(s@ =~= decimal(n as nat));
    s
}

/// `s` written `n` times in a row.
pub fn repeat_text(s: &str, n: usize) -> (r: String)
    ensures
        r@ == repeated(s@, n as nat),
{
    let mut r = String::new();
    let mut i: usize = 0;
    while i < n
        invariant
            i <= n,
            r@ == repeated(s@, i as nat),
        decreases n - i,
    {
        r.append(s);
        i += 1;
    }
    r
}

} // verus!
