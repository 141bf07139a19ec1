//! Plain-text building blocks of the report: decimal rendering of numbers,
//! repeated characters, and left-aligned padding of a table cell.

use vstd::prelude::*;
use vstd::string::StrSliceExecFns;
use vstd::string::StringExecFns;

verus! {

/// The character for one decimal digit.
pub open spec fn digit_char(d: nat) -> char {
    if d == 0 {
        '0'
    } else if d == 1 {
        '1'
    } else if d == 2 {
        '2'
    } else if d == 3 {
        '3'
    } else if d == 4 {
        '4'
    } else if d == 5 {
        '5'
    } else if d == 6 {
        '6'
    } else if d == 7 {
        '7'
    } else if d == 8 {
        '8'
    } else {
        '9'
    }
}

/// The decimal digits of `n`, most significant first, without a sign and
/// without leading zeros (`0` itself is the single digit `0`).
pub open spec fn dec_digits(n: nat) -> Seq<char>
    decreases n,
{
    if n < 10 {
        seq![digit_char(n)]
    } else {
        dec_digits(n / 10).push(digit_char(n % 10))
    }
}

/// `n` copies of the character `c`.
pub open spec fn repeat_char(c: char, n: nat) -> Seq<char> {
    Seq::new(n, |i: int| c)
}

/// 10 raised to `k`.
pub open spec fn pow10(k: nat) -> nat
    decreases k,
{
    if k == 0 {
        1
    } else {
        10 * pow10((k - 1) as nat)
    }
}

/// A number below `10^k` has at most `k` decimal digits.
pub proof fn lemma_dec_digits_len(n: nat, k: nat)
    requires
        1 <= k,
        n < pow10(k),
    ensures
        1 <= dec_digits(n).len() <= k,
    decreases n,
{
    if n < 10 {
    } else {
        assert(pow10(k) == 10 * pow10((k - 1) as nat));
        if k == 1 {
            assert(pow10(1) == 10 * pow10(0));
            assert(pow10(0) == 1);
            assert(false);
        }
        assert(n / 10 < pow10((k - 1) as nat)) by (nonlinear_arith)
            requires
                n < 10 * pow10((k - 1) as nat),
                n >= 10,
        ;
        lemma_dec_digits_len(n / 10, (k - 1) as nat);
    }
}

/// `u128::MAX` is below `10^39`, so any `u128` has at most 39 digits.
proof fn lemma_u128_fits_39_digits()
    ensures
        u128::MAX < pow10(39),
{
    reveal_with_fuel(pow10, 40);
    assert(pow10(39) == 1000000000000000000000000000000000000000);
}

/// One decimal digit as text.
pub fn digit_string(d: u128) -> (s: &'static str)
    requires
        d < 10,
    ensures
        s@ == seq![digit_char(d as nat)],
{
    proof {
        reveal_strlit("0");
        reveal_strlit("1");
        reveal_strlit("2");
        reveal_strlit("3");
        reveal_strlit("4");
        reveal_strlit("5");
        reveal_strlit("6");
        reveal_strlit("7");
        reveal_strlit("8");
        reveal_strlit("9");
    }
    let s: &'static str = if d == 0 {
        "0"
    } else if d == 1 {
        "1"
    } else if d == 2 {
        "2"
    } else if d == 3 {
        "3"
    } else if d == 4 {
        "4"
    } else if d == 5 {
        "5"
    } else if d == 6 {
        "6"
    } else if d == 7 {
        "7"
    } else if d == 8 {
        "8"
    } else {
        "9"
    };
    proof {
        assert(s@ =~= seq![digit_char(d as nat)]);
    }
    s
}

/// Renders `n` in decimal, exactly the digits of `dec_digits`.
pub fn dec_string(n: u128) -> (s: String)
    ensures
        s@ == dec_digits(n as nat),
        1 <= s@.len() <= 39,
    decreases n,
{
    proof {
        lemma_u128_fits_39_digits();
        lemma_dec_digits_len(n as nat, 39);
    }
    if n < 10 {
        let s = digit_string(n).to_owned();
        s
    } else {
        let mut s = dec_string(n / 10);
        s.append(digit_string(n % 10));
        proof {
            assert(s@ =~= dec_digits(n as nat));
        }
        s
    }
}

/// `n` spaces.
pub fn spaces(n: usize) -> (s: String)
    ensures
        s@ == repeat_char(' ', n as nat),
{
    let mut s = String::new();
    let mut i: usize = 0;
    while i < n
        invariant
            i <= n,
            s@ == repeat_char(' ', i as nat),
        decreases n - i,
    {
        s.append(" ");
        proof {
            reveal_strlit(" ");
            assert(s@ =~= repeat_char(' ', (i + 1) as nat));
        }
        i = i + 1;
    }
    s
}

/// `n` dashes.
pub fn dashes(n: usize) -> (s: String)
    ensures
        s@ == repeat_char('-', n as nat),
{
    let mut s = String::new();
    let mut i: usize = 0;
    while i < n
        invariant
            i <= n,
            s@ == repeat_char('-', i as nat),
        decreases n - i,
    {
        s.append("-");
        proof {
            reveal_strlit("-");
            assert(s@ =~= repeat_char('-', (i + 1) as nat));
        }
        i = i + 1;
    }
    s
}

/// `text`, left-aligned in a cell of `width` characters.
pub open spec fn padded(text: Seq<char>, width: int) -> Seq<char>
    recommends
        text.len() <= width,
{
    text + repeat_char(' ', (width - text.len()) as nat)
}

/// Pads `text` with spaces on the right up to `width` characters.
pub fn pad_right(text: &str, width: usize) -> (s: String)
    requires
        text@.len() <= width,
    ensures
        s@ == padded(text@, width as int),
        s@.len() == width,
{
    let mut s = text.to_owned();
    let n = text.unicode_len();
    let fill = spaces(width - n);
    s.append(fill.as_str());
    proof {
        assert(s@ =~= padded(text@, width as int));
    }
    s
}

} // verus!
