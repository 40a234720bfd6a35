//! Decimal rendering and parsing of machine-size integers, used for the
//! auto-generated part filenames, for range strings of the form
//! `"<start>-<end>"`, and for the numbers quoted in error messages.

use vstd::prelude::*;
use vstd::string::*;

verus! {

/// The character for a single decimal digit.
pub open spec fn digit_char(d: nat) -> char {
    if d == 0 {
        '0'
    } else if d == 1 {
        '1'
    } else if d == 2 {
        '2'
    } else if d == 3 {
        '3'
    } else if d == 4 {
        '4'
    } else if d == 5 {
        '5'
    } else if d == 6 {
        '6'
    } else if d == 7 {
        '7'
    } else if d == 8 {
        '8'
    } else {
        '9'
    }
}

/// The base-ten rendering of `n`, most significant digit first, with no
/// leading zeros (zero itself renders as a single `'0'`).
pub open spec fn dec_digits(n: nat) -> Seq<char>
    decreases n,
{
    if n < 10 {
        seq![digit_char(n)]
    } else {
        dec_digits(n / 10).push(digit_char(n % 10))
    }
}

pub open spec fn is_dec_digit(c: char) -> bool {
    '0' <= c && c <= '9'
}

/// The numeric value of a decimal digit character.
pub open spec fn digit_val(c: char) -> nat {
    (c as int - '0' as int) as nat
}

pub open spec fn all_dec_digits(s: Seq<char>) -> bool {
    forall|i: int| 0 <= i < s.len() ==> is_dec_digit(#[trigger] s[i])
}

/// The value of a string of decimal digits, read most significant first.
pub open spec fn dec_value(s: Seq<char>) -> nat
    decreases s.len(),
{
    if s.len() == 0 {
        0
    } else {
        dec_value(s.drop_last()) * 10 + digit_val(s.last())
    }
}

/// A string parses as a `usize` when it is a non-empty run of decimal
/// digits whose value fits.
pub open spec fn parses_to_usize(s: Seq<char>) -> bool {
    0 < s.len() && all_dec_digits(s) && dec_value(s) <= usize::MAX
}

fn digit_str(d: usize) -> (r: &'static str)
    requires
        d < 10,
    ensures
        r@ == seq![digit_char(d as nat)],
{
    let r: &'static str = match d {
        0 => "0",
        1 => "1",
        2 => "2",
        3 => "3",
        4 => "4",
        5 => "5",
        6 => "6",
        7 => "7",
        8 => "8",
        _ => "9",
    };
    proof {
        reveal_strlit("0");
        reveal_strlit("1");
        reveal_strlit("2");
        reveal_strlit("3");
        reveal_strlit("4");
        reveal_strlit("5");
        reveal_strlit("6");
        reveal_strlit("7");
        reveal_strlit("8");
        reveal_strlit("9");
        assert(r@ =~= seq![digit_char(d as nat)]);
    }
    r
}

/// Renders `n` in decimal.
pub fn usize_to_string(n: usize) -> (s: String)
    ensures
        s@ == dec_digits(n as nat),
    decreases n,
{
    if n < 10 {
        String::from_str(digit_str(n))
    } else {
        let mut s = usize_to_string(n / 10);
        s.append(digit_str(n % 10));
        proof {
            assert(s@ =~= dec_digits((n / 10) as nat).push(digit_char((n % 10) as nat)));
        }
        s
    }
}

/// Renders `n` in decimal.
pub fn u64_to_string(n: u64) -> (s: String)
    ensures
        s@ == dec_digits(n as nat),
    decreases n,
{
    if n < 10 {
        String::from_str(digit_str(n as usize))
    } else {
        let mut s = u64_to_string(n / 10);
        s.append(digit_str((n % 10) as usize));
        proof {
            assert(s@ =~= dec_digits((n / 10) as nat).push(digit_char((n % 10) as nat)));
        }
        s
    }
}

/// The value of a digit string never shrinks when more digits follow.
proof fn lemma_dec_value_prefix(s: Seq<char>, i: int)
    requires
        0 <= i <= s.len(),
    ensures
        dec_value(s.subrange(0, i)) <= dec_value(s),
    decreases s.len() - i,
{
    if i == s.len() {
        assert(s.subrange(0, i) =~= s);
    } else {
        let longer = s.subrange(0, i + 1);
        assert(longer.drop_last() =~= s.subrange(0, i));
        assert(dec_value(s.subrange(0, i)) <= dec_value(longer));
        lemma_dec_value_prefix(s, i + 1);
        assert(s.subrange(0, i + 1) =~= longer);
    }
}

/// Parses a non-empty run of decimal digits; rejects anything else, and
/// values that do not fit in a `usize`.
pub fn parse_usize(s: &str) -> (r: Option<usize>)
    ensures
        r == if parses_to_usize(s@) {
            Some(dec_value(s@) as usize)
        } else {
            None::<usize>
        },
{
    let n = s.unicode_len();
    if n == 0 {
        return None;
    }
    let mut acc: usize = 0;
    let mut i: usize = 0;
    while i < n
        invariant
            n == s@.len(),
            0 < n,
            0 <= i <= n,
            all_dec_digits(s@.subrange(0, i as int)),
            acc == dec_value(s@.subrange(0, i as int)),
        decreases n - i,
    {
        let c = s.get_char(i);
        let cv = c as u32;
        if cv < 48 || cv > 57 {
            proof {
                assert(!is_dec_digit(s@[i as int]));
            }
            return None;
        }
        let d = (cv - 48) as usize;
        proof {
            assert(is_dec_digit(s@[i as int]));
            assert(d == digit_val(s@[i as int]));
        }
        if acc > (usize::MAX - d) / 10 {
            proof {
                let longer = s@.subrange(0, i + 1);
                assert(longer.drop_last() =~= s@.subrange(0, i as int));
                assert(longer.last() == s@[i as int]);
                assert(dec_value(longer) == acc * 10 + d);
                assert(acc * 10 + d > usize::MAX) by {
                    let m = usize::MAX as int;
                    let a = acc as int;
                    let dd = d as int;
                    assert(a >= (m - dd) / 10 + 1);
                    assert(((m - dd) / 10 + 1) * 10 > m - dd) by (nonlinear_arith);
                    assert(a * 10 >= ((m - dd) / 10 + 1) * 10) by (nonlinear_arith)
                        requires
                            a >= (m - dd) / 10 + 1,
                    ;
                }
                lemma_dec_value_prefix(s@, i + 1);
                assert(dec_value(s@) > usize::MAX);
            }
            return None;
        }
        acc = acc * 10 + d;
        i = i + 1;
        proof {
            let pref = s@.subrange(0, i as int);
            assert(pref.drop_last() =~= s@.subrange(0, i - 1));
            assert(pref.last() == s@[i - 1]);
            assert(forall|j: int| 0 <= j < i ==> is_dec_digit(#[trigger] pref[j]));
        }
    }
    proof {
        assert(s@.subrange(0, n as int) =~= s@);
    }
    Some(acc)
}

} // verus!
