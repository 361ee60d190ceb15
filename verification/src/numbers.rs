//! Verified decimal parsing and formatting on plain character sequences,
//! matching the behaviour of the standard integer conversions: an optional
//! sign, at least one ASCII digit, and a range check.

use vstd::prelude::*;
use vstd::string::{StrSliceExecFns, StringExecFns};

verus! {

/// ASCII decimal digit.
pub open spec fn is_digit(c: char) -> bool {
    '0' as u32 <= c as u32 <= '9' as u32
}

/// Numeric value of a decimal digit character.
pub open spec fn digit_val(c: char) -> int {
    c as u32 - '0' as u32
}

/// Every character is a decimal digit.
pub open spec fn all_digits(s: Seq<char>) -> bool {
    forall|i: int| 0 <= i < s.len() ==> is_digit(#[trigger] s[i])
}

/// The value of a digit string read in base ten.
pub open spec fn dec_val(s: Seq<char>) -> int
    decreases s.len(),
{
    if s.len() == 0 {
        0
    } else {
        dec_val(s.drop_last()) * 10 + digit_val(s.last())
    }
}

/// What parsing `s` as an integer in `[min, max]` yields: an optional sign
/// (`-` only if `signed`), then one or more decimal digits whose value lies
/// within the range; anything else is rejected.
pub open spec fn spec_parse_int(s: Seq<char>, signed: bool, min: int, max: int) -> Option<int> {
    if s.len() > 0 && s[0] == '+' {
        spec_parse_digits(s.drop_first(), false, min, max)
    } else if s.len() > 0 && s[0] == '-' && signed {
        spec_parse_digits(s.drop_first(), true, min, max)
    } else {
        spec_parse_digits(s, false, min, max)
    }
}

/// The digits of an integer, with value `neg ==> -dec_val(body)`.
pub open spec fn spec_parse_digits(body: Seq<char>, neg: bool, min: int, max: int) -> Option<
    int,
> {
    let v = if neg {
        -dec_val(body)
    } else {
        dec_val(body)
    };
    if body.len() > 0 && all_digits(body) && min <= v <= max {
        Some(v)
    } else {
        None
    }
}

/// A digit string's value is non-negative.
pub proof fn lemma_dec_val_nonneg(s: Seq<char>)
    requires
        all_digits(s),
    ensures
        dec_val(s) >= 0,
    decreases s.len(),
{
    if s.len() > 0 {
        assert(all_digits(s.drop_last()));
        lemma_dec_val_nonneg(s.drop_last());
    }
}

/// Extending a digit string to the right never decreases its value.
pub proof fn lemma_dec_val_prefix_le(s: Seq<char>, i: int)
    requires
        all_digits(s),
        0 <= i <= s.len(),
    ensures
        dec_val(s.subrange(0, i)) <= dec_val(s),
    decreases s.len() - i,
{
    if i == s.len() {
        assert(s.subrange(0, i) =~= s);
    } else {
        lemma_dec_val_prefix_le(s, i + 1);
        let p = s.subrange(0, i);
        let q = s.subrange(0, i + 1);
        assert(q.drop_last() =~= p);
        assert(all_digits(p)) by {
            assert(forall|j: int| 0 <= j < p.len() ==> p[j] == s[j]);
        }
        lemma_dec_val_nonneg(p);
        assert(dec_val(q) == dec_val(p) * 10 + digit_val(q.last()));
    }
}

/// Parse the digit run `s[lo..hi]` as a value of at most `max`; `None` on an
/// empty run, a non-digit character, or a value above `max`.
fn parse_digit_range(s: &str, lo: usize, hi: usize, max: u128) -> (r: Option<u128>)
    requires
        lo <= hi <= s@.len() <= usize::MAX,
    ensures
        ({
            let body = s@.subrange(lo as int, hi as int);
            match r {
                Some(v) => body.len() > 0 && all_digits(body) && dec_val(body) == v && v <= max,
                None => !(body.len() > 0 && all_digits(body) && dec_val(body) <= max),
            }
        }),
{
    let ghost body = s@.subrange(lo as int, hi as int);
    if lo == hi {
        return None;
    }
    let mut acc: u128 = 0;
    let mut i: usize = lo;
    while i < hi
        invariant
            lo <= i <= hi <= s@.len() <= usize::MAX,
            body == s@.subrange(lo as int, hi as int),
            body.len() > 0,
            all_digits(s@.subrange(lo as int, i as int)),
            acc == dec_val(s@.subrange(lo as int, i as int)),
        decreases hi - i,
    {
        let c = s.get_char(i);
        let u = c as u32;
        let ghost pre = s@.subrange(lo as int, i as int);
        proof {
            assert(s@.subrange(lo as int, i + 1).drop_last() =~= pre);
            assert(s@.subrange(lo as int, i + 1).last() == s@[i as int]);
        }
        if u < 48 || u > 57 {
            proof {
                assert(!is_digit(body[i - lo]));
            }
            return None;
        }
        let d = (u - 48) as u8;
        let next = match acc.checked_mul(10) {
            Some(m) => m.checked_add(d as u128),
            None => None,
        };
        match next {
            Some(v) => {
                acc = v;
            },
            None => {
                proof {
                    let ext = s@.subrange(lo as int, i + 1);
                    assert(all_digits(ext));
                    if all_digits(body) {
                        assert(body.subrange(0, i + 1 - lo) =~= ext);
                        lemma_dec_val_prefix_le(body, i + 1 - lo);
                        assert(dec_val(body) >= dec_val(ext));
                        assert(dec_val(ext) > u128::MAX >= max);
                    }
                }
                return None;
            },
        }
        i += 1;
    }
    proof {
        assert(s@.subrange(lo as int, hi as int) =~= body);
    }
    if acc > max {
        proof {
            assert(dec_val(body) == acc > max);
        }
        return None;
    }
    Some(acc)
}

/// Parse `s` as a sign-magnitude integer: `-` accepted only if `signed`, the
/// magnitude of a positive result capped by `max_pos` and of a negative one
/// by `max_neg`. A `Some` result is canonical: `neg` implies the magnitude is
/// non-zero.
pub fn parse_sign_magnitude(s: &str, signed: bool, max_pos: u128, max_neg: u128) -> (r: Option<
    (bool, u128),
>)
    ensures
        ({
            let p = spec_parse_int(s@, signed, -(max_neg as int), max_pos as int);
            match r {
                Some((neg, mag)) => {
                    &&& p == Some(if neg { -(mag as int) } else { mag as int })
                    &&& (neg ==> mag > 0)
                },
                None => p is None,
            }
        }),
{
    let len = s.unicode_len();
    if len == 0 {
        return None;
    }
    let first = s.get_char(0);
    let (neg, lo): (bool, usize) = if first == '+' {
        (false, 1)
    } else if first == '-' && signed {
        (true, 1)
    } else {
        (false, 0)
    };
    proof {
        if lo == 1 {
            assert(s@.subrange(1, len as int) =~= s@.drop_first());
        } else {
            assert(s@.subrange(0, len as int) =~= s@);
        }
    }
    let cap = if neg {
        max_neg
    } else {
        max_pos
    };
    match parse_digit_range(s, lo, len, cap) {
        Some(mag) => {
            proof {
                let body = s@.subrange(lo as int, len as int);
                lemma_dec_val_nonneg(body);
            }
            if neg && mag == 0 {
                Some((false, 0))
            } else {
                Some((neg, mag))
            }
        },
        None => None,
    }
}

/// Parse `s` as a `usize`, exactly as the standard conversion does: an
/// optional leading `+`, then one or more decimal digits, value within range.
pub fn parse_usize(s: &str) -> (r: Option<usize>)
    ensures
        ({
            let p = spec_parse_int(s@, false, 0, usize::MAX as int);
            match r {
                Some(v) => p == Some(v as int),
                None => p is None,
            }
        }),
{
    match parse_sign_magnitude(s, false, usize::MAX as u128, 0) {
        Some((_, mag)) => Some(mag as usize),
        None => None,
    }
}

/// Which digit character stands for `d`.
pub open spec fn spec_digit_char(d: int) -> char {
    if d == 0 {
        '0'
    } else if d == 1 {
        '1'
    } else if d == 2 {
        '2'
    } else if d == 3 {
        '3'
    } else if d == 4 {
        '4'
    } else if d == 5 {
        '5'
    } else if d == 6 {
        '6'
    } else if d == 7 {
        '7'
    } else if d == 8 {
        '8'
    } else {
        '9'
    }
}

/// The decimal digits of a non-negative number, most significant first.
pub open spec fn dec_digits(n: int) -> Seq<char>
    decreases n,
{
    if n < 10 {
        seq![spec_digit_char(n)]
    } else {
        dec_digits(n / 10) + seq![spec_digit_char(n % 10)]
    }
}

/// The decimal rendering of an integer: a leading `-` for negative values.
pub open spec fn dec_int(v: int) -> Seq<char> {
    if v < 0 {
        seq!['-'] + dec_digits(-v)
    } else {
        dec_digits(v)
    }
}

/// The digit character for `d`.
fn digit_str(d: u8) -> (r: &'static str)
    requires
        d < 10,
    ensures
        r@ == seq![spec_digit_char(d as int)],
{
    proof {
        reveal_strlit("0");
        reveal_strlit("1");
        reveal_strlit("2");
        reveal_strlit("3");
        reveal_strlit("4");
        reveal_strlit("5");
        reveal_strlit("6");
        reveal_strlit("7");
        reveal_strlit("8");
        reveal_strlit("9");
    }
    let r = match d {
        0 => "0",
        1 => "1",
        2 => "2",
        3 => "3",
        4 => "4",
        5 => "5",
        6 => "6",
        7 => "7",
        8 => "8",
        _ => "9",
    };
    proof {
        assert(r@ =~= seq![spec_digit_char(d as int)]);
    }
    r
}

/// Render an unsigned number in decimal.
pub fn u128_to_string(n: u128) -> (r: String)
    ensures
        r@ == dec_digits(n as int),
    decreases n,
{
    if n < 10 {
        String::from_str(digit_str(n as u8))
    } else {
        let mut r = u128_to_string(n / 10);
        r.append(digit_str((n % 10) as u8));
        r
    }
}

/// Render a `usize` in decimal.
pub fn usize_to_string(n: usize) -> (r: String)
    ensures
        r@ == dec_digits(n as int),
{
    u128_to_string(n as u128)
}

/// Render a canonical sign-magnitude pair in decimal.
pub fn sign_magnitude_to_string(neg: bool, mag: u128) -> (r: String)
    requires
        neg ==> mag > 0,
    ensures
        r@ == dec_int(if neg { -(mag as int) } else { mag as int }),
{
    if neg {
        proof {
            reveal_strlit("-");
        }
        let mut r = String::from_str("-");
        let digits = u128_to_string(mag);
        r.append(digits.as_str());
        proof {
            assert(r@ =~= seq!['-'] + dec_digits(mag as int));
        }
        r
    } else {
        u128_to_string(mag)
    }
}

} // verus!
