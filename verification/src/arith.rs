//! The checked-arithmetic expression checker: evaluate `VALUE OPERATOR
//! VALUE` expressions in a simulated integer type and report overflow,
//! underflow, and division hazards.

use vstd::prelude::*;
use vstd::string::{StrSliceExecFns, StringExecFns};
use crate::text::{is_space, lower_of, lowercase, push_line, str_eq, whitespace_char};
use crate::numbers::{
    dec_int, parse_sign_magnitude, spec_parse_int, sign_magnitude_to_string,
};

verus! {

/// The integer type whose arithmetic is simulated.
#[derive(Clone, Copy, Debug, PartialEq, Eq, Structural)]
pub enum IntegerType {
    U8,
    I8,
    U16,
    I16,
    U32,
    I32,
    U64,
    I64,
    U128,
    I128,
}

/// Whether the simulated type is signed.
pub open spec fn is_signed(t: IntegerType) -> bool {
    match t {
        IntegerType::I8 => true,
        IntegerType::I16 => true,
        IntegerType::I32 => true,
        IntegerType::I64 => true,
        IntegerType::I128 => true,
        _ => false,
    }
}

/// The smallest value of the simulated type.
pub open spec fn type_min(t: IntegerType) -> int {
    match t {
        IntegerType::U8 => 0,
        IntegerType::I8 => i8::MIN as int,
        IntegerType::U16 => 0,
        IntegerType::I16 => i16::MIN as int,
        IntegerType::U32 => 0,
        IntegerType::I32 => i32::MIN as int,
        IntegerType::U64 => 0,
        IntegerType::I64 => i64::MIN as int,
        IntegerType::U128 => 0,
        IntegerType::I128 => i128::MIN as int,
    }
}

/// The largest value of the simulated type.
pub open spec fn type_max(t: IntegerType) -> int {
    match t {
        IntegerType::U8 => u8::MAX as int,
        IntegerType::I8 => i8::MAX as int,
        IntegerType::U16 => u16::MAX as int,
        IntegerType::I16 => i16::MAX as int,
        IntegerType::U32 => u32::MAX as int,
        IntegerType::I32 => i32::MAX as int,
        IntegerType::U64 => u64::MAX as int,
        IntegerType::I64 => i64::MAX as int,
        IntegerType::U128 => u128::MAX as int,
        IntegerType::I128 => i128::MAX as int,
    }
}

/// The variant name, as diagnostics spell it.
pub open spec fn spec_type_label(t: IntegerType) -> Seq<char> {
    match t {
        IntegerType::U8 => "U8"@,
        IntegerType::I8 => "I8"@,
        IntegerType::U16 => "U16"@,
        IntegerType::I16 => "I16"@,
        IntegerType::U32 => "U32"@,
        IntegerType::I32 => "I32"@,
        IntegerType::U64 => "U64"@,
        IntegerType::I64 => "I64"@,
        IntegerType::U128 => "U128"@,
        IntegerType::I128 => "I128"@,
    }
}

/// The type name as written in source, lower case.
pub open spec fn spec_type_name(t: IntegerType) -> Seq<char> {
    match t {
        IntegerType::U8 => "u8"@,
        IntegerType::I8 => "i8"@,
        IntegerType::U16 => "u16"@,
        IntegerType::I16 => "i16"@,
        IntegerType::U32 => "u32"@,
        IntegerType::I32 => "i32"@,
        IntegerType::U64 => "u64"@,
        IntegerType::I64 => "i64"@,
        IntegerType::U128 => "u128"@,
        IntegerType::I128 => "i128"@,
    }
}

/// Which type a (case-folded) name denotes.
pub open spec fn spec_type_of_name(l: Seq<char>) -> Option<IntegerType> {
    if l == "u8"@ {
        Some(IntegerType::U8)
    } else if l == "i8"@ {
        Some(IntegerType::I8)
    } else if l == "u16"@ {
        Some(IntegerType::U16)
    } else if l == "i16"@ {
        Some(IntegerType::I16)
    } else if l == "u32"@ {
        Some(IntegerType::U32)
    } else if l == "i32"@ {
        Some(IntegerType::I32)
    } else if l == "u64"@ {
        Some(IntegerType::U64)
    } else if l == "i64"@ {
        Some(IntegerType::I64)
    } else if l == "u128"@ {
        Some(IntegerType::U128)
    } else if l == "i128"@ {
        Some(IntegerType::I128)
    } else {
        None
    }
}

impl IntegerType {
    /// Read a type name, case insensitively; unknown names are rejected with
    /// a fixed diagnostic.
    pub fn from_str(s: &str) -> (r: Result<IntegerType, &'static str>)
        ensures
            ({
                match spec_type_of_name(lower_of(s@)) {
                    Some(t) => r == Ok::<IntegerType, &'static str>(t),
                    None => {
                        &&& r is Err
                        &&& r->Err_0@
                            == "Invalid integer type specified. Choose from u8, i8, u16, i16, u32, i32, u64, i64, u128, i128."@
                    },
                }
            }),
    {
        let l = lowercase(s);
        if str_eq(l.as_str(), "u8") {
            Ok(IntegerType::U8)
        } else if str_eq(l.as_str(), "i8") {
            Ok(IntegerType::I8)
        } else if str_eq(l.as_str(), "u16") {
            Ok(IntegerType::U16)
        } else if str_eq(l.as_str(), "i16") {
            Ok(IntegerType::I16)
        } else if str_eq(l.as_str(), "u32") {
            Ok(IntegerType::U32)
        } else if str_eq(l.as_str(), "i32") {
            Ok(IntegerType::I32)
        } else if str_eq(l.as_str(), "u64") {
            Ok(IntegerType::U64)
        } else if str_eq(l.as_str(), "i64") {
            Ok(IntegerType::I64)
        } else if str_eq(l.as_str(), "u128") {
            Ok(IntegerType::U128)
        } else if str_eq(l.as_str(), "i128") {
            Ok(IntegerType::I128)
        } else {
            Err(
                "Invalid integer type specified. Choose from u8, i8, u16, i16, u32, i32, u64, i64, u128, i128.",
            )
        }
    }
}

/// The variant name, as diagnostics spell it.
fn type_label(t: &IntegerType) -> (r: &'static str)
    ensures
        r@ == spec_type_label(*t),
{
    match t {
        IntegerType::U8 => "U8",
        IntegerType::I8 => "I8",
        IntegerType::U16 => "U16",
        IntegerType::I16 => "I16",
        IntegerType::U32 => "U32",
        IntegerType::I32 => "I32",
        IntegerType::U64 => "U64",
        IntegerType::I64 => "I64",
        IntegerType::U128 => "U128",
        IntegerType::I128 => "I128",
    }
}

/// The type name as written in source, lower case.
fn type_source_name(t: &IntegerType) -> (r: &'static str)
    ensures
        r@ == spec_type_name(*t),
{
    match t {
        IntegerType::U8 => "u8",
        IntegerType::I8 => "i8",
        IntegerType::U16 => "u16",
        IntegerType::I16 => "i16",
        IntegerType::U32 => "u32",
        IntegerType::I32 => "i32",
        IntegerType::U64 => "u64",
        IntegerType::I64 => "i64",
        IntegerType::U128 => "u128",
        IntegerType::I128 => "i128",
    }
}

/// Whether the simulated type is signed.
fn type_is_signed(t: &IntegerType) -> (r: bool)
    ensures
        r == is_signed(*t),
{
    match t {
        IntegerType::I8 => true,
        IntegerType::I16 => true,
        IntegerType::I32 => true,
        IntegerType::I64 => true,
        IntegerType::I128 => true,
        _ => false,
    }
}

/// The magnitude of the largest value of the simulated type.
fn type_max_mag(t: &IntegerType) -> (m: u128)
    ensures
        m as int == type_max(*t),
{
    match t {
        IntegerType::U8 => 255,
        IntegerType::I8 => 127,
        IntegerType::U16 => 65535,
        IntegerType::I16 => 32767,
        IntegerType::U32 => 4294967295,
        IntegerType::I32 => 2147483647,
        IntegerType::U64 => 18446744073709551615,
        IntegerType::I64 => 9223372036854775807,
        IntegerType::U128 => 340282366920938463463374607431768211455,
        IntegerType::I128 => 170141183460469231731687303715884105727,
    }
}

/// The magnitude of the smallest value of the simulated type.
fn type_min_mag(t: &IntegerType) -> (m: u128)
    ensures
        m as int == -type_min(*t),
{
    match t {
        IntegerType::U8 => 0,
        IntegerType::I8 => 128,
        IntegerType::U16 => 0,
        IntegerType::I16 => 32768,
        IntegerType::U32 => 0,
        IntegerType::I32 => 2147483648,
        IntegerType::U64 => 0,
        IntegerType::I64 => 9223372036854775808,
        IntegerType::U128 => 0,
        IntegerType::I128 => 170141183460469231731687303715884105728,
    }
}

/// The whitespace-separated words of `s`, given the word collected so far.
pub open spec fn spec_words(s: Seq<char>, cur: Seq<char>) -> Seq<Seq<char>>
    decreases s.len(),
{
    if s.len() == 0 {
        if cur.len() > 0 {
            seq![cur]
        } else {
            Seq::empty()
        }
    } else if !is_space(s[0]) {
        spec_words(s.drop_first(), cur.push(s[0]))
    } else if cur.len() > 0 {
        seq![cur] + spec_words(s.drop_first(), Seq::empty())
    } else {
        spec_words(s.drop_first(), Seq::empty())
    }
}

/// The whitespace-separated words of `s`.
pub open spec fn spec_split_whitespace(s: Seq<char>) -> Seq<Seq<char>> {
    spec_words(s, Seq::empty())
}

/// Split on Unicode whitespace, dropping empty segments.
pub fn split_whitespace(s: &str) -> (r: Vec<String>)
    ensures
        r.deep_view() == spec_split_whitespace(s@),
{
    let n = s.unicode_len();
    let mut out: Vec<String> = Vec::new();
    let mut in_word = false;
    let mut start: usize = 0;
    let mut i: usize = 0;
    proof {
        assert(s@.subrange(0, n as int) =~= s@);
        assert(out.deep_view() =~= Seq::<Seq<char>>::empty());
    }
    while i < n
        invariant
            n == s@.len() <= usize::MAX,
            i <= n,
            in_word ==> start < i,
            spec_split_whitespace(s@) == out.deep_view() + spec_words(
                s@.subrange(i as int, n as int),
                if in_word {
                    s@.subrange(start as int, i as int)
                } else {
                    Seq::<char>::empty()
                },
            ),
        decreases n - i,
    {
        let ghost tail = s@.subrange(i as int, n as int);
        let ghost cur = if in_word {
            s@.subrange(start as int, i as int)
        } else {
            Seq::<char>::empty()
        };
        proof {
            assert(tail[0] == s@[i as int]);
            assert(tail.drop_first() =~= s@.subrange(i + 1, n as int));
        }
        let c = s.get_char(i);
        if !whitespace_char(c) {
            if !in_word {
                in_word = true;
                start = i;
            }
            proof {
                assert(cur.push(s@[i as int]) =~= s@.subrange(start as int, i + 1));
            }
        } else {
            if in_word {
                let word = String::from_str(s.substring_char(start, i));
                push_line(&mut out, word);
                in_word = false;
            }
        }
        i += 1;
    }
    if in_word {
        let word = String::from_str(s.substring_char(start, n));
        push_line(&mut out, word);
        proof {
            assert(s@.subrange(n as int, n as int).len() == 0);
            assert(out.deep_view() =~= out.deep_view().drop_last().push(
                s@.subrange(start as int, n as int),
            ));
        }
    } else {
        proof {
            assert(s@.subrange(n as int, n as int).len() == 0);
            assert(out.deep_view() + Seq::<Seq<char>>::empty() =~= out.deep_view());
        }
    }
    out
}

/// The value a canonical sign-magnitude pair stands for.
pub open spec fn sm_val(neg: bool, mag: u128) -> int {
    if neg {
        -(mag as int)
    } else {
        mag as int
    }
}

/// Truncating division, as machine integers divide: the quotient of the
/// magnitudes, carrying the sign.
pub open spec fn spec_trunc_div(a: int, b: int) -> int {
    if a == 0 {
        0
    } else if a > 0 && b > 0 {
        a / b
    } else if a < 0 && b < 0 {
        (-a) / (-b)
    } else if a < 0 {
        -((-a) / b)
    } else {
        -(a / (-b))
    }
}

/// Sum of two sign-magnitude values; `None` when the magnitude of the sum
/// does not fit even the widest simulated type.
fn sm_add(an: bool, am: u128, bn: bool, bm: u128) -> (r: Option<(bool, u128)>)
    requires
        an ==> am > 0,
        bn ==> bm > 0,
    ensures
        ({
            let sum = sm_val(an, am) + sm_val(bn, bm);
            match r {
                Some(p) => (p.0 ==> p.1 > 0) && sm_val(p.0, p.1) == sum,
                None => sum > u128::MAX as int || sum < -(u128::MAX as int),
            }
        }),
{
    if an == bn {
        match am.checked_add(bm) {
            Some(m) => {
                if m == 0 {
                    Some((false, 0))
                } else {
                    Some((an, m))
                }
            },
            None => None,
        }
    } else if am >= bm {
        let m = am - bm;
        if m == 0 {
            Some((false, 0))
        } else {
            Some((an, m))
        }
    } else {
        Some((bn, bm - am))
    }
}

/// Negation of a sign-magnitude value.
fn sm_negate(neg: bool, mag: u128) -> (r: (bool, u128))
    requires
        neg ==> mag > 0,
    ensures
        r.0 ==> r.1 > 0,
        sm_val(r.0, r.1) == -sm_val(neg, mag),
{
    if mag == 0 {
        (false, 0)
    } else {
        (!neg, mag)
    }
}

/// Product of two sign-magnitude values; `None` when the magnitude of the
/// product does not fit even the widest simulated type.
fn sm_mul(an: bool, am: u128, bn: bool, bm: u128) -> (r: Option<(bool, u128)>)
    requires
        an ==> am > 0,
        bn ==> bm > 0,
    ensures
        ({
            let prod = sm_val(an, am) * sm_val(bn, bm);
            match r {
                Some(p) => (p.0 ==> p.1 > 0) && sm_val(p.0, p.1) == prod,
                None => prod > u128::MAX as int || prod < -(u128::MAX as int),
            }
        }),
{
    proof {
        assert(sm_val(an, am) * sm_val(bn, bm) == if an == bn {
            (am as int) * (bm as int)
        } else {
            -((am as int) * (bm as int))
        }) by (nonlinear_arith);
        assert((am as int) * (bm as int) >= 0) by (nonlinear_arith);
    }
    match am.checked_mul(bm) {
        Some(m) => {
            if m == 0 {
                Some((false, 0))
            } else {
                Some((an != bn, m))
            }
        },
        None => None,
    }
}

/// Truncating quotient of two sign-magnitude values; the divisor must be
/// non-zero, and the quotient's magnitude never exceeds the dividend's.
fn sm_div(an: bool, am: u128, bn: bool, bm: u128) -> (r: (bool, u128))
    requires
        an ==> am > 0,
        bn ==> bm > 0,
        bm > 0,
    ensures
        r.0 ==> r.1 > 0,
        sm_val(r.0, r.1) == spec_trunc_div(sm_val(an, am), sm_val(bn, bm)),
{
    let m = am / bm;
    if m == 0 {
        (false, 0)
    } else {
        (an != bn, m)
    }
}

/// Whether a sign-magnitude value lies within the simulated type's range.
fn sm_in_range(t: &IntegerType, neg: bool, mag: u128) -> (r: bool)
    requires
        neg ==> mag > 0,
    ensures
        r == (type_min(*t) <= sm_val(neg, mag) <= type_max(*t)),
{
    if neg {
        mag <= type_min_mag(t)
    } else {
        mag <= type_max_mag(t)
    }
}

/// The report line for an expression that evaluated cleanly.
pub open spec fn ok_msg(a: int, op: Seq<char>, b: int, res: int) -> Seq<char> {
    "OK: "@ + dec_int(a) + " "@ + op + " "@ + dec_int(b) + " = "@ + dec_int(res)
}

/// The report line for an overflow, underflow, or division hazard.
pub open spec fn hazard_msg(head: Seq<char>, a: int, op: Seq<char>, b: int, t: IntegerType) -> Seq<
    char,
> {
    head + dec_int(a) + " "@ + op + " "@ + dec_int(b) + " as "@ + spec_type_name(t)
}

/// The report line for an operand the simulated type cannot read.
pub open spec fn invalid_operand_msg(opnd: Seq<char>, t: IntegerType, expr: Seq<char>) -> Seq<
    char,
> {
    "ERROR: Invalid operand '"@ + opnd + "' for type "@ + spec_type_label(t) + " in expression: "@
        + expr
}

/// What checking one `VALUE OPERATOR VALUE` expression reports, given the
/// parsed operand values.
pub open spec fn spec_check_op(a: int, op: Seq<char>, b: int, t: IntegerType, expr: Seq<char>) -> Seq<
    char,
> {
    if op == "+"@ {
        if type_min(t) <= a + b <= type_max(t) {
            ok_msg(a, op, b, a + b)
        } else {
            hazard_msg("WARNING: Overflow detected for "@, a, op, b, t)
        }
    } else if op == "-"@ {
        if type_min(t) <= a - b <= type_max(t) {
            ok_msg(a, op, b, a - b)
        } else {
            hazard_msg("WARNING: Underflow detected for "@, a, op, b, t)
        }
    } else if op == "*"@ {
        if type_min(t) <= a * b <= type_max(t) {
            ok_msg(a, op, b, a * b)
        } else {
            hazard_msg("WARNING: Overflow detected for "@, a, op, b, t)
        }
    } else if op == "/"@ {
        if b == 0 {
            "ERROR: Division by zero detected in expression: "@ + expr
        } else {
            let q = spec_trunc_div(a, b);
            if type_min(t) <= q <= type_max(t) {
                ok_msg(a, op, b, q)
            } else {
                hazard_msg("WARNING: Division overflow/underflow detected for "@, a, op, b, t)
            }
        }
    } else {
        "ERROR: Unsupported operator '"@ + op + "' in expression: "@ + expr
    }
}

/// What parsing one operand in the simulated type yields.
pub open spec fn spec_parse_operand(s: Seq<char>, t: IntegerType) -> Option<int> {
    spec_parse_int(s, is_signed(t), type_min(t), type_max(t))
}

/// The full report line for one expression: malformed expressions and
/// unreadable operands are flagged, and a well-formed expression is checked
/// in the simulated type.
pub open spec fn spec_check(expr: Seq<char>, t: IntegerType) -> Seq<char> {
    let parts = spec_split_whitespace(expr);
    if parts.len() != 3 {
        "WARN: Skipping malformed expression: "@ + expr
    } else {
        match spec_parse_operand(parts[0], t) {
            None => invalid_operand_msg(parts[0], t, expr),
            Some(a) => match spec_parse_operand(parts[2], t) {
                None => invalid_operand_msg(parts[2], t, expr),
                Some(b) => spec_check_op(a, parts[1], b, t, expr),
            },
        }
    }
}

/// Build `lit + rest`.
fn build2(lit: &str, rest: &str) -> (r: String)
    ensures
        r@ == lit@ + rest@,
{
    let mut r = String::from_str(lit);
    r.append(rest);
    r
}

/// Build the report line for a clean evaluation.
fn build_ok(an: bool, am: u128, op: &str, bn: bool, bm: u128, rn: bool, rm: u128) -> (r: String)
    requires
        an ==> am > 0,
        bn ==> bm > 0,
        rn ==> rm > 0,
    ensures
        r@ == ok_msg(sm_val(an, am), op@, sm_val(bn, bm), sm_val(rn, rm)),
{
    let mut r = String::from_str("OK: ");
    let a_str = sign_magnitude_to_string(an, am);
    r.append(a_str.as_str());
    r.append(" ");
    r.append(op);
    r.append(" ");
    let b_str = sign_magnitude_to_string(bn, bm);
    r.append(b_str.as_str());
    r.append(" = ");
    let res_str = sign_magnitude_to_string(rn, rm);
    r.append(res_str.as_str());
    proof {
        assert(r@ =~= ok_msg(sm_val(an, am), op@, sm_val(bn, bm), sm_val(rn, rm)));
    }
    r
}

/// Build the report line for a hazard.
fn build_hazard(head: &str, an: bool, am: u128, op: &str, bn: bool, bm: u128, t: &IntegerType) -> (r:
    String)
    requires
        an ==> am > 0,
        bn ==> bm > 0,
    ensures
        r@ == hazard_msg(head@, sm_val(an, am), op@, sm_val(bn, bm), *t),
{
    let mut r = String::from_str(head);
    let a_str = sign_magnitude_to_string(an, am);
    r.append(a_str.as_str());
    r.append(" ");
    r.append(op);
    r.append(" ");
    let b_str = sign_magnitude_to_string(bn, bm);
    r.append(b_str.as_str());
    r.append(" as ");
    r.append(type_source_name(t));
    proof {
        assert(r@ =~= hazard_msg(head@, sm_val(an, am), op@, sm_val(bn, bm), *t));
    }
    r
}

/// Build the report line for an unreadable operand.
fn build_invalid_operand(opnd: &str, t: &IntegerType, expr: &str) -> (r: String)
    ensures
        r@ == invalid_operand_msg(opnd@, *t, expr@),
{
    let mut r = String::from_str("ERROR: Invalid operand '");
    r.append(opnd);
    r.append("' for type ");
    r.append(type_label(t));
    r.append(" in expression: ");
    r.append(expr);
    proof {
        assert(r@ =~= invalid_operand_msg(opnd@, *t, expr@));
    }
    r
}

/// Build the report line for an unsupported operator.
fn build_unsupported(op: &str, expr: &str) -> (r: String)
    ensures
        r@ == "ERROR: Unsupported operator '"@ + op@ + "' in expression: "@ + expr@,
{
    let mut r = String::from_str("ERROR: Unsupported operator '");
    r.append(op);
    r.append("' in expression: ");
    r.append(expr);
    proof {
        assert(r@ =~= "ERROR: Unsupported operator '"@ + op@ + "' in expression: "@ + expr@);
    }
    r
}

/// Check one `VALUE OPERATOR VALUE` expression in the simulated integer
/// type and report the outcome: the computed value, or the overflow,
/// underflow, or division hazard found.
pub fn check_arithmetic_safety(expression: &str, int_type: &IntegerType) -> (r: String)
    ensures
        r@ == spec_check(expression@, *int_type),
{
    let parts = split_whitespace(expression);
    let ghost pv = parts.deep_view();
    if parts.len() != 3 {
        return build2("WARN: Skipping malformed expression: ", expression);
    }
    let signed = type_is_signed(int_type);
    let max_pos = type_max_mag(int_type);
    let max_neg = type_min_mag(int_type);
    let (an, am): (bool, u128) = match parse_sign_magnitude(
        parts[0].as_str(),
        signed,
        max_pos,
        max_neg,
    ) {
        Some(p) => p,
        None => {
            return build_invalid_operand(parts[0].as_str(), int_type, expression);
        },
    };
    let (bn, bm): (bool, u128) = match parse_sign_magnitude(
        parts[2].as_str(),
        signed,
        max_pos,
        max_neg,
    ) {
        Some(p) => p,
        None => {
            return build_invalid_operand(parts[2].as_str(), int_type, expression);
        },
    };
    let ghost a = sm_val(an, am);
    let ghost b = sm_val(bn, bm);
    let op = &parts[1];
    proof {
        assert(op@ == pv[1]);
        assert(type_max(*int_type) <= u128::MAX as int);
        assert(type_min(*int_type) >= -(u128::MAX as int));
    }
    if str_eq(op.as_str(), "+") {
        match sm_add(an, am, bn, bm) {
            Some((rn, rm)) => {
                if sm_in_range(int_type, rn, rm) {
                    build_ok(an, am, op.as_str(), bn, bm, rn, rm)
                } else {
                    build_hazard("WARNING: Overflow detected for ", an, am, op.as_str(), bn, bm, int_type)
                }
            },
            None => {
                build_hazard("WARNING: Overflow detected for ", an, am, op.as_str(), bn, bm, int_type)
            },
        }
    } else if str_eq(op.as_str(), "-") {
        let (cn, cm) = sm_negate(bn, bm);
        match sm_add(an, am, cn, cm) {
            Some((rn, rm)) => {
                if sm_in_range(int_type, rn, rm) {
                    build_ok(an, am, op.as_str(), bn, bm, rn, rm)
                } else {
                    build_hazard("WARNING: Underflow detected for ", an, am, op.as_str(), bn, bm, int_type)
                }
            },
            None => {
                build_hazard("WARNING: Underflow detected for ", an, am, op.as_str(), bn, bm, int_type)
            },
        }
    } else if str_eq(op.as_str(), "*") {
        match sm_mul(an, am, bn, bm) {
            Some((rn, rm)) => {
                if sm_in_range(int_type, rn, rm) {
                    build_ok(an, am, op.as_str(), bn, bm, rn, rm)
                } else {
                    build_hazard("WARNING: Overflow detected for ", an, am, op.as_str(), bn, bm, int_type)
                }
            },
            None => {
                build_hazard("WARNING: Overflow detected for ", an, am, op.as_str(), bn, bm, int_type)
            },
        }
    } else if str_eq(op.as_str(), "/") {
        if bm == 0 {
            build2("ERROR: Division by zero detected in expression: ", expression)
        } else {
            let (rn, rm) = sm_div(an, am, bn, bm);
            if sm_in_range(int_type, rn, rm) {
                build_ok(an, am, op.as_str(), bn, bm, rn, rm)
            } else {
                build_hazard(
                    "WARNING: Division overflow/underflow detected for ",
                    an,
                    am,
                    op.as_str(),
                    bn,
                    bm,
                    int_type,
                )
            }
        }
    } else {
        build_unsupported(op.as_str(), expression)
    }
}

} // verus!
