//! Prefix parsers for the two token kinds: a complete pitch token and a
//! duration (length) token.
//!
//! A duration is written in one of three surface forms, tried in this
//! order: `<digits>/<digits>` (numerator and denominator literal), then
//! `/<digits>` (numerator fixed at 1), then a bare run of slashes (`k`
//! slashes mean `1 / 2^k`).

use vstd::prelude::*;

use crate::duration::{
    canonical_length, lemma_gcd_one_left, reduced_denom, reduced_numer,
};
use crate::{IllegalLength, Length, LengthError, Note, ParseError};

verus! {

/// A decimal digit.
pub open spec fn is_digit(c: char) -> bool {
    '0' as u32 <= c as u32 && c as u32 <= '9' as u32
}

/// The numeric value of a decimal digit.
pub open spec fn digit_val(c: char) -> int {
    c as u32 - '0' as u32
}

/// Length of the leading run of decimal digits in `s`.
pub open spec fn digit_run_len(s: Seq<char>) -> nat
    decreases s.len(),
{
    if s.len() == 0 || !is_digit(s[0]) {
        0
    } else {
        1 + digit_run_len(s.subrange(1, s.len() as int))
    }
}

/// Length of the leading run of `/` characters in `s`.
pub open spec fn slash_run_len(s: Seq<char>) -> nat
    decreases s.len(),
{
    if s.len() == 0 || s[0] != '/' {
        0
    } else {
        1 + slash_run_len(s.subrange(1, s.len() as int))
    }
}

/// The number a run of decimal digits denotes, most significant digit
/// first. Meaningful only when every character of `s` is a digit.
pub open spec fn digits_value(s: Seq<char>) -> int
    decreases s.len(),
{
    if s.len() == 0 {
        0
    } else {
        digits_value(s.drop_last()) * 10 + digit_val(s.last())
    }
}

/// Two to the power `k`.
pub open spec fn pow2(k: nat) -> int
    decreases k,
{
    if k == 0 {
        1
    } else {
        2 * pow2((k - 1) as nat)
    }
}

/// What the duration lexer recognizes at the start of `s`: the raw
/// `(numerator, denominator)` fraction and the number of characters
/// consumed, before any table lookup.
///
/// The three surface forms in priority order:
/// 1. `<digits>/<digits>`: both runs taken literally.
/// 2. `/<digits>`: numerator 1, denominator from the run.
/// 3. One or more bare slashes, with no digits: `k` slashes denote
///    `1 / 2^k`.
///
/// Only decimal-digit runs are valid numerator or denominator text, and a
/// digit run that does not fit an `i32` is a hard lexical failure — in
/// form 1 and form 2 alike — as is a missing denominator run after the
/// slash of form 1.
pub open spec fn length_lex(s: Seq<char>) -> Option<((int, int), nat)> {
    let d0 = digit_run_len(s);
    if d0 > 0 {
        if d0 < s.len() && s[d0 as int] == '/' {
            let tail = s.subrange(d0 as int + 1, s.len() as int);
            let d1 = digit_run_len(tail);
            if d1 > 0 {
                let v0 = digits_value(s.subrange(0, d0 as int));
                let v1 = digits_value(tail.subrange(0, d1 as int));
                if v0 <= i32::MAX && v1 <= i32::MAX {
                    Some(((v0, v1), d0 + 1 + d1))
                } else {
                    None
                }
            } else {
                None
            }
        } else {
            None
        }
    } else if s.len() >= 1 && s[0] == '/' {
        let tail = s.subrange(1, s.len() as int);
        let d1 = digit_run_len(tail);
        if d1 > 0 {
            let v1 = digits_value(tail.subrange(0, d1 as int));
            if v1 <= i32::MAX {
                Some(((1, v1), 1 + d1))
            } else {
                None
            }
        } else {
            let k = slash_run_len(s);
            Some(((1, pow2(k)), k))
        }
    } else {
        None
    }
}

proof fn lemma_digit_run_of_prefix(s: Seq<char>, k: int)
    requires
        0 <= k <= s.len(),
        forall|j: int| 0 <= j < k ==> is_digit(s[j]),
        k == s.len() || !is_digit(s[k]),
    ensures
        digit_run_len(s) == k,
    decreases k,
{
    if k > 0 {
        lemma_digit_run_of_prefix(s.subrange(1, s.len() as int), k - 1);
    }
}

proof fn lemma_slash_run_of_prefix(s: Seq<char>, k: int)
    requires
        0 <= k <= s.len(),
        forall|j: int| 0 <= j < k ==> s[j] == '/',
        k == s.len() || s[k] != '/',
    ensures
        slash_run_len(s) == k,
    decreases k,
{
    if k > 0 {
        lemma_slash_run_of_prefix(s.subrange(1, s.len() as int), k - 1);
    }
}

proof fn lemma_digits_value_nonneg(s: Seq<char>)
    requires
        forall|j: int| 0 <= j < s.len() ==> is_digit(s[j]),
    ensures
        digits_value(s) >= 0,
    decreases s.len(),
{
    if s.len() > 0 {
        assert(forall|j: int|
            0 <= j < s.drop_last().len() ==> is_digit(#[trigger] s.drop_last()[j]));
        lemma_digits_value_nonneg(s.drop_last());
    }
}

proof fn lemma_digits_value_prefix_le(s: Seq<char>, m: int)
    requires
        0 <= m <= s.len(),
        forall|j: int| 0 <= j < s.len() ==> is_digit(s[j]),
    ensures
        digits_value(s.subrange(0, m)) <= digits_value(s),
    decreases s.len(),
{
    if m == s.len() {
        assert(s.subrange(0, m) =~= s);
    } else {
        let head = s.drop_last();
        assert(forall|j: int| 0 <= j < head.len() ==> is_digit(#[trigger] head[j]));
        lemma_digits_value_prefix_le(head, m);
        assert(head.subrange(0, m) =~= s.subrange(0, m));
        lemma_digits_value_nonneg(head);
    }
}

fn scan_digits(s: &str, from: usize) -> (to: usize)
    requires
        from <= s@.len(),
    ensures
        from <= to <= s@.len(),
        to - from == digit_run_len(s@.subrange(from as int, s@.len() as int)),
        forall|j: int| from <= j < to ==> is_digit(s@[j]),
{
    let n = s.unicode_len();
    let mut j = from;
    let mut scanning = true;
    while scanning && j < n
        invariant
            n == s@.len(),
            from <= j <= n,
            forall|i: int| from <= i < j ==> is_digit(s@[i]),
            !scanning ==> j < n && !is_digit(s@[j as int]),
        decreases n - j + (if scanning {
            1int
        } else {
            0int
        }),
    {
        let c = s.get_char(j);
        let cv: u32 = c as u32;
        if '0' as u32 <= cv && cv <= '9' as u32 {
            j = j + 1;
        } else {
            scanning = false;
        }
    }
    proof {
        let suffix = s@.subrange(from as int, s@.len() as int);
        assert(forall|i: int|
            0 <= i < j - from ==> is_digit(#[trigger] suffix[i]) == is_digit(
                s@[i + from as int],
            ));
        lemma_digit_run_of_prefix(suffix, j - from);
    }
    j
}

fn scan_slashes(s: &str) -> (k: usize)
    ensures
        k <= s@.len(),
        k == slash_run_len(s@),
        forall|j: int| 0 <= j < k ==> s@[j] == '/',
{
    let n = s.unicode_len();
    let mut j: usize = 0;
    let mut scanning = true;
    while scanning && j < n
        invariant
            n == s@.len(),
            0 <= j <= n,
            forall|i: int| 0 <= i < j ==> s@[i] == '/',
            !scanning ==> j < n && s@[j as int] != '/',
        decreases n - j + (if scanning {
            1int
        } else {
            0int
        }),
    {
        let c = s.get_char(j);
        if c == '/' {
            j = j + 1;
        } else {
            scanning = false;
        }
    }
    proof {
        lemma_slash_run_of_prefix(s@, j as int);
    }
    j
}

/// Convert the digit run `s[from..to]` to an `i32`; `None` when the run's
/// value exceeds `i32::MAX`.
fn digits_to_i32(s: &str, from: usize, to: usize) -> (r: Option<i32>)
    requires
        from <= to <= s@.len(),
        forall|j: int| from <= j < to ==> is_digit(s@[j]),
    ensures
        ({
            let run = s@.subrange(from as int, to as int);
            match r {
                Some(v) => v as int == digits_value(run),
                None => digits_value(run) > i32::MAX,
            }
        }),
{
    let mut j = from;
    let mut acc: u64 = 0;
    while j < to
        invariant
            from <= j <= to <= s@.len(),
            forall|i: int| from <= i < to ==> is_digit(s@[i]),
            acc <= i32::MAX as u64,
            acc as int == digits_value(s@.subrange(from as int, j as int)),
        decreases to - j,
    {
        let c = s.get_char(j);
        let d: u32 = c as u32 - '0' as u32;
        let tmp: u64 = acc * 10 + d as u64;
        proof {
            assert(s@.subrange(from as int, j + 1).drop_last() =~= s@.subrange(
                from as int,
                j as int,
            ));
            assert(s@.subrange(from as int, j + 1).last() == s@[j as int]);
        }
        if tmp > i32::MAX as u64 {
            proof {
                let run = s@.subrange(from as int, to as int);
                assert(forall|i: int| 0 <= i < run.len() ==> is_digit(#[trigger] run[i]));
                assert(run.subrange(0, j + 1 - from) =~= s@.subrange(from as int, j + 1));
                lemma_digits_value_prefix_le(run, j + 1 - from);
            }
            return None;
        }
        acc = tmp;
        j = j + 1;
    }
    Some(acc as i32)
}

/// Same pitch grammar as [`crate::pitch`], re-exposed beside the length
/// parser so both token parsers live in one module.
pub fn pitch(input: &str) -> (r: Result<(&str, Note), ParseError>)
    ensures
        r is Ok <==> crate::pitch_lex(input@) is Some,
        r matches Ok((rest, note)) ==> crate::pitch_lex(input@) matches Some(p) && note == p.0
            && rest@ == input@.subrange(p.1 as int, input@.len() as int),
{
    crate::pitch(input)
}

/// Consume one duration token from the start of `input` and resolve it
/// against the canonical duration table.
///
/// The three surface forms are tried as [`length_lex`] describes. Text
/// that matches no form fails with a syntax error; text that lexes to a
/// fraction whose reduced form has no table entry fails with
/// [`IllegalLength`], never rounded to a neighboring shape.
pub fn length(input: &str) -> (r: Result<(&str, Length), LengthError>)
    ensures
        match length_lex(input@) {
            None => r == Err::<(&str, Length), LengthError>(LengthError::Syntax(ParseError)),
            Some(p) => {
                let nu = p.0.0;
                let de = p.0.1;
                let k = p.1;
                if de == 0 {
                    r == Err::<(&str, Length), LengthError>(LengthError::Illegal(IllegalLength))
                } else {
                    match canonical_length(reduced_numer(nu, de), reduced_denom(nu, de)) {
                        Some(l) => r matches Ok((rest, ll)) && ll == l && rest@ == input@.subrange(
                            k as int,
                            input@.len() as int,
                        ),
                        None => r == Err::<(&str, Length), LengthError>(
                            LengthError::Illegal(IllegalLength),
                        ),
                    }
                }
            },
        },
{
    let n = input.unicode_len();
    let d0 = scan_digits(input, 0);
    proof {
        assert(input@.subrange(0, n as int) =~= input@);
    }
    if d0 > 0 {
        if d0 < n && input.get_char(d0) == '/' {
            let d1end = scan_digits(input, d0 + 1);
            proof {
                let tail = input@.subrange(d0 as int + 1, n as int);
                assert(tail =~= input@.subrange(d0 as int + 1, input@.len() as int));
            }
            if d1end > d0 + 1 {
                let v0 = digits_to_i32(input, 0, d0);
                let v1 = digits_to_i32(input, d0 + 1, d1end);
                proof {
                    let tail = input@.subrange(d0 as int + 1, input@.len() as int);
                    assert(tail.subrange(0, d1end - (d0 as int + 1)) =~= input@.subrange(
                        d0 as int + 1,
                        d1end as int,
                    ));
                }
                match (v0, v1) {
                    (Some(nu), Some(de)) => {
                        if de == 0 {
                            return Err(LengthError::Illegal(IllegalLength));
                        }
                        match Length::new((nu, de)) {
                            Ok(l) => Ok((input.substring_char(d1end, n), l)),
                            Err(_) => Err(LengthError::Illegal(IllegalLength)),
                        }
                    },
                    _ => Err(LengthError::Syntax(ParseError)),
                }
            } else {
                Err(LengthError::Syntax(ParseError))
            }
        } else {
            Err(LengthError::Syntax(ParseError))
        }
    } else if n >= 1 && input.get_char(0) == '/' {
        let d1end = scan_digits(input, 1);
        proof {
            let tail = input@.subrange(1, n as int);
            assert(tail =~= input@.subrange(1, input@.len() as int));
            assert(input@.subrange(1, input@.len() as int).subrange(0, d1end - 1) =~= input@
                .subrange(1, d1end as int));
        }
        if d1end > 1 {
            match digits_to_i32(input, 1, d1end) {
                Some(de) => {
                    if de == 0 {
                        return Err(LengthError::Illegal(IllegalLength));
                    }
                    match Length::new((1, de)) {
                        Ok(l) => Ok((input.substring_char(d1end, n), l)),
                        Err(_) => Err(LengthError::Illegal(IllegalLength)),
                    }
                },
                None => Err(LengthError::Syntax(ParseError)),
            }
        } else {
            slash_form(input)
        }
    } else {
        Err(LengthError::Syntax(ParseError))
    }
}

/// The bare-slash duration form: `k` leading slashes denote `1 / 2^k`.
/// Only `k <= 7` (denominator up to 128) is tabulated.
fn slash_form(input: &str) -> (r: Result<(&str, Length), LengthError>)
    requires
        input@.len() >= 1,
        input@[0] == '/',
    ensures
        ({
            let k = slash_run_len(input@);
            match canonical_length(reduced_numer(1, pow2(k)), reduced_denom(1, pow2(k))) {
                Some(l) => r matches Ok((rest, ll)) && ll == l && rest@ == input@.subrange(
                    k as int,
                    input@.len() as int,
                ),
                None => r == Err::<(&str, Length), LengthError>(
                    LengthError::Illegal(IllegalLength),
                ),
            }
        }),
{
    let n = input.unicode_len();
    let k = scan_slashes(input);
    proof {
        lemma_gcd_one_left(pow2(slash_run_len(input@)) as nat);
        reveal_with_fuel(pow2, 9);
        lemma_pow2_large(slash_run_len(input@));
    }
    if k <= 7 {
        let de: i32 = match k {
            0 => 1,
            1 => 2,
            2 => 4,
            3 => 8,
            4 => 16,
            5 => 32,
            6 => 64,
            _ => 128,
        };
        match Length::new((1, de)) {
            Ok(l) => Ok((input.substring_char(k, n), l)),
            Err(_) => {
                proof {
                    reveal_with_fuel(pow2, 9);
                    let sk = slash_run_len(input@);
                    assert(de as int == pow2(sk));
                    assert(forall|x: int| 0 <= x ==> #[trigger] (x / 1int) == x);
                    assert(reduced_numer(1, de as int) == 1);
                    assert(reduced_denom(1, de as int) == de as int);
                    assert(false);
                }
                Err(LengthError::Illegal(IllegalLength))
            },
        }
    } else {
        Err(LengthError::Illegal(IllegalLength))
    }
}

proof fn lemma_pow2_large(k: nat)
    ensures
        k >= 8 ==> pow2(k) >= 256,
        pow2(k) >= 1,
    decreases k,
{
    if k == 8 {
        reveal_with_fuel(pow2, 9);
        assert(pow2(8) == 256);
    } else if k > 0 {
        lemma_pow2_large((k - 1) as nat);
    }
}

} // verus!
