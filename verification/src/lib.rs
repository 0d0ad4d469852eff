//! A parser and renderer for a small textual music notation.
//!
//! The surface syntax has two token kinds: a *pitch* token (an optional
//! accidental marker, a base letter `A`..`G` in either case, and a run of
//! octave-shift marks `'` and `,`) and a *length* token (a rational duration
//! written `n/d`, `/n`, or as a run of slashes). Parsed values can be
//! rendered back to text with Unicode musical glyphs.
//!
//! All parsers here are prefix parsers: they consume the leading part of the
//! input that belongs to the token and hand the unconsumed suffix back.

use vstd::prelude::*;

mod duration;
pub mod parser;
pub mod render;

verus! {

/// Error returned when surface text does not match the expected grammar at
/// the current position. The caller keeps its input: a failing parser
/// consumes nothing.
#[derive(Debug, PartialEq, Eq, Structural)]
pub struct ParseError;

/// Error returned when a syntactically well-formed fraction does not
/// correspond to any canonical tabulated duration.
#[derive(Debug, PartialEq, Eq, Structural)]
pub struct IllegalLength;

/// Error returned by the length parser. The two kinds stay apart so a
/// caller can tell "this text is not a duration at all" from "this
/// duration is not representable".
#[derive(Debug, PartialEq, Eq, Structural)]
pub enum LengthError {
    /// The text does not match any of the three duration surface forms.
    Syntax(ParseError),
    /// The text lexed as a fraction, but the reduced fraction has no
    /// canonical table entry.
    Illegal(IllegalLength),
}

/// A pitch modifier: flat, sharp (single or double), or natural.
/// Absence of an accidental is represented by `Option::None` at the use
/// site, never by `Natural`.
#[derive(Debug, Clone, PartialEq, Eq, Structural)]
pub enum Accidental {
    Flat2,
    Flat,
    Natural,
    Sharp,
    Sharp2,
}

/// The nine note shapes, in ascending duration order, representing base
/// durations `1/128` through `2/1` of a whole note.
#[derive(Debug, Clone, Copy, PartialEq, Eq, Structural)]
pub enum NoteShape {
    Hundred28th,
    SixtyFourth,
    ThirtySecond,
    Sixteenth,
    Eighth,
    Quarter,
    Half,
    Whole,
    Breve,
}

/// A canonical duration: a note shape together with a dot count in `0..=3`.
/// A dot count `k` scales the shape's base duration by `2 - 2^-k`.
/// Values built by [`Length::new`] always correspond to one of the
/// canonical fractions of the duration table.
#[derive(Debug, PartialEq, Eq, Structural)]
pub struct Length {
    pub note_shape: NoteShape,
    pub dot: i32,
}

/// A parsed note: octave (4 is the middle reference octave), uppercase key
/// letter `A`..`G`, optional accidental, and duration.
///
/// The octave is wide enough that an octave-mark run of any representable
/// length folds into it without overflow.
#[derive(Debug, PartialEq, Eq)]
pub struct Note {
    pub octave: i128,
    pub key: char,
    pub accidental: Option<Accidental>,
    pub length: Length,
}

/// What the accidental lexer recognizes at the start of `s`: the accidental
/// and the number of characters consumed, or `None` when no marker is
/// present. The two-character markers are tried before their
/// single-character prefixes, so `^^` always lexes as one `Sharp2`.
pub open spec fn accidental_lex(s: Seq<char>) -> Option<(Accidental, nat)> {
    if s.len() >= 2 && s[0] == '^' && s[1] == '^' {
        Some((Accidental::Sharp2, 2nat))
    } else if s.len() >= 1 && s[0] == '^' {
        Some((Accidental::Sharp, 1nat))
    } else if s.len() >= 2 && s[0] == '_' && s[1] == '_' {
        Some((Accidental::Flat2, 2nat))
    } else if s.len() >= 1 && s[0] == '_' {
        Some((Accidental::Flat, 1nat))
    } else if s.len() >= 1 && s[0] == '=' {
        Some((Accidental::Natural, 1nat))
    } else {
        None
    }
}

/// Attempt to consume one accidental marker from the start of `input`.
///
/// On success the result is the unconsumed suffix and the accidental; when
/// no marker is present the parser fails without consuming anything.
pub fn accidental(input: &str) -> (r: Result<(&str, Accidental), ParseError>)
    ensures
        r is Ok <==> accidental_lex(input@) is Some,
        r matches Ok((rest, a)) ==> accidental_lex(input@) matches Some(p) && a == p.0
            && rest@ == input@.subrange(p.1 as int, input@.len() as int),
{
    let n = input.unicode_len();
    if n == 0 {
        return Err(ParseError);
    }
    let c0 = input.get_char(0);
    let consumed: usize;
    let acc: Accidental;
    if c0 == '^' {
        if n >= 2 && input.get_char(1) == '^' {
            consumed = 2;
            acc = Accidental::Sharp2;
        } else {
            consumed = 1;
            acc = Accidental::Sharp;
        }
    } else if c0 == '_' {
        if n >= 2 && input.get_char(1) == '_' {
            consumed = 2;
            acc = Accidental::Flat2;
        } else {
            consumed = 1;
            acc = Accidental::Flat;
        }
    } else if c0 == '=' {
        consumed = 1;
        acc = Accidental::Natural;
    } else {
        return Err(ParseError);
    }
    let rest = input.substring_char(consumed, n);
    Ok((rest, acc))
}

/// An octave-shift mark: `'` moves one octave up, `,` one octave down.
pub open spec fn is_mark(c: char) -> bool {
    c == '\'' || c == ','
}

/// Length of the leading run of octave marks in `s`.
pub open spec fn marks_len(s: Seq<char>) -> nat
    decreases s.len(),
{
    if s.len() == 0 || !is_mark(s[0]) {
        0
    } else {
        1 + marks_len(s.subrange(1, s.len() as int))
    }
}

/// The octave delta a sequence of marks folds to: `+1` for each `'` and
/// `-1` for each `,`, summed algebraically. Characters that are not marks
/// contribute nothing. Stated over the multiset of characters, so the
/// delta depends only on how many marks of each kind occur, not on their
/// order.
pub open spec fn marks_delta(s: Seq<char>) -> int {
    s.to_multiset().count('\'') - s.to_multiset().count(',')
}

/// Any permutation of the same multiset of mark characters folds to the
/// same octave delta: the net effect of octave marks is order-independent.
pub proof fn lemma_marks_delta_permutation(s1: Seq<char>, s2: Seq<char>)
    requires
        s1.to_multiset() == s2.to_multiset(),
    ensures
        marks_delta(s1) == marks_delta(s2),
{
}

proof fn lemma_marks_len_of_prefix(s: Seq<char>, k: int)
    requires
        0 <= k <= s.len(),
        forall|j: int| 0 <= j < k ==> is_mark(s[j]),
        k == s.len() || !is_mark(s[k]),
    ensures
        marks_len(s) == k,
    decreases k,
{
    if k == 0 {
    } else {
        let tail = s.subrange(1, s.len() as int);
        lemma_marks_len_of_prefix(tail, k - 1);
    }
}

/// Consume the leading run of `'` and `,` marks from `input` and fold them
/// into one signed octave delta, `+1` per `'` and `-1` per `,` in input
/// order. Zero marks is fine and yields delta `0`; this lexer never fails.
pub fn octave_count(input: &str) -> (r: Result<(&str, i128), ParseError>)
    ensures
        r matches Ok((rest, delta)) && ({
            let k = marks_len(input@) as int;
            &&& 0 <= k <= input@.len()
            &&& rest@ == input@.subrange(k, input@.len() as int)
            &&& delta == marks_delta(input@.subrange(0, k))
            &&& -(input@.len() as int) <= delta <= input@.len() as int
        }),
{
    broadcast use vstd::multiset::group_multiset_axioms;
    broadcast use vstd::seq_lib::group_to_multiset_ensures;

    let n = input.unicode_len();
    let mut k: usize = 0;
    let mut ups: usize = 0;
    let mut downs: usize = 0;
    let mut scanning = true;
    while scanning && k < n
        invariant
            n == input@.len(),
            0 <= k <= n,
            ups + downs <= k,
            forall|j: int| 0 <= j < k ==> is_mark(input@[j]),
            !scanning ==> k < n && !is_mark(input@[k as int]),
            ups == input@.subrange(0, k as int).to_multiset().count('\''),
            downs == input@.subrange(0, k as int).to_multiset().count(','),
        decreases n - k + (if scanning { 1int } else { 0int }),
    {
        let c = input.get_char(k);
        if c == '\'' || c == ',' {
            proof {
                broadcast use vstd::seq_lib::to_multiset_build;

                assert(input@.subrange(0, (k + 1) as int) =~= input@.subrange(
                    0,
                    k as int,
                ).push(input@[k as int]));
            }
            if c == '\'' {
                ups = ups + 1;
            } else {
                downs = downs + 1;
            }
            k = k + 1;
        } else {
            scanning = false;
        }
    }
    proof {
        lemma_marks_len_of_prefix(input@, k as int);
    }
    let rest = input.substring_char(k, n);
    let delta: i128 = ups as i128 - downs as i128;
    Ok((rest, delta))
}

/// An uppercase key letter `A`..`G`.
pub open spec fn is_upper_key(c: char) -> bool {
    'A' as u32 <= c as u32 && c as u32 <= 'G' as u32
}

/// A lowercase key letter `a`..`g`, denoting one octave above its
/// uppercase form.
pub open spec fn is_lower_key(c: char) -> bool {
    'a' as u32 <= c as u32 && c as u32 <= 'g' as u32
}

/// Any key letter, in either case.
pub open spec fn is_key_letter(c: char) -> bool {
    is_upper_key(c) || is_lower_key(c)
}

/// The uppercase form of a lowercase key letter; other characters are
/// left as they are.
pub open spec fn upper_of(c: char) -> char {
    if c == 'a' {
        'A'
    } else if c == 'b' {
        'B'
    } else if c == 'c' {
        'C'
    } else if c == 'd' {
        'D'
    } else if c == 'e' {
        'E'
    } else if c == 'f' {
        'F'
    } else if c == 'g' {
        'G'
    } else {
        c
    }
}

/// The duration a parsed pitch carries before the caller supplies a real
/// one: an undotted eighth.
pub open spec fn placeholder_length() -> Length {
    Length { note_shape: NoteShape::Eighth, dot: 0 }
}

/// What the pitch grammar recognizes at the start of `s`: an optional
/// accidental, one key letter, then a run of octave marks. Yields the
/// parsed note and the number of characters consumed, or `None` when no
/// key letter (optionally preceded by an accidental) is present.
///
/// The reference octave is 4. An uppercase letter stays at the reference;
/// a lowercase letter starts one octave above it, before the mark delta is
/// added. The key is normalized to uppercase either way.
pub open spec fn pitch_lex(s: Seq<char>) -> Option<(Note, nat)> {
    let (acc, i) = match accidental_lex(s) {
        Some(p) => (Some(p.0), p.1),
        None => (None::<Accidental>, 0nat),
    };
    if i < s.len() && is_key_letter(s[i as int]) {
        let c = s[i as int];
        let base: int = if is_lower_key(c) {
            5
        } else {
            4
        };
        let rest = s.subrange(i as int + 1, s.len() as int);
        let m = marks_len(rest);
        let note = Note {
            octave: (base + marks_delta(rest.subrange(0, m as int))) as i128,
            key: upper_of(c),
            accidental: acc,
            length: placeholder_length(),
        };
        Some((note, i + 1 + m))
    } else {
        None
    }
}

fn key_to_upper(c: char) -> (r: char)
    ensures
        r == upper_of(c),
{
    match c {
        'a' => 'A',
        'b' => 'B',
        'c' => 'C',
        'd' => 'D',
        'e' => 'E',
        'f' => 'F',
        'g' => 'G',
        _ => c,
    }
}

/// Consume one pitch token — `[accidental] key-letter [octave-marks]` —
/// from the start of `input` and build the parsed [`Note`], leaving its
/// `length` as the placeholder for the caller to replace. Fails, consuming
/// nothing, when no key letter (optionally preceded by an accidental)
/// starts the input. Trailing input is returned, not an error.
pub fn pitch(input: &str) -> (r: Result<(&str, Note), ParseError>)
    ensures
        r is Ok <==> pitch_lex(input@) is Some,
        r matches Ok((rest, note)) ==> pitch_lex(input@) matches Some(p) && note == p.0
            && rest@ == input@.subrange(p.1 as int, input@.len() as int),
{
    let (after_acc, acc) = match accidental(input) {
        Ok((rest, a)) => (rest, Some(a)),
        Err(_) => (input, None),
    };
    let ghost i: nat = (input@.len() - after_acc@.len()) as nat;
    let n = after_acc.unicode_len();
    if n == 0 {
        return Err(ParseError);
    }
    let c = after_acc.get_char(0);
    let cv: u32 = c as u32;
    let is_lower = 'a' as u32 <= cv && cv <= 'g' as u32;
    let is_upper = 'A' as u32 <= cv && cv <= 'G' as u32;
    if !(is_lower || is_upper) {
        return Err(ParseError);
    }
    let base: i128 = if is_lower {
        5
    } else {
        4
    };
    let key = key_to_upper(c);
    let marks = after_acc.substring_char(1, n);
    proof {
        assert(marks@ =~= input@.subrange(i as int + 1, input@.len() as int));
    }
    let (rest, delta) = match octave_count(marks) {
        Ok(p) => p,
        Err(_) => {
            proof {
                assert(false);
            }
            return Err(ParseError);
        },
    };
    proof {
        let ghost k = marks_len(marks@) as int;
        assert(rest@ =~= input@.subrange(i + 1 + k, input@.len() as int));
        assert(marks@.subrange(0, k) == input@.subrange(i as int + 1, input@.len() as int).subrange(
            0,
            k,
        ));
    }
    let note = Note { octave: base + delta, key, accidental: acc, length: Length {
        note_shape: NoteShape::Eighth,
        dot: 0,
    } };
    Ok((rest, note))
}

/// A bare uppercase key letter — no accidental, no octave marks after it —
/// parses to exactly the reference octave 4, that letter, and no
/// accidental.
pub proof fn lemma_upper_key_reference_octave(s: Seq<char>)
    requires
        s.len() >= 1,
        is_upper_key(s[0]),
        s.len() > 1 ==> !is_mark(s[1]),
    ensures
        pitch_lex(s) == Some(
            (
                Note {
                    octave: 4,
                    key: s[0],
                    accidental: None::<Accidental>,
                    length: placeholder_length(),
                },
                1nat,
            ),
        ),
{
    lemma_unmarked_key(s);
}

/// A bare lowercase key letter — no accidental, no octave marks after it —
/// parses to exactly octave 5, one above the reference, and the uppercase
/// form of the letter.
pub proof fn lemma_lower_key_octave_five(s: Seq<char>)
    requires
        s.len() >= 1,
        is_lower_key(s[0]),
        s.len() > 1 ==> !is_mark(s[1]),
    ensures
        pitch_lex(s) == Some(
            (
                Note {
                    octave: 5,
                    key: upper_of(s[0]),
                    accidental: None::<Accidental>,
                    length: placeholder_length(),
                },
                1nat,
            ),
        ),
{
    lemma_unmarked_key(s);
}

proof fn lemma_unmarked_key(s: Seq<char>)
    requires
        s.len() >= 1,
        is_key_letter(s[0]),
        s.len() > 1 ==> !is_mark(s[1]),
    ensures
        pitch_lex(s) == Some(
            (
                Note {
                    octave: if is_lower_key(s[0]) {
                        5
                    } else {
                        4
                    },
                    key: upper_of(s[0]),
                    accidental: None::<Accidental>,
                    length: placeholder_length(),
                },
                1nat,
            ),
        ),
{
    broadcast use vstd::multiset::group_multiset_axioms;
    broadcast use vstd::seq_lib::group_to_multiset_ensures;

    let rest = s.subrange(1, s.len() as int);
    assert(marks_len(rest) == 0);
    assert(rest.subrange(0, 0) =~= Seq::<char>::empty());
    assert(Seq::<char>::empty().to_multiset().count('\'') == 0);
    assert(Seq::<char>::empty().to_multiset().count(',') == 0);
}

/// Longest-match priority of the accidental lexer: a double marker always
/// wins over its single-character prefix, so `^^` lexes as one `Sharp2`
/// and `__` as one `Flat2`, never as two single markers.
pub proof fn lemma_accidental_longest_match(s: Seq<char>)
    requires
        s.len() >= 2,
    ensures
        s[0] == '^' && s[1] == '^' ==> accidental_lex(s) == Some((Accidental::Sharp2, 2nat)),
        s[0] == '_' && s[1] == '_' ==> accidental_lex(s) == Some((Accidental::Flat2, 2nat)),
{
}

} // verus!

