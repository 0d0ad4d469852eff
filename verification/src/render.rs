//! Rendering of parsed notes back to text with Unicode musical glyphs.
//!
//! Rendering is pure formatting and never fails. A note is shown as an
//! opening `<`, the uppercase key letter, the accidental glyph when one is
//! present, a space, the note-shape glyph with one augmentation-dot glyph
//! per dot, and — only when the octave differs from the reference octave
//! 4 — an ` @<octave>` annotation, then the closing `>`. Omitting the
//! reference octave is intentional compaction, so rendering is lossy by
//! design.

use vstd::prelude::*;

use crate::{Accidental, IllegalLength, Length, Note, NoteShape};

verus! {

/// The glyph a rendered accidental shows.
pub open spec fn accidental_glyph(a: Accidental) -> char {
    match a {
        Accidental::Flat2 => '\u{1D12B}',
        Accidental::Flat => '\u{266D}',
        Accidental::Natural => '\u{266E}',
        Accidental::Sharp => '\u{266F}',
        Accidental::Sharp2 => '\u{1D12A}',
    }
}

/// The glyph a rendered note shape shows.
pub open spec fn shape_glyph(s: NoteShape) -> char {
    match s {
        NoteShape::Hundred28th => '\u{1D164}',
        NoteShape::SixtyFourth => '\u{1D163}',
        NoteShape::ThirtySecond => '\u{1D162}',
        NoteShape::Sixteenth => '\u{1D161}',
        NoteShape::Eighth => '\u{1D160}',
        NoteShape::Quarter => '\u{1D15F}',
        NoteShape::Half => '\u{1D15E}',
        NoteShape::Whole => '\u{1D15D}',
        NoteShape::Breve => '\u{1D15C}',
    }
}

/// `k` augmentation-dot glyphs in a row; none when `k` is not positive.
pub open spec fn dots_seq(k: int) -> Seq<char>
    decreases k,
{
    if k <= 0 {
        Seq::empty()
    } else {
        dots_seq(k - 1).push('\u{1D16D}')
    }
}

/// The glyphs a rendered length shows: its shape, then its dots.
pub open spec fn length_glyphs(l: Length) -> Seq<char> {
    seq![shape_glyph(l.note_shape)] + dots_seq(l.dot as int)
}

/// The character for one decimal digit value.
pub open spec fn digit_glyph(d: int) -> char {
    if d == 0 {
        '0'
    } else if d == 1 {
        '1'
    } else if d == 2 {
        '2'
    } else if d == 3 {
        '3'
    } else if d == 4 {
        '4'
    } else if d == 5 {
        '5'
    } else if d == 6 {
        '6'
    } else if d == 7 {
        '7'
    } else if d == 8 {
        '8'
    } else {
        '9'
    }
}

/// The decimal digits of `v`, most significant first, without sign.
pub open spec fn dec_digits(v: nat) -> Seq<char>
    decreases v,
{
    if v < 10 {
        seq![digit_glyph(v as int)]
    } else {
        dec_digits(v / 10).push(digit_glyph((v % 10) as int))
    }
}

/// The decimal rendering of a signed integer.
pub open spec fn dec_int(v: int) -> Seq<char> {
    if v < 0 {
        seq!['-'] + dec_digits((-v) as nat)
    } else {
        dec_digits(v as nat)
    }
}

/// The octave annotation a rendered note shows: nothing at the reference
/// octave 4, and ` @<octave>` at any other octave.
pub open spec fn octave_suffix(o: int) -> Seq<char> {
    if o == 4 {
        Seq::empty()
    } else {
        seq![' ', '@'] + dec_int(o)
    }
}

/// The full glyph rendering of a note.
pub open spec fn note_glyphs(n: Note) -> Seq<char> {
    seq!['<'] + seq![n.key] + (match n.accidental {
        Some(a) => seq![accidental_glyph(a)],
        None => Seq::empty(),
    }) + seq![' '] + length_glyphs(n.length) + octave_suffix(n.octave as int) + seq!['>']
}

/// Relies on `String::push`: appends exactly the one given character at
/// the end of the string.
#[verifier::external_body]
fn push_char(s: &mut String, c: char)
    ensures
        final (s)@ == old(s)@ + seq![c],
{
    s.push(c);
}

fn digit_to_char(d: u8) -> (c: char)
    requires
        d < 10,
    ensures
        c == digit_glyph(d as int),
{
    match d {
        0 => '0',
        1 => '1',
        2 => '2',
        3 => '3',
        4 => '4',
        5 => '5',
        6 => '6',
        7 => '7',
        8 => '8',
        _ => '9',
    }
}

proof fn lemma_reverse_push(s: Seq<char>, c: char)
    ensures
        s.push(c).reverse() =~= seq![c] + s.reverse(),
{
}

/// Append the decimal rendering of `v` to `out`.
fn append_decimal(out: &mut String, v: i128)
    ensures
        final (out)@ == old(out)@ + dec_int(v as int),
{
    let mut m: u128;
    if v < 0 {
        push_char(out, '-');
        m = (-(v + 1)) as u128 + 1;
    } else {
        m = v as u128;
    }
    let ghost m0 = m as nat;
    let ghost mid = out@;
    let mut digs: Vec<char> = Vec::new();
    let mut done = false;
    while !done
        invariant
            !done ==> dec_digits(m0) =~= dec_digits(m as nat) + digs@.reverse(),
            done ==> dec_digits(m0) =~= digs@.reverse(),
        decreases m + (if done {
            0int
        } else {
            1int
        }),
    {
        let d: u8 = (m % 10) as u8;
        proof {
            lemma_reverse_push(digs@, digit_glyph(d as int));
        }
        digs.push(digit_to_char(d));
        if m < 10 {
            done = true;
        }
        m = m / 10;
    }
    let mut idx = digs.len();
    while idx > 0
        invariant
            idx <= digs@.len(),
            dec_digits(m0) =~= digs@.reverse(),
            out@ == mid + digs@.reverse().subrange(0, digs@.len() - idx),
        decreases idx,
    {
        idx = idx - 1;
        proof {
            let rev = digs@.reverse();
            let a = digs@.len() - idx - 1;
            assert(rev[a] == digs@[idx as int]);
            assert(rev.subrange(0, a + 1) =~= rev.subrange(0, a).push(rev[a]));
        }
        push_char(out, digs[idx]);
    }
    proof {
        assert(digs@.reverse().subrange(0, digs@.len() as int) =~= digs@.reverse());
    }
}

impl Accidental {
    /// The Unicode glyph this accidental renders as.
    pub fn glyph(&self) -> (c: char)
        ensures
            c == accidental_glyph(*self),
    {
        match *self {
            Accidental::Flat2 => '\u{1D12B}',
            Accidental::Flat => '\u{266D}',
            Accidental::Natural => '\u{266E}',
            Accidental::Sharp => '\u{266F}',
            Accidental::Sharp2 => '\u{1D12A}',
        }
    }
}

impl NoteShape {
    /// The Unicode glyph this note shape renders as.
    pub fn glyph(&self) -> (c: char)
        ensures
            c == shape_glyph(*self),
    {
        match *self {
            NoteShape::Hundred28th => '\u{1D164}',
            NoteShape::SixtyFourth => '\u{1D163}',
            NoteShape::ThirtySecond => '\u{1D162}',
            NoteShape::Sixteenth => '\u{1D161}',
            NoteShape::Eighth => '\u{1D160}',
            NoteShape::Quarter => '\u{1D15F}',
            NoteShape::Half => '\u{1D15E}',
            NoteShape::Whole => '\u{1D15D}',
            NoteShape::Breve => '\u{1D15C}',
        }
    }
}

impl Length {
    /// Render this length as its shape glyph followed by its dot glyphs.
    pub fn render(&self) -> (r: String)
        ensures
            r@ == length_glyphs(*self),
    {
        let mut out = String::new();
        push_char(&mut out, self.note_shape.glyph());
        let mut i: i32 = 0;
        while i < self.dot
        invariant
            0 <= i,
            i <= self.dot || i == 0,
            out@ == seq![shape_glyph(self.note_shape)] + dots_seq(i as int),
        decreases self.dot - i,
        {
            push_char(&mut out, '\u{1D16D}');
            i = i + 1;
        }
        out
    }
}

impl Note {
    /// Render this note in its glyph form.
    pub fn render(&self) -> (r: String)
        ensures
            r@ == note_glyphs(*self),
    {
        let mut out = String::new();
        push_char(&mut out, '<');
        push_char(&mut out, self.key);
        match &self.accidental {
            Some(a) => push_char(&mut out, a.glyph()),
            None => (),
        }
        push_char(&mut out, ' ');
        let len_part = self.length.render();
        out.append(len_part.as_str());
        if self.octave != 4 {
            push_char(&mut out, ' ');
            push_char(&mut out, '@');
            append_decimal(&mut out, self.octave);
        }
        push_char(&mut out, '>');
        out
    }
}

impl IllegalLength {
    /// The human-readable description of this error.
    pub fn message(&self) -> (r: String)
        ensures
            r@ == "This is not a legal time value for a note"@,
    {
        String::from_str("This is not a legal time value for a note")
    }
}

} // verus!
