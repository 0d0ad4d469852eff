use abcrab::{Accidental, IllegalLength, Length, Note, NoteShape};

#[test]
fn reference_octave_is_omitted() {
    let note = Note {
        octave: 4,
        key: 'B',
        accidental: None,
        length: Length { note_shape: NoteShape::Eighth, dot: 0 },
    };
    let text = note.render();
    assert_eq!(text, "<B \u{1D160}>");
    assert!(!text.contains('@'));
}

#[test]
fn other_octaves_are_annotated() {
    let note = Note {
        octave: 5,
        key: 'B',
        accidental: None,
        length: Length { note_shape: NoteShape::Eighth, dot: 0 },
    };
    assert_eq!(note.render(), "<B \u{1D160} @5>");

    let low = Note {
        octave: -2,
        key: 'C',
        accidental: None,
        length: Length { note_shape: NoteShape::Quarter, dot: 0 },
    };
    assert_eq!(low.render(), "<C \u{1D15F} @-2>");

    let far = Note {
        octave: 12,
        key: 'G',
        accidental: None,
        length: Length { note_shape: NoteShape::Whole, dot: 0 },
    };
    assert_eq!(far.render(), "<G \u{1D15D} @12>");
}

#[test]
fn accidental_glyphs_follow_the_key() {
    let note = Note {
        octave: 4,
        key: 'F',
        accidental: Some(Accidental::Sharp),
        length: Length { note_shape: NoteShape::Eighth, dot: 0 },
    };
    assert_eq!(note.render(), "<F\u{266F} \u{1D160}>");
    assert_eq!(Accidental::Flat2.glyph(), '\u{1D12B}');
    assert_eq!(Accidental::Flat.glyph(), '\u{266D}');
    assert_eq!(Accidental::Natural.glyph(), '\u{266E}');
    assert_eq!(Accidental::Sharp.glyph(), '\u{266F}');
    assert_eq!(Accidental::Sharp2.glyph(), '\u{1D12A}');
}

#[test]
fn dots_render_one_glyph_each() {
    let plain = Length { note_shape: NoteShape::Quarter, dot: 0 };
    assert_eq!(plain.render(), "\u{1D15F}");
    let dotted = Length { note_shape: NoteShape::Quarter, dot: 2 };
    assert_eq!(dotted.render(), "\u{1D15F}\u{1D16D}\u{1D16D}");
}

#[test]
fn shape_glyphs_are_distinct() {
    let shapes = [
        NoteShape::Hundred28th,
        NoteShape::SixtyFourth,
        NoteShape::ThirtySecond,
        NoteShape::Sixteenth,
        NoteShape::Eighth,
        NoteShape::Quarter,
        NoteShape::Half,
        NoteShape::Whole,
        NoteShape::Breve,
    ];
    for i in 0..shapes.len() {
        for j in 0..shapes.len() {
            if i != j {
                assert_ne!(shapes[i].glyph(), shapes[j].glyph());
            }
        }
    }
}

#[test]
fn illegal_length_describes_itself() {
    assert_eq!(
        IllegalLength.message(),
        "This is not a legal time value for a note"
    );
}

#[test]
fn parsed_note_renders_back() {
    let (rest, note) = abcrab::pitch("=b,,'',").unwrap();
    assert_eq!(rest, "");
    assert_eq!(note.render(), "<B\u{266E} \u{1D160}>");
}
