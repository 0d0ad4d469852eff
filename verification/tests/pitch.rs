use abcrab::{Accidental, Length, Note, NoteShape, ParseError};

fn eighth() -> Length {
    Length { note_shape: NoteShape::Eighth, dot: 0 }
}

#[test]
fn lib_parse_pitch() {
    assert_eq!(
        abcrab::pitch("B"),
        Ok((
            "",
            Note {
                octave: 4,
                key: 'B',
                accidental: None,
                length: Length { note_shape: NoteShape::Eighth, dot: 0 },
            }
        ))
    );
    assert_eq!(
        abcrab::pitch("^^B"),
        Ok((
            "",
            Note {
                octave: 4,
                key: 'B',
                accidental: Some(Accidental::Sharp2),
                length: Length { note_shape: NoteShape::Eighth, dot: 0 },
            }
        ))
    );
    assert_eq!(
        // octave mark here is: 2 down + 2 up + 1 down, and lowercase starts +1
        abcrab::pitch("=b,,'',"),
        Ok((
            "",
            Note {
                octave: 4,
                key: 'B',
                accidental: Some(Accidental::Natural),
                length: Length { note_shape: NoteShape::Eighth, dot: 0 },
            }
        ))
    );
}

#[test]
fn parser_parse_pitch() {
    assert_eq!(
        abcrab::parser::pitch("B"),
        Ok((
            "",
            Note {
                octave: 4,
                key: 'B',
                accidental: None,
                length: Length { note_shape: NoteShape::Eighth, dot: 0 },
            }
        ))
    );
    assert_eq!(
        abcrab::parser::pitch("^^B"),
        Ok((
            "",
            Note {
                octave: 4,
                key: 'B',
                accidental: Some(Accidental::Sharp2),
                length: Length { note_shape: NoteShape::Eighth, dot: 0 },
            }
        ))
    );
    assert_eq!(
        // octave mark here is: 2 down + 2 up + 1 down, and lowercase starts +1
        abcrab::parser::pitch("=b,,'',"),
        Ok((
            "",
            Note {
                octave: 4,
                key: 'B',
                accidental: Some(Accidental::Natural),
                length: Length { note_shape: NoteShape::Eighth, dot: 0 },
            }
        ))
    );
}

#[test]
fn uppercase_letters_stay_at_reference_octave() {
    let letters = ["A", "B", "C", "D", "E", "F", "G"];
    let keys = ['A', 'B', 'C', 'D', 'E', 'F', 'G'];
    for i in 0..letters.len() {
        assert_eq!(
            abcrab::pitch(letters[i]),
            Ok(("", Note { octave: 4, key: keys[i], accidental: None, length: eighth() }))
        );
    }
}

#[test]
fn lowercase_letters_sit_one_octave_up() {
    let letters = ["a", "b", "c", "d", "e", "f", "g"];
    let keys = ['A', 'B', 'C', 'D', 'E', 'F', 'G'];
    for i in 0..letters.len() {
        assert_eq!(
            abcrab::pitch(letters[i]),
            Ok(("", Note { octave: 5, key: keys[i], accidental: None, length: eighth() }))
        );
    }
}

#[test]
fn octave_marks_fold_in_any_order() {
    // the same multiset of marks, three different interleavings
    let expected = Ok(("", Note { octave: 5, key: 'C', accidental: None, length: eighth() }));
    assert_eq!(abcrab::pitch("C'',"), expected);
    assert_eq!(abcrab::pitch("C,''"), expected);
    assert_eq!(abcrab::pitch("C','"), expected);
}

#[test]
fn double_sharp_wins_over_two_singles() {
    // ^^B lexes as DoubleSharp + B, never as Sharp + ^B
    assert_eq!(
        abcrab::accidental("^^B"),
        Ok(("B", Accidental::Sharp2))
    );
    assert_eq!(abcrab::accidental("^B"), Ok(("B", Accidental::Sharp)));
    assert_eq!(abcrab::accidental("__B"), Ok(("B", Accidental::Flat2)));
    assert_eq!(abcrab::accidental("_B"), Ok(("B", Accidental::Flat)));
    assert_eq!(abcrab::accidental("=B"), Ok(("B", Accidental::Natural)));
    assert_eq!(abcrab::accidental("B"), Err(ParseError));
}

#[test]
fn octave_count_sums_interleaved_marks() {
    assert_eq!(abcrab::octave_count("',,'x"), Ok(("x", 0)));
    assert_eq!(abcrab::octave_count(",,'',"), Ok(("", -1)));
    assert_eq!(abcrab::octave_count(""), Ok(("", 0)));
    assert_eq!(abcrab::octave_count("abc"), Ok(("abc", 0)));
}

#[test]
fn long_mark_runs_accumulate() {
    let marks = "'".repeat(100);
    let text = format!("C{}", marks);
    assert_eq!(
        abcrab::pitch(text.as_str()),
        Ok(("", Note { octave: 104, key: 'C', accidental: None, length: eighth() }))
    );
}

#[test]
fn pitch_is_a_prefix_parser() {
    // trailing input is handed back, not treated as an error
    assert_eq!(
        abcrab::pitch("B>cd"),
        Ok((">cd", Note { octave: 4, key: 'B', accidental: None, length: eighth() }))
    );
}

#[test]
fn pitch_rejects_non_letters() {
    assert_eq!(abcrab::pitch(""), Err(ParseError));
    assert_eq!(abcrab::pitch("H"), Err(ParseError));
    assert_eq!(abcrab::pitch("3"), Err(ParseError));
    // an accidental must be followed by a key letter
    assert_eq!(abcrab::pitch("^"), Err(ParseError));
    assert_eq!(abcrab::pitch("^3"), Err(ParseError));
}
