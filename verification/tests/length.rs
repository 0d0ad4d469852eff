use abcrab::{IllegalLength, Length, LengthError, NoteShape, ParseError};

#[test]
fn parse_length() {
    assert_eq!(
        abcrab::parser::length("7/16"),
        Ok(("", Length { note_shape: NoteShape::Quarter, dot: 2 }))
    );
    assert_eq!(
        abcrab::parser::length("/2"),
        Ok(("", Length { note_shape: NoteShape::Half, dot: 0 }))
    );
    assert_eq!(
        abcrab::parser::length("//"),
        Ok(("", Length { note_shape: NoteShape::Quarter, dot: 0 }))
    );
}

#[test]
fn every_canonical_fraction_round_trips() {
    let table: [(i32, i32, NoteShape, i32); 30] = [
        (1, 128, NoteShape::Hundred28th, 0),
        (1, 64, NoteShape::SixtyFourth, 0),
        (3, 128, NoteShape::SixtyFourth, 1),
        (1, 32, NoteShape::ThirtySecond, 0),
        (3, 64, NoteShape::ThirtySecond, 1),
        (7, 128, NoteShape::ThirtySecond, 2),
        (1, 16, NoteShape::Sixteenth, 0),
        (3, 32, NoteShape::Sixteenth, 1),
        (7, 64, NoteShape::Sixteenth, 2),
        (15, 128, NoteShape::Sixteenth, 3),
        (1, 8, NoteShape::Eighth, 0),
        (3, 16, NoteShape::Eighth, 1),
        (7, 32, NoteShape::Eighth, 2),
        (15, 64, NoteShape::Eighth, 3),
        (1, 4, NoteShape::Quarter, 0),
        (3, 8, NoteShape::Quarter, 1),
        (7, 16, NoteShape::Quarter, 2),
        (15, 32, NoteShape::Quarter, 3),
        (1, 2, NoteShape::Half, 0),
        (3, 4, NoteShape::Half, 1),
        (7, 8, NoteShape::Half, 2),
        (15, 16, NoteShape::Half, 3),
        (1, 1, NoteShape::Whole, 0),
        (3, 2, NoteShape::Whole, 1),
        (7, 4, NoteShape::Whole, 2),
        (15, 8, NoteShape::Whole, 3),
        (2, 1, NoteShape::Breve, 0),
        (3, 1, NoteShape::Breve, 1),
        (7, 2, NoteShape::Breve, 2),
        (15, 4, NoteShape::Breve, 3),
    ];
    for &(numerator, denominator, shape, dots) in table.iter() {
        assert_eq!(
            Length::from_ratio(numerator, denominator),
            Ok(Length { note_shape: shape, dot: dots })
        );
    }
}

#[test]
fn absent_fractions_are_rejected_not_rounded() {
    assert_eq!(Length::from_ratio(5, 128), Err(IllegalLength));
    assert_eq!(Length::from_ratio(9, 8), Err(IllegalLength));
    assert_eq!(Length::from_ratio(0, 4), Err(IllegalLength));
    assert_eq!(Length::from_ratio(4, 1), Err(IllegalLength));
}

#[test]
fn fractions_reduce_before_lookup() {
    assert_eq!(
        Length::from_ratio(2, 8),
        Ok(Length { note_shape: NoteShape::Quarter, dot: 0 })
    );
    assert_eq!(
        Length::from_ratio(14, 32),
        Ok(Length { note_shape: NoteShape::Quarter, dot: 2 })
    );
    assert_eq!(
        Length::new((30, 8)),
        Ok(Length { note_shape: NoteShape::Breve, dot: 3 })
    );
}

#[test]
fn matching_signs_cancel_and_mixed_signs_fail() {
    assert_eq!(
        Length::from_ratio(-1, -4),
        Ok(Length { note_shape: NoteShape::Quarter, dot: 0 })
    );
    assert_eq!(Length::from_ratio(-1, 4), Err(IllegalLength));
    assert_eq!(Length::from_ratio(1, -4), Err(IllegalLength));
}

#[test]
fn slash_runs_halve_the_duration() {
    assert_eq!(
        abcrab::parser::length("/"),
        Ok(("", Length { note_shape: NoteShape::Half, dot: 0 }))
    );
    assert_eq!(
        abcrab::parser::length("///"),
        Ok(("", Length { note_shape: NoteShape::Eighth, dot: 0 }))
    );
    assert_eq!(
        abcrab::parser::length("///////"),
        Ok(("", Length { note_shape: NoteShape::Hundred28th, dot: 0 }))
    );
    // eight halvings leave the tabulated range
    assert_eq!(
        abcrab::parser::length("////////"),
        Err(LengthError::Illegal(IllegalLength))
    );
}

#[test]
fn length_is_a_prefix_parser() {
    assert_eq!(
        abcrab::parser::length("3/4|"),
        Ok(("|", Length { note_shape: NoteShape::Half, dot: 1 }))
    );
    // a slash run stops at the first non-slash character
    assert_eq!(
        abcrab::parser::length("//2"),
        Ok(("2", Length { note_shape: NoteShape::Quarter, dot: 0 }))
    );
}

#[test]
fn length_error_kinds_stay_apart() {
    // not a duration at all
    assert_eq!(
        abcrab::parser::length(""),
        Err(LengthError::Syntax(ParseError))
    );
    assert_eq!(
        abcrab::parser::length("x"),
        Err(LengthError::Syntax(ParseError))
    );
    assert_eq!(
        abcrab::parser::length("3"),
        Err(LengthError::Syntax(ParseError))
    );
    assert_eq!(
        abcrab::parser::length("3//4"),
        Err(LengthError::Syntax(ParseError))
    );
    // a well-formed fraction with no canonical entry
    assert_eq!(
        abcrab::parser::length("5/128"),
        Err(LengthError::Illegal(IllegalLength))
    );
    assert_eq!(
        abcrab::parser::length("1/0"),
        Err(LengthError::Illegal(IllegalLength))
    );
}

#[test]
fn oversized_digit_runs_do_not_parse() {
    assert_eq!(
        abcrab::parser::length("99999999999/2"),
        Err(LengthError::Syntax(ParseError))
    );
    assert_eq!(
        abcrab::parser::length("1/99999999999"),
        Err(LengthError::Syntax(ParseError))
    );
    assert_eq!(
        abcrab::parser::length("/99999999999"),
        Err(LengthError::Syntax(ParseError))
    );
}
