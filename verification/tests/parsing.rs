//! Tests of the record parser: line shapes, positional delimiters, space
//! stripping, numeric fields, and line-attributed errors.

use route_graph::{parse_template, BuilderError, LineField, Record};

fn rec(id: u32, x: &str, y: &str, child_ids: Vec<u32>) -> Record {
    Record {
        id,
        coords: (x.to_string(), y.to_string()),
        child_ids,
    }
}

#[test]
fn whitespace_insensitive() {
    let spaced = parse_template(" 1 ( 0.1 , 0.2 ) [ 2 ] ").unwrap();
    let plain = parse_template("1(0.1,0.2)[2]").unwrap();
    assert_eq!(spaced, plain);
    assert_eq!(plain, vec![rec(1, "0.1", "0.2", vec![2])]);
}

#[test]
fn spaces_inside_numbers_are_stripped() {
    let parsed = parse_template("1 2(0, 0)[ 3 4 ]").unwrap();
    assert_eq!(parsed, vec![rec(12, "0", "0", vec![34])]);
}

#[test]
fn empty_children_list() {
    let parsed = parse_template("1(0.1,0.2)[]").unwrap();
    assert_eq!(parsed.len(), 1);
    assert_eq!(parsed[0].child_ids.len(), 0);
}

#[test]
fn trailing_comma_in_children_is_skipped() {
    let parsed = parse_template("1(0.1,0.2)[2,]").unwrap();
    assert_eq!(parsed[0].child_ids, vec![2]);
    let doubled = parse_template("1(0.1,0.2)[2,,3]").unwrap();
    assert_eq!(doubled[0].child_ids, vec![2, 3]);
}

#[test]
fn missing_close_bracket() {
    let err = parse_template("1(0.1,0.2)[2").unwrap_err();
    assert_eq!(
        err,
        BuilderError::CouldNotReadLine(0, LineField::CloseBracket)
    );
}

#[test]
fn missing_delimiters_each_named() {
    assert_eq!(
        parse_template("1[2]").unwrap_err(),
        BuilderError::CouldNotReadLine(0, LineField::OpenParen)
    );
    assert_eq!(
        parse_template("1(2,3[4]").unwrap_err(),
        BuilderError::CouldNotReadLine(0, LineField::CloseParen)
    );
    assert_eq!(
        parse_template("1(2,3)4]").unwrap_err(),
        BuilderError::CouldNotReadLine(0, LineField::OpenBracket)
    );
    assert_eq!(
        parse_template("1(2,3)[4").unwrap_err(),
        BuilderError::CouldNotReadLine(0, LineField::CloseBracket)
    );
    assert_eq!(
        parse_template("1(23)[4]").unwrap_err(),
        BuilderError::CouldNotReadLine(0, LineField::Comma)
    );
}

#[test]
fn error_carries_the_failing_line_number() {
    let err = parse_template("1(0,0)[]\n2(0,0)[2").unwrap_err();
    assert_eq!(
        err,
        BuilderError::CouldNotReadLine(1, LineField::CloseBracket)
    );
}

#[test]
fn blank_lines_skipped_but_counted() {
    let err = parse_template("\n\n3(0,0)[").unwrap_err();
    assert_eq!(
        err,
        BuilderError::CouldNotReadLine(2, LineField::CloseBracket)
    );
    let parsed = parse_template("\n1(0,0)[]\n\n2(0,0)[]\n").unwrap();
    assert_eq!(parsed.len(), 2);
}

#[test]
fn crlf_line_endings() {
    let parsed = parse_template("1(0,0)[]\r\n2(0,0)[]\r\n").unwrap();
    assert_eq!(parsed.len(), 2);
    assert_eq!(parsed[1].id, 2);
}

#[test]
fn bad_id_substring() {
    assert_eq!(
        parse_template("x(0,0)[]").unwrap_err(),
        BuilderError::CouldNotReadLine(0, LineField::Id)
    );
    assert_eq!(
        parse_template("(0,0)[]").unwrap_err(),
        BuilderError::CouldNotReadLine(0, LineField::Id)
    );
    assert_eq!(
        parse_template("-1(0,0)[]").unwrap_err(),
        BuilderError::CouldNotReadLine(0, LineField::Id)
    );
}

#[test]
fn id_accepts_plus_sign_and_full_range() {
    let parsed = parse_template("+12(0,0)[]\n4294967295(0,0)[]").unwrap();
    assert_eq!(parsed[0].id, 12);
    assert_eq!(parsed[1].id, 4294967295);
    assert_eq!(
        parse_template("4294967296(0,0)[]").unwrap_err(),
        BuilderError::CouldNotReadLine(0, LineField::Id)
    );
}

#[test]
fn coordinate_float_shapes_accepted() {
    let parsed = parse_template("1(inf,-2.5e3)[]\n2(INFINITY,nan)[]\n3(.5,5.)[]\n4(+0.25,1E-2)[]")
        .unwrap();
    assert_eq!(parsed[0].coords, ("inf".to_string(), "-2.5e3".to_string()));
    assert_eq!(parsed[1].coords, ("INFINITY".to_string(), "nan".to_string()));
    assert_eq!(parsed[2].coords, (".5".to_string(), "5.".to_string()));
    assert_eq!(parsed[3].coords, ("+0.25".to_string(), "1E-2".to_string()));
    for r in &parsed {
        assert!(r.coords.0.parse::<f32>().is_ok());
        assert!(r.coords.1.parse::<f32>().is_ok());
    }
}

#[test]
fn coordinate_float_shapes_rejected() {
    assert_eq!(
        parse_template("1(0..1,0)[]").unwrap_err(),
        BuilderError::CouldNotReadLine(0, LineField::X)
    );
    assert_eq!(
        parse_template("1(1e,0)[]").unwrap_err(),
        BuilderError::CouldNotReadLine(0, LineField::X)
    );
    assert_eq!(
        parse_template("1(,1)[]").unwrap_err(),
        BuilderError::CouldNotReadLine(0, LineField::X)
    );
    assert_eq!(
        parse_template("1(0,1x)[]").unwrap_err(),
        BuilderError::CouldNotReadLine(0, LineField::Y)
    );
    assert_eq!(
        parse_template("1(0,infinite)[]").unwrap_err(),
        BuilderError::CouldNotReadLine(0, LineField::Y)
    );
}

#[test]
fn bad_child_substring() {
    assert_eq!(
        parse_template("1(0,0)[2,x]").unwrap_err(),
        BuilderError::CouldNotReadLine(0, LineField::Child)
    );
    assert_eq!(
        parse_template("1(0,0)[-2]").unwrap_err(),
        BuilderError::CouldNotReadLine(0, LineField::Child)
    );
}

#[test]
fn coordinate_text_is_handed_through_unchanged() {
    let parsed = parse_template("7(00.50,1e3)[]").unwrap();
    assert_eq!(parsed[0].coords.0, "00.50");
    assert_eq!(parsed[0].coords.1, "1e3");
}

#[test]
fn comma_must_sit_between_the_parentheses() {
    // The coordinate comma is the first one strictly between `(` and the
    // `)` after it; a comma further right does not count.
    assert_eq!(
        parse_template("1(23)[4,5]").unwrap_err(),
        BuilderError::CouldNotReadLine(0, LineField::Comma)
    );
}

#[test]
fn delimiter_search_is_purely_positional() {
    // A stray `)` before the `(` lands in the id substring, which then
    // fails to parse; the `)` that delimits the pair is the one after `(`.
    assert_eq!(
        parse_template("1)(2,3)[4]").unwrap_err(),
        BuilderError::CouldNotReadLine(0, LineField::Id)
    );
    // `[` and `]` are each the first on the line; when the `]` comes before
    // the `[` nothing stands between them, so the child list is empty.
    let parsed = parse_template("1(2,3)]4[").unwrap();
    assert_eq!(parsed, vec![rec(1, "2", "3", vec![])]);
}

#[test]
fn empty_text_parses_to_no_records() {
    assert_eq!(parse_template("").unwrap(), Vec::<Record>::new());
    assert_eq!(parse_template("  \n \n").unwrap(), Vec::<Record>::new());
}
