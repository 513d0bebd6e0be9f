//! The record parser: raw text to a sequence of validated-syntax records.
//!
//! Every space character is stripped from the text first, so spaces are
//! insignificant everywhere. Each line is then read independently; blank
//! lines are skipped. A non-blank line must have the shape
//! `<id>(<x>,<y>)[<child>,<child>,...]`, where the delimiters are found
//! purely positionally: the first `(` on the line, the first `)` after it,
//! the first `[` and the first `]` on the line, and the first `,` strictly
//! between the `(` and the `)`. The first failure aborts the whole load,
//! carrying the 0-indexed line number and the field that failed.

use vstd::prelude::*;

use crate::errors::{BuilderError, ErrorView, LineField};
use crate::numbers::{is_float_literal, is_float_literal_exec, parse_u32, parse_u32_exec};
use crate::text::{
    find_char, find_char_at, find_char_exec, lemma_find_char_at, split_lines, split_lines_exec,
    str_to_chars, strip_spaces, strip_spaces_exec, copy_range,
};

verus! {

/// One parsed line: an id, the two coordinate substrings exactly as they
/// stood (spaces already stripped), and the declared child ids in declared
/// order. Records exist only between parsing and graph building.
#[derive(Debug, PartialEq, Eq)]
pub struct Record {
    /// The record's id, unique within one load.
    pub id: u32,
    /// The x and y coordinate text, each a validated float literal.
    pub coords: (String, String),
    /// The ids of this record's children, in declared order.
    pub child_ids: Vec<u32>,
}

/// The mathematical value of a [`Record`].
pub struct RecordView {
    pub id: u32,
    pub x: Seq<char>,
    pub y: Seq<char>,
    pub child_ids: Seq<u32>,
}

impl View for Record {
    type V = RecordView;

    open spec fn view(&self) -> RecordView {
        RecordView { id: self.id, x: self.coords.0@, y: self.coords.1@, child_ids: self.child_ids@ }
    }
}

/// Relies on `String`'s `FromIterator<char>` impl: collecting characters
/// yields the string of exactly those characters in order.
#[verifier::external_body]
fn chars_to_string(v: &Vec<char>) -> (s: String)
    ensures
        s@ == v@,
{
    v.iter().collect()
}

/// The child ids declared in the segment of `s` that starts at `pos`:
/// comma-separated unsigned integers, empty segments skipped. `None` when
/// some non-empty segment is not an unsigned integer.
pub open spec fn parse_children_at(s: Seq<char>, pos: int) -> Option<Seq<u32>>
    decreases s.len() - pos + 1,
    via parse_children_at_decreases
{
    if !(0 <= pos <= s.len()) {
        None
    } else {
        let seg_end = match find_char_at(s, pos, ',') {
            Some(i) => i,
            None => s.len() as int,
        };
        let seg = s.subrange(pos, seg_end);
        let head = if seg.len() == 0 {
            Some(Seq::<u32>::empty())
        } else {
            match parse_u32(seg) {
                Some(v) => Some(seq![v]),
                None => None,
            }
        };
        let rest = if seg_end == s.len() {
            Some(Seq::<u32>::empty())
        } else {
            parse_children_at(s, seg_end + 1)
        };
        match (head, rest) {
            (Some(h), Some(r)) => Some(h + r),
            _ => None,
        }
    }
}

#[via_fn]
proof fn parse_children_at_decreases(s: Seq<char>, pos: int) {
    if 0 <= pos <= s.len() {
        lemma_find_char_at(s, pos, ',');
    }
}

/// The child ids declared between the brackets at `v_beg` and `v_end`: the
/// characters strictly between them, or nothing when the `]` does not come
/// after the `[`.
pub open spec fn child_span(l: Seq<char>, v_beg: int, v_end: int) -> Seq<char> {
    if v_beg + 1 <= v_end <= l.len() {
        l.subrange(v_beg + 1, v_end)
    } else {
        Seq::empty()
    }
}

/// What parsing one non-blank, space-stripped line yields: a record, or the
/// field that failed. The delimiters are found purely positionally, in the
/// fixed order `(`, `)` after it, `[`, `]`, then the `,` strictly between
/// `(` and `)`; then the id, x, y and child substrings are read.
pub open spec fn parse_line_spec(l: Seq<char>) -> Result<RecordView, LineField> {
    match find_char(l, '(') {
        None => Err(LineField::OpenParen),
        Some(c_beg) => match find_char_at(l, c_beg + 1, ')') {
            None => Err(LineField::CloseParen),
            Some(c_end) => match find_char(l, '[') {
                None => Err(LineField::OpenBracket),
                Some(v_beg) => match find_char(l, ']') {
                    None => Err(LineField::CloseBracket),
                    Some(v_end) => match find_char_at(l, c_beg + 1, ',') {
                        Some(c_spl) if c_spl < c_end => parse_line_fields(
                            l,
                            c_beg,
                            c_spl,
                            c_end,
                            v_beg,
                            v_end,
                        ),
                        _ => Err(LineField::Comma),
                    },
                },
            },
        },
    }
}

/// The id, x, y and child substrings of a line whose delimiters were found.
pub open spec fn parse_line_fields(
    l: Seq<char>,
    c_beg: int,
    c_spl: int,
    c_end: int,
    v_beg: int,
    v_end: int,
) -> Result<RecordView, LineField> {
    match parse_u32(l.subrange(0, c_beg)) {
        None => Err(LineField::Id),
        Some(id) => {
            let x = l.subrange(c_beg + 1, c_spl);
            let y = l.subrange(c_spl + 1, c_end);
            if !is_float_literal(x) {
                Err(LineField::X)
            } else if !is_float_literal(y) {
                Err(LineField::Y)
            } else {
                match parse_children_at(child_span(l, v_beg, v_end), 0) {
                    None => Err(LineField::Child),
                    Some(kids) => Ok(RecordView { id, x, y, child_ids: kids }),
                }
            }
        },
    }
}

/// What parsing the lines from index `i` on yields: the records of the
/// non-blank lines in file order, or the first failure with its 0-indexed
/// line number.
pub open spec fn parse_lines_spec(lines: Seq<Seq<char>>, i: int) -> Result<
    Seq<RecordView>,
    ErrorView,
>
    decreases lines.len() - i,
{
    if i < 0 || i >= lines.len() {
        Ok(Seq::empty())
    } else if lines[i].len() == 0 {
        parse_lines_spec(lines, i + 1)
    } else {
        match parse_line_spec(lines[i]) {
            Err(f) => Err(ErrorView::CouldNotReadLine(i, f)),
            Ok(r) => match parse_lines_spec(lines, i + 1) {
                Err(e) => Err(e),
                Ok(rest) => Ok(seq![r] + rest),
            },
        }
    }
}

/// What parsing a whole file's text yields: spaces stripped, the text split
/// into lines, and every non-blank line read as a record.
pub open spec fn parse_template_spec(text: Seq<char>) -> Result<Seq<RecordView>, ErrorView> {
    parse_lines_spec(split_lines(strip_spaces(text)), 0)
}

/// Inserting or removing spaces never changes what a text parses to: parsing
/// sees only the space-stripped characters.
pub proof fn lemma_space_insensitive(a: Seq<char>, b: Seq<char>)
    requires
        strip_spaces(a) == strip_spaces(b),
    ensures
        parse_template_spec(a) == parse_template_spec(b),
{
}

/// Stripping spaces twice is the same as stripping them once, so a text
/// already free of spaces parses as it stands.
pub proof fn lemma_strip_spaces_idempotent(s: Seq<char>)
    ensures
        strip_spaces(strip_spaces(s)) == strip_spaces(s),
        parse_template_spec(strip_spaces(s)) == parse_template_spec(s),
    decreases s.len(),
{
    if s.len() > 0 {
        lemma_strip_spaces_idempotent(s.drop_first());
        if s.first() != ' ' {
            let tail = strip_spaces(s.drop_first());
            assert((seq![s.first()] + tail).first() == s.first());
            assert((seq![s.first()] + tail).drop_first() =~= tail);
        }
    }
}

/// Parse the child-id list text: comma-separated unsigned integers with
/// empty segments skipped, or `None` when a non-empty segment fails.
#[verifier::loop_isolation(false)]
fn parse_children_exec(s: &Vec<char>) -> (r: Option<Vec<u32>>)
    ensures
        match r {
            Some(kids) => parse_children_at(s@, 0) == Some(kids@),
            None => parse_children_at(s@, 0) is None,
        },
{
    let n = s.len();
    let mut kids: Vec<u32> = Vec::new();
    let mut pos: usize = 0;
    let mut done = false;
    while !done
        invariant
            pos <= s@.len(),
            !done ==> (match parse_children_at(s@, pos as int) {
                Some(rest) => parse_children_at(s@, 0) == Some(kids@ + rest),
                None => parse_children_at(s@, 0) is None,
            }),
            done ==> parse_children_at(s@, 0) == Some(kids@),
        decreases (if done { 0int } else { s@.len() - pos + 1 }),
    {
        if done {
        } else {
            proof {
                lemma_find_char_at(s@, pos as int, ',');
            }
            let comma = find_char_exec(s, pos, ',');
            let seg_end = match comma {
                Some(i) => i,
                None => n,
            };
            if seg_end > pos {
                let seg = copy_range(s, pos, seg_end);
                match parse_u32_exec(&seg) {
                    None => {
                        return None;
                    },
                    Some(v) => {
                        kids.push(v);
                    },
                }
            }
            match comma {
                Some(i) => {
                    pos = i + 1;
                },
                None => {
                    done = true;
                },
            }
            proof {
                assert(kids@ + Seq::<u32>::empty() =~= kids@);
            }
        }
    }
    assert(parse_children_at(s@, 0) == Some(kids@));
    Some(kids)
}

/// Parse one non-blank, space-stripped line into a record, or say which
/// field failed.
#[verifier::loop_isolation(false)]
pub fn parse_line(l: &Vec<char>) -> (r: Result<Record, LineField>)
    ensures
        match r {
            Ok(rec) => parse_line_spec(l@) == Ok::<RecordView, LineField>(rec@),
            Err(f) => parse_line_spec(l@) == Err::<RecordView, LineField>(f),
        },
{
    // Pins the line's length as a machine word: every delimiter position
    // found below stays under it, so the index arithmetic cannot overflow.
    let _line_len = l.len();
    proof {
        lemma_find_char_at(l@, 0, '(');
    }
    let c_beg = match find_char_exec(l, 0, '(') {
        None => {
            return Err(LineField::OpenParen);
        },
        Some(i) => i,
    };
    proof {
        lemma_find_char_at(l@, c_beg + 1 as int, ')');
    }
    let c_end = match find_char_exec(l, c_beg + 1, ')') {
        None => {
            return Err(LineField::CloseParen);
        },
        Some(i) => i,
    };
    let v_beg = match find_char_exec(l, 0, '[') {
        None => {
            return Err(LineField::OpenBracket);
        },
        Some(i) => i,
    };
    let v_end = match find_char_exec(l, 0, ']') {
        None => {
            return Err(LineField::CloseBracket);
        },
        Some(i) => i,
    };
    let c_spl = match find_char_exec(l, c_beg + 1, ',') {
        Some(i) if i < c_end => i,
        _ => {
            return Err(LineField::Comma);
        },
    };
    let id_text = copy_range(l, 0, c_beg);
    let id = match parse_u32_exec(&id_text) {
        None => {
            return Err(LineField::Id);
        },
        Some(v) => v,
    };
    if !is_float_literal_exec(l, c_beg + 1, c_spl) {
        return Err(LineField::X);
    }
    if !is_float_literal_exec(l, c_spl + 1, c_end) {
        return Err(LineField::Y);
    }
    let span = if v_beg + 1 <= v_end {
        copy_range(l, v_beg + 1, v_end)
    } else {
        Vec::new()
    };
    assert(span@ =~= child_span(l@, v_beg as int, v_end as int));
    let kids = match parse_children_exec(&span) {
        None => {
            return Err(LineField::Child);
        },
        Some(kids) => kids,
    };
    let x = chars_to_string(&copy_range(l, c_beg + 1, c_spl));
    let y = chars_to_string(&copy_range(l, c_spl + 1, c_end));
    Ok(Record { id, coords: (x, y), child_ids: kids })
}

/// Parse a whole file's text into the records of its non-blank lines, in
/// file order, or fail with the first error, its 0-indexed line number and
/// the field that failed. Spaces anywhere in the text are insignificant.
#[verifier::loop_isolation(false)]
pub fn parse_template(text: &str) -> (r: Result<Vec<Record>, BuilderError>)
    ensures
        match r {
            Ok(recs) => parse_template_spec(text@) == Ok::<Seq<RecordView>, ErrorView>(
                recs@.map_values(|rec: Record| rec@),
            ),
            Err(e) => parse_template_spec(text@) == Err::<Seq<RecordView>, ErrorView>(e@),
        },
{
    let chars = str_to_chars(text);
    let stripped = strip_spaces_exec(&chars);
    let lines = split_lines_exec(&stripped);
    let ghost lv = lines@.map_values(|l: Vec<char>| l@);
    let mut recs: Vec<Record> = Vec::new();
    let mut i: usize = 0;
    assert(recs@.map_values(|rec: Record| rec@) =~= Seq::<RecordView>::empty());
    while i < lines.len()
        invariant
            i <= lines@.len(),
            match parse_lines_spec(lv, i as int) {
                Ok(rest) => parse_lines_spec(lv, 0) == Ok::<Seq<RecordView>, ErrorView>(
                    recs@.map_values(|rec: Record| rec@) + rest,
                ),
                Err(e) => parse_lines_spec(lv, 0) == Err::<Seq<RecordView>, ErrorView>(e),
            },
        decreases lines@.len() - i,
    {
        let line = &lines[i];
        assert(line@ == lv[i as int]);
        if line.len() > 0 {
            match parse_line(line) {
                Err(f) => {
                    return Err(BuilderError::CouldNotReadLine(i, f));
                },
                Ok(rec) => {
                    let ghost prev = recs@.map_values(|r2: Record| r2@);
                    recs.push(rec);
                    assert(recs@.map_values(|r2: Record| r2@) =~= prev + seq![rec@]);
                    proof {
                        if parse_lines_spec(lv, i + 1) is Ok {
                            let rest = parse_lines_spec(lv, i + 1)->Ok_0;
                            assert(prev + (seq![rec@] + rest) =~= (prev + seq![rec@]) + rest);
                        }
                    }
                },
            }
        }
        i = i + 1;
    }
    proof {
        assert(recs@.map_values(|rec: Record| rec@) + Seq::<RecordView>::empty() =~= recs@
            .map_values(|rec: Record| rec@));
    }
    Ok(recs)
}

} // verus!
