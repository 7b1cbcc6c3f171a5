//! The text form, stated over character sequences: what a record and a match
//! set are written as, and what a character sequence is read as.
//!
//! ```text
//! <size_1> <size_2>
//! one line for each record of image_1, then of image_2
//! ```
//! A record line holds the fields in declared order, the descriptor count
//! last among them, then the descriptor entries, all with one space between
//! them. Lines are parted by single line feeds; none follows the last. A
//! reader takes any run of spaces and tabs for a space, and a carriage return
//! with a line feed for a line feed.

use crate::data::{MatchModel, RecordModel};
use crate::decimal::{decimal, signed_decimal};
use crate::error::ASPMatchError;
use crate::lexer::{
    blank_run, blank_token, float_text, float_token, line_break_token, line_end, signed_token,
    unsigned_token, FloatToken,
};
use vstd::prelude::*;

verus! {

/// The kinds of field of a record line.
pub enum FieldKind {
    /// A single-precision float, held as its bit pattern.
    Float,
    /// A signed 32-bit integer.
    Signed,
    /// An unsigned 8-bit integer.
    Byte,
    /// An unsigned 32-bit integer.
    Word,
    /// An unsigned 64-bit integer.
    Count,
}

/// What reading one item makes of a text.
pub enum Scan<T> {
    /// The item stands at the start: its value, and the text after it.
    Done { value: T, rest: Seq<char> },
    /// No such item stands here. A list that asked for one more ends before
    /// it; anything else fails with this error.
    Error(ASPMatchError),
    /// An item began and broke off: whatever asked for it fails.
    Failure,
}

/// What reading a list of items makes of a text.
pub enum Listing<T> {
    /// The items found, and the text after the last of them.
    Done { items: Seq<T>, rest: Seq<char> },
    /// One of the items began and broke off.
    Failure,
}

/// The fields of a record line, in order; the last is the descriptor count.
pub open spec fn record_layout() -> Seq<FieldKind> {
    seq![
        FieldKind::Float,
        FieldKind::Float,
        FieldKind::Signed,
        FieldKind::Signed,
        FieldKind::Float,
        FieldKind::Float,
        FieldKind::Float,
        FieldKind::Byte,
        FieldKind::Word,
        FieldKind::Word,
        FieldKind::Count,
    ]
}

/// The values of the fields of a record, in the order of `record_layout`.
pub open spec fn record_fields(r: RecordModel) -> Seq<int> {
    seq![
        r.x as int,
        r.y as int,
        r.xi as int,
        r.yi as int,
        r.orientation as int,
        r.scale as int,
        r.interest as int,
        r.polarity as int,
        r.octave as int,
        r.scale_lvl as int,
        r.desc.len() as int,
    ]
}

/// The record with these field values and this descriptor.
pub open spec fn record_of(values: Seq<int>, desc: Seq<u32>) -> RecordModel {
    RecordModel {
        x: values[0] as u32,
        y: values[1] as u32,
        xi: values[2] as i32,
        yi: values[3] as i32,
        orientation: values[4] as u32,
        scale: values[5] as u32,
        interest: values[6] as u32,
        polarity: values[7] as u8,
        octave: values[8] as u32,
        scale_lvl: values[9] as u32,
        desc,
    }
}

/// The text of one field.
pub open spec fn field_text(kind: FieldKind, value: int) -> Seq<char> {
    match kind {
        FieldKind::Float => float_text(value as u32),
        FieldKind::Signed => signed_decimal(value),
        _ => decimal(value as nat),
    }
}

/// The parts, with `sep` between each two of them.
pub open spec fn joined(parts: Seq<Seq<char>>, sep: Seq<char>) -> Seq<char>
    decreases parts.len(),
{
    if parts.len() == 0 {
        Seq::<char>::empty()
    } else if parts.len() == 1 {
        parts[0]
    } else {
        joined(parts.drop_last(), sep) + sep + parts.last()
    }
}

/// The views of the strings, in order.
pub open spec fn texts(parts: Seq<String>) -> Seq<Seq<char>> {
    parts.map_values(|s: String| s@)
}

/// Joins the parts with `sep` between each two of them.
pub fn join(parts: &Vec<String>, sep: &str) -> (out: String)
    ensures
        out@ == joined(texts(parts@), sep@),
{
    let mut out = String::new();
    let mut i: usize = 0;
    while i < parts.len()
        invariant
            i <= parts.len(),
            out@ == joined(texts(parts@.take(i as int)), sep@),
        decreases parts.len() - i,
    {
        if i > 0 {
            out.append(sep);
        }
        out.append(parts[i].as_str());
        proof {
            let done = texts(parts@.take(i + 1));
            assert(done.drop_last() =~= texts(parts@.take(i as int)));
            assert(done.last() == parts@[i as int]@);
            assert(out@ =~= joined(done, sep@));
        }
        i += 1;
    }
    proof {
        assert(parts@.take(i as int) =~= parts@);
    }
    out
}

/// The texts of the fields, in order.
pub open spec fn field_texts(kinds: Seq<FieldKind>, values: Seq<int>) -> Seq<Seq<char>> {
    Seq::new(kinds.len(), |i: int| field_text(kinds[i], values[i]))
}

/// The texts of the descriptor entries, in order.
pub open spec fn descriptor_texts(d: Seq<u32>) -> Seq<Seq<char>> {
    d.map_values(|bits: u32| float_text(bits))
}

/// The descriptor entries, with one space between them.
pub open spec fn descriptor_text(d: Seq<u32>) -> Seq<char> {
    joined(descriptor_texts(d), seq![' '])
}

/// The line of a record: its fields and then its descriptor, with one space
/// between them. A space follows the descriptor count also where the
/// descriptor is empty.
pub open spec fn record_text(r: RecordModel) -> Seq<char> {
    joined(
        field_texts(record_layout(), record_fields(r)).push(descriptor_text(r.desc)),
        seq![' '],
    )
}

/// The lines of the records, in order.
pub open spec fn line_texts(rs: Seq<RecordModel>) -> Seq<Seq<char>> {
    rs.map_values(|r: RecordModel| record_text(r))
}

/// The lines of the records of a list, with one line feed between them.
pub open spec fn lines_text(rs: Seq<RecordModel>) -> Seq<char> {
    joined(line_texts(rs), seq!['\n'])
}

/// The text of a match set: the two record counts on the first line, a line
/// feed, then the lines of `image_1` followed by those of `image_2`.
pub open spec fn match_text(m: MatchModel) -> Seq<char> {
    decimal(m.image_1.len()) + seq![' '] + decimal(m.image_2.len()) + seq!['\n'] + lines_text(
        m.image_1 + m.image_2,
    )
}

/// What stands at the start of `s`, read as a field of the given kind. No
/// float stands at the end of a line; elsewhere the reader of floats says
/// what stands there.
pub open spec fn token(kind: FieldKind, s: Seq<char>) -> Scan<int> {
    match kind {
        FieldKind::Float => if line_end(s) {
            Scan::Error(ASPMatchError::MalformedText)
        } else {
            match float_token(s) {
                FloatToken::Value { bits, len } => if len <= s.len() {
                    Scan::Done { value: bits as int, rest: s.skip(len as int) }
                } else {
                    Scan::Failure
                },
                FloatToken::Absent => Scan::Error(ASPMatchError::MalformedText),
                FloatToken::Broken => Scan::Failure,
            }
        },
        FieldKind::Signed => match signed_token(s, i32::MIN as int, i32::MAX as int) {
            Some((v, rest)) => Scan::Done { value: v, rest },
            None => Scan::Error(ASPMatchError::MalformedText),
        },
        FieldKind::Byte => match unsigned_token(s, u8::MAX as nat) {
            Some((v, rest)) => Scan::Done { value: v as int, rest },
            None => Scan::Error(ASPMatchError::MalformedText),
        },
        FieldKind::Word => match unsigned_token(s, u32::MAX as nat) {
            Some((v, rest)) => Scan::Done { value: v as int, rest },
            None => Scan::Error(ASPMatchError::MalformedText),
        },
        FieldKind::Count => match unsigned_token(s, u64::MAX as nat) {
            Some((v, rest)) => Scan::Done { value: v as int, rest },
            None => Scan::Error(ASPMatchError::MalformedText),
        },
    }
}

/// A field of the given kind and the blanks that must follow it.
pub open spec fn spaced_token(kind: FieldKind, s: Seq<char>) -> Scan<int> {
    match token(kind, s) {
        Scan::Done { value, rest } => match blank_token(rest) {
            Some(after) => Scan::Done { value, rest: after },
            None => Scan::Error(ASPMatchError::MalformedText),
        },
        other => other,
    }
}

/// The fields of `kinds` from index `from` on, each followed by blanks.
pub open spec fn scan_fields(kinds: Seq<FieldKind>, from: int, s: Seq<char>) -> Scan<Seq<int>>
    decreases kinds.len() - from,
{
    if 0 <= from < kinds.len() {
        match spaced_token(kinds[from], s) {
            Scan::Done { value, rest } => match scan_fields(kinds, from + 1, rest) {
                Scan::Done { value: values, rest: after } => Scan::Done {
                    value: seq![value] + values,
                    rest: after,
                },
                other => other,
            },
            Scan::Error(e) => Scan::Error(e),
            Scan::Failure => Scan::Failure,
        }
    } else {
        Scan::Done { value: Seq::<int>::empty(), rest: s }
    }
}

/// The floats that follow one that was read, each after blanks: the list
/// ends, before the blanks, where no float follows them.
pub open spec fn more_floats(s: Seq<char>, found: Seq<u32>) -> Listing<u32>
    decreases s.len(),
    via more_floats_decreases
{
    match blank_token(s) {
        None => Listing::Done { items: found, rest: s },
        Some(after) => match token(FieldKind::Float, after) {
            Scan::Done { value, rest } => more_floats(rest, found.push(value as u32)),
            Scan::Error(_) => Listing::Done { items: found, rest: s },
            Scan::Failure => Listing::Failure,
        },
    }
}

#[via_fn]
proof fn more_floats_decreases(s: Seq<char>, found: Seq<u32>) {
    lemma_blank_run_bound(s);
}

/// A list of floats parted by blanks, possibly empty.
pub open spec fn float_list(s: Seq<char>) -> Listing<u32> {
    match token(FieldKind::Float, s) {
        Scan::Done { value, rest } => more_floats(rest, seq![value as u32]),
        Scan::Error(_) => Listing::Done { items: Seq::<u32>::empty(), rest: s },
        Scan::Failure => Listing::Failure,
    }
}

/// The record line at the start of `s`: the fields, then the descriptor
/// list, whose length must be the count that the fields declare.
pub open spec fn parse_record_text(s: Seq<char>) -> Scan<RecordModel> {
    match scan_fields(record_layout(), 0, s) {
        Scan::Done { value: values, rest } => match float_list(rest) {
            Listing::Done { items, rest: after } => if items.len() == values[10] {
                Scan::Done { value: record_of(values, items), rest: after }
            } else {
                Scan::Error(ASPMatchError::SchemaMismatch)
            },
            Listing::Failure => Scan::Failure,
        },
        Scan::Error(e) => Scan::Error(e),
        Scan::Failure => Scan::Failure,
    }
}

/// The record lines that follow one that was read, each after a line break:
/// the list ends, before the line break, where no record line follows it.
pub open spec fn more_lines(s: Seq<char>, found: Seq<RecordModel>) -> Listing<RecordModel>
    decreases s.len(),
    via more_lines_decreases
{
    match line_break_token(s) {
        None => Listing::Done { items: found, rest: s },
        Some(after) => match parse_record_text(after) {
            Scan::Done { value, rest } => more_lines(rest, found.push(value)),
            Scan::Error(_) => Listing::Done { items: found, rest: s },
            Scan::Failure => Listing::Failure,
        },
    }
}

#[via_fn]
proof fn more_lines_decreases(s: Seq<char>, found: Seq<RecordModel>) {
    match line_break_token(s) {
        None => {},
        Some(after) => {
            lemma_record_rest_bound(after);
        },
    }
}

/// A list of record lines parted by line breaks, possibly empty.
pub open spec fn record_lines(s: Seq<char>) -> Listing<RecordModel> {
    match parse_record_text(s) {
        Scan::Done { value, rest } => more_lines(rest, seq![value]),
        Scan::Error(_) => Listing::Done { items: Seq::<RecordModel>::empty(), rest: s },
        Scan::Failure => Listing::Failure,
    }
}

/// What a caller of the record reader gets: the record and the text after
/// it, or the error; a broken-off number counts as malformed text.
pub open spec fn record_text_result(s: Seq<char>) -> Result<(RecordModel, Seq<char>), ASPMatchError> {
    match parse_record_text(s) {
        Scan::Done { value, rest } => Ok((value, rest)),
        Scan::Error(e) => Err(e),
        Scan::Failure => Err(ASPMatchError::MalformedText),
    }
}

/// The header line at the start of `s`: the two record counts, parted by
/// blanks and followed by a line break.
pub open spec fn parse_header_text(s: Seq<char>) -> Option<(nat, nat, Seq<char>)> {
    match unsigned_token(s, u64::MAX as nat) {
        None => None,
        Some((size_1, s1)) => match blank_token(s1) {
            None => None,
            Some(s2) => match unsigned_token(s2, u64::MAX as nat) {
                None => None,
                Some((size_2, s3)) => match line_break_token(s3) {
                    None => None,
                    Some(s4) => Some((size_1, size_2, s4)),
                },
            },
        },
    }
}

/// The match set at the start of `s` and the text after it, or the reason
/// why there is none. The record lines found must be as many as the header
/// declares; the first `size_1` of them are `image_1`.
pub open spec fn parse_match_text(s: Seq<char>) -> Result<(MatchModel, Seq<char>), ASPMatchError> {
    match parse_header_text(s) {
        None => Err(ASPMatchError::MalformedText),
        Some((size_1, size_2, body)) => match record_lines(body) {
            Listing::Failure => Err(ASPMatchError::MalformedText),
            Listing::Done { items, rest } => if items.len() == size_1 + size_2 {
                Ok(
                    (
                        MatchModel {
                            image_1: items.take(size_1 as int),
                            image_2: items.skip(size_1 as int),
                        },
                        rest,
                    ),
                )
            } else {
                Err(ASPMatchError::SchemaMismatch)
            },
        },
    }
}

/// Leading blanks are part of the text.
pub proof fn lemma_blank_run_bound(s: Seq<char>)
    ensures
        blank_run(s) <= s.len(),
    decreases s.len(),
{
    if s.len() > 0 {
        lemma_blank_run_bound(s.skip(1));
    }
}

/// Leading digits are part of the text.
pub proof fn lemma_digit_run_bound(s: Seq<char>)
    ensures
        crate::decimal::digit_run(s) <= s.len(),
    decreases s.len(),
{
    if s.len() > 0 {
        lemma_digit_run_bound(s.skip(1));
    }
}

/// A field leaves no more text than it found.
pub proof fn lemma_token_rest_bound(kind: FieldKind, s: Seq<char>)
    ensures
        match token(kind, s) {
            Scan::Done { value, rest } => rest.len() <= s.len(),
            _ => true,
        },
{
    lemma_digit_run_bound(s);
    if s.len() > 0 {
        lemma_digit_run_bound(s.skip(1));
    }
}

/// A field with its blanks leaves less text than it found.
pub proof fn lemma_spaced_token_rest_bound(kind: FieldKind, s: Seq<char>)
    ensures
        match spaced_token(kind, s) {
            Scan::Done { value, rest } => rest.len() < s.len(),
            _ => true,
        },
{
    lemma_token_rest_bound(kind, s);
    match token(kind, s) {
        Scan::Done { value, rest } => {
            lemma_blank_run_bound(rest);
        },
        _ => {},
    }
}

/// Fields leave no more text than they found.
pub proof fn lemma_scan_rest_bound(kinds: Seq<FieldKind>, from: int, s: Seq<char>)
    ensures
        match scan_fields(kinds, from, s) {
            Scan::Done { value, rest } => rest.len() <= s.len(),
            _ => true,
        },
    decreases kinds.len() - from,
{
    if 0 <= from < kinds.len() {
        lemma_spaced_token_rest_bound(kinds[from], s);
        match spaced_token(kinds[from], s) {
            Scan::Done { value, rest } => {
                lemma_scan_rest_bound(kinds, from + 1, rest);
            },
            _ => {},
        }
    }
}

/// Further floats leave no more text than they found.
pub proof fn lemma_more_floats_rest_bound(s: Seq<char>, found: Seq<u32>)
    ensures
        match more_floats(s, found) {
            Listing::Done { items, rest } => rest.len() <= s.len(),
            _ => true,
        },
    decreases s.len(),
{
    lemma_blank_run_bound(s);
    match blank_token(s) {
        None => {},
        Some(after) => {
            lemma_token_rest_bound(FieldKind::Float, after);
            match token(FieldKind::Float, after) {
                Scan::Done { value, rest } => {
                    lemma_more_floats_rest_bound(rest, found.push(value as u32));
                },
                _ => {},
            }
        },
    }
}

/// A record line leaves no more text than it found.
pub proof fn lemma_record_rest_bound(s: Seq<char>)
    ensures
        match parse_record_text(s) {
            Scan::Done { value, rest } => rest.len() <= s.len(),
            _ => true,
        },
{
    lemma_scan_rest_bound(record_layout(), 0, s);
    match scan_fields(record_layout(), 0, s) {
        Scan::Done { value: values, rest } => {
            lemma_token_rest_bound(FieldKind::Float, rest);
            match token(FieldKind::Float, rest) {
                Scan::Done { value, rest: after } => {
                    lemma_more_floats_rest_bound(after, seq![value as u32]);
                },
                _ => {},
            }
        },
        _ => {},
    }
}

} // verus!
