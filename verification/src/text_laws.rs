//! What holds of the text form: that reading undoes writing, for every match
//! set whose floats survive being written and read, and that a wrong count is
//! refused.

use crate::data::{records_wf, MatchModel, RecordModel};
use crate::decimal::{
    decimal, is_digit, lemma_decimal_digits, lemma_decimal_value, lemma_digit_run_of,
    signed_decimal,
};
use crate::error::ASPMatchError;
use crate::lexer::{
    blank_run, blank_token, float_text, float_token, is_blank, line_end, signed_token,
    unsigned_token, FloatToken,
};
use crate::text::{
    descriptor_text, descriptor_texts, field_text, field_texts, float_list, joined, line_texts,
    lines_text, match_text, more_floats, more_lines, parse_header_text, parse_match_text,
    parse_record_text, record_fields, record_layout, record_lines, record_of, record_text,
    record_text_result, scan_fields, spaced_token, token, FieldKind, Listing, Scan,
};
use vstd::prelude::*;

verus! {

/// `tail` is empty or begins with a space or a line feed: a number may end
/// before it.
pub open spec fn number_end(tail: Seq<char>) -> bool {
    tail.len() == 0 || tail[0] == ' ' || tail[0] == '\n'
}

/// `tail` does not begin with a blank.
spec fn no_blank_ahead(tail: Seq<char>) -> bool {
    tail.len() == 0 || !is_blank(tail[0])
}

/// The float with this bit pattern survives being written and read: its text
/// is not empty and begins with neither a blank nor a line feed, and the
/// reader, on the text followed by a space, a line feed or nothing, takes
/// just the text and finds the same pattern.
pub open spec fn float_survives_text(bits: u32) -> bool {
    &&& float_text(bits).len() > 0
    &&& !is_blank(float_text(bits)[0])
    &&& float_text(bits)[0] != '\n'
    &&& forall|tail: Seq<char>|
        number_end(tail) ==> #[trigger] float_token(float_text(bits) + tail) == (FloatToken::Value {
            bits,
            len: float_text(bits).len(),
        })
}

/// Every float of the descriptor survives being written and read.
pub open spec fn descriptor_survives_text(d: Seq<u32>) -> bool {
    forall|i: int| 0 <= i < d.len() ==> float_survives_text(#[trigger] d[i])
}

/// Every float of the record survives being written and read.
pub open spec fn record_survives_text(r: RecordModel) -> bool {
    &&& float_survives_text(r.x)
    &&& float_survives_text(r.y)
    &&& float_survives_text(r.orientation)
    &&& float_survives_text(r.scale)
    &&& float_survives_text(r.interest)
    &&& descriptor_survives_text(r.desc)
}

/// Every float of every record of the list survives being written and read.
pub open spec fn records_survive_text(rs: Seq<RecordModel>) -> bool {
    forall|i: int| 0 <= i < rs.len() ==> record_survives_text(#[trigger] rs[i])
}

/// The value is one that a field of this kind can hold, and, for a float,
/// one that survives being written and read.
spec fn fits(kind: FieldKind, value: int) -> bool {
    match kind {
        FieldKind::Float => 0 <= value <= u32::MAX && float_survives_text(value as u32),
        FieldKind::Signed => i32::MIN <= value <= i32::MAX,
        FieldKind::Byte => 0 <= value <= u8::MAX,
        FieldKind::Word => 0 <= value <= u32::MAX,
        FieldKind::Count => 0 <= value <= u64::MAX,
    }
}

/// The fields from index `from` on, each followed by one space.
spec fn fields_text(kinds: Seq<FieldKind>, values: Seq<int>, from: int) -> Seq<char>
    decreases kinds.len() - from,
{
    if 0 <= from < kinds.len() {
        field_text(kinds[from], values[from]) + seq![' '] + fields_text(kinds, values, from + 1)
    } else {
        Seq::<char>::empty()
    }
}

/// The descriptor entries, each after one space.
spec fn following_floats(d: Seq<u32>) -> Seq<char>
    decreases d.len(),
{
    if d.len() == 0 {
        Seq::<char>::empty()
    } else {
        seq![' '] + float_text(d[0]) + following_floats(d.skip(1))
    }
}

/// The record lines, each after one line feed.
spec fn following_lines(rs: Seq<RecordModel>) -> Seq<char>
    decreases rs.len(),
{
    if rs.len() == 0 {
        Seq::<char>::empty()
    } else {
        seq!['\n'] + record_text(rs[0]) + following_lines(rs.skip(1))
    }
}

/// One space before something that is no blank is read as the blanks.
proof fn lemma_one_blank(tail: Seq<char>)
    requires
        no_blank_ahead(tail),
    ensures
        blank_token(seq![' '] + tail) == Some(tail),
{
    let s = seq![' '] + tail;
    assert(s.skip(1) =~= tail);
    assert(blank_run(tail) == 0);
    assert(blank_run(s) == 1);
}

/// A numeral followed by the end of a number reads as its value.
proof fn lemma_unsigned_roundtrip(n: nat, max: nat, tail: Seq<char>)
    requires
        n <= max,
        number_end(tail),
    ensures
        unsigned_token(decimal(n) + tail, max) == Some((n, tail)),
{
    let text = decimal(n);
    let s = text + tail;
    lemma_decimal_digits(n);
    lemma_decimal_value(n);
    lemma_digit_run_of(text, tail);
    assert(s.take(text.len() as int) =~= text);
    assert(s.skip(text.len() as int) =~= tail);
}

/// A signed numeral followed by the end of a number reads as its value.
proof fn lemma_signed_roundtrip(v: int, tail: Seq<char>)
    requires
        i32::MIN <= v <= i32::MAX,
        number_end(tail),
    ensures
        signed_token(signed_decimal(v) + tail, i32::MIN as int, i32::MAX as int) == Some(
            (v, tail),
        ),
{
    let magnitude: nat = if v < 0 {
        (-v) as nat
    } else {
        v as nat
    };
    let text = decimal(magnitude);
    let s = signed_decimal(v) + tail;
    lemma_decimal_digits(magnitude);
    lemma_decimal_value(magnitude);
    lemma_digit_run_of(text, tail);
    assert(is_digit(text[0]));
    let body = text + tail;
    assert(body.take(text.len() as int) =~= text);
    assert(body.skip(text.len() as int) =~= tail);
    if v < 0 {
        assert(s =~= seq!['-'] + body);
        assert(s[0] == '-');
        assert(s.skip(1) =~= body);
    } else {
        assert(s =~= body);
        assert(s[0] == text[0]);
    }
}

/// The text of a field is not empty and begins with no blank.
proof fn lemma_field_text_start(kind: FieldKind, value: int)
    requires
        fits(kind, value),
    ensures
        field_text(kind, value).len() > 0,
        !is_blank(field_text(kind, value)[0]),
{
    match kind {
        FieldKind::Float => {},
        FieldKind::Signed => {
            if value >= 0 {
                lemma_decimal_digits(value as nat);
                assert(is_digit(decimal(value as nat)[0]));
            }
        },
        _ => {
            lemma_decimal_digits(value as nat);
            assert(is_digit(decimal(value as nat)[0]));
        },
    }
}

/// The text of a field followed by the end of a number reads as the field.
proof fn lemma_token_roundtrip(kind: FieldKind, value: int, tail: Seq<char>)
    requires
        fits(kind, value),
        number_end(tail),
    ensures
        token(kind, field_text(kind, value) + tail) == (Scan::Done { value, rest: tail }),
{
    match kind {
        FieldKind::Float => {
            let text = float_text(value as u32);
            assert((text + tail)[0] == text[0]);
            assert((text + tail).skip(text.len() as int) =~= tail);
        },
        FieldKind::Signed => {
            lemma_signed_roundtrip(value, tail);
        },
        FieldKind::Byte => {
            lemma_unsigned_roundtrip(value as nat, u8::MAX as nat, tail);
        },
        FieldKind::Word => {
            lemma_unsigned_roundtrip(value as nat, u32::MAX as nat, tail);
        },
        FieldKind::Count => {
            lemma_unsigned_roundtrip(value as nat, u64::MAX as nat, tail);
        },
    }
}

/// The text of a field, one space, and something that begins with no blank:
/// the field and its blanks read as the field, and leave that something.
proof fn lemma_spaced_token_roundtrip(kind: FieldKind, value: int, tail: Seq<char>)
    requires
        fits(kind, value),
        no_blank_ahead(tail),
    ensures
        spaced_token(kind, field_text(kind, value) + seq![' '] + tail) == (Scan::Done {
            value,
            rest: tail,
        }),
{
    let after = seq![' '] + tail;
    assert(field_text(kind, value) + seq![' '] + tail =~= field_text(kind, value) + after);
    lemma_token_roundtrip(kind, value, after);
    lemma_one_blank(tail);
}

/// The texts of fields, each with its space, followed by something that
/// begins with no blank, read as the fields and leave that something.
proof fn lemma_fields_roundtrip(
    kinds: Seq<FieldKind>,
    values: Seq<int>,
    from: int,
    tail: Seq<char>,
)
    requires
        0 <= from <= kinds.len(),
        kinds.len() == values.len(),
        forall|i: int| from <= i < kinds.len() ==> fits(#[trigger] kinds[i], values[i]),
        no_blank_ahead(tail),
    ensures
        scan_fields(kinds, from, fields_text(kinds, values, from) + tail) == (Scan::Done {
            value: values.skip(from),
            rest: tail,
        }),
        no_blank_ahead(fields_text(kinds, values, from) + tail),
    decreases kinds.len() - from,
{
    let s = fields_text(kinds, values, from) + tail;
    if from == kinds.len() {
        assert(s =~= tail);
        assert(values.skip(from) =~= Seq::<int>::empty());
    } else {
        let after = fields_text(kinds, values, from + 1) + tail;
        lemma_fields_roundtrip(kinds, values, from + 1, tail);
        assert(fits(kinds[from], values[from]));
        lemma_field_text_start(kinds[from], values[from]);
        assert(s =~= field_text(kinds[from], values[from]) + seq![' '] + after);
        lemma_spaced_token_roundtrip(kinds[from], values[from], after);
        assert(seq![values[from]] + values.skip(from + 1) =~= values.skip(from));
        assert(s[0] == field_text(kinds[from], values[from])[0]);
    }
}

/// The first `k` fields joined by spaces, one space, and the fields from
/// `k` on, each with its space, are all the fields, each with its space.
proof fn lemma_joined_prefix(kinds: Seq<FieldKind>, values: Seq<int>, k: int)
    requires
        1 <= k <= kinds.len(),
    ensures
        joined(field_texts(kinds, values).take(k), seq![' ']) + seq![' '] + fields_text(
            kinds,
            values,
            k,
        ) == fields_text(kinds, values, 0),
    decreases k,
{
    let all = field_texts(kinds, values);
    let sep = seq![' '];
    if k == 1 {
        assert(joined(all.take(1), sep) + sep + fields_text(kinds, values, 1) =~= fields_text(
            kinds,
            values,
            0,
        ));
    } else {
        lemma_joined_prefix(kinds, values, k - 1);
        assert(all.take(k).drop_last() =~= all.take(k - 1));
        assert(all.take(k).last() == field_text(kinds[k - 1], values[k - 1]));
        assert(joined(all.take(k), sep) + sep + fields_text(kinds, values, k) =~= joined(
            all.take(k - 1),
            sep,
        ) + sep + fields_text(kinds, values, k - 1));
    }
}

/// The line of a record is its fields, each with its space, and then its
/// descriptor.
proof fn lemma_record_text_fields(r: RecordModel)
    ensures
        record_text(r) == fields_text(record_layout(), record_fields(r), 0) + descriptor_text(
            r.desc,
        ),
{
    let kinds = record_layout();
    let values = record_fields(r);
    let all = field_texts(kinds, values);
    let sep = seq![' '];
    let last = descriptor_text(r.desc);
    lemma_joined_prefix(kinds, values, 11);
    assert(all.take(11) =~= all);
    assert(all.push(last).drop_last() =~= all);
    assert(fields_text(kinds, values, 11) =~= Seq::<char>::empty());
    assert(record_text(r) =~= fields_text(kinds, values, 0) + last);
}

/// The descriptor text is that of the first entry followed by the others,
/// each after one space.
proof fn lemma_descriptor_text_front(d: Seq<u32>)
    requires
        d.len() > 0,
    ensures
        descriptor_text(d) == float_text(d[0]) + following_floats(d.skip(1)),
    decreases d.len(),
{
    if d.len() == 1 {
        assert(d.skip(1) =~= Seq::<u32>::empty());
        assert(descriptor_text(d) =~= float_text(d[0]) + following_floats(d.skip(1)));
    } else {
        let front = d.drop_last();
        lemma_descriptor_text_front(front);
        lemma_following_floats_push(front.skip(1), d.last());
        assert(front.skip(1).push(d.last()) =~= d.skip(1));
        assert(descriptor_texts(d).drop_last() =~= descriptor_texts(front));
        assert(descriptor_text(d) =~= float_text(d[0]) + following_floats(d.skip(1)));
    }
}

/// One more entry at the end of the list is written at the end of the text.
proof fn lemma_following_floats_push(d: Seq<u32>, last: u32)
    ensures
        following_floats(d.push(last)) == following_floats(d) + seq![' '] + float_text(last),
    decreases d.len(),
{
    let all = d.push(last);
    if d.len() == 0 {
        assert(all.skip(1) =~= Seq::<u32>::empty());
        assert(following_floats(all.skip(1)) =~= Seq::<char>::empty());
        assert(following_floats(all) =~= following_floats(d) + seq![' '] + float_text(last));
    } else {
        lemma_following_floats_push(d.skip(1), last);
        assert(all.skip(1) =~= d.skip(1).push(last));
        assert(following_floats(all) =~= following_floats(d) + seq![' '] + float_text(last));
    }
}

/// The lines of a list are the line of the first record followed by the
/// others, each after one line feed.
proof fn lemma_lines_text_front(rs: Seq<RecordModel>)
    requires
        rs.len() > 0,
    ensures
        lines_text(rs) == record_text(rs[0]) + following_lines(rs.skip(1)),
    decreases rs.len(),
{
    if rs.len() == 1 {
        assert(rs.skip(1) =~= Seq::<RecordModel>::empty());
        assert(lines_text(rs) =~= record_text(rs[0]) + following_lines(rs.skip(1)));
    } else {
        let front = rs.drop_last();
        lemma_lines_text_front(front);
        lemma_following_lines_push(front.skip(1), rs.last());
        assert(front.skip(1).push(rs.last()) =~= rs.skip(1));
        assert(line_texts(rs).drop_last() =~= line_texts(front));
        assert(lines_text(rs) =~= record_text(rs[0]) + following_lines(rs.skip(1)));
    }
}

/// One more record at the end of the list is written at the end of the text.
proof fn lemma_following_lines_push(rs: Seq<RecordModel>, last: RecordModel)
    ensures
        following_lines(rs.push(last)) == following_lines(rs) + seq!['\n'] + record_text(last),
    decreases rs.len(),
{
    let all = rs.push(last);
    if rs.len() == 0 {
        assert(all.skip(1) =~= Seq::<RecordModel>::empty());
        assert(following_lines(all.skip(1)) =~= Seq::<char>::empty());
        assert(following_lines(all) =~= following_lines(rs) + seq!['\n'] + record_text(last));
    } else {
        lemma_following_lines_push(rs.skip(1), last);
        assert(all.skip(1) =~= rs.skip(1).push(last));
        assert(following_lines(all) =~= following_lines(rs) + seq!['\n'] + record_text(last));
    }
}

/// The entries written after the first read as those entries, up to the end
/// of the line.
proof fn lemma_more_floats_roundtrip(d: Seq<u32>, found: Seq<u32>, tail: Seq<char>)
    requires
        descriptor_survives_text(d),
        line_end(tail),
    ensures
        more_floats(following_floats(d) + tail, found) == (Listing::Done {
            items: found + d,
            rest: tail,
        }),
        number_end(following_floats(d) + tail),
    decreases d.len(),
{
    let s = following_floats(d) + tail;
    if d.len() == 0 {
        assert(s =~= tail);
        assert(blank_run(tail) == 0);
        assert(found + d =~= found);
    } else {
        let others = d.skip(1);
        let text = float_text(d[0]);
        let after = following_floats(others) + tail;
        assert(float_survives_text(d[0]));
        assert(descriptor_survives_text(others)) by {
            assert forall|i: int| 0 <= i < others.len() implies float_survives_text(
                #[trigger] others[i],
            ) by {
                assert(others[i] == d[i + 1]);
            }
        }
        lemma_more_floats_roundtrip(others, found.push(d[0]), tail);
        assert(s =~= seq![' '] + (text + after));
        assert((text + after)[0] == text[0]);
        lemma_one_blank(text + after);
        assert(fits(FieldKind::Float, d[0] as int));
        lemma_token_roundtrip(FieldKind::Float, d[0] as int, after);
        assert(found.push(d[0]) + others =~= found + d);
        assert(s[0] == ' ');
    }
}

/// The descriptor text, followed by the end of the line, reads as the
/// descriptor.
proof fn lemma_float_list_roundtrip(d: Seq<u32>, tail: Seq<char>)
    requires
        descriptor_survives_text(d),
        line_end(tail),
    ensures
        float_list(descriptor_text(d) + tail) == (Listing::Done { items: d, rest: tail }),
        no_blank_ahead(descriptor_text(d) + tail),
{
    let s = descriptor_text(d) + tail;
    if d.len() == 0 {
        assert(s =~= tail);
        assert(d =~= Seq::<u32>::empty());
    } else {
        let others = d.skip(1);
        let text = float_text(d[0]);
        let after = following_floats(others) + tail;
        lemma_descriptor_text_front(d);
        assert(float_survives_text(d[0]));
        assert(descriptor_survives_text(others)) by {
            assert forall|i: int| 0 <= i < others.len() implies float_survives_text(
                #[trigger] others[i],
            ) by {
                assert(others[i] == d[i + 1]);
            }
        }
        lemma_more_floats_roundtrip(others, seq![d[0]], tail);
        assert(s =~= text + after);
        assert(fits(FieldKind::Float, d[0] as int));
        lemma_token_roundtrip(FieldKind::Float, d[0] as int, after);
        assert(seq![d[0]] + others =~= d);
        assert(s[0] == text[0]);
    }
}

/// The field values of a record fit their kinds.
proof fn lemma_record_fields_fit(r: RecordModel)
    requires
        r.wf(),
        record_survives_text(r),
    ensures
        record_layout().len() == record_fields(r).len(),
        forall|i: int|
            0 <= i < record_layout().len() ==> fits(
                #[trigger] record_layout()[i],
                record_fields(r)[i],
            ),
        record_of(record_fields(r), r.desc) == r,
{
}

/// Reading undoes writing, for a record: on the line of `r`, followed by the
/// end of the line, the reader yields `r` and what follows.
pub proof fn lemma_record_text_roundtrip(r: RecordModel, tail: Seq<char>)
    requires
        r.wf(),
        record_survives_text(r),
        line_end(tail),
    ensures
        parse_record_text(record_text(r) + tail) == (Scan::Done { value: r, rest: tail }),
{
    let kinds = record_layout();
    let values = record_fields(r);
    let after = descriptor_text(r.desc) + tail;
    let s = record_text(r) + tail;
    lemma_record_fields_fit(r);
    lemma_record_text_fields(r);
    lemma_float_list_roundtrip(r.desc, tail);
    lemma_fields_roundtrip(kinds, values, 0, after);
    assert(s =~= fields_text(kinds, values, 0) + after);
    assert(values.skip(0) =~= values);
}

/// The lines written after the first read as those records, up to the end of
/// the text.
proof fn lemma_more_lines_roundtrip(rs: Seq<RecordModel>, found: Seq<RecordModel>)
    requires
        records_wf(rs),
        records_survive_text(rs),
    ensures
        more_lines(following_lines(rs), found) == (Listing::Done {
            items: found + rs,
            rest: Seq::<char>::empty(),
        }),
        line_end(following_lines(rs)),
    decreases rs.len(),
{
    let s = following_lines(rs);
    if rs.len() == 0 {
        assert(found + rs =~= found);
    } else {
        let others = rs.skip(1);
        let after = following_lines(others);
        assert(rs[0].wf() && record_survives_text(rs[0]));
        assert(records_wf(others) && records_survive_text(others)) by {
            assert forall|i: int| 0 <= i < others.len() implies (#[trigger] others[i]).wf()
                && record_survives_text(others[i]) by {
                assert(others[i] == rs[i + 1]);
            }
        }
        lemma_more_lines_roundtrip(others, found.push(rs[0]));
        let line = record_text(rs[0]) + after;
        assert(s =~= seq!['\n'] + line);
        assert(s.skip(1) =~= line);
        lemma_record_text_roundtrip(rs[0], after);
        assert(found.push(rs[0]) + others =~= found + rs);
    }
}

/// The two record counts, one space between them and a line feed after
/// them, read as the header and leave what follows the line feed.
proof fn lemma_header_roundtrip(size_1: nat, size_2: nat, body: Seq<char>)
    requires
        size_1 <= u64::MAX,
        size_2 <= u64::MAX,
    ensures
        parse_header_text(decimal(size_1) + seq![' '] + decimal(size_2) + seq!['\n'] + body)
            == Some((size_1, size_2, body)),
{
    let s = decimal(size_1) + seq![' '] + decimal(size_2) + seq!['\n'] + body;
    let s3 = seq!['\n'] + body;
    let s2 = decimal(size_2) + s3;
    let s1 = seq![' '] + s2;
    assert(s =~= decimal(size_1) + s1);
    lemma_unsigned_roundtrip(size_1, u64::MAX as nat, s1);
    lemma_decimal_digits(size_2);
    assert(is_digit(decimal(size_2)[0]));
    assert(s2[0] == decimal(size_2)[0]);
    lemma_one_blank(s2);
    lemma_unsigned_roundtrip(size_2, u64::MAX as nat, s3);
    assert(s3.skip(1) =~= body);
}

/// The lines of a list of records read as those records, and leave nothing.
proof fn lemma_record_lines_roundtrip(rs: Seq<RecordModel>)
    requires
        records_wf(rs),
        records_survive_text(rs),
    ensures
        record_lines(lines_text(rs)) == (Listing::Done { items: rs, rest: Seq::<char>::empty() }),
{
    let body = lines_text(rs);
    if rs.len() == 0 {
        lemma_fields_none_at_line_end(body);
        assert(rs =~= Seq::<RecordModel>::empty());
    } else {
        let others = rs.skip(1);
        assert(rs[0].wf() && record_survives_text(rs[0]));
        assert(records_wf(others) && records_survive_text(others)) by {
            assert forall|i: int| 0 <= i < others.len() implies (#[trigger] others[i]).wf()
                && record_survives_text(others[i]) by {
                assert(others[i] == rs[i + 1]);
            }
        }
        lemma_lines_text_front(rs);
        lemma_more_lines_roundtrip(others, seq![rs[0]]);
        lemma_record_text_roundtrip(rs[0], following_lines(others));
        assert(seq![rs[0]] + others =~= rs);
    }
}

/// Reading undoes writing: on the text of a well-formed match set whose
/// floats all survive being written and read, the reader yields the match
/// set and leaves nothing.
pub proof fn lemma_match_text_roundtrip(m: MatchModel)
    requires
        m.wf(),
        records_survive_text(m.image_1),
        records_survive_text(m.image_2),
    ensures
        parse_match_text(match_text(m)) == Ok::<(MatchModel, Seq<char>), ASPMatchError>(
            (m, Seq::<char>::empty()),
        ),
{
    let n1 = m.image_1.len();
    let all = m.image_1 + m.image_2;
    lemma_header_roundtrip(n1, m.image_2.len(), lines_text(all));
    assert(records_wf(all) && records_survive_text(all)) by {
        assert forall|i: int| 0 <= i < all.len() implies (#[trigger] all[i]).wf()
            && record_survives_text(all[i]) by {
            if i < n1 {
                assert(all[i] == m.image_1[i]);
            } else {
                assert(all[i] == m.image_2[i - n1]);
            }
        }
    }
    lemma_record_lines_roundtrip(all);
    assert(all.take(n1 as int) =~= m.image_1);
    assert(all.skip(n1 as int) =~= m.image_2);
}

/// The match set without records is written as `0 0` and a line feed.
pub proof fn lemma_empty_match_text()
    ensures
        match_text(
            MatchModel {
                image_1: Seq::<RecordModel>::empty(),
                image_2: Seq::<RecordModel>::empty(),
            },
        ) == seq!['0', ' ', '0', '\n'],
{
    let m = MatchModel {
        image_1: Seq::<RecordModel>::empty(),
        image_2: Seq::<RecordModel>::empty(),
    };
    assert(m.image_1 + m.image_2 =~= Seq::<RecordModel>::empty());
    assert(line_texts(Seq::<RecordModel>::empty()) =~= Seq::<Seq<char>>::empty());
    assert(match_text(m) =~= seq!['0', ' ', '0', '\n']);
}

/// No record line stands at the end of a line.
proof fn lemma_fields_none_at_line_end(s: Seq<char>)
    requires
        line_end(s),
    ensures
        parse_record_text(s) == Scan::<RecordModel>::Error(ASPMatchError::MalformedText),
{
    assert(record_layout()[0] == FieldKind::Float);
}

/// A record line whose fields read well, and whose descriptor list reads
/// well but is not as long as the fields declare, is refused as a schema
/// mismatch.
pub proof fn lemma_descriptor_count_mismatch_rejected(s: Seq<char>)
    requires
        scan_fields(record_layout(), 0, s) matches Scan::Done { value: values, rest } && (
        float_list(rest) matches Listing::Done { items, rest: after } && items.len()
            != values[10]),
    ensures
        record_text_result(s) == Err::<(RecordModel, Seq<char>), ASPMatchError>(
            ASPMatchError::SchemaMismatch,
        ),
{
}

/// A match text whose header reads well, and whose record lines read well
/// but are not as many as the header declares, is refused as a schema
/// mismatch.
pub proof fn lemma_record_count_mismatch_rejected(s: Seq<char>)
    requires
        parse_header_text(s) matches Some((size_1, size_2, body)) && (record_lines(
            body,
        ) matches Listing::Done { items, rest } && items.len() != size_1 + size_2),
    ensures
        parse_match_text(s) == Err::<(MatchModel, Seq<char>), ASPMatchError>(
            ASPMatchError::SchemaMismatch,
        ),
{
}

} // verus!
