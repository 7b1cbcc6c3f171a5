//! The decoders: from bytes or text to a record or a match set, with what is
//! left of the input.

use crate::binary::{
    descriptor_at, parse_match, parse_record, parse_records, DESCRIPTOR_ENTRY_SIZE,
    MINIMUM_RECORD_SIZE,
};
use crate::data::{models, IPMatch, IPRecord, MatchModel, RecordModel};
use crate::endian::{lemma_le_value_bound, lemma_radix_pow_values};
use crate::error::ASPMatchError;
use crate::lexer::{
    read_blanks, read_float_text, read_i32_text, read_line_break, read_u32_text, read_u64_text,
    read_u8_text, FloatRead,
};
use crate::text::{
    float_list, lemma_blank_run_bound, lemma_record_rest_bound, lemma_token_rest_bound,
    more_floats, more_lines, parse_match_text, parse_record_text, record_layout, record_lines,
    record_of, record_text_result, scan_fields, spaced_token, FieldKind, Listing, Scan,
};
use crate::wire::{read_float_bits, read_i32, read_u32, read_u64, read_u8};
use vstd::prelude::*;

verus! {

/// Reads one record from the start of `input`, little-endian, and returns it
/// with the bytes that follow it. The descriptor is read only after its
/// declared count has been held against the bytes that are left.
pub fn iprecord<'a>(input: &'a [u8]) -> (r: Result<(&'a [u8], IPRecord), ASPMatchError>)
    ensures
        match r {
            Ok((rest, record)) => parse_record(input@) == Some((record@, rest@)),
            Err(e) => e == ASPMatchError::TruncatedInput && parse_record(input@) is None,
        },
{
    proof {
        reveal(parse_record);
    }
    let (i, x) = match read_float_bits(input) {
        Some(p) => p,
        None => return Err(ASPMatchError::TruncatedInput),
    };
    let (i, y) = match read_float_bits(i) {
        Some(p) => p,
        None => return Err(ASPMatchError::TruncatedInput),
    };
    let (i, xi) = match read_i32(i) {
        Some(p) => p,
        None => return Err(ASPMatchError::TruncatedInput),
    };
    let (i, yi) = match read_i32(i) {
        Some(p) => p,
        None => return Err(ASPMatchError::TruncatedInput),
    };
    let (i, orientation) = match read_float_bits(i) {
        Some(p) => p,
        None => return Err(ASPMatchError::TruncatedInput),
    };
    let (i, scale) = match read_float_bits(i) {
        Some(p) => p,
        None => return Err(ASPMatchError::TruncatedInput),
    };
    let (i, interest) = match read_float_bits(i) {
        Some(p) => p,
        None => return Err(ASPMatchError::TruncatedInput),
    };
    let (i, polarity) = match read_u8(i) {
        Some(p) => p,
        None => return Err(ASPMatchError::TruncatedInput),
    };
    let (i, octave) = match read_u32(i) {
        Some(p) => p,
        None => return Err(ASPMatchError::TruncatedInput),
    };
    let (i, scale_lvl) = match read_u32(i) {
        Some(p) => p,
        None => return Err(ASPMatchError::TruncatedInput),
    };
    let (body, count) = match read_u64(i) {
        Some(p) => p,
        None => return Err(ASPMatchError::TruncatedInput),
    };
    proof {
        let s = input@;
        assert(s.take(4) =~= s.subrange(0, 4));
        assert(s.skip(4).take(4) =~= s.subrange(4, 8));
        assert(s.skip(4).skip(4) =~= s.skip(8));
        assert(s.skip(8).take(4) =~= s.subrange(8, 12));
        assert(s.skip(8).skip(4) =~= s.skip(12));
        assert(s.skip(12).take(4) =~= s.subrange(12, 16));
        assert(s.skip(12).skip(4) =~= s.skip(16));
        assert(s.skip(16).take(4) =~= s.subrange(16, 20));
        assert(s.skip(16).skip(4) =~= s.skip(20));
        assert(s.skip(20).take(4) =~= s.subrange(20, 24));
        assert(s.skip(20).skip(4) =~= s.skip(24));
        assert(s.skip(24).take(4) =~= s.subrange(24, 28));
        assert(s.skip(24).skip(4) =~= s.skip(28));
        assert(s.skip(28).take(1) =~= s.subrange(28, 29));
        assert(s.skip(28).skip(1) =~= s.skip(29));
        assert(s.skip(29).take(4) =~= s.subrange(29, 33));
        assert(s.skip(29).skip(4) =~= s.skip(33));
        assert(s.skip(33).take(4) =~= s.subrange(33, 37));
        assert(s.skip(33).skip(4) =~= s.skip(37));
        assert(s.skip(37).take(8) =~= s.subrange(37, 45));
        assert(s.skip(37).skip(8) =~= s.skip(45));
        assert(body@ == s.skip(45));
    }
    if count > (body.len() / DESCRIPTOR_ENTRY_SIZE) as u64 {
        return Err(ASPMatchError::TruncatedInput);
    }
    let n: usize = count as usize;
    let mut desc: Vec<u32> = Vec::new();
    let mut cur: &[u8] = body;
    let mut k: usize = 0;
    while k < n
        invariant
            k <= n,
            input@.len() >= MINIMUM_RECORD_SIZE + DESCRIPTOR_ENTRY_SIZE * n,
            cur@ == input@.skip(MINIMUM_RECORD_SIZE + DESCRIPTOR_ENTRY_SIZE * k),
            desc@ == descriptor_at(input@, k as nat),
        decreases n - k,
    {
        let ghost at: int = MINIMUM_RECORD_SIZE + DESCRIPTOR_ENTRY_SIZE * k;
        proof {
            assert(cur@.take(4) =~= input@.subrange(at, at + 4));
            assert(cur@.skip(4) =~= input@.skip(at + 4));
        }
        match read_float_bits(cur) {
            Some((next, bits)) => {
                desc.push(bits);
                cur = next;
            },
            None => {
                return Err(ASPMatchError::TruncatedInput);
            },
        }
        proof {
            assert(desc@ =~= descriptor_at(input@, (k + 1) as nat));
        }
        k += 1;
    }
    let record = IPRecord {
        x,
        y,
        xi,
        yi,
        orientation,
        scale,
        interest,
        polarity,
        octave,
        scale_lvl,
        desc,
    };
    proof {
        lemma_radix_pow_values();
        lemma_le_value_bound(input@.subrange(28, 29));
    }
    Ok((cur, record))
}

/// Reads `n` records from the start of `input`, one after the other.
fn iprecords<'a>(input: &'a [u8], n: usize) -> (r: Option<(&'a [u8], Vec<IPRecord>)>)
    ensures
        match r {
            Some((rest, records)) => parse_records(input@, n as nat) == Some(
                (models(records@), rest@),
            ),
            None => parse_records(input@, n as nat) is None,
        },
{
    let mut records: Vec<IPRecord> = Vec::new();
    let mut cur: &[u8] = input;
    let mut k: usize = 0;
    while k < n
        invariant
            k <= n,
            match parse_records(cur@, (n - k) as nat) {
                Some((rs, after)) => parse_records(input@, n as nat) == Some(
                    (models(records@) + rs, after),
                ),
                None => parse_records(input@, n as nat) is None,
            },
        decreases n - k,
    {
        let ghost before = models(records@);
        match iprecord(cur) {
            Ok((next, record)) => {
                proof {
                    match parse_records(next@, (n - k - 1) as nat) {
                        Some((rs, after)) => {
                            assert(before.push(record@) + rs =~= before + (seq![record@] + rs));
                        },
                        None => {},
                    }
                }
                records.push(record);
                cur = next;
                assert(models(records@) =~= before.push(record@));
            },
            Err(_) => {
                return None;
            },
        }
        k += 1;
    }
    assert(models(records@) + Seq::<RecordModel>::empty() =~= models(records@));
    Some((cur, records))
}

/// Reads a match set from the start of `input`, little-endian, and returns it
/// with the bytes that follow it. The two declared record counts are held
/// against the length of what follows them before any record is read.
pub fn ipmatch<'a>(input: &'a [u8]) -> (r: Result<(&'a [u8], IPMatch), ASPMatchError>)
    ensures
        match r {
            Ok((rest, m)) => parse_match(input@) == Ok::<(MatchModel, Seq<u8>), ASPMatchError>(
                (m@, rest@),
            ),
            Err(e) => parse_match(input@) == Err::<(MatchModel, Seq<u8>), ASPMatchError>(e),
        },
{
    let (i, size_1) = match read_u64(input) {
        Some(p) => p,
        None => return Err(ASPMatchError::TruncatedInput),
    };
    let (body, size_2) = match read_u64(i) {
        Some(p) => p,
        None => return Err(ASPMatchError::TruncatedInput),
    };
    proof {
        let s = input@;
        assert(s.take(8) =~= s.subrange(0, 8));
        assert(s.skip(8).take(8) =~= s.subrange(8, 16));
        assert(s.skip(8).skip(8) =~= s.skip(16));
    }
    let limit: u64 = (body.len() / MINIMUM_RECORD_SIZE) as u64;
    if size_1 > limit || size_2 > limit - size_1 {
        return Err(ASPMatchError::HeaderSizeImplausible);
    }
    let (rest, image_1) = match iprecords(body, size_1 as usize) {
        Some(p) => p,
        None => return Err(ASPMatchError::TruncatedInput),
    };
    let (after, image_2) = match iprecords(rest, size_2 as usize) {
        Some(p) => p,
        None => return Err(ASPMatchError::TruncatedInput),
    };
    Ok((after, IPMatch { image_1, image_2 }))
}

/// Decodes a whole binary match file held in memory. Bytes after the last
/// declared record are not looked at.
pub fn decode_binary(bytes: &[u8]) -> (r: Result<IPMatch, ASPMatchError>)
    ensures
        match r {
            Ok(m) => parse_match(bytes@) matches Ok((value, rest)) && value == m@,
            Err(e) => parse_match(bytes@) == Err::<(MatchModel, Seq<u8>), ASPMatchError>(e),
        },
{
    match ipmatch(bytes) {
        Ok((_, m)) => Ok(m),
        Err(e) => Err(e),
    }
}

/// What reading one item from text yields: the text after it and the item,
/// or one of the two ways to fail.
enum Step<'a, T> {
    /// The item, and the text after it.
    Done(&'a str, T),
    /// No such item stands here; a list that asked for one more ends.
    Error(ASPMatchError),
    /// An item began and broke off.
    Failure,
}

/// Reads a float and the blanks after it.
fn float_field<'a>(input: &'a str) -> (r: Step<'a, u32>)
    ensures
        match r {
            Step::Done(rest, v) => spaced_token(FieldKind::Float, input@) == (Scan::Done {
                value: v as int,
                rest: rest@,
            }),
            Step::Error(e) => spaced_token(FieldKind::Float, input@) == Scan::<int>::Error(e),
            Step::Failure => spaced_token(FieldKind::Float, input@) == Scan::<int>::Failure,
        },
{
    match read_float_text(input) {
        FloatRead::Value(after, bits) => match read_blanks(after) {
            Some(rest) => Step::Done(rest, bits),
            None => Step::Error(ASPMatchError::MalformedText),
        },
        FloatRead::Absent => Step::Error(ASPMatchError::MalformedText),
        FloatRead::Broken => Step::Failure,
    }
}

/// Reads a signed 32-bit decimal and the blanks after it.
fn signed_field<'a>(input: &'a str) -> (r: Step<'a, i32>)
    ensures
        match r {
            Step::Done(rest, v) => spaced_token(FieldKind::Signed, input@) == (Scan::Done {
                value: v as int,
                rest: rest@,
            }),
            Step::Error(e) => spaced_token(FieldKind::Signed, input@) == Scan::<int>::Error(e),
            Step::Failure => false,
        },
{
    match read_i32_text(input) {
        Some((after, v)) => match read_blanks(after) {
            Some(rest) => Step::Done(rest, v),
            None => Step::Error(ASPMatchError::MalformedText),
        },
        None => Step::Error(ASPMatchError::MalformedText),
    }
}

/// Reads an unsigned 8-bit decimal and the blanks after it.
fn byte_field<'a>(input: &'a str) -> (r: Step<'a, u8>)
    ensures
        match r {
            Step::Done(rest, v) => spaced_token(FieldKind::Byte, input@) == (Scan::Done {
                value: v as int,
                rest: rest@,
            }),
            Step::Error(e) => spaced_token(FieldKind::Byte, input@) == Scan::<int>::Error(e),
            Step::Failure => false,
        },
{
    match read_u8_text(input) {
        Some((after, v)) => match read_blanks(after) {
            Some(rest) => Step::Done(rest, v),
            None => Step::Error(ASPMatchError::MalformedText),
        },
        None => Step::Error(ASPMatchError::MalformedText),
    }
}

/// Reads an unsigned 32-bit decimal and the blanks after it.
fn word_field<'a>(input: &'a str) -> (r: Step<'a, u32>)
    ensures
        match r {
            Step::Done(rest, v) => spaced_token(FieldKind::Word, input@) == (Scan::Done {
                value: v as int,
                rest: rest@,
            }),
            Step::Error(e) => spaced_token(FieldKind::Word, input@) == Scan::<int>::Error(e),
            Step::Failure => false,
        },
{
    match read_u32_text(input) {
        Some((after, v)) => match read_blanks(after) {
            Some(rest) => Step::Done(rest, v),
            None => Step::Error(ASPMatchError::MalformedText),
        },
        None => Step::Error(ASPMatchError::MalformedText),
    }
}

/// Reads an unsigned 64-bit decimal and the blanks after it.
fn count_field<'a>(input: &'a str) -> (r: Step<'a, u64>)
    ensures
        match r {
            Step::Done(rest, v) => spaced_token(FieldKind::Count, input@) == (Scan::Done {
                value: v as int,
                rest: rest@,
            }),
            Step::Error(e) => spaced_token(FieldKind::Count, input@) == Scan::<int>::Error(e),
            Step::Failure => false,
        },
{
    match read_u64_text(input) {
        Some((after, v)) => match read_blanks(after) {
            Some(rest) => Step::Done(rest, v),
            None => Step::Error(ASPMatchError::MalformedText),
        },
        None => Step::Error(ASPMatchError::MalformedText),
    }
}

/// Reads a list of floats parted by blanks; `None` when one of them broke
/// off.
fn descriptor_list<'a>(input: &'a str) -> (r: Option<(&'a str, Vec<u32>)>)
    ensures
        match r {
            Some((rest, items)) => float_list(input@) == (Listing::Done {
                items: items@,
                rest: rest@,
            }),
            None => float_list(input@) == Listing::<u32>::Failure,
        },
{
    let mut items: Vec<u32> = Vec::new();
    let mut cur: &str = input;
    match read_float_text(input) {
        FloatRead::Value(after, bits) => {
            items.push(bits);
            cur = after;
        },
        FloatRead::Absent => {
            return Some((input, items));
        },
        FloatRead::Broken => {
            return None;
        },
    }
    assert(items@ =~= seq![items@[0]]);
    loop
        invariant
            more_floats(cur@, items@) == float_list(input@),
        decreases cur@.len(),
    {
        proof {
            lemma_blank_run_bound(cur@);
        }
        let after = match read_blanks(cur) {
            Some(after) => after,
            None => {
                return Some((cur, items));
            },
        };
        proof {
            lemma_token_rest_bound(FieldKind::Float, after@);
        }
        match read_float_text(after) {
            FloatRead::Value(rest, bits) => {
                items.push(bits);
                cur = rest;
            },
            FloatRead::Absent => {
                return Some((cur, items));
            },
            FloatRead::Broken => {
                return None;
            },
        }
    }
}

/// Reads one record line from the start of `input`.
fn record_line<'a>(input: &'a str) -> (r: Step<'a, IPRecord>)
    ensures
        match r {
            Step::Done(rest, record) => parse_record_text(input@) == (Scan::Done {
                value: record@,
                rest: rest@,
            }),
            Step::Error(e) => parse_record_text(input@) == Scan::<RecordModel>::Error(e),
            Step::Failure => parse_record_text(input@) == Scan::<RecordModel>::Failure,
        },
{
    proof {
        reveal_with_fuel(scan_fields, 12);
    }
    let (i, x) = match float_field(input) {
        Step::Done(rest, v) => (rest, v),
        Step::Error(e) => return Step::Error(e),
        Step::Failure => return Step::Failure,
    };
    let (i, y) = match float_field(i) {
        Step::Done(rest, v) => (rest, v),
        Step::Error(e) => return Step::Error(e),
        Step::Failure => return Step::Failure,
    };
    let (i, xi) = match signed_field(i) {
        Step::Done(rest, v) => (rest, v),
        Step::Error(e) => return Step::Error(e),
        Step::Failure => return Step::Failure,
    };
    let (i, yi) = match signed_field(i) {
        Step::Done(rest, v) => (rest, v),
        Step::Error(e) => return Step::Error(e),
        Step::Failure => return Step::Failure,
    };
    let (i, orientation) = match float_field(i) {
        Step::Done(rest, v) => (rest, v),
        Step::Error(e) => return Step::Error(e),
        Step::Failure => return Step::Failure,
    };
    let (i, scale) = match float_field(i) {
        Step::Done(rest, v) => (rest, v),
        Step::Error(e) => return Step::Error(e),
        Step::Failure => return Step::Failure,
    };
    let (i, interest) = match float_field(i) {
        Step::Done(rest, v) => (rest, v),
        Step::Error(e) => return Step::Error(e),
        Step::Failure => return Step::Failure,
    };
    let (i, polarity) = match byte_field(i) {
        Step::Done(rest, v) => (rest, v),
        Step::Error(e) => return Step::Error(e),
        Step::Failure => return Step::Failure,
    };
    let (i, octave) = match word_field(i) {
        Step::Done(rest, v) => (rest, v),
        Step::Error(e) => return Step::Error(e),
        Step::Failure => return Step::Failure,
    };
    let (i, scale_lvl) = match word_field(i) {
        Step::Done(rest, v) => (rest, v),
        Step::Error(e) => return Step::Error(e),
        Step::Failure => return Step::Failure,
    };
    let (i, count) = match count_field(i) {
        Step::Done(rest, v) => (rest, v),
        Step::Error(e) => return Step::Error(e),
        Step::Failure => return Step::Failure,
    };
    let ghost values = seq![
        x as int,
        y as int,
        xi as int,
        yi as int,
        orientation as int,
        scale as int,
        interest as int,
        polarity as int,
        octave as int,
        scale_lvl as int,
        count as int,
    ];
    proof {
        match scan_fields(record_layout(), 0, input@) {
            Scan::Done { value, rest } => {
                assert(value =~= values);
                assert(rest == i@);
            },
            _ => {
                assert(false);
            },
        }
    }
    let (rest, desc) = match descriptor_list(i) {
        Some(p) => p,
        None => return Step::Failure,
    };
    let desc = match checked_descriptor(count, desc) {
        Ok(desc) => desc,
        Err(e) => return Step::Error(e),
    };
    let record = IPRecord {
        x,
        y,
        xi,
        yi,
        orientation,
        scale,
        interest,
        polarity,
        octave,
        scale_lvl,
        desc,
    };
    assert(record@ == record_of(values, desc@));
    Step::Done(rest, record)
}

/// The rule of a record line: the descriptor that was read is accepted when
/// it has as many entries as the line declares, and is a schema mismatch
/// otherwise.
pub fn checked_descriptor(declared: u64, desc: Vec<u32>) -> (r: Result<Vec<u32>, ASPMatchError>)
    ensures
        desc@.len() == declared ==> r == Ok::<Vec<u32>, ASPMatchError>(desc),
        desc@.len() != declared ==> r == Err::<Vec<u32>, ASPMatchError>(
            ASPMatchError::SchemaMismatch,
        ),
{
    if desc.len() as u64 == declared {
        Ok(desc)
    } else {
        Err(ASPMatchError::SchemaMismatch)
    }
}

/// The rule of a match text: the records that were read are accepted when
/// they are as many as the two counts of the header together, and are a
/// schema mismatch otherwise. The first `size_1` of them become `image_1`,
/// the others `image_2`.
pub fn split_records(size_1: u64, size_2: u64, records: Vec<IPRecord>) -> (r: Result<
    IPMatch,
    ASPMatchError,
>)
    ensures
        match r {
            Ok(m) => {
                &&& records@.len() == size_1 + size_2
                &&& m.image_1@ == records@.take(size_1 as int)
                &&& m.image_2@ == records@.skip(size_1 as int)
            },
            Err(e) => e == ASPMatchError::SchemaMismatch && records@.len() != size_1 + size_2,
        },
{
    let mut records = records;
    let found: u64 = records.len() as u64;
    if size_1 > found || size_2 != found - size_1 {
        return Err(ASPMatchError::SchemaMismatch);
    }
    let ghost all = records@;
    let image_2 = records.split_off(size_1 as usize);
    assert(records@ =~= all.take(size_1 as int));
    assert(image_2@ =~= all.skip(size_1 as int));
    Ok(IPMatch { image_1: records, image_2 })
}

/// Reads one record line from the start of `input` and returns the record
/// with the text that follows it. The fields are parted by blanks; the
/// number of descriptor entries on the line must be the count that the line
/// declares.
pub fn iprecord_text<'a>(input: &'a str) -> (r: Result<(&'a str, IPRecord), ASPMatchError>)
    ensures
        match r {
            Ok((rest, record)) => record_text_result(input@) == Ok::<
                (RecordModel, Seq<char>),
                ASPMatchError,
            >((record@, rest@)),
            Err(e) => record_text_result(input@) == Err::<(RecordModel, Seq<char>), ASPMatchError>(
                e,
            ),
        },
{
    match record_line(input) {
        Step::Done(rest, record) => Ok((rest, record)),
        Step::Error(e) => Err(e),
        Step::Failure => Err(ASPMatchError::MalformedText),
    }
}

/// Reads a list of record lines parted by line breaks; `None` when a number
/// in one of them broke off.
fn record_list<'a>(input: &'a str) -> (r: Option<(&'a str, Vec<IPRecord>)>)
    ensures
        match r {
            Some((rest, records)) => record_lines(input@) == (Listing::Done {
                items: models(records@),
                rest: rest@,
            }),
            None => record_lines(input@) == Listing::<RecordModel>::Failure,
        },
{
    let mut records: Vec<IPRecord> = Vec::new();
    let mut cur: &str = input;
    match record_line(input) {
        Step::Done(after, record) => {
            records.push(record);
            cur = after;
        },
        Step::Error(_) => {
            assert(models(records@) =~= Seq::<RecordModel>::empty());
            return Some((input, records));
        },
        Step::Failure => {
            return None;
        },
    }
    assert(models(records@) =~= seq![records@[0]@]);
    loop
        invariant
            more_lines(cur@, models(records@)) == record_lines(input@),
        decreases cur@.len(),
    {
        let after = match read_line_break(cur) {
            Some(after) => after,
            None => {
                return Some((cur, records));
            },
        };
        proof {
            lemma_record_rest_bound(after@);
        }
        let ghost before = models(records@);
        match record_line(after) {
            Step::Done(rest, record) => {
                records.push(record);
                cur = rest;
                assert(models(records@) =~= before.push(record@));
            },
            Step::Error(_) => {
                return Some((cur, records));
            },
            Step::Failure => {
                return None;
            },
        }
    }
}

/// Reads a match set from the start of `input` and returns it with the text
/// that follows it: the header line with the two record counts, then record
/// lines parted by line breaks, which must be as many as the header
/// declares.
pub fn ipmatch_text<'a>(input: &'a str) -> (r: Result<(&'a str, IPMatch), ASPMatchError>)
    ensures
        match r {
            Ok((rest, m)) => parse_match_text(input@) == Ok::<
                (MatchModel, Seq<char>),
                ASPMatchError,
            >((m@, rest@)),
            Err(e) => parse_match_text(input@) == Err::<(MatchModel, Seq<char>), ASPMatchError>(e),
        },
{
    let (i, size_1) = match read_u64_text(input) {
        Some(p) => p,
        None => return Err(ASPMatchError::MalformedText),
    };
    let i = match read_blanks(i) {
        Some(rest) => rest,
        None => return Err(ASPMatchError::MalformedText),
    };
    let (i, size_2) = match read_u64_text(i) {
        Some(p) => p,
        None => return Err(ASPMatchError::MalformedText),
    };
    let body = match read_line_break(i) {
        Some(rest) => rest,
        None => return Err(ASPMatchError::MalformedText),
    };
    let (rest, records) = match record_list(body) {
        Some(p) => p,
        None => return Err(ASPMatchError::MalformedText),
    };
    let ghost all = models(records@);
    match split_records(size_1, size_2, records) {
        Ok(m) => {
            proof {
                assert(m@.image_1 =~= all.take(size_1 as int));
                assert(m@.image_2 =~= all.skip(size_1 as int));
            }
            Ok((rest, m))
        },
        Err(e) => Err(e),
    }
}

/// Decodes a whole text match file held in memory. Text after the last
/// record line that was read is not looked at.
pub fn decode_text(text: &str) -> (r: Result<IPMatch, ASPMatchError>)
    ensures
        match r {
            Ok(m) => parse_match_text(text@) matches Ok((value, rest)) && value == m@,
            Err(e) => parse_match_text(text@) == Err::<(MatchModel, Seq<char>), ASPMatchError>(e),
        },
{
    match ipmatch_text(text) {
        Ok((_, m)) => Ok(m),
        Err(e) => Err(e),
    }
}

} // verus!
