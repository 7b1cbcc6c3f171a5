//! The tokens of the text form: numbers, blanks and line breaks. nom reads
//! them, and a float is written by its `Display`; each call is taken on trust
//! here, with what the source shows of it.

use crate::decimal::{digit_run, digits_value};
use vstd::prelude::*;

verus! {

/// `c` is a space or a tab.
pub open spec fn is_blank(c: char) -> bool {
    c == ' ' || c == '\t'
}

/// The number of blanks that `s` begins with.
pub open spec fn blank_run(s: Seq<char>) -> nat
    decreases s.len(),
{
    if s.len() > 0 && is_blank(s[0]) {
        1 + blank_run(s.skip(1))
    } else {
        0
    }
}

/// The length of the line break that `s` begins with, a line feed or a
/// carriage return and a line feed; zero when it begins with neither.
pub open spec fn line_break_len(s: Seq<char>) -> nat {
    if s.len() >= 1 && s[0] == '\n' {
        1
    } else if s.len() >= 2 && s[0] == '\r' && s[1] == '\n' {
        2
    } else {
        0
    }
}

/// `s` is empty or begins with a line feed: a line may end before it.
pub open spec fn line_end(s: Seq<char>) -> bool {
    s.len() == 0 || s[0] == '\n'
}

/// What a reader of blanks makes of `input`: the input after its leading
/// blanks, or nothing when it begins with none.
pub open spec fn blank_token(input: Seq<char>) -> Option<Seq<char>> {
    if blank_run(input) == 0 {
        None
    } else {
        Some(input.skip(blank_run(input) as int))
    }
}

/// What a reader of a line break makes of `input`: the input after the line
/// break that it begins with, or nothing when it begins with none.
pub open spec fn line_break_token(input: Seq<char>) -> Option<Seq<char>> {
    if line_break_len(input) == 0 {
        None
    } else {
        Some(input.skip(line_break_len(input) as int))
    }
}

/// What a reader of an unsigned decimal makes of `input`: the value of all
/// the digits that it begins with, and the input after them; nothing when it
/// begins with no digit, or when the value exceeds `max`.
pub open spec fn unsigned_token(input: Seq<char>, max: nat) -> Option<(nat, Seq<char>)> {
    let k = digit_run(input);
    let v = digits_value(input.take(k as int));
    if k == 0 || v > max {
        None
    } else {
        Some((v, input.skip(k as int)))
    }
}

/// What a reader of a signed decimal makes of `input`: an optional `-` or
/// `+`, then all the digits that follow, read as by `unsigned_token` and
/// negated after `-`; nothing when no digit follows, or when the value lies
/// outside `min ..= max`.
pub open spec fn signed_token(input: Seq<char>, min: int, max: int) -> Option<(int, Seq<char>)> {
    let negative = input.len() > 0 && input[0] == '-';
    let positive = input.len() > 0 && input[0] == '+';
    let body = if negative || positive {
        input.skip(1)
    } else {
        input
    };
    let k = digit_run(body);
    let magnitude = digits_value(body.take(k as int));
    let v = if negative {
        -magnitude
    } else {
        magnitude as int
    };
    if k == 0 || v < min || v > max {
        None
    } else {
        Some((v, body.skip(k as int)))
    }
}

/// What a reader of a float makes of its input.
pub enum FloatToken {
    /// A float stands at the start: its bit pattern, and how many characters
    /// it takes.
    Value { bits: u32, len: nat },
    /// No float stands at the start; a reader of alternatives may go on.
    Absent,
    /// A float began and broke off; no alternative is to be tried.
    Broken,
}

/// An executable reader's outcome: the rest of the input and the value read,
/// or one of the two ways to fail.
pub(crate) enum FloatRead<'a> {
    Value(&'a str, u32),
    Absent,
    Broken,
}

/// What nom's `number::complete::float` makes of `input`, the float taken by
/// its bit pattern.
pub uninterp spec fn float_token(input: Seq<char>) -> FloatToken;

/// The text that `Display` writes for the single-precision float with the bit
/// pattern `bits`.
pub uninterp spec fn float_text(bits: u32) -> Seq<char>;

/// nom's `character::complete::space1`: takes all leading spaces and tabs,
/// and fails when there is none.
#[verifier::external_body]
pub(crate) fn read_blanks<'a>(input: &'a str) -> (r: Option<&'a str>)
    ensures
        match r {
            Some(rest) => blank_token(input@) == Some(rest@),
            None => blank_token(input@) is None,
        },
{
    match nom::character::complete::space1::<&str, nom::error::Error<&str>>(input) {
        Ok((rest, _)) => Some(rest),
        Err(_) => None,
    }
}

/// nom's `character::complete::line_ending`: takes a leading `"\n"` or
/// `"\r\n"`, and fails when the input begins with neither.
#[verifier::external_body]
pub(crate) fn read_line_break<'a>(input: &'a str) -> (r: Option<&'a str>)
    ensures
        match r {
            Some(rest) => line_break_token(input@) == Some(rest@),
            None => line_break_token(input@) is None,
        },
{
    match nom::character::complete::line_ending::<&str, nom::error::Error<&str>>(input) {
        Ok((rest, _)) => Some(rest),
        Err(_) => None,
    }
}

/// nom's `character::complete::u8`: reads all leading digits as a decimal,
/// and fails when there is none or when the value does not fit.
#[verifier::external_body]
pub(crate) fn read_u8_text<'a>(input: &'a str) -> (r: Option<(&'a str, u8)>)
    ensures
        match r {
            Some((rest, v)) => unsigned_token(input@, u8::MAX as nat) == Some((v as nat, rest@)),
            None => unsigned_token(input@, u8::MAX as nat) is None,
        },
{
    match nom::character::complete::u8::<&str, nom::error::Error<&str>>(input) {
        Ok((rest, v)) => Some((rest, v)),
        Err(_) => None,
    }
}

/// nom's `character::complete::u32`: reads all leading digits as a decimal,
/// and fails when there is none or when the value does not fit.
#[verifier::external_body]
pub(crate) fn read_u32_text<'a>(input: &'a str) -> (r: Option<(&'a str, u32)>)
    ensures
        match r {
            Some((rest, v)) => unsigned_token(input@, u32::MAX as nat) == Some((v as nat, rest@)),
            None => unsigned_token(input@, u32::MAX as nat) is None,
        },
{
    match nom::character::complete::u32::<&str, nom::error::Error<&str>>(input) {
        Ok((rest, v)) => Some((rest, v)),
        Err(_) => None,
    }
}

/// nom's `character::complete::u64`: reads all leading digits as a decimal,
/// and fails when there is none or when the value does not fit.
#[verifier::external_body]
pub(crate) fn read_u64_text<'a>(input: &'a str) -> (r: Option<(&'a str, u64)>)
    ensures
        match r {
            Some((rest, v)) => unsigned_token(input@, u64::MAX as nat) == Some((v as nat, rest@)),
            None => unsigned_token(input@, u64::MAX as nat) is None,
        },
{
    match nom::character::complete::u64::<&str, nom::error::Error<&str>>(input) {
        Ok((rest, v)) => Some((rest, v)),
        Err(_) => None,
    }
}

/// nom's `character::complete::i32`: reads an optional sign and all the
/// digits after it as a decimal, and fails when there is no digit or when
/// the value does not fit.
#[verifier::external_body]
pub(crate) fn read_i32_text<'a>(input: &'a str) -> (r: Option<(&'a str, i32)>)
    ensures
        match r {
            Some((rest, v)) => signed_token(input@, i32::MIN as int, i32::MAX as int) == Some(
                (v as int, rest@),
            ),
            None => signed_token(input@, i32::MIN as int, i32::MAX as int) is None,
        },
{
    match nom::character::complete::i32::<&str, nom::error::Error<&str>>(input) {
        Ok((rest, v)) => Some((rest, v)),
        Err(_) => None,
    }
}

/// nom's `number::complete::float`: reads a float in text, and tells a
/// recoverable error from a failure. What it reads is named by
/// `float_token`; the rest that it returns is the input without the
/// characters that it took. On an input that is empty or begins with a line
/// feed it finds no float, and the error is recoverable: no sign, digit,
/// point or letter stands there for it to take.
#[verifier::external_body]
pub(crate) fn read_float_text<'a>(input: &'a str) -> (r: FloatRead<'a>)
    ensures
        line_end(input@) ==> r is Absent,
        match r {
            FloatRead::Value(rest, v) => match float_token(input@) {
                FloatToken::Value { bits, len } => bits == v && len <= input@.len() && rest@
                    == input@.skip(len as int),
                _ => false,
            },
            FloatRead::Absent => float_token(input@) == FloatToken::Absent,
            FloatRead::Broken => float_token(input@) == FloatToken::Broken,
        },
{
    match nom::number::complete::float::<&str, nom::error::Error<&str>>(input) {
        Ok((rest, v)) => FloatRead::Value(rest, v.to_bits()),
        Err(nom::Err::Error(_)) => FloatRead::Absent,
        Err(_) => FloatRead::Broken,
    }
}

/// `Display` of a single-precision float, by `to_string`. The float with the
/// bit pattern `bits` is made by nom's `number::complete::le_f32` from the
/// pattern's four little-endian bytes.
#[verifier::external_body]
pub(crate) fn float_to_text(bits: u32) -> (s: String)
    ensures
        s@ == float_text(bits),
{
    let bytes = bits.to_le_bytes();
    match nom::number::complete::le_f32::<&[u8], nom::error::Error<&[u8]>>(&bytes) {
        Ok((_, v)) => v.to_string(),
        Err(_) => String::new(),
    }
}

} // verus!
