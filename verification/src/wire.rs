//! The fixed-width little-endian readers of the binary form. nom supplies
//! them; each is taken on trust here, with what its source shows.

use crate::endian::{le_value, to_unsigned32};
use vstd::prelude::*;

verus! {

/// What a little-endian reader of `width` bytes makes of `input`: nothing when
/// fewer bytes are there, else the value of the first `width` bytes together
/// with the bytes that follow them.
pub open spec fn le_read(input: Seq<u8>, width: nat) -> Option<(nat, Seq<u8>)> {
    if input.len() < width {
        None
    } else {
        Some((le_value(input.take(width as int)), input.skip(width as int)))
    }
}

/// nom's `number::complete::le_u8`: fails on empty input, else yields the
/// first byte and the input after it.
#[verifier::external_body]
pub(crate) fn read_u8<'a>(input: &'a [u8]) -> (r: Option<(&'a [u8], u8)>)
    ensures
        match r {
            Some((rest, v)) => le_read(input@, 1) == Some((v as nat, rest@)),
            None => le_read(input@, 1) is None,
        },
{
    match nom::number::complete::le_u8::<&[u8], nom::error::Error<&[u8]>>(input) {
        Ok((rest, v)) => Some((rest, v)),
        Err(_) => None,
    }
}

/// nom's `number::complete::le_u32`: fails on fewer than four bytes, else
/// yields the sum of byte `i` shifted left by `8 * i` over the first four
/// bytes, and the input after them.
#[verifier::external_body]
pub(crate) fn read_u32<'a>(input: &'a [u8]) -> (r: Option<(&'a [u8], u32)>)
    ensures
        match r {
            Some((rest, v)) => le_read(input@, 4) == Some((v as nat, rest@)),
            None => le_read(input@, 4) is None,
        },
{
    match nom::number::complete::le_u32::<&[u8], nom::error::Error<&[u8]>>(input) {
        Ok((rest, v)) => Some((rest, v)),
        Err(_) => None,
    }
}

/// nom's `number::complete::le_i32`: reads as `le_u32` does and reinterprets
/// the 32-bit pattern as a signed integer.
#[verifier::external_body]
pub(crate) fn read_i32<'a>(input: &'a [u8]) -> (r: Option<(&'a [u8], i32)>)
    ensures
        match r {
            Some((rest, v)) => le_read(input@, 4) == Some((to_unsigned32(v as int), rest@)),
            None => le_read(input@, 4) is None,
        },
{
    match nom::number::complete::le_i32::<&[u8], nom::error::Error<&[u8]>>(input) {
        Ok((rest, v)) => Some((rest, v)),
        Err(_) => None,
    }
}

/// nom's `number::complete::le_u64`: fails on fewer than eight bytes, else
/// yields the sum of byte `i` shifted left by `8 * i` over the first eight
/// bytes, and the input after them.
#[verifier::external_body]
pub(crate) fn read_u64<'a>(input: &'a [u8]) -> (r: Option<(&'a [u8], u64)>)
    ensures
        match r {
            Some((rest, v)) => le_read(input@, 8) == Some((v as nat, rest@)),
            None => le_read(input@, 8) is None,
        },
{
    match nom::number::complete::le_u64::<&[u8], nom::error::Error<&[u8]>>(input) {
        Ok((rest, v)) => Some((rest, v)),
        Err(_) => None,
    }
}

/// nom's `number::complete::le_f32`: reads as `le_u32` does and makes the
/// float that has this bit pattern. The float is handed on as its bits, so
/// the result is the pattern that was read.
#[verifier::external_body]
pub(crate) fn read_float_bits<'a>(input: &'a [u8]) -> (r: Option<(&'a [u8], u32)>)
    ensures
        match r {
            Some((rest, bits)) => le_read(input@, 4) == Some((bits as nat, rest@)),
            None => le_read(input@, 4) is None,
        },
{
    match nom::number::complete::le_f32::<&[u8], nom::error::Error<&[u8]>>(input) {
        Ok((rest, v)) => Some((rest, v.to_bits())),
        Err(_) => None,
    }
}

} // verus!
