//! The binary form, stated over byte sequences: what a record and a match set
//! encode to, and what a byte sequence decodes to.
//!
//! ```text
//! u64 size_1, u64 size_2, size_1 records, size_2 records
//! record: x y xi yi orientation scale interest (4 bytes each), polarity (1),
//!         octave scale_lvl (4 each), descriptor count (8), the descriptor (4 each)
//! ```
//! All integers are little-endian.

use crate::data::{MatchModel, RecordModel};
use crate::endian::{le_bytes, le_value, to_signed32, to_unsigned32};
use crate::error::ASPMatchError;
use vstd::prelude::*;

verus! {

/// Size of an encoded record without descriptor entries: the smallest record.
pub const MINIMUM_RECORD_SIZE: usize = 45;

/// Size of one encoded descriptor entry.
pub const DESCRIPTOR_ENTRY_SIZE: usize = 4;

/// Size of the two record counts that open a match file.
pub const MATCH_HEADER_SIZE: usize = 16;

/// The encoded descriptor entries, in order.
pub open spec fn descriptor_bytes(d: Seq<u32>) -> Seq<u8>
    decreases d.len(),
{
    if d.len() == 0 {
        Seq::<u8>::empty()
    } else {
        descriptor_bytes(d.drop_last()) + le_bytes(d.last() as nat, 4)
    }
}

/// The fixed fields of a record, the descriptor count among them.
#[verifier::opaque]
pub open spec fn record_header_bytes(r: RecordModel) -> Seq<u8> {
    le_bytes(r.x as nat, 4) + le_bytes(r.y as nat, 4) + le_bytes(to_unsigned32(r.xi as int), 4)
        + le_bytes(to_unsigned32(r.yi as int), 4) + le_bytes(r.orientation as nat, 4) + le_bytes(
        r.scale as nat,
        4,
    ) + le_bytes(r.interest as nat, 4) + le_bytes(r.polarity as nat, 1) + le_bytes(
        r.octave as nat,
        4,
    ) + le_bytes(r.scale_lvl as nat, 4) + le_bytes(r.desc.len(), 8)
}

/// The encoding of a record.
pub open spec fn record_bytes(r: RecordModel) -> Seq<u8> {
    record_header_bytes(r) + descriptor_bytes(r.desc)
}

/// The encodings of the records of a list, one after the other.
pub open spec fn records_bytes(rs: Seq<RecordModel>) -> Seq<u8>
    decreases rs.len(),
{
    if rs.len() == 0 {
        Seq::<u8>::empty()
    } else {
        records_bytes(rs.drop_last()) + record_bytes(rs.last())
    }
}

/// The encoding of a match set.
pub open spec fn match_bytes(m: MatchModel) -> Seq<u8> {
    le_bytes(m.image_1.len(), 8) + le_bytes(m.image_2.len(), 8) + records_bytes(m.image_1)
        + records_bytes(m.image_2)
}

/// The little-endian value of the `width` bytes of `s` from offset `at`.
pub open spec fn field(s: Seq<u8>, at: int, width: int) -> nat {
    le_value(s.subrange(at, at + width))
}

/// The first `n` descriptor entries that follow the fixed fields of the
/// record at the start of `s`.
pub open spec fn descriptor_at(s: Seq<u8>, n: nat) -> Seq<u32> {
    Seq::new(n, |i: int| field(s, MINIMUM_RECORD_SIZE + DESCRIPTOR_ENTRY_SIZE * i, 4) as u32)
}

/// The record at the start of `s` and the bytes after it; `None` when `s` is
/// shorter than the fixed fields, or than the descriptor they declare.
#[verifier::opaque]
pub open spec fn parse_record(s: Seq<u8>) -> Option<(RecordModel, Seq<u8>)> {
    if s.len() < MINIMUM_RECORD_SIZE {
        None
    } else {
        let count = field(s, 37, 8);
        if s.len() - MINIMUM_RECORD_SIZE < DESCRIPTOR_ENTRY_SIZE * count {
            None
        } else {
            Some(
                (
                    RecordModel {
                        x: field(s, 0, 4) as u32,
                        y: field(s, 4, 4) as u32,
                        xi: to_signed32(field(s, 8, 4)) as i32,
                        yi: to_signed32(field(s, 12, 4)) as i32,
                        orientation: field(s, 16, 4) as u32,
                        scale: field(s, 20, 4) as u32,
                        interest: field(s, 24, 4) as u32,
                        polarity: field(s, 28, 1) as u8,
                        octave: field(s, 29, 4) as u32,
                        scale_lvl: field(s, 33, 4) as u32,
                        desc: descriptor_at(s, count),
                    },
                    s.skip(MINIMUM_RECORD_SIZE + DESCRIPTOR_ENTRY_SIZE * count),
                ),
            )
        }
    }
}

/// The `n` records at the start of `s` and the bytes after them; `None` when
/// one of them is cut short.
pub open spec fn parse_records(s: Seq<u8>, n: nat) -> Option<(Seq<RecordModel>, Seq<u8>)>
    decreases n,
{
    if n == 0 {
        Some((Seq::<RecordModel>::empty(), s))
    } else {
        match parse_record(s) {
            None => None,
            Some((r, rest)) => match parse_records(rest, (n - 1) as nat) {
                None => None,
                Some((rs, after)) => Some((seq![r] + rs, after)),
            },
        }
    }
}

/// The two record counts that `s` declares in its first sixteen bytes can be
/// met by what follows them, if every record were of the smallest size.
pub open spec fn header_plausible(s: Seq<u8>) -> bool
    recommends
        s.len() >= MATCH_HEADER_SIZE,
{
    field(s, 0, 8) + field(s, 8, 8) <= (s.len() - MATCH_HEADER_SIZE) / (MINIMUM_RECORD_SIZE as int)
}

/// The match set at the start of `s` and the bytes after it, or the reason
/// why there is none.
pub open spec fn parse_match(s: Seq<u8>) -> Result<(MatchModel, Seq<u8>), ASPMatchError> {
    if s.len() < MATCH_HEADER_SIZE {
        Err(ASPMatchError::TruncatedInput)
    } else if !header_plausible(s) {
        Err(ASPMatchError::HeaderSizeImplausible)
    } else {
        match parse_records(s.skip(MATCH_HEADER_SIZE as int), field(s, 0, 8)) {
            None => Err(ASPMatchError::TruncatedInput),
            Some((image_1, rest)) => match parse_records(rest, field(s, 8, 8)) {
                None => Err(ASPMatchError::TruncatedInput),
                Some((image_2, after)) => Ok((MatchModel { image_1, image_2 }, after)),
            },
        }
    }
}

} // verus!
