//! What holds of the binary form: the size of an encoding, that decoding
//! undoes encoding, and that no cut-short encoding decodes.

use crate::binary::{
    descriptor_at, descriptor_bytes, field, header_plausible, match_bytes, parse_match,
    parse_record, parse_records, record_bytes, record_header_bytes, records_bytes,
    DESCRIPTOR_ENTRY_SIZE, MATCH_HEADER_SIZE, MINIMUM_RECORD_SIZE,
};
use crate::data::{lemma_match_wf, records_wf, IPMatch, MatchModel, RecordModel};
use crate::endian::{
    le_bytes, lemma_le_bytes_len, lemma_le_bytes_of_value, lemma_le_value_bound,
    lemma_le_value_of_bytes, lemma_radix_pow_values, lemma_signed32_inverse, to_signed32,
    to_unsigned32,
};
use crate::error::ASPMatchError;
use vstd::prelude::*;

verus! {

/// The encoded descriptor takes four bytes per entry, and entry `i` stands at
/// offset `4 * i`.
pub proof fn lemma_descriptor_layout(d: Seq<u32>)
    ensures
        descriptor_bytes(d).len() == DESCRIPTOR_ENTRY_SIZE * d.len(),
        forall|i: int|
            0 <= i < d.len() ==> #[trigger] descriptor_bytes(d).subrange(4 * i, 4 * i + 4)
                == le_bytes(d[i] as nat, 4),
    decreases d.len(),
{
    if d.len() > 0 {
        let front = d.drop_last();
        lemma_descriptor_layout(front);
        lemma_le_bytes_len(d.last() as nat, 4);
        let all = descriptor_bytes(d);
        assert forall|i: int| 0 <= i < d.len() implies #[trigger] all.subrange(4 * i, 4 * i + 4)
            == le_bytes(d[i] as nat, 4) by {
            if i < front.len() {
                assert(descriptor_bytes(front).subrange(4 * i, 4 * i + 4) == le_bytes(
                    front[i] as nat,
                    4,
                ));
                assert(all.subrange(4 * i, 4 * i + 4) =~= descriptor_bytes(front).subrange(
                    4 * i,
                    4 * i + 4,
                ));
            } else {
                assert(all.subrange(4 * i, 4 * i + 4) =~= le_bytes(d.last() as nat, 4));
            }
        }
    }
}

/// Where each fixed field stands in an encoded record.
pub proof fn lemma_header_layout(r: RecordModel)
    ensures
        record_header_bytes(r).len() == MINIMUM_RECORD_SIZE,
        record_header_bytes(r).subrange(0, 4) == le_bytes(r.x as nat, 4),
        record_header_bytes(r).subrange(4, 8) == le_bytes(r.y as nat, 4),
        record_header_bytes(r).subrange(8, 12) == le_bytes(to_unsigned32(r.xi as int), 4),
        record_header_bytes(r).subrange(12, 16) == le_bytes(to_unsigned32(r.yi as int), 4),
        record_header_bytes(r).subrange(16, 20) == le_bytes(r.orientation as nat, 4),
        record_header_bytes(r).subrange(20, 24) == le_bytes(r.scale as nat, 4),
        record_header_bytes(r).subrange(24, 28) == le_bytes(r.interest as nat, 4),
        record_header_bytes(r).subrange(28, 29) == le_bytes(r.polarity as nat, 1),
        record_header_bytes(r).subrange(29, 33) == le_bytes(r.octave as nat, 4),
        record_header_bytes(r).subrange(33, 37) == le_bytes(r.scale_lvl as nat, 4),
        record_header_bytes(r).subrange(37, 45) == le_bytes(r.desc.len(), 8),
{
    reveal(record_header_bytes);
    let h = record_header_bytes(r);
    lemma_le_bytes_len(r.x as nat, 4);
    lemma_le_bytes_len(r.y as nat, 4);
    lemma_le_bytes_len(to_unsigned32(r.xi as int), 4);
    lemma_le_bytes_len(to_unsigned32(r.yi as int), 4);
    lemma_le_bytes_len(r.orientation as nat, 4);
    lemma_le_bytes_len(r.scale as nat, 4);
    lemma_le_bytes_len(r.interest as nat, 4);
    lemma_le_bytes_len(r.polarity as nat, 1);
    lemma_le_bytes_len(r.octave as nat, 4);
    lemma_le_bytes_len(r.scale_lvl as nat, 4);
    lemma_le_bytes_len(r.desc.len(), 8);
    assert(h.subrange(0, 4) =~= le_bytes(r.x as nat, 4));
    assert(h.subrange(4, 8) =~= le_bytes(r.y as nat, 4));
    assert(h.subrange(8, 12) =~= le_bytes(to_unsigned32(r.xi as int), 4));
    assert(h.subrange(12, 16) =~= le_bytes(to_unsigned32(r.yi as int), 4));
    assert(h.subrange(16, 20) =~= le_bytes(r.orientation as nat, 4));
    assert(h.subrange(20, 24) =~= le_bytes(r.scale as nat, 4));
    assert(h.subrange(24, 28) =~= le_bytes(r.interest as nat, 4));
    assert(h.subrange(28, 29) =~= le_bytes(r.polarity as nat, 1));
    assert(h.subrange(29, 33) =~= le_bytes(r.octave as nat, 4));
    assert(h.subrange(33, 37) =~= le_bytes(r.scale_lvl as nat, 4));
    assert(h.subrange(37, 45) =~= le_bytes(r.desc.len(), 8));
}

/// An encoded record takes the fixed size and four bytes per descriptor
/// entry.
pub proof fn lemma_record_size(r: RecordModel)
    ensures
        record_bytes(r).len() == MINIMUM_RECORD_SIZE + DESCRIPTOR_ENTRY_SIZE * r.desc.len(),
{
    lemma_header_layout(r);
    lemma_descriptor_layout(r.desc);
}

/// A list of `n` encoded records takes at least `n` times the smallest size.
pub proof fn lemma_records_size(rs: Seq<RecordModel>)
    ensures
        records_bytes(rs).len() >= MINIMUM_RECORD_SIZE * rs.len(),
    decreases rs.len(),
{
    if rs.len() > 0 {
        lemma_records_size(rs.drop_last());
        lemma_record_size(rs.last());
    }
}

/// The encoding of a list is that of its first record followed by that of
/// the others.
pub proof fn lemma_records_bytes_front(rs: Seq<RecordModel>)
    requires
        rs.len() > 0,
    ensures
        records_bytes(rs) == record_bytes(rs[0]) + records_bytes(rs.skip(1)),
    decreases rs.len(),
{
    if rs.len() == 1 {
        assert(rs.drop_last() =~= Seq::<RecordModel>::empty());
        assert(rs.skip(1) =~= Seq::<RecordModel>::empty());
        assert(records_bytes(rs) =~= record_bytes(rs[0]) + records_bytes(rs.skip(1)));
    } else {
        lemma_records_bytes_front(rs.drop_last());
        assert(rs.drop_last().skip(1) =~= rs.skip(1).drop_last());
        assert(rs.skip(1).last() == rs.last());
        assert(records_bytes(rs) =~= record_bytes(rs[0]) + records_bytes(rs.skip(1)));
    }
}

/// On any input that begins with the encoding of `r`, the fixed fields and
/// the descriptor entries read back as those of `r`.
proof fn lemma_fields_read_back(r: RecordModel, tail: Seq<u8>)
    requires
        r.wf(),
    ensures
        ({
            let s = record_bytes(r) + tail;
            &&& field(s, 0, 4) == r.x
            &&& field(s, 4, 4) == r.y
            &&& to_signed32(field(s, 8, 4)) == r.xi
            &&& to_signed32(field(s, 12, 4)) == r.yi
            &&& field(s, 16, 4) == r.orientation
            &&& field(s, 20, 4) == r.scale
            &&& field(s, 24, 4) == r.interest
            &&& field(s, 28, 1) == r.polarity
            &&& field(s, 29, 4) == r.octave
            &&& field(s, 33, 4) == r.scale_lvl
            &&& field(s, 37, 8) == r.desc.len()
            &&& descriptor_at(s, r.desc.len()) == r.desc
        }),
{
    let s = record_bytes(r) + tail;
    let h = record_header_bytes(r);
    lemma_header_layout(r);
    lemma_descriptor_layout(r.desc);
    lemma_radix_pow_values();
    assert(s.subrange(0, 4) =~= h.subrange(0, 4));
    assert(s.subrange(4, 8) =~= h.subrange(4, 8));
    assert(s.subrange(8, 12) =~= h.subrange(8, 12));
    assert(s.subrange(12, 16) =~= h.subrange(12, 16));
    assert(s.subrange(16, 20) =~= h.subrange(16, 20));
    assert(s.subrange(20, 24) =~= h.subrange(20, 24));
    assert(s.subrange(24, 28) =~= h.subrange(24, 28));
    assert(s.subrange(28, 29) =~= h.subrange(28, 29));
    assert(s.subrange(29, 33) =~= h.subrange(29, 33));
    assert(s.subrange(33, 37) =~= h.subrange(33, 37));
    assert(s.subrange(37, 45) =~= h.subrange(37, 45));
    lemma_le_value_of_bytes(r.x as nat, 4);
    lemma_le_value_of_bytes(r.y as nat, 4);
    lemma_signed32_inverse(r.xi as int);
    lemma_le_value_of_bytes(to_unsigned32(r.xi as int), 4);
    lemma_signed32_inverse(r.yi as int);
    lemma_le_value_of_bytes(to_unsigned32(r.yi as int), 4);
    lemma_le_value_of_bytes(r.orientation as nat, 4);
    lemma_le_value_of_bytes(r.scale as nat, 4);
    lemma_le_value_of_bytes(r.interest as nat, 4);
    lemma_le_value_of_bytes(r.polarity as nat, 1);
    lemma_le_value_of_bytes(r.octave as nat, 4);
    lemma_le_value_of_bytes(r.scale_lvl as nat, 4);
    lemma_le_value_of_bytes(r.desc.len(), 8);
    let d = descriptor_bytes(r.desc);
    assert forall|i: int| 0 <= i < r.desc.len() implies descriptor_at(s, r.desc.len())[i]
        == r.desc[i] by {
        assert(d.subrange(4 * i, 4 * i + 4) == le_bytes(r.desc[i] as nat, 4));
        assert(s.subrange(45 + 4 * i, 45 + 4 * i + 4) =~= d.subrange(4 * i, 4 * i + 4));
        lemma_le_value_of_bytes(r.desc[i] as nat, 4);
    }
    assert(descriptor_at(s, r.desc.len()) =~= r.desc);
}

/// Decoding undoes encoding, for a record: on the encoding of `r` followed by
/// any bytes, the decoder yields `r` and those bytes.
pub proof fn lemma_record_roundtrip(r: RecordModel, tail: Seq<u8>)
    requires
        r.wf(),
    ensures
        parse_record(record_bytes(r) + tail) == Some((r, tail)),
{
    reveal(parse_record);
    let s = record_bytes(r) + tail;
    lemma_fields_read_back(r, tail);
    lemma_record_size(r);
    assert(s.skip(MINIMUM_RECORD_SIZE + DESCRIPTOR_ENTRY_SIZE * r.desc.len()) =~= tail);
}

/// The records after the first of a well-formed list are well formed.
proof fn lemma_records_wf_skip(rs: Seq<RecordModel>)
    requires
        records_wf(rs),
        rs.len() > 0,
    ensures
        rs[0].wf(),
        records_wf(rs.skip(1)),
{
    let others = rs.skip(1);
    assert forall|i: int| 0 <= i < others.len() implies (#[trigger] others[i]).wf() by {
        assert(others[i] == rs[i + 1]);
    }
}

/// Decoding undoes encoding, for a list of records followed by any bytes.
pub proof fn lemma_records_roundtrip(rs: Seq<RecordModel>, tail: Seq<u8>)
    requires
        records_wf(rs),
    ensures
        parse_records(records_bytes(rs) + tail, rs.len()) == Some((rs, tail)),
    decreases rs.len(),
{
    let s = records_bytes(rs) + tail;
    if rs.len() == 0 {
        assert(s =~= tail);
        assert(rs =~= Seq::<RecordModel>::empty());
    } else {
        let others = rs.skip(1);
        let after = records_bytes(others) + tail;
        lemma_records_wf_skip(rs);
        assert(s == record_bytes(rs[0]) + after) by {
            lemma_records_bytes_front(rs);
            assert(s =~= record_bytes(rs[0]) + after);
        }
        assert(parse_record(s) == Some((rs[0], after))) by {
            lemma_record_roundtrip(rs[0], after);
        }
        assert(parse_records(after, (rs.len() - 1) as nat) == Some((others, tail))) by {
            lemma_records_roundtrip(others, tail);
        }
        assert(seq![rs[0]] + others =~= rs);
    }
}

/// Decoding undoes encoding: on the encoding of a well-formed match set
/// followed by any bytes, the decoder yields the match set and those bytes.
pub proof fn lemma_match_roundtrip(m: MatchModel, tail: Seq<u8>)
    requires
        m.wf(),
    ensures
        parse_match(match_bytes(m) + tail) == Ok::<(MatchModel, Seq<u8>), ASPMatchError>(
            (m, tail),
        ),
{
    let s = match_bytes(m) + tail;
    let n1 = m.image_1.len();
    let n2 = m.image_2.len();
    let b1 = records_bytes(m.image_1);
    let b2 = records_bytes(m.image_2);
    lemma_le_bytes_len(n1, 8);
    lemma_le_bytes_len(n2, 8);
    lemma_radix_pow_values();
    lemma_le_value_of_bytes(n1, 8);
    lemma_le_value_of_bytes(n2, 8);
    assert(s.subrange(0, 8) =~= le_bytes(n1, 8));
    assert(s.subrange(8, 16) =~= le_bytes(n2, 8));
    lemma_records_size(m.image_1);
    lemma_records_size(m.image_2);
    assert(s.len() == 16 + b1.len() + b2.len() + tail.len());
    assert(header_plausible(s));
    assert(s.skip(MATCH_HEADER_SIZE as int) =~= b1 + (b2 + tail));
    lemma_records_roundtrip(m.image_1, b2 + tail);
    lemma_records_roundtrip(m.image_2, tail);
}

/// A header that declares more records than the whole buffer could hold at
/// the smallest record size is refused as implausible, whatever follows it.
pub proof fn lemma_implausible_header_rejected(s: Seq<u8>)
    requires
        s.len() >= MATCH_HEADER_SIZE,
        field(s, 0, 8) + field(s, 8, 8) > s.len() / (MINIMUM_RECORD_SIZE as nat),
    ensures
        parse_match(s) == Err::<(MatchModel, Seq<u8>), ASPMatchError>(
            ASPMatchError::HeaderSizeImplausible,
        ),
{
}

/// A plausible header whose records are cut short is refused as truncated:
/// the first list does not decode, or it does and the second does not.
pub proof fn lemma_truncated_rejected(s: Seq<u8>)
    requires
        s.len() >= MATCH_HEADER_SIZE,
        header_plausible(s),
        parse_records(s.skip(MATCH_HEADER_SIZE as int), field(s, 0, 8)) matches Some(
            (image_1, rest),
        ) ==> parse_records(rest, field(s, 8, 8)) is None,
    ensures
        parse_match(s) == Err::<(MatchModel, Seq<u8>), ASPMatchError>(
            ASPMatchError::TruncatedInput,
        ),
{
}

/// The match set without records encodes to sixteen zero bytes.
pub proof fn lemma_empty_match_bytes()
    ensures
        match_bytes(
            MatchModel {
                image_1: Seq::<RecordModel>::empty(),
                image_2: Seq::<RecordModel>::empty(),
            },
        ) == Seq::new(16, |i: int| 0u8),
{
    reveal_with_fuel(le_bytes, 9);
    let m = MatchModel {
        image_1: Seq::<RecordModel>::empty(),
        image_2: Seq::<RecordModel>::empty(),
    };
    assert(match_bytes(m) =~= Seq::new(16, |i: int| 0u8));
}

/// No proper prefix of an encoded record decodes.
pub proof fn lemma_record_prefix_rejected(r: RecordModel, k: int)
    requires
        r.wf(),
        0 <= k < record_bytes(r).len(),
    ensures
        parse_record(record_bytes(r).take(k)) is None,
{
    reveal(parse_record);
    let whole = record_bytes(r);
    let s = whole.take(k);
    lemma_record_size(r);
    if k >= MINIMUM_RECORD_SIZE {
        lemma_fields_read_back(r, Seq::<u8>::empty());
        assert(whole + Seq::<u8>::empty() =~= whole);
        assert(s.subrange(37, 45) =~= whole.subrange(37, 45));
    }
}

/// No proper prefix of an encoded list of records decodes as that many
/// records.
pub proof fn lemma_records_prefix_rejected(rs: Seq<RecordModel>, k: int)
    requires
        records_wf(rs),
        0 <= k < records_bytes(rs).len(),
    ensures
        parse_records(records_bytes(rs).take(k), rs.len()) is None,
    decreases rs.len(),
{
    if rs.len() > 0 {
        let first = record_bytes(rs[0]);
        let others = rs.skip(1);
        lemma_records_bytes_front(rs);
        lemma_records_wf_skip(rs);
        let s = records_bytes(rs).take(k);
        if k < first.len() {
            assert(s =~= first.take(k));
            lemma_record_prefix_rejected(rs[0], k);
        } else {
            let cut = records_bytes(others).take(k - first.len());
            assert(s =~= first + cut);
            lemma_record_roundtrip(rs[0], cut);
            lemma_records_prefix_rejected(others, k - first.len());
        }
    }
}

/// No cut-short encoding decodes: a proper prefix of the encoding of a match
/// set is refused, as truncated when it is shorter than the header or when
/// its header is plausible for its length, else as implausible.
pub proof fn lemma_match_prefix_rejected(m: MatchModel, k: int)
    requires
        m.wf(),
        0 <= k < match_bytes(m).len(),
    ensures
        parse_match(match_bytes(m).take(k)) == Err::<(MatchModel, Seq<u8>), ASPMatchError>(
            if k < MATCH_HEADER_SIZE || header_plausible(match_bytes(m).take(k)) {
                ASPMatchError::TruncatedInput
            } else {
                ASPMatchError::HeaderSizeImplausible
            },
        ),
{
    let whole = match_bytes(m);
    let s = whole.take(k);
    let n1 = m.image_1.len();
    let n2 = m.image_2.len();
    let b1 = records_bytes(m.image_1);
    let b2 = records_bytes(m.image_2);
    lemma_le_bytes_len(n1, 8);
    lemma_le_bytes_len(n2, 8);
    if k >= MATCH_HEADER_SIZE && header_plausible(s) {
        lemma_radix_pow_values();
        lemma_le_value_of_bytes(n1, 8);
        lemma_le_value_of_bytes(n2, 8);
        assert(s.subrange(0, 8) =~= le_bytes(n1, 8));
        assert(s.subrange(8, 16) =~= le_bytes(n2, 8));
        let body = s.skip(MATCH_HEADER_SIZE as int);
        let j = k - MATCH_HEADER_SIZE;
        if j < b1.len() {
            assert(body =~= b1.take(j));
            lemma_records_prefix_rejected(m.image_1, j);
        } else {
            let cut = b2.take(j - b1.len());
            assert(body =~= b1 + cut);
            lemma_records_roundtrip(m.image_1, cut);
            lemma_records_prefix_rejected(m.image_2, j - b1.len());
        }
    }
}

/// Decoding undoes encoding, for every match set that memory can hold: the
/// encoding alone decodes to the match set and leaves nothing.
pub proof fn lemma_binary_roundtrip(m: IPMatch)
    ensures
        parse_match(match_bytes(m@)) == Ok::<(MatchModel, Seq<u8>), ASPMatchError>(
            (m@, Seq::<u8>::empty()),
        ),
{
    lemma_match_wf(m);
    lemma_match_roundtrip(m@, Seq::<u8>::empty());
    assert(match_bytes(m@) + Seq::<u8>::empty() =~= match_bytes(m@));
}

/// The bytes of a field, written out again from the value that was read.
proof fn lemma_field_written_back(s: Seq<u8>, at: int, width: int)
    requires
        0 <= at,
        0 <= width,
        at + width <= s.len(),
    ensures
        le_bytes(field(s, at, width), width as nat) == s.subrange(at, at + width),
{
    lemma_le_bytes_of_value(s.subrange(at, at + width));
}

/// The descriptor entries that were read encode to the bytes that they were
/// read from.
proof fn lemma_descriptor_written_back(s: Seq<u8>, n: nat)
    requires
        MINIMUM_RECORD_SIZE + DESCRIPTOR_ENTRY_SIZE * n <= s.len(),
    ensures
        descriptor_bytes(descriptor_at(s, n)) == s.subrange(
            MINIMUM_RECORD_SIZE as int,
            MINIMUM_RECORD_SIZE + DESCRIPTOR_ENTRY_SIZE * n,
        ),
    decreases n,
{
    let d = descriptor_at(s, n);
    if n == 0 {
        assert(descriptor_bytes(d) =~= s.subrange(45, 45));
    } else {
        let at = 45 + 4 * (n - 1);
        lemma_descriptor_written_back(s, (n - 1) as nat);
        assert(d.drop_last() =~= descriptor_at(s, (n - 1) as nat));
        lemma_field_written_back(s, at, 4);
        lemma_le_value_bound(s.subrange(at, at + 4));
        lemma_radix_pow_values();
        assert(descriptor_bytes(d) =~= s.subrange(45, 45 + 4 * (n as int)));
    }
}

/// What the decoder takes is the encoding of what it yields: a decoded
/// record, encoded again and followed by the bytes that were left, is the
/// input.
pub proof fn lemma_record_consumed(s: Seq<u8>)
    requires
        parse_record(s) is Some,
    ensures
        parse_record(s) matches Some((r, rest)) && r.wf() && record_bytes(r) + rest == s,
{
    reveal(parse_record);
    reveal(record_header_bytes);
    let count = field(s, 37, 8);
    match parse_record(s) {
        Some((r, rest)) => {
            lemma_radix_pow_values();
            lemma_le_value_bound(s.subrange(0, 4));
            lemma_le_value_bound(s.subrange(4, 8));
            lemma_le_value_bound(s.subrange(8, 12));
            lemma_le_value_bound(s.subrange(12, 16));
            lemma_le_value_bound(s.subrange(16, 20));
            lemma_le_value_bound(s.subrange(20, 24));
            lemma_le_value_bound(s.subrange(24, 28));
            lemma_le_value_bound(s.subrange(28, 29));
            lemma_le_value_bound(s.subrange(29, 33));
            lemma_le_value_bound(s.subrange(33, 37));
            lemma_le_value_bound(s.subrange(37, 45));
            lemma_field_written_back(s, 0, 4);
            lemma_field_written_back(s, 4, 4);
            lemma_field_written_back(s, 8, 4);
            lemma_field_written_back(s, 12, 4);
            lemma_field_written_back(s, 16, 4);
            lemma_field_written_back(s, 20, 4);
            lemma_field_written_back(s, 24, 4);
            lemma_field_written_back(s, 28, 1);
            lemma_field_written_back(s, 29, 4);
            lemma_field_written_back(s, 33, 4);
            lemma_field_written_back(s, 37, 8);
            lemma_descriptor_written_back(s, count);
            assert(r.desc.len() == count);
            assert(record_header_bytes(r) =~= s.subrange(0, 45));
            assert(record_bytes(r) + rest =~= s);
        },
        None => {},
    }
}

/// What the decoder takes is the encoding of what it yields, for a list of
/// records.
pub proof fn lemma_records_consumed(s: Seq<u8>, n: nat)
    requires
        parse_records(s, n) is Some,
    ensures
        parse_records(s, n) matches Some((rs, rest)) && rs.len() == n && records_wf(rs)
            && records_bytes(rs) + rest == s,
    decreases n,
{
    if n == 0 {
        assert(records_bytes(Seq::<RecordModel>::empty()) + s =~= s);
    } else {
        lemma_record_consumed(s);
        match parse_record(s) {
            Some((r, after)) => {
                lemma_records_consumed(after, (n - 1) as nat);
                match parse_records(after, (n - 1) as nat) {
                    Some((others, rest)) => {
                        let rs = seq![r] + others;
                        assert(rs.skip(1) =~= others);
                        lemma_records_bytes_front(rs);
                        assert(records_bytes(rs) + rest =~= record_bytes(r) + (records_bytes(
                            others,
                        ) + rest));
                        assert forall|i: int| 0 <= i < rs.len() implies (#[trigger] rs[i]).wf() by {
                            if i > 0 {
                                assert(rs[i] == others[i - 1]);
                            }
                        }
                    },
                    None => {},
                }
            },
            None => {},
        }
    }
}

/// What the decoder takes is the encoding of what it yields: a decoded match
/// set, encoded again and followed by the bytes that were left, is the
/// input. So no two inputs that differ before what is left decode alike.
pub proof fn lemma_match_consumed(s: Seq<u8>)
    requires
        parse_match(s) is Ok,
    ensures
        parse_match(s) matches Ok((m, rest)) && m.wf() && match_bytes(m) + rest == s,
{
    let n1 = field(s, 0, 8);
    let n2 = field(s, 8, 8);
    let body = s.skip(MATCH_HEADER_SIZE as int);
    lemma_radix_pow_values();
    lemma_le_value_bound(s.subrange(0, 8));
    lemma_le_value_bound(s.subrange(8, 16));
    lemma_field_written_back(s, 0, 8);
    lemma_field_written_back(s, 8, 8);
    lemma_records_consumed(body, n1);
    match parse_records(body, n1) {
        Some((image_1, after)) => {
            lemma_records_consumed(after, n2);
            match parse_records(after, n2) {
                Some((image_2, rest)) => {
                    let m = MatchModel { image_1, image_2 };
                    assert(match_bytes(m) + rest =~= s.subrange(0, 8) + s.subrange(8, 16) + (
                    records_bytes(image_1) + (records_bytes(image_2) + rest)));
                    assert(match_bytes(m) + rest =~= s);
                },
                None => {},
            }
        },
        None => {},
    }
}

} // verus!
