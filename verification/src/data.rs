//! The in-memory model: one keypoint record, and the two record lists of a
//! stereo pair.
//!
//! Every floating-point attribute is carried as its IEEE 754 single-precision
//! bit pattern in a `u32`. Both codecs move these patterns around without doing
//! arithmetic on them, and equality of patterns is equality of what is stored.

use crate::binary::{
    descriptor_bytes, match_bytes, record_bytes, record_header_bytes, records_bytes,
};
use crate::decimal::{decimal_text, push_decimal, signed_decimal_text};
use crate::endian::{push_u32_le, push_u64_le, push_u8, unsigned32};
use crate::lexer::{float_text, float_to_text};
use crate::text::{
    descriptor_text, descriptor_texts, field_texts, join, line_texts, match_text, record_fields,
    record_layout, record_text, texts,
};
use vstd::prelude::*;

verus! {

/// The mathematical value of a keypoint record.
pub struct RecordModel {
    pub x: u32,
    pub y: u32,
    pub xi: i32,
    pub yi: i32,
    pub orientation: u32,
    pub scale: u32,
    pub interest: u32,
    pub polarity: u8,
    pub octave: u32,
    pub scale_lvl: u32,
    pub desc: Seq<u32>,
}

/// The mathematical value of a match set.
pub struct MatchModel {
    pub image_1: Seq<RecordModel>,
    pub image_2: Seq<RecordModel>,
}

impl RecordModel {
    /// The descriptor count fits the 64-bit count field.
    pub open spec fn wf(self) -> bool {
        self.desc.len() <= u64::MAX
    }
}

/// Every record of the list is well formed.
pub open spec fn records_wf(rs: Seq<RecordModel>) -> bool {
    forall|i: int| 0 <= i < rs.len() ==> (#[trigger] rs[i]).wf()
}

impl MatchModel {
    /// Both record counts fit their 64-bit count fields, and so does the
    /// descriptor count of every record.
    pub open spec fn wf(self) -> bool {
        &&& self.image_1.len() <= u64::MAX
        &&& self.image_2.len() <= u64::MAX
        &&& records_wf(self.image_1)
        &&& records_wf(self.image_2)
    }
}

/// One detected feature point: where it lies, how the detector rated it, and
/// its descriptor vector. The descriptor count is the length of `desc`; no
/// separate count is stored, so the two cannot disagree.
#[derive(Clone, Debug, PartialEq)]
pub struct IPRecord {
    /// Sub-pixel column, as float bits.
    pub x: u32,
    /// Sub-pixel row, as float bits.
    pub y: u32,
    /// Integer pixel column.
    pub xi: i32,
    /// Integer pixel row.
    pub yi: i32,
    /// Orientation, as float bits.
    pub orientation: u32,
    /// Scale, as float bits.
    pub scale: u32,
    /// Interest measure, as float bits.
    pub interest: u32,
    /// Sign or class flag.
    pub polarity: u8,
    /// Pyramid octave.
    pub octave: u32,
    /// Level within the octave.
    pub scale_lvl: u32,
    /// Descriptor vector, each entry as float bits.
    pub desc: Vec<u32>,
}

impl View for IPRecord {
    type V = RecordModel;

    open spec fn view(&self) -> RecordModel {
        RecordModel {
            x: self.x,
            y: self.y,
            xi: self.xi,
            yi: self.yi,
            orientation: self.orientation,
            scale: self.scale,
            interest: self.interest,
            polarity: self.polarity,
            octave: self.octave,
            scale_lvl: self.scale_lvl,
            desc: self.desc@,
        }
    }
}

/// The values of a list of records, in order.
pub open spec fn models(rs: Seq<IPRecord>) -> Seq<RecordModel> {
    rs.map_values(|r: IPRecord| r@)
}

/// The keypoints of the two images of a stereo pair, each list in detection
/// order.
#[derive(Clone, Debug, PartialEq)]
pub struct IPMatch {
    pub image_1: Vec<IPRecord>,
    pub image_2: Vec<IPRecord>,
}

impl View for IPMatch {
    type V = MatchModel;

    open spec fn view(&self) -> MatchModel {
        MatchModel { image_1: models(self.image_1@), image_2: models(self.image_2@) }
    }
}

impl Default for IPRecord {
    /// The record whose attributes are all zero and whose descriptor is empty.
    fn default() -> (r: IPRecord)
        ensures
            r@ == (RecordModel {
                x: 0,
                y: 0,
                xi: 0,
                yi: 0,
                orientation: 0,
                scale: 0,
                interest: 0,
                polarity: 0,
                octave: 0,
                scale_lvl: 0,
                desc: Seq::<u32>::empty(),
            }),
    {
        IPRecord {
            x: 0,
            y: 0,
            xi: 0,
            yi: 0,
            orientation: 0,
            scale: 0,
            interest: 0,
            polarity: 0,
            octave: 0,
            scale_lvl: 0,
            desc: Vec::new(),
        }
    }
}

impl Default for IPMatch {
    /// The match set without keypoints.
    fn default() -> (m: IPMatch)
        ensures
            m@ == (MatchModel {
                image_1: Seq::<RecordModel>::empty(),
                image_2: Seq::<RecordModel>::empty(),
            }),
    {
        let m = IPMatch { image_1: Vec::new(), image_2: Vec::new() };
        assert(m@.image_1 =~= Seq::<RecordModel>::empty());
        assert(m@.image_2 =~= Seq::<RecordModel>::empty());
        m
    }
}

impl IPRecord {
    /// Appends the binary encoding of the record to `out`.
    fn write_le_bytes(&self, out: &mut Vec<u8>)
        ensures
            final(out)@ == old(out)@ + record_bytes(self@),
    {
        push_u32_le(out, self.x);
        push_u32_le(out, self.y);
        push_u32_le(out, unsigned32(self.xi));
        push_u32_le(out, unsigned32(self.yi));
        push_u32_le(out, self.orientation);
        push_u32_le(out, self.scale);
        push_u32_le(out, self.interest);
        push_u8(out, self.polarity);
        push_u32_le(out, self.octave);
        push_u32_le(out, self.scale_lvl);
        push_u64_le(out, self.desc.len() as u64);
        let ghost head = out@;
        let mut i: usize = 0;
        while i < self.desc.len()
            invariant
                i <= self.desc.len(),
                out@ == head + descriptor_bytes(self.desc@.take(i as int)),
            decreases self.desc.len() - i,
        {
            push_u32_le(out, self.desc[i]);
            proof {
                let done = self.desc@.take(i + 1);
                assert(done.drop_last() =~= self.desc@.take(i as int));
                assert(out@ =~= head + descriptor_bytes(done));
            }
            i += 1;
        }
        proof {
            reveal(record_header_bytes);
            assert(self.desc@.take(i as int) =~= self.desc@);
            assert(out@ =~= old(out)@ + record_bytes(self@));
        }
    }

    /// The binary encoding of the record: its fixed fields in declared
    /// order, the descriptor count, then the descriptor entries, all
    /// little-endian.
    pub fn as_le_bytes(&self) -> (out: Vec<u8>)
        ensures
            out@ == record_bytes(self@),
    {
        let mut out: Vec<u8> = Vec::new();
        self.write_le_bytes(&mut out);
        assert(out@ =~= record_bytes(self@));
        out
    }

    /// The line of the record: its fields in declared order, the descriptor
    /// count last among them, then the descriptor entries, all with one
    /// space between them. Integers are written in decimal, floats as
    /// `Display` writes them.
    pub fn as_text(&self) -> (out: String)
        ensures
            out@ == record_text(self@),
    {
        let mut entries: Vec<String> = Vec::new();
        let mut i: usize = 0;
        while i < self.desc.len()
            invariant
                i <= self.desc.len(),
                texts(entries@) == descriptor_texts(self.desc@.take(i as int)),
            decreases self.desc.len() - i,
        {
            let ghost before = texts(entries@);
            let t = float_to_text(self.desc[i]);
            entries.push(t);
            proof {
                assert(texts(entries@) =~= before.push(float_text(self.desc@[i as int])));
                assert(texts(entries@) =~= descriptor_texts(self.desc@.take(i + 1)));
            }
            i += 1;
        }
        proof {
            assert(self.desc@.take(i as int) =~= self.desc@);
        }
        let mut parts: Vec<String> = Vec::new();
        parts.push(float_to_text(self.x));
        parts.push(float_to_text(self.y));
        parts.push(signed_decimal_text(self.xi));
        parts.push(signed_decimal_text(self.yi));
        parts.push(float_to_text(self.orientation));
        parts.push(float_to_text(self.scale));
        parts.push(float_to_text(self.interest));
        parts.push(decimal_text(self.polarity as u64));
        parts.push(decimal_text(self.octave as u64));
        parts.push(decimal_text(self.scale_lvl as u64));
        parts.push(decimal_text(self.desc.len() as u64));
        proof {
            reveal_strlit(" ");
            assert(" "@ =~= seq![' ']);
        }
        parts.push(join(&entries, " "));
        proof {
            assert(texts(parts@) =~= field_texts(record_layout(), record_fields(self@)).push(
                descriptor_text(self.desc@),
            ));
        }
        join(&parts, " ")
    }
}

/// Appends the line of each record, in order, to `lines`.
fn push_lines(records: &Vec<IPRecord>, lines: &mut Vec<String>)
    ensures
        texts(final(lines)@) == texts(old(lines)@) + line_texts(models(records@)),
{
    let mut i: usize = 0;
    while i < records.len()
        invariant
            i <= records.len(),
            texts(lines@) == texts(old(lines)@) + line_texts(models(records@.take(i as int))),
        decreases records.len() - i,
    {
        let ghost before = texts(lines@);
        let line = records[i].as_text();
        lines.push(line);
        proof {
            assert(texts(lines@) =~= before.push(record_text(records@[i as int]@)));
            assert(texts(lines@) =~= texts(old(lines)@) + line_texts(
                models(records@.take(i + 1)),
            ));
        }
        i += 1;
    }
    proof {
        assert(records@.take(i as int) =~= records@);
    }
}

/// Appends the binary encodings of `records`, in order, to `out`.
fn write_records(records: &Vec<IPRecord>, out: &mut Vec<u8>)
    ensures
        final(out)@ == old(out)@ + records_bytes(models(records@)),
{
    let mut i: usize = 0;
    while i < records.len()
        invariant
            i <= records.len(),
            out@ == old(out)@ + records_bytes(models(records@.take(i as int))),
        decreases records.len() - i,
    {
        records[i].write_le_bytes(out);
        proof {
            let done = models(records@.take(i + 1));
            assert(done.drop_last() =~= models(records@.take(i as int)));
            assert(done.last() == records@[i as int]@);
            assert(out@ =~= old(out)@ + records_bytes(done));
        }
        i += 1;
    }
    proof {
        assert(records@.take(i as int) =~= records@);
    }
}

impl IPMatch {
    /// The binary encoding of the match set: the two record counts as
    /// little-endian 64-bit integers, then every record of `image_1`, then
    /// every record of `image_2`.
    pub fn as_le_bytes(&self) -> (out: Vec<u8>)
        ensures
            out@ == match_bytes(self@),
    {
        let mut out: Vec<u8> = Vec::new();
        push_u64_le(&mut out, self.image_1.len() as u64);
        push_u64_le(&mut out, self.image_2.len() as u64);
        write_records(&self.image_1, &mut out);
        write_records(&self.image_2, &mut out);
        assert(out@ =~= match_bytes(self@));
        out
    }

    /// The text of the match set: the two record counts on the first line,
    /// a line feed, then one line for every record of `image_1` followed by
    /// one for every record of `image_2`, with single line feeds between the
    /// lines and none after the last.
    pub fn as_text(&self) -> (out: String)
        ensures
            out@ == match_text(self@),
    {
        proof {
            reveal_strlit(" ");
            reveal_strlit("\n");
            assert(" "@ =~= seq![' ']);
            assert("\n"@ =~= seq!['\n']);
        }
        let mut lines: Vec<String> = Vec::new();
        push_lines(&self.image_1, &mut lines);
        push_lines(&self.image_2, &mut lines);
        proof {
            assert(texts(lines@) =~= line_texts(self@.image_1 + self@.image_2));
        }
        let mut out = decimal_text(self.image_1.len() as u64);
        out.append(" ");
        push_decimal(&mut out, self.image_2.len() as u64);
        out.append("\n");
        let body = join(&lines, "\n");
        out.append(body.as_str());
        assert(out@ =~= match_text(self@));
        out
    }
}

/// Encoding a record twice gives the same output: what the encoders return
/// is fixed by the value of the record, so records of equal value have equal
/// bytes and equal text.
pub proof fn lemma_record_encoding_determined(a: IPRecord, b: IPRecord)
    requires
        a@ == b@,
    ensures
        record_bytes(a@) == record_bytes(b@),
        record_text(a@) == record_text(b@),
{
}

/// Encoding a match set twice gives the same output: what the encoders
/// return is fixed by the value of the match set, so match sets of equal
/// value have equal bytes and equal text.
pub proof fn lemma_match_encoding_determined(a: IPMatch, b: IPMatch)
    requires
        a@ == b@,
    ensures
        match_bytes(a@) == match_bytes(b@),
        match_text(a@) == match_text(b@),
{
}

/// The value of any record in memory is well formed.
pub proof fn lemma_record_wf(r: IPRecord)
    ensures
        r@.wf(),
{
    assert(r.desc@.len() == r.desc.len());
}

/// The value of any match set in memory is well formed.
pub proof fn lemma_match_wf(m: IPMatch)
    ensures
        m@.wf(),
{
    assert(m.image_1@.len() == m.image_1.len());
    assert(m.image_2@.len() == m.image_2.len());
    assert forall|i: int| 0 <= i < m@.image_1.len() implies (#[trigger] m@.image_1[i]).wf() by {
        lemma_record_wf(m.image_1@[i]);
    }
    assert forall|i: int| 0 <= i < m@.image_2.len() implies (#[trigger] m@.image_2[i]).wf() by {
        lemma_record_wf(m.image_2@[i]);
    }
}

} // verus!
