//! Writing records in the producer's layout, and the proof that the codec
//! reads back what was written.

use vstd::prelude::*;
use crate::layout::{
    lemma_u32_round_trip, lemma_u64_round_trip, push_u16_le, push_u32_le, push_u64_le,
    spec_u16_bytes, spec_u16_le, spec_u32_bytes, spec_u64_bytes, MAX_PATH_UNITS,
    OFFSET_CAPTURE_SOURCE, OFFSET_IMAGE_BASE, OFFSET_IMAGE_PATH, OFFSET_IMAGE_SIZE,
    OFFSET_PARENT_PID, OFFSET_PID, PAYLOAD_SIZE, RECORD_SIZE,
};
use crate::record::{spec_decode, spec_record_at, RecordView};
use crate::source::spec_capture_source;
use crate::text::{
    lemma_terminated_field, lemma_text_round_trip, lemma_units_without_null,
    lemma_unterminated_field, spec_text_units, spec_units_at, utf16_lossy, utf16_units,
};

verus! {

/// The fields of one record as the producer holds them: numbers as they
/// are, the source as its wire code, the path as code units.
#[derive(Debug, Clone, PartialEq, Eq)]
pub struct RawRecord {
    /// Process id.
    pub pid: u32,
    /// Id of the parent process.
    pub parent_pid: u32,
    /// Address at which the image is loaded.
    pub image_base: u64,
    /// Size of the loaded image in bytes.
    pub image_size: u64,
    /// Wire code of the capture source.
    pub capture_source: u32,
    /// UTF-16 code units of the image path, without a terminator.
    pub image_units: Vec<u16>,
}

/// A raw record as a mathematical value.
pub struct RawView {
    pub pid: u32,
    pub parent_pid: u32,
    pub image_base: u64,
    pub image_size: u64,
    pub capture_source: u32,
    pub image_units: Seq<u16>,
}

impl View for RawRecord {
    type V = RawView;

    open spec fn view(&self) -> RawView {
        RawView {
            pid: self.pid,
            parent_pid: self.parent_pid,
            image_base: self.image_base,
            image_size: self.image_size,
            capture_source: self.capture_source,
            image_units: self.image_units@,
        }
    }
}

/// The path field that holds `units`: cut to the field's width where they
/// are more, filled with nulls where they are fewer.
pub open spec fn spec_field(units: Seq<u16>) -> Seq<u16> {
    Seq::new(MAX_PATH_UNITS as nat, |i: int| if i < units.len() { units[i] } else { 0u16 })
}

/// The bytes of a sequence of code units, each low byte first.
pub open spec fn spec_units_bytes(units: Seq<u16>) -> Seq<u8> {
    Seq::new(2 * units.len(), |j: int| spec_u16_bytes(units[j / 2])[j % 2])
}

/// The bytes between a record's last field and the next record.
pub open spec fn spec_padding() -> Seq<u8> {
    Seq::new((RECORD_SIZE - PAYLOAD_SIZE) as nat, |j: int| 0u8)
}

/// The bytes of one record.
pub open spec fn spec_encode(raw: RawView) -> Seq<u8> {
    spec_u32_bytes(raw.pid) + spec_u32_bytes(raw.parent_pid) + spec_u64_bytes(raw.image_base)
        + spec_u64_bytes(raw.image_size) + spec_u32_bytes(raw.capture_source) + spec_units_bytes(
        spec_field(raw.image_units),
    ) + spec_padding()
}

/// The bytes of a batch of records, one after another.
pub open spec fn spec_encode_all(raws: Seq<RawView>) -> Seq<u8>
    decreases raws.len(),
{
    if raws.len() == 0 {
        Seq::empty()
    } else {
        spec_encode_all(raws.drop_last()) + spec_encode(raws.last())
    }
}

/// The record that the codec reads where `raw` was written.
pub open spec fn spec_decoded(raw: RawView) -> RecordView {
    RecordView {
        pid: raw.pid,
        parent_pid: raw.parent_pid,
        image_base: raw.image_base,
        image_size: raw.image_size,
        capture_source: spec_capture_source(raw.capture_source),
        image_path: utf16_lossy(spec_text_units(spec_field(raw.image_units))),
    }
}

/// The views of a sequence of raw records.
pub open spec fn spec_raw_views(raws: Seq<RawRecord>) -> Seq<RawView> {
    Seq::new(raws.len(), |i: int| raws[i]@)
}

proof fn lemma_units_bytes_push(units: Seq<u16>, unit: u16)
    ensures
        spec_units_bytes(units.push(unit)) == spec_units_bytes(units) + spec_u16_bytes(unit),
{
    let left = spec_units_bytes(units.push(unit));
    let right = spec_units_bytes(units) + spec_u16_bytes(unit);
    assert(left.len() == right.len());
    assert forall|j: int| 0 <= j < left.len() implies left[j] == right[j] by {
        if j < 2 * units.len() {
            assert(units.push(unit)[j / 2] == units[j / 2]);
        } else {
            assert(j / 2 == units.len());
            assert(j % 2 == j - 2 * units.len());
        }
    }
    assert(left =~= right);
}

impl RawRecord {
    /// Appends this record to `out` in the producer's layout.
    pub fn encode_into(&self, out: &mut Vec<u8>)
        ensures
            final(out)@ == old(out)@ + spec_encode(self@),
    {
        push_u32_le(out, self.pid);
        push_u32_le(out, self.parent_pid);
        push_u64_le(out, self.image_base);
        push_u64_le(out, self.image_size);
        push_u32_le(out, self.capture_source);
        let ghost head = out@;
        let ghost field = spec_field(self.image_units@);
        let mut i: usize = 0;
        assert(spec_units_bytes(field.subrange(0, 0)) =~= Seq::<u8>::empty());
        assert(head + Seq::<u8>::empty() =~= head);
        while i < MAX_PATH_UNITS
            invariant
                i <= MAX_PATH_UNITS,
                field == spec_field(self.image_units@),
                out@ == head + spec_units_bytes(field.subrange(0, i as int)),
            decreases MAX_PATH_UNITS - i,
        {
            let unit: u16 = if i < self.image_units.len() { self.image_units[i] } else { 0 };
            proof {
                lemma_units_bytes_push(field.subrange(0, i as int), unit);
                assert(field.subrange(0, i as int).push(unit) =~= field.subrange(0, i + 1));
            }
            push_u16_le(out, unit);
            i += 1;
            assert(out@ =~= head + spec_units_bytes(field.subrange(0, i as int)));
        }
        assert(field.subrange(0, MAX_PATH_UNITS as int) =~= field);
        let ghost body = out@;
        let mut k: usize = 0;
        while k < RECORD_SIZE - PAYLOAD_SIZE
            invariant
                k <= RECORD_SIZE - PAYLOAD_SIZE,
                out@ == body + spec_padding().subrange(0, k as int),
            decreases RECORD_SIZE - PAYLOAD_SIZE - k,
        {
            out.push(0);
            k += 1;
            assert(out@ =~= body + spec_padding().subrange(0, k as int));
        }
        assert(spec_padding().subrange(0, (RECORD_SIZE - PAYLOAD_SIZE) as int) =~= spec_padding());
        assert(out@ =~= old(out)@ + spec_encode(self@));
    }
}

/// Writes a batch of records as one response.
pub fn encode_all(raws: &[RawRecord]) -> (out: Vec<u8>)
    ensures
        out@ == spec_encode_all(spec_raw_views(raws@)),
{
    let mut out: Vec<u8> = Vec::new();
    let mut i: usize = 0;
    let ghost views = spec_raw_views(raws@);
    while i < raws.len()
        invariant
            i <= raws@.len(),
            views == spec_raw_views(raws@),
            out@ == spec_encode_all(views.subrange(0, i as int)),
        decreases raws@.len() - i,
    {
        proof {
            let next = views.subrange(0, i + 1);
            assert(next.drop_last() =~= views.subrange(0, i as int));
            assert(next.last() == raws@[i as int]@);
        }
        raws[i].encode_into(&mut out);
        i += 1;
    }
    assert(views.subrange(0, raws@.len() as int) =~= views);
    out
}

/// Every record takes `RECORD_SIZE` bytes.
pub proof fn lemma_encode_len(raw: RawView)
    ensures
        spec_encode(raw).len() == RECORD_SIZE,
{
    lemma_encode_parts(raw);
}

/// A batch of `n` records takes `n * RECORD_SIZE` bytes, and its record at
/// position `index` stands at `index * RECORD_SIZE`.
pub proof fn lemma_encode_all_slot(raws: Seq<RawView>, index: int)
    requires
        0 <= index < raws.len(),
    ensures
        spec_encode_all(raws).len() == raws.len() * RECORD_SIZE,
        spec_encode_all(raws).subrange(index * RECORD_SIZE, (index + 1) * RECORD_SIZE)
            == spec_encode(raws[index]),
    decreases raws.len(),
{
    let front = raws.drop_last();
    let all = spec_encode_all(raws);
    lemma_encode_len(raws.last());
    lemma_encode_all_len(front);
    if index < raws.len() - 1 {
        lemma_encode_all_slot(front, index);
        assert(all.subrange(index * RECORD_SIZE, (index + 1) * RECORD_SIZE) =~= spec_encode_all(
            front,
        ).subrange(index * RECORD_SIZE, (index + 1) * RECORD_SIZE));
    } else {
        assert(all.subrange(index * RECORD_SIZE, (index + 1) * RECORD_SIZE) =~= spec_encode(
            raws.last(),
        ));
    }
}

/// A batch of `n` records takes `n * RECORD_SIZE` bytes.
pub proof fn lemma_encode_all_len(raws: Seq<RawView>)
    ensures
        spec_encode_all(raws).len() == raws.len() * RECORD_SIZE,
    decreases raws.len(),
{
    if raws.len() > 0 {
        lemma_encode_all_len(raws.drop_last());
        lemma_encode_len(raws.last());
    }
}

/// Where each field stands among the bytes of a record.
proof fn lemma_encode_parts(raw: RawView)
    ensures
        spec_encode(raw).len() == RECORD_SIZE,
        spec_encode(raw).subrange(0, 4) == spec_u32_bytes(raw.pid),
        spec_encode(raw).subrange(4, 8) == spec_u32_bytes(raw.parent_pid),
        spec_encode(raw).subrange(8, 16) == spec_u64_bytes(raw.image_base),
        spec_encode(raw).subrange(16, 24) == spec_u64_bytes(raw.image_size),
        spec_encode(raw).subrange(24, 28) == spec_u32_bytes(raw.capture_source),
        spec_encode(raw).subrange(28, 548) == spec_units_bytes(spec_field(raw.image_units)),
{
    let bytes = spec_encode(raw);
    let head = spec_u32_bytes(raw.pid) + spec_u32_bytes(raw.parent_pid) + spec_u64_bytes(
        raw.image_base,
    ) + spec_u64_bytes(raw.image_size) + spec_u32_bytes(raw.capture_source);
    let packed = spec_units_bytes(spec_field(raw.image_units));
    assert(head.len() == 28);
    assert(packed.len() == 520);
    assert(bytes == head + packed + spec_padding());
    assert(head.subrange(0, 4) =~= spec_u32_bytes(raw.pid));
    assert(head.subrange(4, 8) =~= spec_u32_bytes(raw.parent_pid));
    assert(head.subrange(8, 16) =~= spec_u64_bytes(raw.image_base));
    assert(head.subrange(16, 24) =~= spec_u64_bytes(raw.image_size));
    assert(head.subrange(24, 28) =~= spec_u32_bytes(raw.capture_source));
    assert(bytes.subrange(0, 28) =~= head);
    assert(bytes.subrange(0, 4) =~= head.subrange(0, 4));
    assert(bytes.subrange(4, 8) =~= head.subrange(4, 8));
    assert(bytes.subrange(8, 16) =~= head.subrange(8, 16));
    assert(bytes.subrange(16, 24) =~= head.subrange(16, 24));
    assert(bytes.subrange(24, 28) =~= head.subrange(24, 28));
    assert(bytes.subrange(28, 548) =~= packed);
}

/// Code units read from the bytes they were packed into are the units that
/// were packed.
proof fn lemma_units_round_trip(buffer: Seq<u8>, at: int, units: Seq<u16>)
    requires
        0 <= at,
        at + 2 * units.len() <= buffer.len(),
        buffer.subrange(at, at + 2 * units.len()) == spec_units_bytes(units),
    ensures
        spec_units_at(buffer, at, units.len() as int) == units,
{
    let read = spec_units_at(buffer, at, units.len() as int);
    let packed = spec_units_bytes(units);
    let part = buffer.subrange(at, at + 2 * units.len());
    assert forall|i: int| 0 <= i < units.len() implies read[i] == units[i] by {
        assert(part[2 * i] == buffer[at + 2 * i]);
        assert(part[2 * i + 1] == buffer[at + 2 * i + 1]);
        assert((2 * i) / 2 == i && (2 * i) % 2 == 0);
        assert((2 * i + 1) / 2 == i && (2 * i + 1) % 2 == 1);
        assert(packed[2 * i] == spec_u16_bytes(units[i])[0]);
        assert(packed[2 * i + 1] == spec_u16_bytes(units[i])[1]);
        assert(read[i] == spec_u16_le(buffer, at + 2 * i));
    }
    assert(read =~= units);
}

/// Where the bytes of `raw` stand at position `index` of a response, the
/// codec reads every number as it was written, the source that the code
/// stands for, and the path that the written field decodes to.
pub proof fn lemma_record_round_trip(buffer: Seq<u8>, index: int, raw: RawView)
    requires
        0 <= index,
        (index + 1) * RECORD_SIZE <= buffer.len(),
        buffer.subrange(index * RECORD_SIZE, (index + 1) * RECORD_SIZE) == spec_encode(raw),
    ensures
        spec_record_at(buffer, index) == spec_decoded(raw),
{
    let start = index * RECORD_SIZE;
    let bytes = spec_encode(raw);
    let field = spec_field(raw.image_units);
    lemma_encode_parts(raw);
    assert(buffer.subrange(start, start + RECORD_SIZE) == bytes);
    assert(buffer.subrange(start + 0, start + 4) =~= bytes.subrange(0, 4));
    assert(buffer.subrange(start + 4, start + 8) =~= bytes.subrange(4, 8));
    assert(buffer.subrange(start + 8, start + 16) =~= bytes.subrange(8, 16));
    assert(buffer.subrange(start + 16, start + 24) =~= bytes.subrange(16, 24));
    assert(buffer.subrange(start + 24, start + 28) =~= bytes.subrange(24, 28));
    assert(buffer.subrange(start + 28, start + 548) =~= bytes.subrange(28, 548));
    lemma_u32_round_trip(buffer, start + OFFSET_PID, raw.pid);
    lemma_u32_round_trip(buffer, start + OFFSET_PARENT_PID, raw.parent_pid);
    lemma_u64_round_trip(buffer, start + OFFSET_IMAGE_BASE, raw.image_base);
    lemma_u64_round_trip(buffer, start + OFFSET_IMAGE_SIZE, raw.image_size);
    lemma_u32_round_trip(buffer, start + OFFSET_CAPTURE_SOURCE, raw.capture_source);
    lemma_units_round_trip(buffer, start + OFFSET_IMAGE_PATH, field);
}

/// Units without a null that fit the field are read back from it as they
/// were written.
pub proof fn lemma_field_round_trip(units: Seq<u16>)
    requires
        units.len() <= MAX_PATH_UNITS,
        forall|i: int| 0 <= i < units.len() ==> units[i] != 0,
    ensures
        spec_text_units(spec_field(units)) == units,
{
    let field = spec_field(units);
    if units.len() == MAX_PATH_UNITS {
        assert(field =~= units);
        lemma_unterminated_field(units);
    } else {
        let fill = field.subrange(units.len() as int, MAX_PATH_UNITS as int);
        assert(field =~= units + fill);
        assert(fill[0] == 0);
        lemma_terminated_field(units, fill);
    }
}

/// Path round trip: a record written with the encoding of a text that holds
/// no null character and fits the field is read back with that text as its
/// path.
pub proof fn lemma_path_round_trip(raw: RawView, text: Seq<char>)
    requires
        raw.image_units == utf16_units(text),
        utf16_units(text).len() <= MAX_PATH_UNITS,
        forall|i: int| 0 <= i < text.len() ==> text[i] as u32 != 0,
    ensures
        spec_decoded(raw).image_path == text,
{
    lemma_units_without_null(text);
    lemma_field_round_trip(raw.image_units);
    lemma_text_round_trip(text);
}

/// Round trip: a batch that was written decodes to as many records as were
/// written, each with the values it was written with, in the same order.
pub proof fn lemma_decode_round_trip(raws: Seq<RawView>)
    ensures
        spec_encode_all(raws).len() == raws.len() * RECORD_SIZE,
        spec_decode(spec_encode_all(raws)) == Seq::new(raws.len(), |i: int| spec_decoded(raws[i])),
{
    let buffer = spec_encode_all(raws);
    lemma_encode_all_len(raws);
    assert(buffer.len() / RECORD_SIZE as nat == raws.len());
    assert forall|i: int| 0 <= i < raws.len() implies spec_record_at(buffer, i) == spec_decoded(
        raws[i],
    ) by {
        lemma_encode_all_slot(raws, i);
        lemma_record_round_trip(buffer, i, raws[i]);
    }
    assert(spec_decode(buffer) =~= Seq::new(raws.len(), |i: int| spec_decoded(raws[i])));
}

} // verus!
