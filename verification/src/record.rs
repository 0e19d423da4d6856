//! Process records and the codec that reads them from a producer's response.

use vstd::prelude::*;
use crate::layout::{
    read_u32_le, read_u64_le, spec_u32_le, spec_u64_le, MAX_PATH_UNITS, MAX_PROCESSES,
    OFFSET_CAPTURE_SOURCE, OFFSET_IMAGE_BASE, OFFSET_IMAGE_PATH, OFFSET_IMAGE_SIZE,
    OFFSET_PARENT_PID, OFFSET_PID, RECORD_SIZE,
};
use crate::source::{spec_capture_source, CaptureSource};
use crate::text::{decode_text, read_units, spec_text_units, spec_units_at, utf16_lossy};

verus! {

/// One observation of a process. `pid` is the key by which observations are
/// told apart; the other fields inform.
#[derive(Debug, Clone, PartialEq, Eq)]
pub struct ProcessRecord {
    /// Process id, as the host assigned it. The host may give it to another
    /// process later.
    pub pid: u32,
    /// Id of the parent process; 0 where it is not known.
    pub parent_pid: u32,
    /// Address at which the image is loaded.
    pub image_base: u64,
    /// Size of the loaded image in bytes.
    pub image_size: u64,
    /// How the producer came to know of the process.
    pub capture_source: CaptureSource,
    /// Path of the image; may be cut short by the producer, or empty.
    pub image_path: String,
}

/// A record as a mathematical value.
pub struct RecordView {
    pub pid: u32,
    pub parent_pid: u32,
    pub image_base: u64,
    pub image_size: u64,
    pub capture_source: CaptureSource,
    pub image_path: Seq<char>,
}

impl View for ProcessRecord {
    type V = RecordView;

    open spec fn view(&self) -> RecordView {
        RecordView {
            pid: self.pid,
            parent_pid: self.parent_pid,
            image_base: self.image_base,
            image_size: self.image_size,
            capture_source: self.capture_source,
            image_path: self.image_path@,
        }
    }
}

/// Why a response was not decoded.
#[derive(Debug, Clone, Copy, PartialEq, Eq, Structural)]
pub enum DecodeError {
    /// The response's length is no multiple of the declared record size.
    Misaligned { length: usize, record_size: usize },
    /// The declared record size is not the one this codec is pinned to.
    LayoutMismatch { expected: usize, declared: usize },
    /// The response holds more records than were asked for.
    OverCapacity { count: usize, capacity: usize },
}

/// Whether `length` is a whole number of records of `record_size` bytes.
pub open spec fn spec_aligned(length: int, record_size: int) -> bool {
    if record_size == 0 {
        length == 0
    } else {
        length % record_size == 0
    }
}

/// The error that a response of `length` bytes meets, if any: misalignment
/// first, then a foreign layout, then too many records.
pub open spec fn spec_framing_error(length: usize, declared: usize, capacity: usize) -> Option<
    DecodeError,
> {
    if !spec_aligned(length as int, declared as int) {
        Some(DecodeError::Misaligned { length, record_size: declared })
    } else if declared != RECORD_SIZE {
        Some(DecodeError::LayoutMismatch { expected: RECORD_SIZE, declared })
    } else if length / RECORD_SIZE > capacity {
        Some(DecodeError::OverCapacity { count: (length / RECORD_SIZE) as usize, capacity })
    } else {
        None
    }
}

/// The record that stands at position `index` of a response.
pub open spec fn spec_record_at(buffer: Seq<u8>, index: int) -> RecordView {
    let start = index * RECORD_SIZE;
    RecordView {
        pid: spec_u32_le(buffer, start + OFFSET_PID),
        parent_pid: spec_u32_le(buffer, start + OFFSET_PARENT_PID),
        image_base: spec_u64_le(buffer, start + OFFSET_IMAGE_BASE),
        image_size: spec_u64_le(buffer, start + OFFSET_IMAGE_SIZE),
        capture_source: spec_capture_source(spec_u32_le(buffer, start + OFFSET_CAPTURE_SOURCE)),
        image_path: utf16_lossy(
            spec_text_units(spec_units_at(buffer, start + OFFSET_IMAGE_PATH, MAX_PATH_UNITS as int)),
        ),
    }
}

/// The records of a well-framed response, in response order.
pub open spec fn spec_decode(buffer: Seq<u8>) -> Seq<RecordView> {
    Seq::new((buffer.len() / RECORD_SIZE as nat) as nat, |i: int| spec_record_at(buffer, i))
}

/// The views of a sequence of records.
pub open spec fn spec_views(records: Seq<ProcessRecord>) -> Seq<RecordView> {
    Seq::new(records.len(), |i: int| records[i]@)
}

/// Checks the framing of a response before any record is read, and counts
/// its records.
pub fn check_framing(length: usize, declared_record_size: usize, capacity: usize) -> (result:
    Result<usize, DecodeError>)
    ensures
        match spec_framing_error(length, declared_record_size, capacity) {
            Some(error) => result == Err::<usize, DecodeError>(error),
            None => result == Ok::<usize, DecodeError>((length / RECORD_SIZE) as usize),
        },
{
    if declared_record_size == 0 {
        if length != 0 {
            return Err(DecodeError::Misaligned { length, record_size: declared_record_size });
        }
        return Err(
            DecodeError::LayoutMismatch { expected: RECORD_SIZE, declared: declared_record_size },
        );
    }
    if length % declared_record_size != 0 {
        return Err(DecodeError::Misaligned { length, record_size: declared_record_size });
    }
    if declared_record_size != RECORD_SIZE {
        return Err(
            DecodeError::LayoutMismatch { expected: RECORD_SIZE, declared: declared_record_size },
        );
    }
    let count: usize = length / RECORD_SIZE;
    if count > capacity {
        return Err(DecodeError::OverCapacity { count, capacity });
    }
    Ok(count)
}

/// The process id of the record at `index`, read without decoding the rest.
pub fn peek_pid(buffer: &[u8], index: usize) -> (pid: u32)
    requires
        (index + 1) * RECORD_SIZE <= buffer.len(),
    ensures
        pid == spec_record_at(buffer@, index as int).pid,
{
    read_u32_le(buffer, index * RECORD_SIZE + OFFSET_PID)
}

/// Decodes the record at `index`. The path is read up to its first null unit,
/// or over the whole field where it has none; a source code that is not
/// known gives `Unknown`.
pub fn decode_record(buffer: &[u8], index: usize) -> (record: ProcessRecord)
    requires
        (index + 1) * RECORD_SIZE <= buffer.len(),
    ensures
        record@ == spec_record_at(buffer@, index as int),
{
    let start: usize = index * RECORD_SIZE;
    let pid = read_u32_le(buffer, start + OFFSET_PID);
    let parent_pid = read_u32_le(buffer, start + OFFSET_PARENT_PID);
    let image_base = read_u64_le(buffer, start + OFFSET_IMAGE_BASE);
    let image_size = read_u64_le(buffer, start + OFFSET_IMAGE_SIZE);
    let code = read_u32_le(buffer, start + OFFSET_CAPTURE_SOURCE);
    let field = read_units(buffer, start + OFFSET_IMAGE_PATH, MAX_PATH_UNITS);
    let image_path = decode_text(field.as_slice());
    ProcessRecord {
        pid,
        parent_pid,
        image_base,
        image_size,
        capture_source: CaptureSource::from(code),
        image_path,
    }
}

/// Decodes a response for which up to `capacity` records were asked.
///
/// Fails, reading no record, exactly when the framing is wrong; otherwise
/// gives every record of the response, in response order. An empty response
/// holds no record.
pub fn decode_bounded(buffer: &[u8], declared_record_size: usize, capacity: usize) -> (result:
    Result<Vec<ProcessRecord>, DecodeError>)
    ensures
        match spec_framing_error(buffer@.len() as usize, declared_record_size, capacity) {
            Some(error) => result == Err::<Vec<ProcessRecord>, DecodeError>(error),
            None => result is Ok && spec_views(result->Ok_0@) == spec_decode(buffer@),
        },
{
    let count = match check_framing(buffer.len(), declared_record_size, capacity) {
        Ok(count) => count,
        Err(error) => {
            return Err(error);
        },
    };
    let mut records: Vec<ProcessRecord> = Vec::new();
    let mut index: usize = 0;
    while index < count
        invariant
            index <= count,
            count == buffer@.len() / RECORD_SIZE as nat,
            records@.len() == index,
            forall|i: int| 0 <= i < index ==> records@[i]@ == spec_record_at(buffer@, i),
        decreases count - index,
    {
        let record = decode_record(buffer, index);
        records.push(record);
        index += 1;
    }
    assert(spec_views(records@) =~= spec_decode(buffer@));
    Ok(records)
}

/// Decodes a response to a request for `MAX_PROCESSES` records.
pub fn decode(buffer: &[u8], declared_record_size: usize) -> (result: Result<
    Vec<ProcessRecord>,
    DecodeError,
>)
    ensures
        match spec_framing_error(buffer@.len() as usize, declared_record_size, MAX_PROCESSES) {
            Some(error) => result == Err::<Vec<ProcessRecord>, DecodeError>(error),
            None => result is Ok && spec_views(result->Ok_0@) == spec_decode(buffer@),
        },
{
    decode_bounded(buffer, declared_record_size, MAX_PROCESSES)
}

/// A response whose length is a whole number of records of the pinned size,
/// and no more than were asked for, decodes to exactly that many records.
pub proof fn lemma_decode_count(buffer: Seq<u8>, capacity: usize)
    requires
        buffer.len() <= usize::MAX,
        buffer.len() % RECORD_SIZE as nat == 0,
        buffer.len() / RECORD_SIZE as nat <= capacity,
    ensures
        spec_framing_error(buffer.len() as usize, RECORD_SIZE, capacity) is None,
        spec_decode(buffer).len() == buffer.len() / RECORD_SIZE as nat,
{
}

/// A response whose length is no multiple of the declared record size is
/// refused as misaligned, whatever else holds of it.
pub proof fn lemma_misaligned_refused(length: usize, declared: usize, capacity: usize)
    requires
        !spec_aligned(length as int, declared as int),
    ensures
        spec_framing_error(length, declared, capacity) == Some(
            DecodeError::Misaligned { length, record_size: declared },
        ),
{
}

} // verus!
