//! The pinned record layout: field offsets and widths, all integers
//! little-endian, and the primitives that read and write them.

use vstd::prelude::*;

verus! {

/// Code units in the image-path field of one record.
pub const MAX_PATH_UNITS: usize = 260;

/// Records asked of the producer in one request.
pub const MAX_PROCESSES: usize = 128;

/// Byte offset of the process id (32 bits).
pub const OFFSET_PID: usize = 0;

/// Byte offset of the parent process id (32 bits).
pub const OFFSET_PARENT_PID: usize = 4;

/// Byte offset of the image base address (64 bits).
pub const OFFSET_IMAGE_BASE: usize = 8;

/// Byte offset of the image size (64 bits).
pub const OFFSET_IMAGE_SIZE: usize = 16;

/// Byte offset of the capture-source code (32 bits).
pub const OFFSET_CAPTURE_SOURCE: usize = 24;

/// Byte offset of the image-path field (`MAX_PATH_UNITS` 16-bit code units).
pub const OFFSET_IMAGE_PATH: usize = 28;

/// Bytes from the start of a record to the end of its last field.
pub const PAYLOAD_SIZE: usize = 548;

/// Bytes from one record to the next: the payload, padded to a multiple of
/// eight as the producer's 64-bit fields demand.
pub const RECORD_SIZE: usize = 552;

/// Device type of the producer's endpoint: a device of no standard kind.
pub const DEVICE_TYPE_UNKNOWN: u32 = 0x22;

/// Function number of the request "dump tracked processes".
pub const FUNCTION_DUMP: u32 = 0x801;

/// Transfer method: the host buffers input and output.
pub const METHOD_BUFFERED: u32 = 0;

/// Access that a request needs: none in particular.
pub const ACCESS_ANY: u32 = 0;

/// Control-operation code of the request "dump tracked processes".
pub const CONTROL_CODE_DUMP: u32 = 0x0022_2004;

/// A control-operation code: device type from bit 16, access from bit 14,
/// function from bit 2, method in the two lowest bits.
pub open spec fn spec_control_code(device: u32, function: u32, method: u32, access: u32) -> u32 {
    (device << 16) | (access << 14) | (function << 2) | method
}

/// Bytes of the buffer that can take `max_records` records, where a request
/// can carry that many.
pub open spec fn spec_response_capacity(max_records: usize) -> Option<u32> {
    if max_records * RECORD_SIZE <= u32::MAX {
        Some((max_records * RECORD_SIZE) as u32)
    } else {
        None
    }
}

/// Puts a control-operation code together from its four parts.
pub fn control_code(device: u32, function: u32, method: u32, access: u32) -> (code: u32)
    ensures
        code == spec_control_code(device, function, method, access),
{
    (device << 16) | (access << 14) | (function << 2) | method
}

/// Size of the output buffer of a request for `max_records` records; `None`
/// where that size is more than a request can carry.
pub fn response_capacity(max_records: usize) -> (size: Option<u32>)
    ensures
        size == spec_response_capacity(max_records),
{
    if max_records <= 0xffff_ffff / RECORD_SIZE {
        let bytes: usize = max_records * RECORD_SIZE;
        Some(bytes as u32)
    } else {
        None
    }
}

/// The dump request's code is made of the unknown device type, the dump
/// function, buffered transfer and no particular access.
pub proof fn lemma_dump_code()
    ensures
        spec_control_code(DEVICE_TYPE_UNKNOWN, FUNCTION_DUMP, METHOD_BUFFERED, ACCESS_ANY)
            == CONTROL_CODE_DUMP,
{
    assert((0x22u32 << 16) | (0u32 << 14) | (0x801u32 << 2) | 0u32 == 0x0022_2004u32)
        by (bit_vector);
}

/// The 16-bit little-endian integer at `at`.
pub open spec fn spec_u16_le(bytes: Seq<u8>, at: int) -> u16 {
    (bytes[at] as int + 0x100 * (bytes[at + 1] as int)) as u16
}

/// The 32-bit little-endian integer at `at`.
pub open spec fn spec_u32_le(bytes: Seq<u8>, at: int) -> u32 {
    (bytes[at] as int + 0x100 * (bytes[at + 1] as int) + 0x1_0000 * (bytes[at + 2] as int)
        + 0x100_0000 * (bytes[at + 3] as int)) as u32
}

/// The 64-bit little-endian integer at `at`.
pub open spec fn spec_u64_le(bytes: Seq<u8>, at: int) -> u64 {
    (spec_u32_le(bytes, at) as int + 0x1_0000_0000 * (spec_u32_le(bytes, at + 4) as int)) as u64
}

/// The two bytes that hold `value`, low byte first.
pub open spec fn spec_u16_bytes(value: u16) -> Seq<u8> {
    seq![(value % 0x100) as u8, (value / 0x100) as u8]
}

/// The four bytes that hold `value`, low byte first.
pub open spec fn spec_u32_bytes(value: u32) -> Seq<u8> {
    seq![
        (value % 0x100) as u8,
        (value / 0x100 % 0x100) as u8,
        (value / 0x1_0000 % 0x100) as u8,
        (value / 0x100_0000) as u8,
    ]
}

/// The eight bytes that hold `value`, low byte first.
pub open spec fn spec_u64_bytes(value: u64) -> Seq<u8> {
    spec_u32_bytes((value % 0x1_0000_0000) as u32) + spec_u32_bytes((value / 0x1_0000_0000) as u32)
}

/// Reads the 16-bit integer at `at`.
pub fn read_u16_le(bytes: &[u8], at: usize) -> (value: u16)
    requires
        at + 2 <= bytes.len(),
    ensures
        value == spec_u16_le(bytes@, at as int),
{
    let b0: u16 = bytes[at] as u16;
    let b1: u16 = bytes[at + 1] as u16;
    b0 + 0x100 * b1
}

/// Reads the 32-bit integer at `at`.
pub fn read_u32_le(bytes: &[u8], at: usize) -> (value: u32)
    requires
        at + 4 <= bytes.len(),
    ensures
        value == spec_u32_le(bytes@, at as int),
{
    let b0: u32 = bytes[at] as u32;
    let b1: u32 = bytes[at + 1] as u32;
    let b2: u32 = bytes[at + 2] as u32;
    let b3: u32 = bytes[at + 3] as u32;
    b0 + 0x100 * b1 + 0x1_0000 * b2 + 0x100_0000 * b3
}

/// Reads the 64-bit integer at `at`.
pub fn read_u64_le(bytes: &[u8], at: usize) -> (value: u64)
    requires
        at + 8 <= bytes.len(),
    ensures
        value == spec_u64_le(bytes@, at as int),
{
    let low: u64 = read_u32_le(bytes, at) as u64;
    let high: u64 = read_u32_le(bytes, at + 4) as u64;
    low + 0x1_0000_0000 * high
}

/// Appends the two bytes of `value` to `out`.
pub fn push_u16_le(out: &mut Vec<u8>, value: u16)
    ensures
        final(out)@ == old(out)@ + spec_u16_bytes(value),
{
    out.push((value % 0x100) as u8);
    out.push((value / 0x100) as u8);
    assert(out@ =~= old(out)@ + spec_u16_bytes(value));
}

/// Appends the four bytes of `value` to `out`.
pub fn push_u32_le(out: &mut Vec<u8>, value: u32)
    ensures
        final(out)@ == old(out)@ + spec_u32_bytes(value),
{
    out.push((value % 0x100) as u8);
    out.push((value / 0x100 % 0x100) as u8);
    out.push((value / 0x1_0000 % 0x100) as u8);
    out.push((value / 0x100_0000) as u8);
    assert(out@ =~= old(out)@ + spec_u32_bytes(value));
}

/// Appends the eight bytes of `value` to `out`.
pub fn push_u64_le(out: &mut Vec<u8>, value: u64)
    ensures
        final(out)@ == old(out)@ + spec_u64_bytes(value),
{
    push_u32_le(out, (value % 0x1_0000_0000) as u32);
    push_u32_le(out, (value / 0x1_0000_0000) as u32);
    assert(out@ =~= old(out)@ + spec_u64_bytes(value));
}

/// Reading what was written gives the value back, wherever the bytes stand.
pub proof fn lemma_u16_round_trip(bytes: Seq<u8>, at: int, value: u16)
    requires
        0 <= at,
        at + 2 <= bytes.len(),
        bytes.subrange(at, at + 2) == spec_u16_bytes(value),
    ensures
        spec_u16_le(bytes, at) == value,
{
    let part = bytes.subrange(at, at + 2);
    assert(bytes[at] == part[0]);
    assert(bytes[at + 1] == part[1]);
}

/// Reading what was written gives the value back, wherever the bytes stand.
pub proof fn lemma_u32_round_trip(bytes: Seq<u8>, at: int, value: u32)
    requires
        0 <= at,
        at + 4 <= bytes.len(),
        bytes.subrange(at, at + 4) == spec_u32_bytes(value),
    ensures
        spec_u32_le(bytes, at) == value,
{
    let part = bytes.subrange(at, at + 4);
    assert(bytes[at] == part[0]);
    assert(bytes[at + 1] == part[1]);
    assert(bytes[at + 2] == part[2]);
    assert(bytes[at + 3] == part[3]);
}

/// Reading what was written gives the value back, wherever the bytes stand.
pub proof fn lemma_u64_round_trip(bytes: Seq<u8>, at: int, value: u64)
    requires
        0 <= at,
        at + 8 <= bytes.len(),
        bytes.subrange(at, at + 8) == spec_u64_bytes(value),
    ensures
        spec_u64_le(bytes, at) == value,
{
    let part = bytes.subrange(at, at + 8);
    let low = (value % 0x1_0000_0000) as u32;
    let high = (value / 0x1_0000_0000) as u32;
    assert(bytes.subrange(at, at + 4) =~= part.subrange(0, 4));
    assert(bytes.subrange(at + 4, at + 8) =~= part.subrange(4, 8));
    assert(part.subrange(0, 4) =~= spec_u32_bytes(low));
    assert(part.subrange(4, 8) =~= spec_u32_bytes(high));
    lemma_u32_round_trip(bytes, at, low);
    lemma_u32_round_trip(bytes, at + 4, high);
}

} // verus!
