//! Fixed-width, null-terminated fields of 16-bit code units, and their
//! conversion to and from text.

use vstd::prelude::*;
use vstd::slice::slice_subrange;
use crate::layout::{read_u16_le, spec_u16_le};

verus! {

/// Characters of a path shown before it is cut for display.
pub const DISPLAY_LIMIT: usize = 100;

/// The character put in the place of a code unit that cannot be decoded.
pub const REPLACEMENT: char = '\u{FFFD}';

/// Whether `code` is a Unicode scalar value: a code point that is no
/// surrogate.
pub open spec fn spec_is_scalar(code: u32) -> bool {
    code < 0xD800 || (0xE000 <= code && code <= 0x10_FFFF)
}

/// Whether `unit` is the first half of a surrogate pair.
pub open spec fn spec_is_high(unit: u16) -> bool {
    0xD800 <= unit && unit <= 0xDBFF
}

/// Whether `unit` is the second half of a surrogate pair.
pub open spec fn spec_is_low(unit: u16) -> bool {
    0xDC00 <= unit && unit <= 0xDFFF
}

/// The code point that a surrogate pair stands for.
pub open spec fn spec_pair_code(high: u16, low: u16) -> u32 {
    (0x1_0000 + (high - 0xD800) * 0x400 + (low - 0xDC00)) as u32
}

/// The text that a sequence of UTF-16 code units decodes to: a high
/// surrogate and the low one after it give one character, any other
/// surrogate gives `REPLACEMENT`, every other unit gives the character of
/// its own code.
pub open spec fn utf16_lossy(units: Seq<u16>) -> Seq<char>
    decreases units.len(),
{
    if units.len() == 0 {
        Seq::empty()
    } else if spec_is_high(units[0]) && units.len() >= 2 && spec_is_low(units[1]) {
        seq![spec_pair_code(units[0], units[1]) as char] + utf16_lossy(
            units.subrange(2, units.len() as int),
        )
    } else if spec_is_high(units[0]) || spec_is_low(units[0]) {
        seq![REPLACEMENT] + utf16_lossy(units.subrange(1, units.len() as int))
    } else {
        seq![units[0] as char] + utf16_lossy(units.subrange(1, units.len() as int))
    }
}

/// The UTF-16 code units of one character: the character's code where it
/// fits in one unit, else a surrogate pair.
pub open spec fn spec_char_units(c: char) -> Seq<u16> {
    let code = c as u32;
    if code < 0x1_0000 {
        seq![code as u16]
    } else {
        seq![
            (0xD800 + (code - 0x1_0000) / 0x400) as u16,
            (0xDC00 + (code - 0x1_0000) % 0x400) as u16,
        ]
    }
}

/// The UTF-16 code units that encode a text.
pub open spec fn utf16_units(text: Seq<char>) -> Seq<u16>
    decreases text.len(),
{
    if text.len() == 0 {
        Seq::empty()
    } else {
        spec_char_units(text[0]) + utf16_units(text.subrange(1, text.len() as int))
    }
}

/// Index of the first null unit at or after `from`; the length of `units`
/// where there is none.
pub open spec fn spec_first_null(units: Seq<u16>, from: int) -> int
    decreases units.len() - from,
{
    if from >= units.len() || units[from] == 0 {
        from
    } else {
        spec_first_null(units, from + 1)
    }
}

/// Number of units that carry text: those before the first null, or all of
/// them where the field has no terminator.
pub open spec fn spec_text_len(units: Seq<u16>) -> int {
    spec_first_null(units, 0)
}

/// The units of a field that carry text.
pub open spec fn spec_text_units(units: Seq<u16>) -> Seq<u16> {
    units.subrange(0, spec_text_len(units))
}

/// The `count` code units that start at byte `at`.
pub open spec fn spec_units_at(bytes: Seq<u8>, at: int, count: int) -> Seq<u16> {
    Seq::new(count as nat, |i: int| spec_u16_le(bytes, at + 2 * i))
}

/// `spec_first_null` is the least index of a null unit, bounded by the
/// field's width.
pub proof fn lemma_first_null(units: Seq<u16>, from: int)
    requires
        0 <= from <= units.len(),
    ensures
        from <= spec_first_null(units, from) <= units.len(),
        forall|i: int| from <= i < spec_first_null(units, from) ==> units[i] != 0,
        spec_first_null(units, from) < units.len() ==> units[spec_first_null(units, from)] == 0,
    decreases units.len() - from,
{
    if from < units.len() && units[from] != 0 {
        lemma_first_null(units, from + 1);
    }
}

/// A field without a terminator carries text over its full width.
pub proof fn lemma_unterminated_field(units: Seq<u16>)
    requires
        forall|i: int| 0 <= i < units.len() ==> units[i] != 0,
    ensures
        spec_text_len(units) == units.len(),
        spec_text_units(units) == units,
{
    lemma_first_null(units, 0);
    assert(spec_text_units(units) =~= units);
}

/// Text followed by a null carries exactly that text, whatever comes after.
pub proof fn lemma_terminated_field(text: Seq<u16>, rest: Seq<u16>)
    requires
        forall|i: int| 0 <= i < text.len() ==> text[i] != 0,
        rest.len() > 0,
        rest[0] == 0,
    ensures
        spec_text_units(text + rest) == text,
{
    let units = text + rest;
    lemma_first_null(units, 0);
    let n = spec_first_null(units, 0);
    assert(units[text.len() as int] == 0);
    if n < text.len() {
        assert(units[n] == text[n]);
    }
    assert(spec_text_units(units) =~= text);
}

/// The units of one character, followed by anything, decode to that
/// character, followed by what the rest decodes to.
pub proof fn lemma_char_round_trip(c: char, rest: Seq<u16>)
    ensures
        utf16_lossy(spec_char_units(c) + rest) == seq![c] + utf16_lossy(rest),
{
    let units = spec_char_units(c) + rest;
    let code = c as u32;
    if code < 0x1_0000 {
        assert(units[0] == code as u16);
        assert(units.subrange(1, units.len() as int) =~= rest);
        assert(units[0] as char == c);
    } else {
        assert(units[0] == (0xD800 + (code - 0x1_0000) / 0x400) as u16);
        assert(units[1] == (0xDC00 + (code - 0x1_0000) % 0x400) as u16);
        assert(units.subrange(2, units.len() as int) =~= rest);
        assert(spec_pair_code(units[0], units[1]) == code);
    }
}

/// Text round trip: the units that encode a text decode to that text.
pub proof fn lemma_text_round_trip(text: Seq<char>)
    ensures
        utf16_lossy(utf16_units(text)) == text,
    decreases text.len(),
{
    if text.len() > 0 {
        let tail = text.subrange(1, text.len() as int);
        lemma_text_round_trip(tail);
        lemma_char_round_trip(text[0], utf16_units(tail));
        assert(seq![text[0]] + tail =~= text);
    } else {
        assert(text =~= Seq::<char>::empty());
    }
}

/// A character other than null is encoded without a null unit.
pub proof fn lemma_char_units_without_null(c: char)
    requires
        c as u32 != 0,
    ensures
        forall|j: int| 0 <= j < spec_char_units(c).len() ==> spec_char_units(c)[j] != 0,
{
}

/// A text without the null character is encoded without a null unit.
pub proof fn lemma_units_without_null(text: Seq<char>)
    requires
        forall|i: int| 0 <= i < text.len() ==> text[i] as u32 != 0,
    ensures
        forall|j: int| 0 <= j < utf16_units(text).len() ==> utf16_units(text)[j] != 0,
    decreases text.len(),
{
    if text.len() > 0 {
        let tail = text.subrange(1, text.len() as int);
        assert forall|i: int| 0 <= i < tail.len() implies tail[i] as u32 != 0 by {
            assert(tail[i] == text[i + 1]);
        }
        lemma_units_without_null(tail);
        let head = spec_char_units(text[0]);
        assert forall|j: int| 0 <= j < utf16_units(text).len() implies utf16_units(text)[j]
            != 0 by {
            if j >= head.len() {
                assert(utf16_units(text)[j] == utf16_units(tail)[j - head.len()]);
            } else {
                assert(utf16_units(text)[j] == head[j]);
                lemma_char_units_without_null(text[0]);
            }
        }
    }
}

/// Number of units before the first null; the slice's length where it holds
/// no null.
pub fn text_len(units: &[u16]) -> (len: usize)
    ensures
        len == spec_text_len(units@),
        len <= units@.len(),
{
    let mut i: usize = 0;
    while i < units.len() && units[i] != 0
        invariant
            i <= units@.len(),
            spec_first_null(units@, i as int) == spec_first_null(units@, 0),
        decreases units@.len() - i,
    {
        i += 1;
    }
    i
}

/// `char::from_u32` of std: the character with the given code where the
/// code is a scalar value, and nothing where it is not. The contract is
/// taken from the function's documentation and is not proved here.
#[verifier::external_body]
fn char_from_code(code: u32) -> (c: Option<char>)
    ensures
        spec_is_scalar(code) ==> c == Some(code as char),
        !spec_is_scalar(code) ==> c is None,
{
    char::from_u32(code)
}

/// `String::from_iter` of std on characters: the string made of exactly the
/// given characters, in order. The contract is taken from the function's
/// documentation and is not proved here.
#[verifier::external_body]
fn string_from_chars(chars: &[char]) -> (text: String)
    ensures
        text@ == chars@,
{
    String::from_iter(chars.iter())
}

/// The character with the given code; `REPLACEMENT` where the code is no
/// scalar value.
pub fn char_or_replacement(code: u32) -> (c: char)
    ensures
        c == if spec_is_scalar(code) { code as char } else { REPLACEMENT },
{
    match char_from_code(code) {
        Some(c) => c,
        None => REPLACEMENT,
    }
}

/// Decodes UTF-16 without failing: what cannot be decoded is replaced.
pub fn decode_utf16_lossy(units: &[u16]) -> (text: String)
    ensures
        text@ == utf16_lossy(units@),
{
    let mut chars: Vec<char> = Vec::new();
    let mut i: usize = 0;
    assert(units@.subrange(0, units@.len() as int) =~= units@);
    while i < units.len()
        invariant
            i <= units@.len(),
            chars@ + utf16_lossy(units@.subrange(i as int, units@.len() as int)) == utf16_lossy(
                units@,
            ),
        decreases units@.len() - i,
    {
        let ghost rest = units@.subrange(i as int, units@.len() as int);
        let ghost before = chars@;
        let unit: u16 = units[i];
        assert(rest[0] == unit);
        if 0xD800 <= unit && unit <= 0xDBFF && i + 1 < units.len() && 0xDC00 <= units[i + 1]
            && units[i + 1] <= 0xDFFF {
            let low: u16 = units[i + 1];
            assert(rest[1] == low);
            let code: u32 = 0x1_0000 + (unit as u32 - 0xD800) * 0x400 + (low as u32 - 0xDC00);
            let c = char_or_replacement(code);
            chars.push(c);
            i += 2;
            proof {
                let tail = units@.subrange(i as int, units@.len() as int);
                assert(rest.subrange(2, rest.len() as int) =~= tail);
                assert(chars@ + utf16_lossy(tail) =~= before + utf16_lossy(rest));
            }
        } else {
            let c = if 0xD800 <= unit && unit <= 0xDFFF {
                REPLACEMENT
            } else {
                char_or_replacement(unit as u32)
            };
            chars.push(c);
            i += 1;
            proof {
                let tail = units@.subrange(i as int, units@.len() as int);
                assert(rest.subrange(1, rest.len() as int) =~= tail);
                if i < units@.len() {
                    assert(rest[1] == units@[i as int]);
                }
                assert(chars@ + utf16_lossy(tail) =~= before + utf16_lossy(rest));
            }
        }
    }
    assert(utf16_lossy(units@.subrange(i as int, units@.len() as int)) =~= Seq::<char>::empty());
    assert(chars@ + Seq::<char>::empty() =~= chars@);
    string_from_chars(chars.as_slice())
}

/// Decodes a fixed-width field: the units up to the first null, or the whole
/// field where none is found, decoded lossily. Never fails.
pub fn decode_text(field: &[u16]) -> (text: String)
    ensures
        text@ == utf16_lossy(spec_text_units(field@)),
{
    let len = text_len(field);
    decode_utf16_lossy(slice_subrange(field, 0, len))
}

/// Reads `count` code units that start at byte `at`.
pub fn read_units(bytes: &[u8], at: usize, count: usize) -> (units: Vec<u16>)
    requires
        at + 2 * count <= bytes.len(),
    ensures
        units@ == spec_units_at(bytes@, at as int, count as int),
{
    let mut units: Vec<u16> = Vec::new();
    let mut i: usize = 0;
    while i < count
        invariant
            i <= count,
            at + 2 * count <= bytes.len(),
            units@ == spec_units_at(bytes@, at as int, i as int),
        decreases count - i,
    {
        let unit = read_u16_le(bytes, at + 2 * i);
        units.push(unit);
        i += 1;
        assert(units@ =~= spec_units_at(bytes@, at as int, i as int));
    }
    units
}

/// Encodes a text as UTF-16 and closes it with a null unit, as the host's
/// wide-character interfaces expect.
pub fn to_utf16(text: &str) -> (units: Vec<u16>)
    ensures
        units@ == utf16_units(text@).push(0),
{
    let total = text.unicode_len();
    let mut units: Vec<u16> = Vec::new();
    let mut i: usize = 0;
    assert(text@.subrange(0, text@.len() as int) =~= text@);
    while i < total
        invariant
            i <= total,
            total == text@.len(),
            units@ + utf16_units(text@.subrange(i as int, text@.len() as int)) == utf16_units(
                text@,
            ),
        decreases total - i,
    {
        let ghost rest = text@.subrange(i as int, text@.len() as int);
        let ghost before = units@;
        let c = text.get_char(i);
        assert(rest[0] == c);
        let code: u32 = c as u32;
        if code < 0x1_0000 {
            units.push(code as u16);
        } else {
            units.push((0xD800 + (code - 0x1_0000) / 0x400) as u16);
            units.push((0xDC00 + (code - 0x1_0000) % 0x400) as u16);
        }
        i += 1;
        proof {
            let tail = text@.subrange(i as int, text@.len() as int);
            assert(rest.subrange(1, rest.len() as int) =~= tail);
            assert(units@ =~= before + spec_char_units(c));
            assert(units@ + utf16_units(tail) =~= before + utf16_units(rest));
        }
    }
    assert(utf16_units(text@.subrange(i as int, text@.len() as int)) =~= Seq::<u16>::empty());
    assert(units@ + Seq::<u16>::empty() =~= units@);
    units.push(0);
    units
}

/// What is shown of a path: the path itself up to `DISPLAY_LIMIT`
/// characters, else its first `DISPLAY_LIMIT` characters and three dots.
pub open spec fn spec_display_path(path: Seq<char>) -> Seq<char> {
    if path.len() <= DISPLAY_LIMIT {
        path
    } else {
        path.subrange(0, DISPLAY_LIMIT as int) + seq!['.', '.', '.']
    }
}

/// Cuts a long path for display and marks the cut; the path it is given
/// stays as it is.
pub fn display_path(path: &str) -> (shown: String)
    ensures
        shown@ == spec_display_path(path@),
{
    let total = path.unicode_len();
    let kept: usize = if total <= DISPLAY_LIMIT { total } else { DISPLAY_LIMIT };
    let mut chars: Vec<char> = Vec::new();
    let mut i: usize = 0;
    while i < kept
        invariant
            i <= kept <= path@.len(),
            chars@ == path@.subrange(0, i as int),
        decreases kept - i,
    {
        let c = path.get_char(i);
        chars.push(c);
        i += 1;
        assert(chars@ =~= path@.subrange(0, i as int));
    }
    if total > DISPLAY_LIMIT {
        chars.push('.');
        chars.push('.');
        chars.push('.');
        assert(chars@ =~= spec_display_path(path@));
    } else {
        assert(chars@ =~= path@);
    }
    string_from_chars(chars.as_slice())
}

} // verus!
