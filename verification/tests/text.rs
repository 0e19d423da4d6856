use cosmosguard::text::{
    char_or_replacement, decode_text, decode_utf16_lossy, display_path, read_units, text_len,
    to_utf16, DISPLAY_LIMIT, REPLACEMENT,
};

#[test]
fn text_len_stops_at_first_null() {
    assert_eq!(text_len(&[]), 0);
    assert_eq!(text_len(&[0]), 0);
    assert_eq!(text_len(&[65, 66, 0, 67, 0]), 2);
    assert_eq!(text_len(&[65, 66, 67]), 3);
}

#[test]
fn decode_text_reads_the_prefix() {
    assert_eq!(decode_text(&[0x68, 0x69, 0, 0x21]), "hi");
    assert_eq!(decode_text(&[0x68, 0x69]), "hi");
    assert_eq!(decode_text(&[]), "");
    assert_eq!(decode_text(&[0xdc00, 0x41]), "\u{fffd}A");
}

#[test]
fn read_units_reads_little_endian_pairs() {
    let bytes = [0xffu8, 0x41, 0x00, 0x3d, 0xd8, 0x00, 0x00];
    assert_eq!(read_units(&bytes, 1, 3), vec![0x0041, 0xd83d, 0x0000]);
    assert!(read_units(&bytes, 7, 0).is_empty());
}

#[test]
fn endpoint_path_is_encoded_with_terminator() {
    let units = to_utf16("\\\\.\\CosmosLink");
    let expected: Vec<u16> = vec![
        0x5c, 0x5c, 0x2e, 0x5c, 0x43, 0x6f, 0x73, 0x6d, 0x6f, 0x73, 0x4c, 0x69, 0x6e, 0x6b, 0,
    ];
    assert_eq!(units, expected);
    assert_eq!(to_utf16(""), vec![0]);
    assert_eq!(to_utf16("\u{1f600}"), vec![0xd83d, 0xde00, 0]);
}

#[test]
fn encoded_text_decodes_to_itself() {
    let text = "C:\\Program Files\\Żółw\\app.exe";
    assert_eq!(decode_text(&to_utf16(text)), text);
}

#[test]
fn short_paths_are_shown_whole() {
    assert_eq!(display_path(""), "");
    assert_eq!(display_path("C:\\a.exe"), "C:\\a.exe");
    let exact = "x".repeat(DISPLAY_LIMIT);
    assert_eq!(display_path(&exact), exact);
}

#[test]
fn long_paths_are_cut_and_marked() {
    let long = "y".repeat(101);
    assert_eq!(display_path(&long), format!("{}...", "y".repeat(100)));
    let wide = "ż".repeat(250);
    let shown = display_path(&wide);
    assert_eq!(shown.chars().count(), 103);
    assert_eq!(shown, format!("{}...", "ż".repeat(100)));
    assert_eq!(wide.chars().count(), 250);
}

#[test]
fn codes_that_are_no_characters_are_replaced() {
    assert_eq!(REPLACEMENT, '\u{fffd}');
    assert_eq!(char_or_replacement(0x41), 'A');
    assert_eq!(char_or_replacement(0), '\0');
    assert_eq!(char_or_replacement(0xd7ff), '\u{d7ff}');
    assert_eq!(char_or_replacement(0xd800), REPLACEMENT);
    assert_eq!(char_or_replacement(0xdfff), REPLACEMENT);
    assert_eq!(char_or_replacement(0xe000), '\u{e000}');
    assert_eq!(char_or_replacement(0x10ffff), '\u{10ffff}');
    assert_eq!(char_or_replacement(0x110000), REPLACEMENT);
    assert_eq!(char_or_replacement(u32::MAX), REPLACEMENT);
}

#[test]
fn surrogates_are_paired_or_replaced() {
    assert_eq!(decode_utf16_lossy(&[]), "");
    assert_eq!(decode_utf16_lossy(&[0xd83d, 0xde00]), "\u{1f600}");
    assert_eq!(decode_utf16_lossy(&[0xd800, 0xdc00]), "\u{10000}");
    assert_eq!(decode_utf16_lossy(&[0xdbff, 0xdfff]), "\u{10ffff}");
    assert_eq!(decode_utf16_lossy(&[0xd83d]), "\u{fffd}");
    assert_eq!(decode_utf16_lossy(&[0xde00]), "\u{fffd}");
    assert_eq!(decode_utf16_lossy(&[0xde00, 0xd83d]), "\u{fffd}\u{fffd}");
    assert_eq!(decode_utf16_lossy(&[0xd83d, 0xd83d, 0xde00]), "\u{fffd}\u{1f600}");
    assert_eq!(decode_utf16_lossy(&[0xd83d, 0x41]), "\u{fffd}A");
    assert_eq!(decode_utf16_lossy(&[0x41, 0, 0x42]), "A\0B");
    assert_eq!(decode_utf16_lossy(&[0xffff, 0xd7ff, 0xe000]), "\u{ffff}\u{d7ff}\u{e000}");
}

#[test]
fn lossy_decoding_agrees_with_the_standard_library() {
    let pool: [u16; 12] = [
        0x0000, 0x0041, 0x00e9, 0xd7ff, 0xd800, 0xd83d, 0xdbff, 0xdc00, 0xde00, 0xdfff, 0xe000,
        0xffff,
    ];
    for a in pool {
        assert_eq!(decode_utf16_lossy(&[a]), String::from_utf16_lossy(&[a]));
        for b in pool {
            assert_eq!(decode_utf16_lossy(&[a, b]), String::from_utf16_lossy(&[a, b]));
            for c in pool {
                let units = [a, b, c, a];
                assert_eq!(decode_utf16_lossy(&units), String::from_utf16_lossy(&units));
            }
        }
    }
}

#[test]
fn encoding_agrees_with_the_standard_library() {
    for text in ["", "plain", "C:\\Windows\\notepad.exe", "zażółć", "日本語", "a\u{1f600}b\u{10000}\u{10ffff}", "\u{ffff}\u{e000}\u{d7ff}"] {
        let mut expected: Vec<u16> = text.encode_utf16().collect();
        expected.push(0);
        assert_eq!(to_utf16(text), expected);
        let units = to_utf16(text);
        assert_eq!(decode_utf16_lossy(&units[..units.len() - 1]), text);
    }
}
