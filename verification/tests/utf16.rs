use rcl_core::utf16::{Utf16LineIndex, Utf16Mapper};

fn reference_utf16_offset(source: &str, byte_offset: u32) -> u32 {
    let byte_offset = (byte_offset as usize).min(source.len());
    source[..byte_offset]
        .chars()
        .map(|ch| u32::try_from(ch.len_utf16()).unwrap_or(u32::MAX))
        .sum()
}

fn test_all_char_boundaries(source: &str, mapper: &Utf16Mapper, test_name: &str) {
    let mut byte_offset = 0;
    for ch in source.chars() {
        let result = mapper.to_utf16(u32::try_from(byte_offset).unwrap_or(u32::MAX));
        let expected =
            reference_utf16_offset(source, u32::try_from(byte_offset).unwrap_or(u32::MAX));
        assert_eq!(
            result, expected,
            "{test_name}: byte_offset={byte_offset} expected={expected} got={result}"
        );
        byte_offset += ch.len_utf8();
    }
    // Also test at end
    let result = mapper.to_utf16(u32::try_from(source.len()).unwrap_or(u32::MAX));
    let expected =
        reference_utf16_offset(source, u32::try_from(source.len()).unwrap_or(u32::MAX));
    assert_eq!(
        result,
        expected,
        "{test_name}: end byte_offset={} expected={expected} got={result}",
        source.len()
    );
}

#[test]
fn test_pure_ascii() {
    let source = "hello";
    let mapper = Utf16Mapper::new(source);

    // Test at every char boundary (ASCII is 1 byte per char)
    for byte_offset in 0..=u32::try_from(source.len()).unwrap_or(u32::MAX) {
        let result = mapper.to_utf16(byte_offset);
        let expected = reference_utf16_offset(source, byte_offset);
        assert_eq!(
            result, expected,
            "ASCII: byte_offset={byte_offset} expected={expected} got={result}"
        );
    }
}

#[test]
fn test_emoji_surrogate_pair() {
    // 🦀 is U+1F980, which is 4 UTF-8 bytes and 2 UTF-16 code units
    let source = "a🦀b";
    let mapper = Utf16Mapper::new(source);

    // Byte offsets: a=0-1, 🦀=1-5, b=5-6
    // UTF-16 offsets: a=0-1, 🦀=1-3, b=3-4

    assert_eq!(mapper.to_utf16(0), 0, "start");
    assert_eq!(mapper.to_utf16(1), 1, "after 'a'");
    assert_eq!(mapper.to_utf16(5), 3, "after emoji (2 UTF-16 units)");
    assert_eq!(mapper.to_utf16(6), 4, "end");

    test_all_char_boundaries(source, &mapper, "emoji");
}

#[test]
fn test_cjk() {
    // 中 is U+4E2D (3 UTF-8 bytes, 1 UTF-16 unit)
    // 文 is U+6587 (3 UTF-8 bytes, 1 UTF-16 unit)
    let source = "中文";
    let mapper = Utf16Mapper::new(source);

    assert_eq!(mapper.to_utf16(0), 0, "start");
    assert_eq!(mapper.to_utf16(3), 1, "after 中");
    assert_eq!(mapper.to_utf16(6), 2, "after 文");

    test_all_char_boundaries(source, &mapper, "CJK");
}

#[test]
fn test_combining_marks() {
    // e + combining acute accent (U+0301)
    let source = "e\u{0301}";
    let mapper = Utf16Mapper::new(source);

    // e = 1 byte, 1 UTF-16 unit
    // U+0301 = 2 bytes, 1 UTF-16 unit
    assert_eq!(mapper.to_utf16(0), 0, "start");
    assert_eq!(mapper.to_utf16(1), 1, "after e");
    assert_eq!(mapper.to_utf16(3), 2, "after combining mark");

    test_all_char_boundaries(source, &mapper, "combining");
}

#[test]
fn test_bom() {
    // BOM (U+FEFF) = 3 UTF-8 bytes, 1 UTF-16 unit
    let source = "\u{FEFF}use";
    let mapper = Utf16Mapper::new(source);

    assert_eq!(mapper.to_utf16(0), 0, "start");
    assert_eq!(mapper.to_utf16(3), 1, "after BOM");
    assert_eq!(mapper.to_utf16(4), 2, "after 'u'");
    assert_eq!(mapper.to_utf16(7), 4, "end");

    test_all_char_boundaries(source, &mapper, "BOM");
}

#[test]
fn test_crlf() {
    let source = "a\r\nb";
    let mapper = Utf16Mapper::new(source);

    // a = 1 byte, 1 UTF-16 unit
    // \r = 1 byte, 1 UTF-16 unit
    // \n = 1 byte, 1 UTF-16 unit
    // b = 1 byte, 1 UTF-16 unit
    assert_eq!(mapper.to_utf16(0), 0, "start");
    assert_eq!(mapper.to_utf16(1), 1, "after 'a'");
    assert_eq!(mapper.to_utf16(2), 2, "after \\r");
    assert_eq!(mapper.to_utf16(3), 3, "after \\n");
    assert_eq!(mapper.to_utf16(4), 4, "end");

    test_all_char_boundaries(source, &mapper, "CRLF");
}

#[test]
fn test_mixed_string() {
    // Mix of ASCII, emoji, CJK, combining marks
    let source = "a🦀中e\u{0301}";
    let mapper = Utf16Mapper::new(source);

    // a = 1 byte, 1 UTF-16 unit
    // 🦀 = 4 bytes, 2 UTF-16 units
    // 中 = 3 bytes, 1 UTF-16 unit
    // e = 1 byte, 1 UTF-16 unit
    // U+0301 = 2 bytes, 1 UTF-16 unit
    // Total: 11 bytes, 6 UTF-16 units

    assert_eq!(mapper.to_utf16(0), 0, "start");
    assert_eq!(mapper.to_utf16(1), 1, "after 'a'");
    assert_eq!(mapper.to_utf16(5), 3, "after emoji");
    assert_eq!(mapper.to_utf16(8), 4, "after CJK");
    assert_eq!(mapper.to_utf16(9), 5, "after 'e'");
    assert_eq!(mapper.to_utf16(11), 6, "end");

    test_all_char_boundaries(source, &mapper, "mixed");
}

#[test]
fn test_offset_past_end_clamped() {
    let source = "hello";
    let mapper = Utf16Mapper::new(source);

    // Offsets past end should clamp to source length
    assert_eq!(mapper.to_utf16(100), 5, "clamped to end");
    assert_eq!(mapper.to_utf16(1000), 5, "clamped to end (large)");
}

#[test]
fn test_empty_string() {
    let source = "";
    let mapper = Utf16Mapper::new(source);

    assert_eq!(mapper.to_utf16(0), 0, "empty string");
    assert_eq!(mapper.to_utf16(1), 0, "empty string clamped");
}

#[test]
fn utf16_test_pure_ascii() {
    let source = "hello";
    let mapper = Utf16Mapper::new(source);

    // Test at every char boundary (ASCII is 1 byte per char)
    for byte_offset in 0..=u32::try_from(source.len()).unwrap_or(u32::MAX) {
        let result = mapper.to_utf16(byte_offset);
        let expected = reference_utf16_offset(source, byte_offset);
        assert_eq!(
            result, expected,
            "ASCII: byte_offset={byte_offset} expected={expected} got={result}"
        );
    }
}

#[test]
fn utf16_test_emoji_surrogate_pair() {
    // 🦀 is U+1F980, which is 4 UTF-8 bytes and 2 UTF-16 code units
    let source = "a🦀b";
    let mapper = Utf16Mapper::new(source);

    test_all_char_boundaries(source, &mapper, "emoji");
}

#[test]
fn test_emoji_surrogate_pair_explicit_offsets() {
    for (byte_offset, expected, message) in [
        (0, 0, "start"),
        (1, 1, "after 'a'"),
        (5, 3, "after emoji (2 UTF-16 units)"),
        (6, 4, "end"),
    ] {
        // 🦀 is U+1F980, which is 4 UTF-8 bytes and 2 UTF-16 code units
        let source = "a🦀b";
        let mapper = Utf16Mapper::new(source);

        // Byte offsets: a=0-1, 🦀=1-5, b=5-6
        // UTF-16 offsets: a=0-1, 🦀=1-3, b=3-4
        assert_eq!(mapper.to_utf16(byte_offset), expected, "{message}");
    }
}

#[test]
fn utf16_test_cjk() {
    // 中 is U+4E2D (3 UTF-8 bytes, 1 UTF-16 unit)
    // 文 is U+6587 (3 UTF-8 bytes, 1 UTF-16 unit)
    let source = "中文";
    let mapper = Utf16Mapper::new(source);

    test_all_char_boundaries(source, &mapper, "CJK");
}

#[test]
fn test_cjk_explicit_offsets() {
    for (byte_offset, expected, message) in [
        (0, 0, "start"),
        (3, 1, "after 中"),
        (6, 2, "after 文"),
    ] {
        // 中 is U+4E2D (3 UTF-8 bytes, 1 UTF-16 unit)
        // 文 is U+6587 (3 UTF-8 bytes, 1 UTF-16 unit)
        let source = "中文";
        let mapper = Utf16Mapper::new(source);

        assert_eq!(mapper.to_utf16(byte_offset), expected, "{message}");
    }
}

#[test]
fn utf16_test_combining_marks() {
    // e + combining acute accent (U+0301)
    let source = "e\u{0301}";
    let mapper = Utf16Mapper::new(source);

    test_all_char_boundaries(source, &mapper, "combining");
}

#[test]
fn test_combining_marks_explicit_offsets() {
    for (byte_offset, expected, message) in [
        (0, 0, "start"),
        (1, 1, "after e"),
        (3, 2, "after combining mark"),
    ] {
        // e + combining acute accent (U+0301)
        let source = "e\u{0301}";
        let mapper = Utf16Mapper::new(source);

        // e = 1 byte, 1 UTF-16 unit
        // U+0301 = 2 bytes, 1 UTF-16 unit
        assert_eq!(mapper.to_utf16(byte_offset), expected, "{message}");
    }
}

#[test]
fn utf16_test_bom() {
    // BOM (U+FEFF) = 3 UTF-8 bytes, 1 UTF-16 unit
    let source = "\u{FEFF}use";
    let mapper = Utf16Mapper::new(source);

    test_all_char_boundaries(source, &mapper, "BOM");
}

#[test]
fn test_bom_explicit_offsets() {
    for (byte_offset, expected, message) in [
        (0, 0, "start"),
        (3, 1, "after BOM"),
        (4, 2, "after 'u'"),
        (7, 4, "end"),
    ] {
        // BOM (U+FEFF) = 3 UTF-8 bytes, 1 UTF-16 unit
        let source = "\u{FEFF}use";
        let mapper = Utf16Mapper::new(source);

        assert_eq!(mapper.to_utf16(byte_offset), expected, "{message}");
    }
}

#[test]
fn utf16_test_crlf() {
    let source = "a\r\nb";
    let mapper = Utf16Mapper::new(source);

    test_all_char_boundaries(source, &mapper, "CRLF");
}

#[test]
fn test_crlf_explicit_offsets() {
    for (byte_offset, expected, message) in [
        (0, 0, "start"),
        (1, 1, "after 'a'"),
        (2, 2, "after \\r"),
        (3, 3, "after \\n"),
        (4, 4, "end"),
    ] {
        let source = "a\r\nb";
        let mapper = Utf16Mapper::new(source);

        // a = 1 byte, 1 UTF-16 unit
        // \r = 1 byte, 1 UTF-16 unit
        // \n = 1 byte, 1 UTF-16 unit
        // b = 1 byte, 1 UTF-16 unit
        assert_eq!(mapper.to_utf16(byte_offset), expected, "{message}");
    }
}

#[test]
fn utf16_test_mixed_string() {
    // Mix of ASCII, emoji, CJK, combining marks
    let source = "a🦀中e\u{0301}";
    let mapper = Utf16Mapper::new(source);

    test_all_char_boundaries(source, &mapper, "mixed");
}

#[test]
fn test_mixed_string_explicit_offsets() {
    for (byte_offset, expected, message) in [
        (0, 0, "start"),
        (1, 1, "after 'a'"),
        (5, 3, "after emoji"),
        (8, 4, "after CJK"),
        (9, 5, "after 'e'"),
        (11, 6, "end"),
    ] {
        // Mix of ASCII, emoji, CJK, combining marks
        let source = "a🦀中e\u{0301}";
        let mapper = Utf16Mapper::new(source);

        // a = 1 byte, 1 UTF-16 unit
        // 🦀 = 4 bytes, 2 UTF-16 units
        // 中 = 3 bytes, 1 UTF-16 unit
        // e = 1 byte, 1 UTF-16 unit
        // U+0301 = 2 bytes, 1 UTF-16 unit
        // Total: 11 bytes, 6 UTF-16 units
        assert_eq!(mapper.to_utf16(byte_offset), expected, "{message}");
    }
}

#[test]
fn utf16_test_offset_past_end_clamped() {
    let source = "hello";
    let mapper = Utf16Mapper::new(source);

    // Offsets past end should clamp to source length
    assert_eq!(mapper.to_utf16(100), 5, "clamped to end");
    assert_eq!(mapper.to_utf16(1000), 5, "clamped to end (large)");
}

#[test]
fn to_utf16_returns_exact_mapping_entry_for_multibyte_boundary() {
    let source = "a🦀b";
    let mapper = Utf16Mapper::new(source);

    assert_eq!(mapper.to_utf16(5), 3, "exact boundary after emoji");
}

#[test]
fn to_utf16_returns_zero_before_first_mapping_entry() {
    let mapper = Utf16Mapper {
        mapping: vec![(2, 1)],
        newline_utf16_offsets: Vec::new(),
        source_len: 2,
    };

    assert_eq!(mapper.to_utf16(1), 0, "before first mapping entry");
}

#[test]
fn utf16_test_empty_string() {
    let source = "";
    let mapper = Utf16Mapper::new(source);

    assert_eq!(mapper.to_utf16(0), 0, "empty string");
    assert_eq!(mapper.to_utf16(1), 0, "empty string clamped");
}

#[test]
fn ascii_offsets_map_to_zero_based_positions() {
    let index = Utf16LineIndex::new("abc\ndef");

    assert_eq!(index.position(0), (0, 0));
    assert_eq!(index.position(3), (0, 3));
    assert_eq!(index.position(4), (1, 0));
    assert_eq!(index.position(7), (1, 3));
}

#[test]
fn emoji_counts_as_two_utf16_units() {
    let index = Utf16LineIndex::new("a😀b\n c");

    assert_eq!(index.position(1), (0, 1));
    assert_eq!(index.position(3), (0, 3));
    assert_eq!(index.position(4), (0, 4));
    assert_eq!(index.position(5), (1, 0));
}

#[test]
fn cjk_counts_as_one_utf16_unit_per_scalar() {
    let index = Utf16LineIndex::new("한글\n語");

    assert_eq!(index.position(2), (0, 2));
    assert_eq!(index.position(3), (1, 0));
    assert_eq!(index.position(4), (1, 1));
}

#[test]
fn crlf_treats_carriage_return_as_line_character() {
    let index = Utf16LineIndex::new("ab\r\ncd");

    assert_eq!(index.position(2), (0, 2));
    assert_eq!(index.position(3), (0, 3));
    assert_eq!(index.position(4), (1, 0));
}

#[test]
fn bom_is_a_normal_utf16_unit_for_positions() {
    let index = Utf16LineIndex::new("\u{feff}x\ny");

    assert_eq!(index.position(0), (0, 0));
    assert_eq!(index.position(1), (0, 1));
    assert_eq!(index.position(2), (0, 2));
    assert_eq!(index.position(3), (1, 0));
}

#[test]
fn multiline_offsets_use_nearest_line_start() {
    let index = Utf16LineIndex::new("one\ntwo\nthree");

    assert_eq!(index.position(4), (1, 0));
    assert_eq!(index.position(7), (1, 3));
    assert_eq!(index.position(8), (2, 0));
    assert_eq!(index.position(13), (2, 5));
}

#[test]
fn offsets_inside_a_character_map_to_its_start() {
    let mapper = Utf16Mapper::new("a🦀b");

    assert_eq!(mapper.to_utf16(2), 1);
    assert_eq!(mapper.to_utf16(4), 1);
}

#[test]
fn later_bytes_never_map_to_earlier_units() {
    let mapper = Utf16Mapper::new("a🦀中e\u{0301}\nz");
    let mut previous = 0;

    for byte in 0..20 {
        let unit = mapper.to_utf16(byte);
        assert!(previous <= unit);
        previous = unit;
    }
}

#[test]
fn mapper_gives_lines_and_characters() {
    let one_line = Utf16Mapper::new("a🦀b");
    assert_eq!(one_line.line_and_character_for_utf16(3), (0, 3));
    assert_eq!(one_line.line_and_character_for_utf16(99), (0, 4));

    let lines = Utf16Mapper::new("one\ntwo\nthree");
    assert_eq!(lines.line_and_character_for_utf16(2), (0, 0));
    assert_eq!(lines.line_and_character_for_utf16(4), (1, 0));
    assert_eq!(lines.line_and_character_for_utf16(7), (1, 3));
    assert_eq!(lines.line_and_character_for_utf16(13), (2, 5));
}

#[test]
fn line_index_and_mapper_agree_behind_the_first_line() {
    let source = "one\ntwo 🦀\nthree";
    let index = Utf16LineIndex::new(source);
    let mapper = Utf16Mapper::new(source);

    for offset in 4..=16 {
        assert_eq!(index.position(offset), mapper.line_and_character_for_utf16(offset));
    }
}

#[test]
fn line_indices_are_told_apart_by_their_lines() {
    let index = Utf16LineIndex::new("one\ntwo");
    assert_eq!(index, index.clone());
    assert_eq!(index, Utf16LineIndex::new("two\none"));
    assert_ne!(index, Utf16LineIndex::new("onetwo"));
}
