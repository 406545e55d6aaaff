use fontloader::classify::{is_ass_file, is_font_file, is_sub_file};
use fontloader::fontbin::{parse_font_names_from_bytes, parse_ttc_offsets, read_u16_be, read_u32_be};
use fontloader::numfmt::u64_to_string;
use fontloader::subtitle::{
    extract_event_text, parse_ass_fonts, parse_fn_tags, parse_format, parse_style_font,
    split_lines,
};
use fontloader::text::normalize_font_name;
use fontloader::utf16::{decode_text, decode_utf16, decode_utf16be, to_wide};

#[test]
fn normalize_plain_name() {
    assert_eq!(normalize_font_name("Arial"), Some("Arial".to_string()));
}

#[test]
fn normalize_trims_and_strips_marker() {
    assert_eq!(normalize_font_name("  @Arial  "), Some("Arial".to_string()));
}

#[test]
fn normalize_strips_nulls() {
    assert_eq!(normalize_font_name("\u{0}Arial\u{0}"), Some("Arial".to_string()));
}

#[test]
fn normalize_rejects_empty() {
    assert_eq!(normalize_font_name("   "), None);
    assert_eq!(normalize_font_name("@"), None);
    assert_eq!(normalize_font_name(""), None);
}

#[test]
fn normalize_idempotent_on_normalized_name() {
    let first = normalize_font_name(" @Comic Sans MS ").unwrap();
    assert_eq!(normalize_font_name(&first), Some(first.clone()));
}

#[test]
fn normalize_strips_only_one_marker() {
    // a name that still begins with a marker after one pass normalizes
    // differently the second time; such inputs sit outside the idempotence law
    assert_eq!(normalize_font_name("@@Arial"), Some("@Arial".to_string()));
}

#[test]
fn decode_utf16_little_endian() {
    assert_eq!(decode_utf16(&vec![0x41, 0x00, 0x42, 0x00], true), Some("AB".to_string()));
}

#[test]
fn decode_utf16_big_endian() {
    assert_eq!(decode_utf16(&vec![0x00, 0x41, 0x00, 0x42], false), Some("AB".to_string()));
}

#[test]
fn decode_utf16_odd_length_rejected() {
    assert_eq!(decode_utf16(&vec![0x41, 0x00, 0x42], true), None);
}

#[test]
fn decode_utf16be_surrogate_pair() {
    // U+1D11E as a big-endian surrogate pair
    assert_eq!(decode_utf16be(&vec![0xD8, 0x34, 0xDD, 0x1E]), "\u{1D11E}".to_string());
}

#[test]
fn decode_utf16be_lone_surrogate_replaced() {
    assert_eq!(decode_utf16be(&vec![0xD8, 0x34, 0x00, 0x41]), "\u{FFFD}A".to_string());
}

#[test]
fn decode_utf16be_ignores_trailing_odd_byte() {
    assert_eq!(decode_utf16be(&vec![0x00, 0x41, 0x7F]), "A".to_string());
}

#[test]
fn to_wide_appends_terminator() {
    assert_eq!(to_wide("A"), vec![0x41u16, 0]);
}

#[test]
fn to_wide_encodes_surrogate_pair() {
    assert_eq!(to_wide("\u{1D11E}"), vec![0xD834u16, 0xDD1E, 0]);
}

#[test]
fn decode_text_utf8_plain() {
    assert_eq!(decode_text(&b"hello".to_vec()), Some("hello".to_string()));
}

#[test]
fn decode_text_utf8_bom() {
    assert_eq!(decode_text(&vec![0xEF, 0xBB, 0xBF, b'h', b'i']), Some("hi".to_string()));
}

#[test]
fn decode_text_utf16le_bom() {
    assert_eq!(decode_text(&vec![0xFF, 0xFE, 0x41, 0x00]), Some("A".to_string()));
}

#[test]
fn decode_text_utf16be_bom() {
    assert_eq!(decode_text(&vec![0xFE, 0xFF, 0x00, 0x41]), Some("A".to_string()));
}

#[test]
fn decode_text_invalid_utf8_yields_nothing() {
    assert_eq!(decode_text(&vec![0xC3, 0x28]), None);
}

#[test]
fn read_be_fields() {
    let d = vec![0x01u8, 0x02, 0x03, 0x04, 0x05];
    assert_eq!(read_u16_be(&d, 0), Some(0x0102));
    assert_eq!(read_u16_be(&d, 3), Some(0x0405));
    assert_eq!(read_u16_be(&d, 4), None);
    assert_eq!(read_u32_be(&d, 1), Some(0x02030405));
    assert_eq!(read_u32_be(&d, 2), None);
}

/// Build a minimal single-font binary declaring the given name records.
/// Each record is (platform, name_id, text); strings are UTF-16BE.
fn make_font(records: &[(u16, u16, &str)]) -> Vec<u8> {
    let mut strings: Vec<u8> = Vec::new();
    let mut recs: Vec<u8> = Vec::new();
    for (platform, name_id, text) in records {
        let start = strings.len() as u16;
        for unit in text.encode_utf16() {
            strings.extend_from_slice(&unit.to_be_bytes());
        }
        let len = strings.len() as u16 - start;
        recs.extend_from_slice(&platform.to_be_bytes());
        recs.extend_from_slice(&1u16.to_be_bytes()); // encoding id
        recs.extend_from_slice(&0u16.to_be_bytes()); // language id
        recs.extend_from_slice(&name_id.to_be_bytes());
        recs.extend_from_slice(&len.to_be_bytes());
        recs.extend_from_slice(&start.to_be_bytes());
    }
    let count = records.len() as u16;
    let storage = 6 + 12 * count;
    let mut table: Vec<u8> = Vec::new();
    table.extend_from_slice(&0u16.to_be_bytes()); // format
    table.extend_from_slice(&count.to_be_bytes());
    table.extend_from_slice(&storage.to_be_bytes());
    table.extend_from_slice(&recs);
    table.extend_from_slice(&strings);

    let mut font: Vec<u8> = Vec::new();
    font.extend_from_slice(&[0x00, 0x01, 0x00, 0x00]); // sfnt version
    font.extend_from_slice(&1u16.to_be_bytes()); // one table
    font.extend_from_slice(&[0u8; 6]); // search fields
    font.extend_from_slice(b"name");
    font.extend_from_slice(&0u32.to_be_bytes()); // checksum
    font.extend_from_slice(&28u32.to_be_bytes()); // table offset
    font.extend_from_slice(&(table.len() as u32).to_be_bytes());
    font.extend_from_slice(&table);
    font
}

#[test]
fn font_single_family_name() {
    let data = make_font(&[(3, 1, "Arial")]);
    assert_eq!(parse_font_names_from_bytes(&data), vec!["Arial".to_string()]);
}

#[test]
fn font_family_and_full_name_deduplicated() {
    let data = make_font(&[(3, 1, "Arial"), (3, 4, "Arial"), (3, 4, "Arial Bold")]);
    assert_eq!(
        parse_font_names_from_bytes(&data),
        vec!["Arial".to_string(), "Arial Bold".to_string()]
    );
}

#[test]
fn font_macintosh_records_skipped() {
    let data = make_font(&[(1, 1, "MacOnly")]);
    assert_eq!(parse_font_names_from_bytes(&data), Vec::<String>::new());
}

#[test]
fn font_other_name_ids_skipped() {
    let data = make_font(&[(3, 2, "Regular"), (3, 1, "Arial")]);
    assert_eq!(parse_font_names_from_bytes(&data), vec!["Arial".to_string()]);
}

#[test]
fn font_without_name_table_yields_empty_set() {
    // header says zero tables: no name table, no names, no error
    let mut data = vec![0x00u8, 0x01, 0x00, 0x00];
    data.extend_from_slice(&0u16.to_be_bytes());
    data.extend_from_slice(&[0u8; 6]);
    assert_eq!(parse_font_names_from_bytes(&data), Vec::<String>::new());
}

#[test]
fn font_garbage_yields_empty_set() {
    assert_eq!(parse_font_names_from_bytes(&vec![1, 2, 3]), Vec::<String>::new());
    assert_eq!(parse_font_names_from_bytes(&vec![0xFFu8; 64]), Vec::<String>::new());
}

#[test]
fn collection_merges_sub_font_names() {
    let font_a = make_font(&[(3, 1, "Alpha")]);
    let font_b = make_font(&[(3, 1, "Beta"), (3, 4, "Alpha")]);
    let mut ttc: Vec<u8> = Vec::new();
    ttc.extend_from_slice(b"ttcf");
    ttc.extend_from_slice(&[0x00, 0x01, 0x00, 0x00]);
    ttc.extend_from_slice(&2u32.to_be_bytes());
    let off_a = 12 + 8;
    let off_b = off_a + font_a.len();
    ttc.extend_from_slice(&(off_a as u32).to_be_bytes());
    ttc.extend_from_slice(&(off_b as u32).to_be_bytes());
    ttc.extend_from_slice(&font_a);
    ttc.extend_from_slice(&font_b);
    assert_eq!(parse_ttc_offsets(&ttc), vec![off_a, off_b]);
    assert_eq!(
        parse_font_names_from_bytes(&ttc),
        vec!["Alpha".to_string(), "Beta".to_string()]
    );
}

#[test]
fn event_dialogue_with_override_tag() {
    let text = "[Events]\nFormat: Layer, Start, End, Style, Name, MarginL, MarginR, MarginV, Effect, Text\nDialogue: 0,0:00:00.00,0:00:05.00,Default,,0,0,0,,{\\fn(Comic Sans MS)}Hello";
    assert_eq!(parse_ass_fonts(text), vec!["Comic Sans MS".to_string()]);
}

#[test]
fn style_line_with_reordered_columns() {
    let text = "[V4+ Styles]\nFormat: Name, Fontname, Fontsize\nStyle: Default,Verdana,20";
    assert_eq!(parse_ass_fonts(text), vec!["Verdana".to_string()]);
}

#[test]
fn keywords_match_case_insensitively() {
    let text = "[V4+ STYLES]\nFORMAT: Name, Fontname\nSTYLE: Default,Tahoma";
    assert_eq!(parse_ass_fonts(text), vec!["Tahoma".to_string()]);
}

#[test]
fn style_without_format_uses_default_column() {
    let text = "[V4 Styles]\nStyle: Default,Georgia,20";
    assert_eq!(parse_ass_fonts(text), vec!["Georgia".to_string()]);
}

#[test]
fn names_deduplicated_across_sections() {
    let text = "[V4+ Styles]\nFormat: Name, Fontname\nStyle: A,Arial\nStyle: B,Arial\n[Events]\nFormat: Layer, Start, End, Style, Name, MarginL, MarginR, MarginV, Effect, Text\nDialogue: 0,a,b,c,,0,0,0,,{\\fnArial}x{\\fnTimes New Roman}y";
    assert_eq!(
        parse_ass_fonts(text),
        vec!["Arial".to_string(), "Times New Roman".to_string()]
    );
}

#[test]
fn lines_outside_sections_ignored() {
    let text = "Format: Name, Fontname\nStyle: Default,Nope";
    assert_eq!(parse_ass_fonts(text), Vec::<String>::new());
}

#[test]
fn parse_format_lowers_and_trims() {
    assert_eq!(
        parse_format("Format: Name, Fontname, Fontsize", 7),
        vec!["name".to_string(), "fontname".to_string(), "fontsize".to_string()]
    );
}

#[test]
fn parse_style_font_column_selection() {
    assert_eq!(
        parse_style_font("Style: Default,Verdana,20", Some(1)),
        Some("Verdana".to_string())
    );
    assert_eq!(
        parse_style_font("Style: Default,Verdana,20", None),
        Some("Verdana".to_string())
    );
    assert_eq!(parse_style_font("Style: Default,Verdana,20", Some(9)), None);
}

#[test]
fn extract_event_text_preserves_embedded_commas() {
    let line = "Dialogue: 0,0:00:00.00,0:00:05.00,Default,,0,0,0,,one,two{\\fnX}";
    assert_eq!(extract_event_text(line, Some(9)), Some("one,two{\\fnX}".to_string()));
}

#[test]
fn extract_event_text_too_few_commas_yields_empty() {
    assert_eq!(extract_event_text("Dialogue: 0,a", Some(9)), Some(String::new()));
}

#[test]
fn fn_tag_plain_ends_at_backslash_or_brace() {
    assert_eq!(parse_fn_tags("{\\fnArial\\b1}x"), vec!["Arial".to_string()]);
    assert_eq!(parse_fn_tags("{\\fnTahoma}x"), vec!["Tahoma".to_string()]);
    assert_eq!(parse_fn_tags("\\fnGeorgia"), vec!["Georgia".to_string()]);
}

#[test]
fn fn_tag_parenthesized_may_hold_commas() {
    assert_eq!(parse_fn_tags("{\\fn(A, B)}x"), vec!["A, B".to_string()]);
}

#[test]
fn fn_tag_unclosed_parenthesis_read_as_plain() {
    assert_eq!(parse_fn_tags("{\\fn(Arial}x"), vec!["(Arial".to_string()]);
}

#[test]
fn fn_tag_duplicates_kept_here_deduplicated_later() {
    assert_eq!(
        parse_fn_tags("{\\fnArial}a{\\fnArial}b"),
        vec!["Arial".to_string(), "Arial".to_string()]
    );
}

#[test]
fn fn_tag_vertical_marker_normalized() {
    assert_eq!(parse_fn_tags("{\\fn@Meiryo}x"), vec!["Meiryo".to_string()]);
}

#[test]
fn split_lines_handles_crlf_and_final_line() {
    assert_eq!(
        split_lines("a\r\nb\nc"),
        vec!["a".to_string(), "b".to_string(), "c".to_string()]
    );
    assert_eq!(split_lines(""), Vec::<String>::new());
    assert_eq!(split_lines("a\n"), vec!["a".to_string()]);
}

#[test]
fn classify_by_extension_case_insensitive() {
    assert!(is_sub_file("dir/movie.ASS"));
    assert!(is_sub_file("movie.srt"));
    assert!(is_sub_file("movie.sup"));
    assert!(!is_sub_file("movie.mkv"));
    assert!(is_ass_file("movie.ssa"));
    assert!(!is_ass_file("movie.srt"));
    assert!(is_font_file("C:\\Fonts\\arial.TTF"));
    assert!(is_font_file("a.otf"));
    assert!(is_font_file("a.ttc"));
    assert!(!is_font_file("a.ttx"));
}

#[test]
fn classify_needs_a_real_extension() {
    assert!(!is_font_file("ttf"));
    assert!(!is_font_file(".ttf"));
    assert!(!is_font_file("dir.ttf/file"));
}

#[test]
fn decimal_formatting() {
    assert_eq!(u64_to_string(0), "0".to_string());
    assert_eq!(u64_to_string(7), "7".to_string());
    assert_eq!(u64_to_string(12345), "12345".to_string());
}

#[test]
fn bare_comment_line_contributes_nothing() {
    let text = "[Events]\nComment:\nDialogue: 0,a,b,c,,0,0,0,,{\\fnArial}x";
    assert_eq!(parse_ass_fonts(text), vec!["Arial".to_string()]);
}

#[test]
fn fn_tag_allows_space_before_name() {
    assert_eq!(parse_fn_tags("{\\fn Arial}x"), vec!["Arial".to_string()]);
}

#[test]
fn event_without_format_uses_default_text_column() {
    let text = "[Events]\nDialogue: 0,0:00:00.00,0:00:05.00,Default,,0,0,0,,{\\fnCandara}hi";
    assert_eq!(parse_ass_fonts(text), vec!["Candara".to_string()]);
}

#[test]
fn comment_lines_scanned_like_dialogue() {
    let text = "[Events]\nFormat: Layer, Start, End, Style, Name, MarginL, MarginR, MarginV, Effect, Text\nComment: 0,0:00:00.00,0:00:05.00,Default,,0,0,0,,{\\fnImpact}x";
    assert_eq!(parse_ass_fonts(text), vec!["Impact".to_string()]);
}
