use pdf_knife::cmap::{decode_hex_unicode, hex_unicode_would_panic, parse_hex_token, parse_to_unicode, parse_to_unicode_text};
use pdf_knife::decode::{
    cmap_readings, decode_bytes_with_cmap, decode_fallback, gbk_or_visible, high_byte_count,
    visible_text, CmapPick,
};
use pdf_knife::unicode::{decode_pdf_string, pdf_text_bytes};
use std::collections::HashMap;

#[test]
fn hex_tokens() {
    assert_eq!(parse_hex_token("<0041>"), Some(0x41));
    assert_eq!(parse_hex_token("<ffFF>"), Some(0xFFFF));
    assert_eq!(parse_hex_token("<+1F>"), Some(0x1F));
    assert_eq!(parse_hex_token("<10000>"), None);
    assert_eq!(parse_hex_token("0041"), None);
    assert_eq!(parse_hex_token("<>"), None);
    assert_eq!(parse_hex_token("<"), None);
    assert_eq!(parse_hex_token("<-1>"), None);
}

#[test]
fn hex_destinations() {
    assert_eq!(decode_hex_unicode("<0041>"), Some("A".to_string()));
    assert_eq!(decode_hex_unicode("<4E2D6587>"), Some("中文".to_string()));
    assert_eq!(decode_hex_unicode("<D83DDE00>"), Some("😀".to_string()));
    assert_eq!(decode_hex_unicode("<D800>"), Some("\u{FFFD}".to_string()));
    assert_eq!(decode_hex_unicode("<41>"), Some("A".to_string()));
    assert_eq!(decode_hex_unicode("<414243>"), Some("ABC".to_string()));
    assert_eq!(decode_hex_unicode("<E4B8AD>"), Some("中".to_string()));
    assert_eq!(decode_hex_unicode("<>"), Some(String::new()));
    assert_eq!(decode_hex_unicode("<ZZ>"), None);
    assert_eq!(decode_hex_unicode("x"), None);
}

#[test]
fn hex_destination_that_would_cut_a_character() {
    assert!(hex_unicode_would_panic("<aé>"));
    assert!(!hex_unicode_would_panic("<é0>"));
    assert!(!hex_unicode_would_panic("<0041>"));
}

#[test]
fn to_unicode_tables() {
    let data = b"/CIDInit begincmap\nbeginbfchar\n<0003> <0041>\n<0004> <4E2D>\nendbfchar\nbeginbfrange\n<0010> <0012> <0061>\n<0020> <0021> [<0041> <0042>]\nendbfrange\nendcmap";
    let m = parse_to_unicode(data).unwrap();
    assert_eq!(m.len(), 5);
    assert_eq!(m.get(&3).unwrap(), "A");
    assert_eq!(m.get(&4).unwrap(), "中");
    assert_eq!(m.get(&0x10).unwrap(), "a");
    assert_eq!(m.get(&0x12).unwrap(), "c");
    assert!(m.get(&0x20).is_none());
}

#[test]
fn later_entries_replace_earlier() {
    let m = parse_to_unicode_text(
        "beginbfchar\r\n<01> <0041>\r\nendbfchar\nbeginbfrange <00> <02> <0061> endbfrange",
    )
    .unwrap();
    assert_eq!(m.get(&1).unwrap(), "b");
    assert_eq!(m.get(&0).unwrap(), "a");
    assert_eq!(m.get(&2).unwrap(), "c");
}

#[test]
fn reversed_range_adds_nothing() {
    let m = parse_to_unicode_text("beginbfrange\n<0005> <0003> <0041>\nendbfrange").unwrap();
    assert!(m.is_empty());
}

#[test]
fn table_with_cut_character_is_refused() {
    assert!(parse_to_unicode_text("beginbfchar\n<01> <aé>\nendbfchar").is_none());
}

#[test]
fn fallback_readings() {
    assert_eq!(decode_fallback(b"Hello", false), "Hello");
    assert_eq!(decode_fallback("中".as_bytes(), false), "中");
    assert_eq!(decode_fallback(&[0xD6, 0xD0, 0xCE, 0xC4], true), "中文");
    assert_eq!(decode_fallback(&[0xD6, 0xD0, 0xCE, 0xC4], false), "");
    assert_eq!(decode_fallback(&[0x41, 0xFF, 0x42], false), "AB");
    assert_eq!(high_byte_count(&[0x41, 0xD6, 0xD0]), 2);
}

#[test]
fn readings_through_a_table() {
    let mut m: HashMap<u16, String> = HashMap::new();
    m.insert(0x0102, "X".to_string());
    m.insert(0x01, "1".to_string());
    m.insert(0x02, "2".to_string());
    let r = cmap_readings(&[1, 2], &m);
    assert_eq!(r.two_byte, "X");
    assert_eq!((r.two_byte_misses, r.two_byte_total), (0, 1));
    assert_eq!(r.one_byte, "12");
    assert_eq!((r.one_byte_misses, r.one_byte_total), (0, 2));
    let r = cmap_readings(&[1, 2, 3], &m);
    assert_eq!(r.two_byte, "X?");
    assert_eq!((r.two_byte_misses, r.two_byte_total), (1, 2));
    assert_eq!(r.one_byte, "12?");
    assert_eq!((r.one_byte_misses, r.one_byte_total), (1, 3));
}

#[test]
fn decoding_with_a_pick() {
    let mut m: HashMap<u16, String> = HashMap::new();
    m.insert(0x0102, "X".to_string());
    assert_eq!(decode_bytes_with_cmap(&[1, 2], Some(&m), CmapPick::TwoByte, false), "X");
    assert_eq!(decode_bytes_with_cmap(&[1, 2], Some(&m), CmapPick::OneByte, false), "??");
    assert_eq!(decode_bytes_with_cmap(b"ok", Some(&m), CmapPick::Fallback, false), "ok");
    assert_eq!(decode_bytes_with_cmap(b"ok", None, CmapPick::TwoByte, false), "ok");
    let empty: HashMap<u16, String> = HashMap::new();
    assert_eq!(decode_bytes_with_cmap(b"ok", Some(&empty), CmapPick::OneByte, false), "ok");
}

#[test]
fn pdf_text_strings() {
    assert_eq!(decode_pdf_string(&[0xFE, 0xFF, 0x4E, 0x2D]), "中");
    assert_eq!(decode_pdf_string(b"abc"), "abc");
    assert_eq!(decode_pdf_string(&[0x63, 0x61, 0x66, 0xE9]), "café");
    assert_eq!(decode_pdf_string("café".as_bytes()), "café");
    assert_eq!(decode_pdf_string(&[0xFE, 0xFF, 0x00, 0x41, 0x42]), "A\u{4200}");
    assert_eq!(pdf_text_bytes("A中"), vec![0xFE, 0xFF, 0x00, 0x41, 0x4E, 0x2D]);
    assert_eq!(
        pdf_text_bytes("😀"),
        vec![0xFE, 0xFF, 0xD8, 0x3D, 0xDE, 0x00]
    );
}

#[test]
fn pdf_text_round_trip() {
    for s in ["", "Intro", "第一章 绪论", "emoji 😀 ok"] {
        assert_eq!(decode_pdf_string(&pdf_text_bytes(s)), s);
    }
}

#[test]
fn after_gbk_decoding() {
    assert_eq!(gbk_or_visible(&[0xD6, 0xD0], ("中".to_string(), false)), "中");
    assert_eq!(gbk_or_visible(&[0x41, 0x81, 0x42], ("A?B".to_string(), true)), "AB");
    assert_eq!(visible_text(&[0x00, 0x48, 0x69, 0x7F, 0x21]), "Hi!");
    assert_eq!(visible_text(&[]), "");
}
