use pdf_knife::marks::form_field_keywords;
use pdf_knife::ops::{hex_dump_line, parse_value_plain, PlainValue};

#[test]
fn dictionary_values() {
    assert_eq!(parse_value_plain("null"), PlainValue::Null);
    assert_eq!(parse_value_plain("true"), PlainValue::Boolean(true));
    assert_eq!(parse_value_plain("false"), PlainValue::Boolean(false));
    assert_eq!(parse_value_plain("/Type"), PlainValue::Name(b"Type".to_vec()));
    assert_eq!(parse_value_plain("\"hello\""), PlainValue::Text(b"hello".to_vec()));
    assert_eq!(parse_value_plain("\"\""), PlainValue::Text(vec![]));
    assert_eq!(parse_value_plain("42"), PlainValue::Integer(42));
    assert_eq!(parse_value_plain("-7"), PlainValue::Integer(-7));
    assert_eq!(parse_value_plain("1.5"), PlainValue::Other);
    assert_eq!(parse_value_plain("\""), PlainValue::Other);
    assert_eq!(parse_value_plain(""), PlainValue::Other);
}

#[test]
fn hex_dump_lines() {
    let line = hex_dump_line(0x10, &[0x42, 0x54, 0x0a]);
    let expected = format!("{:08X}   | {:<47} | {}", 0x10, "42 54 0A", "BT.");
    assert_eq!(line, expected);
    assert_eq!(hex_dump_line(0, &[]), format!("{:08X}   | {:<47} | {}", 0, "", ""));
    let full: Vec<u8> = (0x20u8..0x30).collect();
    let hex: Vec<String> = full.iter().map(|b| format!("{:02X}", b)).collect();
    let ascii: String = full.iter().map(|&b| b as char).collect();
    assert_eq!(hex_dump_line(0x1234, &full), format!("{:08X}   | {:<47} | {}", 0x1234, hex.join(" "), ascii));
}

#[test]
fn field_keywords() {
    let given = vec!["secret".to_string()];
    assert_eq!(form_field_keywords(&given), vec!["secret".to_string()]);
    let defaults = form_field_keywords(&[]);
    assert_eq!(
        defaults,
        vec!["watermark", "水印", "draft", "草稿", "confidential", "机密", "sample", "示例"]
            .into_iter()
            .map(String::from)
            .collect::<Vec<_>>()
    );
}
