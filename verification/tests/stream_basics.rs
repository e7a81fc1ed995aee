use pdf_knife::escape::unescape;
use pdf_knife::operators::{category_for_op, ops_for_category};
use pdf_knife::tokenizer::{is_pdf_operator, tokenize_stream};
use pdf_knife::text::drop_blank_lines;

#[test]
fn unescape_known_sequences() {
    assert_eq!(unescape("a\\nb\\tc\\rd"), "a\nb\tc\rd");
    assert_eq!(unescape("\\\\"), "\\");
}

#[test]
fn unescape_keeps_unknown_and_trailing_backslash() {
    assert_eq!(unescape("x\\q"), "x\\q");
    assert_eq!(unescape("end\\"), "end\\");
    assert_eq!(unescape("plain"), "plain");
}

#[test]
fn tokenize_simple_stream() {
    let toks = tokenize_stream(b"q 1 0 0 1 0 0 cm (Hi) Tj Q").unwrap();
    let texts: Vec<&[u8]> = toks.iter().map(|t| t.2.as_slice()).collect();
    assert_eq!(
        texts,
        vec![
            &b"q"[..],
            b"1",
            b"0",
            b"0",
            b"1",
            b"0",
            b"0",
            b"cm",
            b"(Hi)",
            b"Tj",
            b"Q"
        ]
    );
    assert_eq!((toks[0].0, toks[0].1), (0, 1));
    assert_eq!((toks[8].0, toks[8].1), (17, 21));
    assert_eq!((toks[10].0, toks[10].1), (25, 26));
}

#[test]
fn tokenize_comments_dicts_hex_and_arrays() {
    let toks = tokenize_stream(b"% note\nBT <</A 1>> BDC <4142> [(a) 3 (b)] TJ").unwrap();
    let texts: Vec<Vec<u8>> = toks.iter().map(|t| t.2.clone()).collect();
    assert_eq!(
        texts,
        vec![
            b"BT".to_vec(),
            b"<</A 1>>".to_vec(),
            b"BDC".to_vec(),
            b"<4142>".to_vec(),
            b"[(a) 3 (b)]".to_vec(),
            b"TJ".to_vec()
        ]
    );
    assert_eq!(toks[0].0, 7);
}

#[test]
fn tokenize_nested_string_and_escape() {
    let toks = tokenize_stream(b"(a(b)c\\)) Tj").unwrap();
    assert_eq!(toks[0].2, b"(a(b)c\\))".to_vec());
    assert_eq!(toks[1].2, b"Tj".to_vec());
}

#[test]
fn tokenize_stalls_on_stray_delimiter() {
    assert!(tokenize_stream(b")").is_none());
    assert!(tokenize_stream(b"q } Q").is_none());
    assert_eq!(tokenize_stream(b"").unwrap().len(), 0);
}

#[test]
fn operator_tokens() {
    assert!(is_pdf_operator(b"Tj"));
    assert!(is_pdf_operator(b"'"));
    assert!(is_pdf_operator(b"T*"));
    assert!(!is_pdf_operator(b"12"));
    assert!(!is_pdf_operator(b"-3.5"));
    assert!(!is_pdf_operator(b"/Name"));
    assert!(!is_pdf_operator(b"(x)"));
    assert!(!is_pdf_operator(b""));
    assert!(!is_pdf_operator(b"inf"));
    assert!(!is_pdf_operator(b"NaN"));
    assert!(!is_pdf_operator(b"Infinity"));
    assert!(is_pdf_operator(b"infx"));
    assert!(!is_pdf_operator(b"true"));
    assert!(!is_pdf_operator(b"false"));
    assert!(!is_pdf_operator(b"null"));
    assert!(is_pdf_operator(b"True"));
}

#[test]
fn categories() {
    assert_eq!(ops_for_category("textshow"), vec!["Tj", "TJ", "'", "\""]);
    assert_eq!(ops_for_category("special"), vec!["q", "Q", "cm"]);
    assert!(ops_for_category("bogus").is_empty());
    assert_eq!(category_for_op("Tf"), "textstate");
    assert_eq!(category_for_op("BDC"), "marked");
    assert_eq!(category_for_op("zz"), "other");
}

#[test]
fn every_listed_operator_names_its_category() {
    for cat in [
        "gstate", "special", "path", "paint", "clip", "textobj", "textstate", "textpos",
        "textshow", "type3", "color", "shading", "inline", "xobject", "marked", "compat",
    ] {
        for op in ops_for_category(cat) {
            assert_eq!(category_for_op(op), cat);
        }
    }
}

#[test]
fn blank_lines_dropped() {
    assert_eq!(drop_blank_lines("q\n\n  \nBT\r\n/F1 12 Tf\r\nET\n"), "q\nBT\n/F1 12 Tf\nET");
    assert_eq!(drop_blank_lines(""), "");
    assert_eq!(drop_blank_lines("\n\n"), "");
    assert_eq!(drop_blank_lines("a\r"), "a\r");
    assert_eq!(drop_blank_lines("a\r\rb\n \t\nc"), "a\r\rb\nc");
    for s in ["x\n\ny\r\n \n", "a\r", "\r\n", "a\r\n\r", " b \n\n\n c"] {
        let expected: Vec<&str> = s.lines().filter(|l| !l.trim().is_empty()).collect();
        assert_eq!(drop_blank_lines(s), expected.join("\n"));
    }
}

#[test]
fn category_lists_split_the_operators() {
    let cats = [
        "gstate", "special", "path", "paint", "clip", "textobj", "textstate", "textpos",
        "textshow", "type3", "color", "shading", "inline", "xobject", "marked", "compat",
    ];
    let mut all: Vec<&str> = Vec::new();
    for c in cats.iter() {
        let ops = ops_for_category(c);
        assert!(!ops.is_empty());
        for op in ops {
            assert_eq!(category_for_op(op), *c);
            assert!(is_pdf_operator(op.as_bytes()));
            assert!(!all.contains(&op));
            all.push(op);
        }
    }
    assert_eq!(all.len(), 73);
    assert!(ops_for_category("Path").is_empty());
    assert_eq!(category_for_op("tj"), "other");
    for n in [0i64, 7, -3, 42, 123456] {
        assert!(!is_pdf_operator(n.to_string().as_bytes()));
    }
    assert!(!is_pdf_operator(b"true"));
    assert!(!is_pdf_operator(b"null"));
}
