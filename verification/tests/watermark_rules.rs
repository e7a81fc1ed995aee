use pdf_knife::content::{
    covered_mask, detect_watermarks, ContentOp, DetectOptions, FindingKind, GsOpacity, XObjInfo,
};
use pdf_knife::keywords::{has_form_watermark_word, is_form_content_watermark, name_says_watermark};
use pdf_knife::marks::{
    annot_rule, keyword_in_texts, check_oc_watermark, check_ocg_name_watermark, check_piece_info_watermark,
    is_watermark_annot_dict, is_watermark_field, parse_bdc_subtype, AnnotFacts, FieldFacts,
    OcgName,
};
use pdf_knife::report::Report;
use pdf_knife::search::{
    block_to_delete, bytes_contain, drawn_block_mask, find_enclosing_btet, find_enclosing_q_q,
    glob_match, hit_mask, selected_names, hex_decode, hex_decode_would_panic, match_op_pattern, parse_search_patterns,
    parse_single_pattern, resource_stream_matches, search_patterns_would_panic,
    stream_search_hits, FormContent, SearchHit, SearchPattern,
};

fn op(name: &str) -> ContentOp {
    ContentOp {
        operator: name.to_string(),
        name: None,
        int_operand: None,
        rotated: false,
        marked_subtype: String::new(),
        strings: vec![],
        operand_count: 0,
    }
}

fn named(name: &str, operand: &str) -> ContentOp {
    let mut o = op(name);
    o.name = Some(operand.to_string());
    o
}

fn shows(text: &[u8]) -> ContentOp {
    let mut o = op("Tj");
    o.strings = vec![text.to_vec()];
    o
}

fn all_kinds() -> DetectOptions {
    DetectOptions {
        text: true,
        curve: true,
        path: true,
        trace: true,
        image: true,
        pattern: true,
        default_low: false,
    }
}

#[test]
fn marked_and_saved_text_watermarks() {
    let mut bdc = named("BDC", "Artifact");
    bdc.marked_subtype = "Watermark".to_string();
    let mut tr = op("Tr");
    tr.int_operand = Some(7);
    let ops = vec![
        bdc,
        op("BT"),
        shows(b"x"),
        op("ET"),
        op("EMC"),
        op("q"),
        tr,
        op("BT"),
        shows(b"y"),
        op("ET"),
        op("Q"),
        op("q"),
        op("BT"),
        shows(b"plain"),
        op("ET"),
        op("Q"),
    ];
    let f = detect_watermarks(&ops, &vec![], &vec![], all_kinds(), &[]);
    assert_eq!(f.len(), 2);
    assert_eq!((f[0].kind, f[0].start, f[0].end), (FindingKind::MarkedText, 0, 4));
    assert_eq!((f[1].kind, f[1].start, f[1].end), (FindingKind::SavedText, 5, 10));
    let mask = covered_mask(&f, ops.len());
    assert_eq!(mask.iter().filter(|b| **b).count(), 11);
    assert!(!mask[11]);
}

#[test]
fn translucent_path_block() {
    let ops = vec![
        op("q"),
        named("gs", "GS1"),
        op("re"),
        op("f"),
        op("Q"),
    ];
    let g = vec![GsOpacity {
        name: "GS1".to_string(),
        below_threshold: true,
        below_trace: false,
    }];
    let f = detect_watermarks(&ops, &vec![], &g, all_kinds(), &[]);
    assert_eq!(f.len(), 1);
    assert_eq!((f[0].kind, f[0].start, f[0].end), (FindingKind::SavedPath, 0, 4));
    let opaque = vec![GsOpacity {
        name: "GS1".to_string(),
        below_threshold: false,
        below_trace: false,
    }];
    assert!(detect_watermarks(&ops, &vec![], &opaque, all_kinds(), &[]).is_empty());
}

#[test]
fn marked_form_watermark_names_the_form() {
    let mut bdc = named("BDC", "Artifact");
    bdc.marked_subtype = "Watermark".to_string();
    let ops = vec![bdc, named("Do", "Fm0"), op("EMC")];
    let x = vec![XObjInfo {
        res_name: "Fm0".to_string(),
        is_image: false,
        is_form: true,
        has_smask: false,
        has_image_mask: false,
        piece_is_wm: false,
        oc_is_wm: false,
        xobj_name: "WM".to_string(),
        content_preview: vec![],
        name_has_keyword: false,
    }];
    let f = detect_watermarks(&ops, &x, &vec![], all_kinds(), &[]);
    assert_eq!(f.len(), 1);
    assert_eq!(f[0].kind, FindingKind::MarkedPattern);
    assert_eq!(f[0].name, Some("WM".to_string()));
}

#[test]
fn search_patterns() {
    match parse_single_pattern("/KSPX* Do") {
        SearchPattern::Operator(n, o) => {
            assert_eq!(n, "KSPX*");
            assert_eq!(o, "Do");
        }
        _ => panic!("expected an operator pattern"),
    }
    match parse_single_pattern("0x4142") {
        SearchPattern::Bytes(b) => assert_eq!(b, b"AB".to_vec()),
        _ => panic!("expected bytes"),
    }
    match parse_single_pattern("zz") {
        SearchPattern::Bytes(b) => assert_eq!(b, b"zz".to_vec()),
        _ => panic!("expected bytes"),
    }
    let v = parse_search_patterns(" 41 | | /A B ");
    assert_eq!(v.len(), 2);
    assert!(matches!(&v[0], SearchPattern::Bytes(b) if b == &vec![0x41u8]));
    assert!(search_patterns_would_panic("aéb"));
    assert!(!search_patterns_would_panic("é1"));
    assert!(!search_patterns_would_panic("41|x"));
}

#[test]
fn hex_and_globs() {
    assert_eq!(hex_decode(b"4142"), Some(vec![0x41, 0x42]));
    assert_eq!(hex_decode(b"414"), None);
    assert_eq!(hex_decode(b"zz"), None);
    assert_eq!(hex_decode(b""), Some(vec![]));
    assert!(!hex_decode_would_panic(b"4142"));
    assert!(glob_match("KSPX*", "KSPX12"));
    assert!(glob_match("a?c", "abc"));
    assert!(!glob_match("a?c", "ac"));
    assert!(glob_match("*", ""));
    assert!(bytes_contain(b"hello", b"ll"));
    assert!(bytes_contain(b"hello", b""));
    assert!(!bytes_contain(b"he", b"hello"));
}

#[test]
fn matching_operations() {
    let pat = SearchPattern::Operator("Fm*".to_string(), "Do".to_string());
    assert!(match_op_pattern(&named("Do", "Fm1"), &pat));
    assert!(!match_op_pattern(&named("Do", "Im1"), &pat));
    let b = SearchPattern::Bytes(b"WM".to_vec());
    assert!(match_op_pattern(&shows(b"xWMx"), &b));
    let mut tf = op("Tf");
    tf.strings = vec![b"WM".to_vec()];
    assert!(!match_op_pattern(&tf, &b));
}

#[test]
fn enclosing_blocks() {
    let ops = vec![op("q"), op("BT"), shows(b"a"), op("ET"), op("Q"), op("BT"), shows(b"b"), op("ET"), shows(b"c")];
    assert_eq!(find_enclosing_q_q(&ops, 2), Some((0, 4)));
    assert_eq!(find_enclosing_q_q(&ops, 6), None);
    assert_eq!(find_enclosing_btet(&ops, 6), Some((5, 7)));
    assert_eq!(find_enclosing_btet(&ops, 8), None);
    assert_eq!(block_to_delete(&ops, 2), (0, 4));
    assert_eq!(block_to_delete(&ops, 6), (5, 7));
    assert_eq!(block_to_delete(&ops, 8), (8, 8));
}

#[test]
fn stream_search() {
    let ops = vec![op("BT"), shows(b"DRAFT"), op("ET"), named("Do", "Fm0"), named("Do", "Fm1")];
    let pats = vec![SearchPattern::Bytes(b"DRAFT".to_vec())];
    let hits = stream_search_hits(&ops, &pats, &vec!["Fm1".to_string()]);
    assert_eq!(
        hits,
        vec![
            SearchHit { start: 0, end: 2, resource: false },
            SearchHit { start: 4, end: 4, resource: true }
        ]
    );
    let forms = vec![
        FormContent { name: "Fm0".to_string(), content: vec![], parsed: true, ops: vec![shows(b"ok")] },
        FormContent { name: "Fm1".to_string(), content: vec![], parsed: true, ops: vec![shows(b"a DRAFT")] },
        FormContent { name: "Fm2".to_string(), content: vec![], parsed: false, ops: vec![shows(b"DRAFT")] },
    ];
    assert_eq!(resource_stream_matches(&forms, &pats), vec!["Fm1".to_string()]);
}

#[test]
fn keyword_checks() {
    assert!(is_form_content_watermark(b"BT (CONFIDENTIAL) Tj ET"));
    assert!(is_form_content_watermark("草稿".as_bytes()));
    assert!(!is_form_content_watermark(b"BT (Hello) Tj ET"));
    assert!(name_says_watermark(&"MyWaterMark".to_string()));
    assert!(!name_says_watermark(&"Logo".to_string()));
}

fn annot(subtype: &str) -> AnnotFacts {
    AnnotFacts {
        subtype: subtype.as_bytes().to_vec(),
        flags: None,
        contents: None,
        title: None,
        keys: vec![],
    }
}

#[test]
fn watermark_annotations() {
    let none: Vec<String> = vec![];
    assert!(is_watermark_annot_dict(&annot("Watermark"), &none));
    assert!(is_watermark_annot_dict(&annot("Stamp"), &none));
    assert!(is_watermark_annot_dict(&annot("GoldGrid:AddSeal"), &none));
    assert!(!is_watermark_annot_dict(&annot("Link"), &none));
    let mut ft = annot("FreeText");
    ft.flags = Some(4 | 2);
    assert!(is_watermark_annot_dict(&ft, &none));
    ft.flags = Some(4 | 32);
    assert!(is_watermark_annot_dict(&ft, &none));
    ft.flags = Some(4 | 64);
    assert!(!is_watermark_annot_dict(&ft, &none));
    ft.flags = Some(4);
    assert!(!is_watermark_annot_dict(&ft, &none));
    let mut kw = annot("Text");
    kw.contents = Some(b"Internal USE only".to_vec());
    assert!(is_watermark_annot_dict(&kw, &vec!["internal".to_string()]));
    assert!(!is_watermark_annot_dict(&kw, &none));
    let mut draft = annot("Text");
    draft.contents = Some(b"Draft copy".to_vec());
    assert!(is_watermark_annot_dict(&draft, &none));
    assert!(!is_watermark_annot_dict(&annot("Stamp"), &vec!["机密".to_string()]));
    let mut secret = annot("Stamp");
    let mut t = vec![0xEF, 0xBB, 0xBF];
    t.extend_from_slice("机密文件".as_bytes());
    secret.title = Some(t);
    assert!(is_watermark_annot_dict(&secret, &vec!["机密".to_string()]));
    let mut model = annot("Text");
    model.keys = vec![b"Rect".to_vec(), b"WMModel".to_vec()];
    assert!(is_watermark_annot_dict(&model, &none));
}

#[test]
fn watermark_fields_and_groups() {
    let f = FieldFacts { title: Some(b"WM_Field".to_vec()), alt_title: None };
    assert!(is_watermark_field(&f, &vec!["wm_".to_string()]));
    assert!(!is_watermark_field(&f, &vec!["sign".to_string()]));
    assert!(check_ocg_name_watermark(&OcgName::Text(b"My Watermark".to_vec())));
    assert!(check_ocg_name_watermark(&OcgName::Name(b"WATERMARK1".to_vec())));
    assert!(!check_ocg_name_watermark(&OcgName::Other));
    let mut utf16 = vec![0xFE, 0xFF];
    for c in "WaterMark".encode_utf16() {
        utf16.extend_from_slice(&c.to_be_bytes());
    }
    assert!(check_ocg_name_watermark(&OcgName::Text(utf16)));
    let mut utf8 = vec![0xEF, 0xBB, 0xBF];
    utf8.extend_from_slice("水印 watermark".as_bytes());
    assert!(check_ocg_name_watermark(&OcgName::Text(utf8)));
    assert!(!check_ocg_name_watermark(&OcgName::Text(vec![0xEF, 0xBB, 0xBF, 0xFF])));
    let tu = FieldFacts { title: None, alt_title: Some(vec![0xFE, 0xFF, 0x00, 0x44, 0x00, 0x72]) };
    assert!(is_watermark_field(&tu, &vec!["dr".to_string()]));
    assert!(check_oc_watermark(&vec![OcgName::Other, OcgName::Name(b"watermark".to_vec())]));
    assert!(!check_oc_watermark(&vec![]));
    assert!(check_piece_info_watermark(&vec![b"Other".to_vec(), b"Watermark".to_vec()]));
    assert!(!check_piece_info_watermark(&vec![b"watermark".to_vec()]));
}

#[test]
fn marked_content_tags() {
    assert_eq!(
        parse_bdc_subtype("BDC", Some(b"Artifact"), Some(b"Watermark")),
        Some(("Artifact".to_string(), "Watermark".to_string()))
    );
    assert_eq!(
        parse_bdc_subtype("BMC", Some(b"Span"), None),
        Some(("Span".to_string(), String::new()))
    );
    assert_eq!(parse_bdc_subtype("BDC", None, Some(b"Watermark")), None);
    assert_eq!(parse_bdc_subtype("Tj", Some(b"Artifact"), None), None);
}

#[test]
fn report_lines() {
    let mut r = Report::new(true);
    assert_eq!(r.total(), 0);
    assert_eq!(r.lines(), vec!["  （未检测到任何水印）".to_string()]);
    r.add("first".to_string());
    r.add("second".to_string());
    assert_eq!(r.total(), 2);
    assert_eq!(
        r.lines(),
        vec!["  [预览] first".to_string(), "  [预览] second".to_string()]
    );
    let mut d = Report::new(false);
    d.add("x".to_string());
    assert_eq!(d.lines(), vec!["  [已删] x".to_string()]);
}

#[test]
fn image_blocks_and_hit_masks() {
    // q /Im0 Do Q  BT Tj ET  /Im1 Do  q /Im0 Do Q
    let ops = vec![
        op("q"),
        named("Do", "Im0"),
        op("Q"),
        op("BT"),
        shows(b"x"),
        op("ET"),
        named("Do", "Im1"),
        op("q"),
        named("Do", "Im0"),
        op("Q"),
    ];
    let im0 = vec!["Im0".to_string()];
    assert_eq!(
        drawn_block_mask(&ops, &im0),
        vec![true, true, true, false, false, false, false, true, true, true]
    );
    let im1 = vec!["Im1".to_string()];
    assert_eq!(
        drawn_block_mask(&ops, &im1),
        vec![false, false, false, false, false, false, true, false, false, false]
    );
    assert_eq!(drawn_block_mask(&ops, &vec![]), vec![false; 10]);

    let hits = vec![
        SearchHit { start: 1, end: 2, resource: false },
        SearchHit { start: 4, end: 4, resource: true },
    ];
    assert_eq!(hit_mask(&hits, 6), vec![false, true, true, false, true, false]);
    assert_eq!(hit_mask(&vec![], 2), vec![false, false]);
}

#[test]
fn names_by_position() {
    let names: Vec<String> = vec!["Im0".into(), "Im1".into(), "Im2".into(), "Im3".into()];
    assert_eq!(selected_names(&names, &vec![0, 1, 2, 3], &vec![1]), vec!["Im0", "Im2", "Im3"]);
    assert_eq!(selected_names(&names, &vec![3, 0], &vec![]), vec!["Im0", "Im3"]);
    assert_eq!(selected_names(&names, &vec![5], &vec![]), Vec::<String>::new());
}

fn chars(s: &str) -> Vec<char> {
    s.chars().collect()
}

#[test]
fn rules_on_lowered_texts() {
    let lowered = vec![chars("secret"), chars("草稿")];
    assert!(keyword_in_texts(&lowered, &chars("top secret memo"), &chars("")));
    assert!(keyword_in_texts(&lowered, &chars(""), &chars("这是草稿")));
    assert!(!keyword_in_texts(&lowered, &chars("Secret"), &chars("draft")));
    assert!(!keyword_in_texts(&vec![], &chars("secret"), &chars("secret")));

    let text = annot("Text");
    assert!(annot_rule(&text, &chars("mystamp"), &chars(""), &chars(""), &vec![], false));
    assert!(!annot_rule(&text, &chars("mystamp"), &chars(""), &chars(""), &vec![], true));
    assert!(!annot_rule(&text, &chars("Stamp"), &chars(""), &chars(""), &vec![], false));
    assert!(annot_rule(&text, &chars("text"), &chars("a secret"), &chars(""), &lowered, false));
    assert!(annot_rule(&text, &chars("text"), &chars("a secret"), &chars(""), &lowered, true));
    assert!(!annot_rule(&text, &chars("text"), &chars("public"), &chars("note"), &lowered, false));

    assert!(has_form_watermark_word(&chars("this is a draft copy")));
    assert!(has_form_watermark_word(&chars("机密文件")));
    assert!(!has_form_watermark_word(&chars("DRAFT")));
    assert!(!has_form_watermark_word(&chars("final")));
}

fn image(name: &str, smask: bool, keyword: bool) -> XObjInfo {
    XObjInfo {
        res_name: name.to_string(),
        is_image: true,
        is_form: false,
        has_smask: smask,
        has_image_mask: false,
        piece_is_wm: false,
        oc_is_wm: false,
        xobj_name: String::new(),
        content_preview: vec![],
        name_has_keyword: keyword,
    }
}

fn only_images() -> DetectOptions {
    DetectOptions {
        text: false,
        curve: false,
        path: false,
        trace: false,
        image: true,
        pattern: false,
        default_low: false,
    }
}

#[test]
fn type_switches_and_keywords() {
    // a marked text watermark stays when only images are asked for
    let mut bdc = named("BDC", "Artifact");
    bdc.marked_subtype = "Watermark".to_string();
    let ops = vec![bdc.clone(), op("BT"), shows(b"WM"), op("ET"), op("EMC")];
    assert!(detect_watermarks(&ops, &vec![], &vec![], only_images(), &[]).is_empty());
    // an image whose name holds a keyword counts as an image watermark
    let ops = vec![op("q"), op("cm"), named("Do", "WmLogo"), op("Q")];
    let x = vec![image("WmLogo", false, true)];
    let f = detect_watermarks(&ops, &x, &vec![], only_images(), &["wm".to_string()]);
    assert_eq!(f.len(), 1);
    assert_eq!((f[0].kind, f[0].start, f[0].end), (FindingKind::SavedImage, 0, 3));
    let plain = vec![image("WmLogo", false, false)];
    assert!(detect_watermarks(&ops, &plain, &vec![], only_images(), &[]).is_empty());
    // with a named keyword, only blocks that carry it remain
    let masked = vec![image("Im1", true, false)];
    let ops = vec![op("q"), named("Do", "Im1"), op("Q")];
    assert_eq!(detect_watermarks(&ops, &masked, &vec![], only_images(), &[]).len(), 1);
    assert!(detect_watermarks(&ops, &masked, &vec![], only_images(), &["机密".to_string()]).is_empty());
    let mut tr = op("Tr");
    tr.int_operand = Some(7);
    let ops = vec![op("q"), tr.clone(), op("BT"), shows("机密文件".as_bytes()), op("ET"), op("Q")];
    assert_eq!(detect_watermarks(&ops, &vec![], &vec![], all_kinds(), &["机密".to_string()]).len(), 1);
    let ops = vec![op("q"), tr, op("BT"), shows(b"Public"), op("ET"), op("Q")];
    assert!(detect_watermarks(&ops, &vec![], &vec![], all_kinds(), &["机密".to_string()]).is_empty());
}

#[test]
fn inner_blocks_of_long_blocks() {
    let mut ops = vec![op("q")];
    for _ in 0..150 {
        ops.push(op("w"));
    }
    let mut tr = op("Tr");
    tr.int_operand = Some(7);
    ops.extend(vec![op("q"), tr, op("BT"), shows(b"WM"), op("ET"), op("Q")]);
    for _ in 0..150 {
        ops.push(op("w"));
    }
    ops.push(op("Q"));
    let f = detect_watermarks(&ops, &vec![], &vec![], all_kinds(), &[]);
    assert_eq!(f.len(), 1);
    assert_eq!((f[0].kind, f[0].start, f[0].end), (FindingKind::SavedText, 151, 156));
}
