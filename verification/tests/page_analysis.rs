use pdf_knife::analysis::{content_stats, stat_kind, text_segments, ContentStats, StatKind};
use pdf_knife::content::ContentOp;

fn op(name: &str, operands: usize) -> ContentOp {
    ContentOp {
        operator: name.to_string(),
        name: None,
        int_operand: None,
        rotated: false,
        marked_subtype: String::new(),
        strings: vec![],
        operand_count: operands,
    }
}

#[test]
fn operation_kinds() {
    assert_eq!(stat_kind("cm", 6, false), StatKind::State);
    assert_eq!(stat_kind("cm", 5, false), StatKind::Uncounted);
    assert_eq!(stat_kind("gs", 1, false), StatKind::State);
    assert_eq!(stat_kind("rg", 3, false), StatKind::Color);
    assert_eq!(stat_kind("Tj", 1, true), StatKind::Text);
    assert_eq!(stat_kind("Tj", 1, false), StatKind::Uncounted);
    assert_eq!(stat_kind("Tf", 1, true), StatKind::Uncounted);
    assert_eq!(stat_kind("Tf", 2, false), StatKind::Text);
    assert_eq!(stat_kind("Tm", 6, false), StatKind::Text);
    assert_eq!(stat_kind("T*", 0, false), StatKind::Text);
    assert_eq!(stat_kind("re", 4, false), StatKind::Path);
    assert_eq!(stat_kind("W*", 0, false), StatKind::Path);
    assert_eq!(stat_kind("Do", 1, false), StatKind::XObject);
    assert_eq!(stat_kind("BDC", 2, false), StatKind::Marked);
    assert_eq!(stat_kind("q", 0, false), StatKind::Uncounted);
    assert_eq!(stat_kind("BI", 0, false), StatKind::Uncounted);
}

#[test]
fn stream_counts() {
    let ops = vec![
        op("q", 0),
        op("cm", 6),
        op("Tj", 1),
        op("BT", 0),
        op("Tf", 2),
        op("Tj", 1),
        op("ET", 0),
        op("re", 4),
        op("f", 0),
        op("Do", 1),
        op("BMC", 1),
        op("EMC", 0),
        op("Q", 0),
    ];
    let s = content_stats(&ops);
    assert_eq!(
        s,
        ContentStats { total: 13, text: 4, path: 2, color: 0, state: 1, xobject: 1, marked: 2 }
    );
    assert_eq!(content_stats(&vec![]), ContentStats::default());
}

#[test]
fn shown_text_per_text_object() {
    let ops = vec![
        op("BT", 0),
        op("Tj", 1),
        op("TJ", 1),
        op("'", 1),
        op("ET", 0),
        op("Tj", 1),
        op("BT", 0),
        op("Tj", 1),
        op("ET", 0),
        op("BT", 0),
        op("Tj", 1),
        op("Tj", 1),
        op("ET", 0),
    ];
    let shown = vec![
        None,
        Some("Hello".to_string()),
        Some("World".to_string()),
        Some("Next".to_string()),
        None,
        Some("outside".to_string()),
        None,
        Some("  ".to_string()),
        None,
        None,
        None,
        Some("Only".to_string()),
        None,
    ];
    let segs = text_segments(&ops, &shown);
    assert_eq!(
        segs,
        vec![(4, "Hello World\nNext".to_string()), (12, "Only".to_string())]
    );
}
