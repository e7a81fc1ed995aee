use pdf_knife::labels::{cs_to_label, filter_to_label, page_size_name, truncate_str, ColorSpaceValue};
use pdf_knife::ops::{
    check_delete_range, delete_mask, group_tokens, insert_position, op_listed,
    op_listed_in_offsets, parse_operand_plain, strip_parens, check_patch_target, DeleteRangeError,
    PatchError, PlainOperand,
};
use pdf_knife::replace::{changed_text, edit_shown_string, replace_text};

#[test]
fn token_groups() {
    // q 1 0 0 1 0 0 cm BT /F1 12 Tf
    let is_op = vec![true, false, false, false, false, false, false, true, true, false, false, true];
    assert_eq!(group_tokens(&is_op), vec![(0, 1), (1, 8), (8, 9), (9, 12)]);
    assert_eq!(group_tokens(&vec![false, true, false]), vec![(0, 2), (2, 3)]);
    assert!(group_tokens(&vec![]).is_empty());
}

#[test]
fn listing_filters() {
    let none: Vec<String> = vec![];
    assert!(op_listed("Tj", Some("textshow"), &none));
    assert!(!op_listed("cm", Some("textshow"), &none));
    assert!(!op_listed("Tj", Some("nosuch"), &none));
    assert!(op_listed("cm", None, &["cm".to_string()]));
    assert!(!op_listed("q", None, &["cm".to_string()]));
    assert!(op_listed_in_offsets("Tj", Some("nosuch"), &none));
    assert!(!op_listed_in_offsets("cm", Some("textshow"), &none));
}

#[test]
fn deletion_ranges() {
    assert_eq!(check_delete_range(&vec![3]), Err(DeleteRangeError::TooFew));
    assert_eq!(
        check_delete_range(&vec![5, 2]),
        Err(DeleteRangeError::Reversed { start: 5, end: 2 })
    );
    assert_eq!(check_delete_range(&vec![2, 4, 9]), Ok((2, 4)));
    assert_eq!(
        delete_mask(5, 1, 5, &vec![]),
        Err(DeleteRangeError::PastEnd { end: 5, total: 5 })
    );
    assert_eq!(
        delete_mask(6, 1, 3, &vec![2]),
        Ok(vec![true, false, true, false, true, true])
    );
}

#[test]
fn insert_positions() {
    assert_eq!(insert_position(2, 5), 2);
    assert_eq!(insert_position(9, 5), 5);
}

#[test]
fn command_line_operands() {
    assert_eq!(parse_operand_plain("/F1"), PlainOperand::Name(b"F1".to_vec()));
    assert_eq!(parse_operand_plain("/"), PlainOperand::Name(vec![]));
    assert_eq!(parse_operand_plain("true"), PlainOperand::Boolean(true));
    assert_eq!(parse_operand_plain("false"), PlainOperand::Boolean(false));
    assert_eq!(parse_operand_plain("null"), PlainOperand::Null);
    assert_eq!(parse_operand_plain("-12"), PlainOperand::Integer(-12));
    assert_eq!(parse_operand_plain("0.5"), PlainOperand::Other);
    assert_eq!(parse_operand_plain("(hi)"), PlainOperand::Other);
    assert_eq!(strip_parens("(hi)"), "hi");
    assert_eq!(strip_parens("()"), "");
    assert_eq!(strip_parens("(x"), "(x");
    assert_eq!(strip_parens(")"), ")");
}

#[test]
fn plain_replacement() {
    assert_eq!(replace_text("a-b-c", "-", "+"), "a+b+c");
    assert_eq!(replace_text("aaaa", "aa", "b"), "bb");
    assert_eq!(replace_text("abc", "", "-"), "-a-b-c-");
    assert_eq!(replace_text("abc", "x", "y"), "abc");
    assert_eq!(replace_text("", "", "z"), "z");
}

#[test]
fn editing_shown_strings() {
    assert_eq!(edit_shown_string(b"Hello", "l", "L", false), Ok(Some("HeLLo".to_string())));
    assert_eq!(edit_shown_string(b"Hello", "z", "L", false), Ok(None));
    assert_eq!(edit_shown_string(b"a\tb", "\\t", " ", false), Ok(Some("a b".to_string())));
    assert_eq!(edit_shown_string(b"x12y", "[0-9]+", "#", true), Ok(Some("x#y".to_string())));
    assert_eq!(edit_shown_string(b"ab", "(a)(b)", "$2$1", true), Ok(Some("ba".to_string())));
    assert!(edit_shown_string(b"ab", "(", "x", true).is_err());
}

#[test]
fn labels() {
    assert_eq!(filter_to_label(b"DCTDecode"), "JPEG");
    assert_eq!(filter_to_label(b"FlateDecode"), "PNG/Deflate");
    assert_eq!(filter_to_label(b"RunLengthDecode"), "RLE");
    assert_eq!(filter_to_label(b"Crypt"), "Crypt");
    assert_eq!(cs_to_label(&ColorSpaceValue::Name(b"DeviceCMYK".to_vec())), "CMYK");
    assert_eq!(cs_to_label(&ColorSpaceValue::Name(b"Lab".to_vec())), "Lab");
    assert_eq!(cs_to_label(&ColorSpaceValue::Array(Some(b"ICCBased".to_vec()))), "ICCBased");
    assert_eq!(cs_to_label(&ColorSpaceValue::Array(None)), "?");
    assert_eq!(cs_to_label(&ColorSpaceValue::Other), "?");
    assert_eq!(page_size_name(595, 842), "A4");
    assert_eq!(page_size_name(842, 595), "A4");
    assert_eq!(page_size_name(612, 792), "Letter");
    assert_eq!(page_size_name(600, 800), "");
    assert_eq!(truncate_str("hello", 3), "hel");
    assert_eq!(truncate_str("hello", 5), "hello");
    assert_eq!(truncate_str("中文字", 2), "中文");
    assert_eq!(truncate_str("abcdef", 3).chars().count(), 3);
}

#[test]
fn edit_outcomes() {
    let text = "Hello".to_string();
    assert_eq!(changed_text(&text, "Hello".to_string()), None);
    assert_eq!(changed_text(&text, "Hallo".to_string()), Some("Hallo".to_string()));
}

#[test]
fn patch_target_checks() {
    let ops: Vec<String> = vec!["q".to_string(), "Tj".to_string(), "Q".to_string()];
    assert_eq!(check_patch_target(&ops, 3, &None), Err(PatchError::OutOfRange(3)));
    assert_eq!(check_patch_target(&ops, 1, &None), Ok(()));
    assert_eq!(check_patch_target(&ops, 1, &Some("Tj".to_string())), Ok(()));
    assert_eq!(
        check_patch_target(&ops, 1, &Some("TJ".to_string())),
        Err(PatchError::OperatorMismatch("Tj".to_string()))
    );
}
