use pdf_knife::indices::{order_by_key, parse_index_spec};
use pdf_knife::pageops::{
    merge_plan, merged_page_order, MergeArgError, MergePlan,
    check_reorder, deletion_order, pages_to_delete, parse_rotate_spec, ReorderError,
    RotateSpecError,
};
use pdf_knife::pages::{parse_pages, select_pages, PageSpecError, SelectError};
use pdf_knife::text::NumberError;

#[test]
fn page_lists_parse() {
    assert_eq!(parse_pages("1,3,5-10").unwrap(), vec![1, 3, 5, 6, 7, 8, 9, 10]);
    assert_eq!(parse_pages("1,3,5-7").unwrap(), vec![1, 3, 5, 6, 7]);
    assert_eq!(parse_pages("3,1,3").unwrap(), vec![1, 3]);
    assert_eq!(parse_pages(" 4 - 5 , 2").unwrap(), vec![2, 4, 5]);
    assert_eq!(parse_pages("7-7").unwrap(), vec![7]);
}

#[test]
fn page_list_errors() {
    assert_eq!(parse_pages("2-1"), Err(PageSpecError::ReversedRange("2-1".to_string())));
    assert_eq!(parse_pages("1-2-3"), Err(PageSpecError::BadRange("1-2-3".to_string())));
    assert_eq!(parse_pages("a"), Err(PageSpecError::BadNumber(NumberError::InvalidDigit)));
    assert_eq!(parse_pages(""), Err(PageSpecError::BadNumber(NumberError::Empty)));
    assert_eq!(parse_pages("1,"), Err(PageSpecError::BadNumber(NumberError::Empty)));
    assert_eq!(parse_pages("-3"), Err(PageSpecError::BadNumber(NumberError::Empty)));
}

#[test]
fn page_list_error_details() {
    assert_eq!(
        parse_pages("1, 5 - 3 ,9"),
        Err(PageSpecError::ReversedRange("5 - 3".to_string()))
    );
    assert_eq!(
        parse_pages("4294967296"),
        Err(PageSpecError::BadNumber(NumberError::PosOverflow))
    );
    assert_eq!(
        parse_pages("99999999999x"),
        Err(PageSpecError::BadNumber(NumberError::PosOverflow))
    );
    assert_eq!(parse_pages("12x"), Err(PageSpecError::BadNumber(NumberError::InvalidDigit)));
    assert_eq!(parse_pages("+"), Err(PageSpecError::BadNumber(NumberError::InvalidDigit)));
    assert_eq!(parse_pages("+5").unwrap(), vec![5]);
    assert_eq!(parse_pages("4294967295").unwrap(), vec![4294967295]);
}

#[test]
fn joined_page_lists() {
    assert_eq!(parse_pages("5-7,1-2").unwrap(), vec![1, 2, 5, 6, 7]);
    assert_eq!(parse_pages("1-3,2-4").unwrap(), vec![1, 2, 3, 4]);
    assert_eq!(parse_pages("x,1"), Err(PageSpecError::BadNumber(NumberError::InvalidDigit)));
    assert_eq!(parse_pages("1,3-2"), Err(PageSpecError::ReversedRange("3-2".to_string())));
}

#[test]
fn page_selection() {
    assert_eq!(select_pages(5, 2, &None, false), Ok(vec![2]));
    assert_eq!(select_pages(3, 1, &None, true), Ok(vec![1, 2, 3]));
    assert_eq!(
        select_pages(5, 1, &Some("4,2-3".to_string()), false),
        Ok(vec![2, 3, 4])
    );
}

#[test]
fn page_selection_errors() {
    assert_eq!(
        select_pages(5, 1, &Some("1".to_string()), true),
        Err(SelectError::Conflict)
    );
    assert_eq!(
        select_pages(5, 1, &Some("6".to_string()), false),
        Err(SelectError::OutOfRange(6))
    );
    assert_eq!(select_pages(5, 0, &None, false), Err(SelectError::OutOfRange(0)));
    assert_eq!(select_pages(0, 1, &None, true), Err(SelectError::NoPages));
    assert_eq!(
        select_pages(5, 1, &Some("x".to_string()), false),
        Err(SelectError::Spec(PageSpecError::BadNumber(NumberError::InvalidDigit)))
    );
}

#[test]
fn index_specs() {
    assert_eq!(parse_index_spec("1,3-4", 5), vec![0, 2, 3]);
    assert_eq!(parse_index_spec("-1", 5), vec![4]);
    assert_eq!(parse_index_spec("-1-2", 5), vec![3, 4]);
    assert_eq!(parse_index_spec("4,1,4, ,x,9", 5), vec![0, 3]);
    assert_eq!(parse_index_spec("0-2", 3), vec![0, 1]);
    assert!(parse_index_spec("2", 0).is_empty());
}

#[test]
fn rotation_requests() {
    assert_eq!(parse_rotate_spec("1:90"), Ok((1, 90)));
    assert_eq!(parse_rotate_spec("3:+0"), Ok((3, 0)));
    assert_eq!(parse_rotate_spec("2:270:x"), Err(RotateSpecError::BadAngle));
    assert_eq!(parse_rotate_spec("12"), Err(RotateSpecError::Format));
    assert_eq!(parse_rotate_spec("a:90"), Err(RotateSpecError::BadPage));
    assert_eq!(parse_rotate_spec("1:ninety"), Err(RotateSpecError::BadAngle));
    assert_eq!(parse_rotate_spec("1:45"), Err(RotateSpecError::AngleNotAllowed(45)));
    assert_eq!(parse_rotate_spec("1:-90"), Err(RotateSpecError::AngleNotAllowed(-90)));
    assert_eq!(
        parse_rotate_spec("1:-9223372036854775808"),
        Err(RotateSpecError::AngleNotAllowed(i64::MIN))
    );
    assert_eq!(
        parse_rotate_spec("1:9223372036854775808"),
        Err(RotateSpecError::BadAngle)
    );
}

#[test]
fn deletion_lists() {
    assert_eq!(pages_to_delete(&vec![1, 2, 3, 4], &vec![9], &vec![2, 4]), vec![1, 3]);
    assert_eq!(pages_to_delete(&vec![1, 2, 3], &vec![3, 1], &vec![]), vec![3, 1]);
    assert_eq!(deletion_order(&vec![2, 7, 5, 7]), vec![7, 7, 5, 2]);
    assert!(deletion_order(&vec![]).is_empty());
}

#[test]
fn new_page_orders() {
    assert_eq!(check_reorder(&vec![3, 1, 2], 3), Ok(()));
    assert_eq!(
        check_reorder(&vec![1, 2], 3),
        Err(ReorderError::WrongCount { total: 3, given: 2 })
    );
    assert_eq!(check_reorder(&vec![1, 4, 2], 3), Err(ReorderError::OutOfRange(4)));
    assert_eq!(check_reorder(&vec![0, 1, 2], 3), Err(ReorderError::OutOfRange(0)));
    assert_eq!(check_reorder(&vec![2, 2, 1], 3), Err(ReorderError::Duplicate(2)));
}

#[test]
fn stable_order_by_object_number() {
    assert_eq!(order_by_key(&vec![12, 5, 9]), vec![1, 2, 0]);
    assert_eq!(order_by_key(&vec![7, 3, 7, 3, 1]), vec![4, 1, 3, 0, 2]);
    assert_eq!(order_by_key(&vec![]), Vec::<usize>::new());
}

#[test]
fn written_page_lists_read_back() {
    assert_eq!(parse_pages("1,3,7").unwrap(), vec![1, 3, 7]);
    assert_eq!(parse_pages("9,2,9,4").unwrap(), vec![2, 4, 9]);
    let v: Vec<u32> = vec![2, 10, 4294967295];
    let text: Vec<String> = v.iter().map(|n| n.to_string()).collect();
    assert_eq!(parse_pages(&text.join(",")).unwrap(), v);
}

#[test]
fn merge_plans() {
    assert_eq!(merge_plan(0, 0), Err(MergeArgError::NoInputs));
    assert_eq!(merge_plan(1, 0), Ok(MergePlan::Copy));
    assert_eq!(merge_plan(2, 0), Ok(MergePlan::Each(vec![None, None])));
    assert_eq!(merge_plan(3, 1), Ok(MergePlan::Each(vec![Some(0), Some(0), Some(0)])));
    assert_eq!(merge_plan(3, 3), Ok(MergePlan::Each(vec![Some(0), Some(1), Some(2)])));
    assert_eq!(merge_plan(3, 2), Err(MergeArgError::SpecCount));
    assert_eq!(merge_plan(1, 1), Ok(MergePlan::Each(vec![Some(0)])));
}

#[test]
fn merged_pages_follow_inputs() {
    let lists = vec![vec![1, 3], vec![], vec![2]];
    assert_eq!(merged_page_order(&lists), vec![(0, 1), (0, 3), (2, 2)]);
    assert_eq!(merged_page_order(&vec![]), Vec::<(usize, u32)>::new());
}
