use pdf_knife::outline::plan_outline;

#[test]
fn empty_list_has_no_outline() {
    assert!(plan_outline(&vec![]).is_none());
}

#[test]
fn two_chapters_with_sections() {
    let p = plan_outline(&vec![1, 2, 2, 1, 3]).unwrap();
    assert_eq!(p.parent, vec![None, Some(0), Some(0), None, Some(3)]);
    assert_eq!(p.roots, vec![0, 3]);
    assert_eq!(p.first_child, vec![Some(1), None, None, Some(4), None]);
    assert_eq!(p.last_child, vec![Some(2), None, None, Some(4), None]);
    assert_eq!(p.child_count, vec![2, 0, 0, 1, 0]);
    assert_eq!(p.prev_sibling, vec![None, None, Some(1), Some(0), None]);
    assert_eq!(p.next_sibling, vec![Some(3), Some(2), None, None, None]);
}

#[test]
fn level_zero_counts_as_one() {
    let p = plan_outline(&vec![0, 1]).unwrap();
    assert_eq!(p.parent, vec![None, None]);
    assert_eq!(p.roots, vec![0, 1]);
}

#[test]
fn parent_is_nearest_lower_level() {
    let p = plan_outline(&vec![2, 1, 3, 2, 3]).unwrap();
    assert_eq!(p.parent, vec![None, None, Some(1), Some(1), Some(3)]);
    assert_eq!(p.roots, vec![0, 1]);
    assert_eq!(p.child_count, vec![0, 2, 0, 1, 0]);
}

#[test]
fn sibling_links_run_both_ways() {
    let p = plan_outline(&vec![1, 2, 3, 2, 1, 2]).unwrap();
    for i in 0..6 {
        if let Some(j) = p.next_sibling[i] {
            assert_eq!(p.prev_sibling[j], Some(i));
        }
        if let Some(j) = p.prev_sibling[i] {
            assert_eq!(p.next_sibling[j], Some(i));
        }
    }
}
