use pdf_knife::forms::{page_form_fields, FieldRecord, PageField};
use pdf_knife::marks::{annot_kept, annot_removal, AnnotEntry};

#[test]
fn annotations_to_remove() {
    let entries = vec![
        AnnotEntry::Ref(5, 0, true),
        AnnotEntry::Inline(false),
        AnnotEntry::Ref(6, 0, false),
        AnnotEntry::Inline(true),
        AnnotEntry::Other,
        AnnotEntry::Ref(9, 1, true),
        AnnotEntry::Inline(true),
    ];
    assert_eq!(annot_removal(&entries), (vec![(5, 0), (9, 1)], vec![3, 6]));
    assert_eq!(annot_removal(&vec![]), (vec![], vec![]));
}

fn rec(id: u32, kids: Vec<(u32, u16)>, page: Option<(u32, u16)>, rect: bool, title: &str) -> FieldRecord {
    FieldRecord {
        id: (id, 0),
        kids,
        page_ref: page,
        has_rect: rect,
        title: Some(title.as_bytes().to_vec()),
        value: None,
    }
}

#[test]
fn fields_on_a_page() {
    let page = (3, 0);
    let top = vec![(10, 0), (11, 0), (12, 0)];
    let records = vec![
        rec(10, vec![(20, 0), (21, 0)], None, false, "group"),
        rec(11, vec![], Some((4, 0)), false, "other page"),
        rec(12, vec![], Some((3, 0)), false, "here"),
        rec(20, vec![], None, true, "kid a"),
        rec(21, vec![], Some((4, 0)), false, "kid b"),
    ];
    let got = page_form_fields(&top, &records, page);
    let want = vec![
        PageField { number: 2, id: (20, 0), name: "kid a".into(), value: String::new() },
        PageField { number: 5, id: (12, 0), name: "here".into(), value: String::new() },
    ];
    assert_eq!(got, want);
    assert!(page_form_fields(&vec![(99, 0)], &records, page).is_empty());
}

#[test]
fn annotation_entries_that_stay() {
    let entries = vec![
        AnnotEntry::Ref(5, 0, true),
        AnnotEntry::Inline(false),
        AnnotEntry::Other,
        AnnotEntry::Inline(true),
        AnnotEntry::Ref(9, 1, false),
    ];
    assert_eq!(annot_kept(&entries), vec![1, 2, 4]);
    assert_eq!(annot_kept(&vec![]), Vec::<usize>::new());
}
