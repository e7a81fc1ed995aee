use pdf_knife::opcount::operator_counts;

fn names(v: &[&str]) -> Vec<String> {
    v.iter().map(|s| s.to_string()).collect()
}

#[test]
fn counts_most_frequent_first() {
    let ops = names(&["q", "cm", "BT", "Tf", "Tj", "Tj", "ET", "Q", "Tj", "re", "f"]);
    let got = operator_counts(&ops);
    let want: Vec<(String, usize)> = vec![
        ("Tj".into(), 3),
        ("BT".into(), 1),
        ("ET".into(), 1),
        ("Q".into(), 1),
        ("Tf".into(), 1),
        ("cm".into(), 1),
        ("f".into(), 1),
        ("q".into(), 1),
        ("re".into(), 1),
    ];
    assert_eq!(got, want);
}

#[test]
fn ties_by_name_and_prefixes_first() {
    let ops = names(&["TJ", "T*", "T", "TJ", "T*", "T"]);
    let got = operator_counts(&ops);
    let want: Vec<(String, usize)> = vec![("T".into(), 2), ("T*".into(), 2), ("TJ".into(), 2)];
    assert_eq!(got, want);
    assert!(operator_counts(&vec![]).is_empty());
}
