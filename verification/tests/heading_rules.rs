use pdf_knife::headings::{
    detect_heading_level, level_given, ends_like_complete_heading, is_header_footer_noise, is_likely_noise,
    is_thesis_anchor_heading, is_toc_heading, leading_number_segments, looks_like_date_line,
    looks_like_page_number, looks_like_thesis_title_line, matches_chapter_like,
    matches_fixed_heading, matches_section_like, matches_subsection_like,
    normalize_outline_title, parse_toc_line, starts_with_any, starts_with_ascii_prefix,
    starts_with_cn_list_marker, toc_entry, CustomPatterns,
};

#[test]
fn titles_are_normalised() {
    assert_eq!(normalize_outline_title("  第一章   绪论 \t"), "第一章 绪论");
    assert_eq!(normalize_outline_title("a\u{3000}b"), "a b");
    assert_eq!(normalize_outline_title("   "), "");
}

#[test]
fn complete_heading_endings() {
    assert!(ends_like_complete_heading("结论。 "));
    assert!(ends_like_complete_heading("本文参考文献"));
    assert!(!ends_like_complete_heading("第一章"));
}

#[test]
fn fixed_and_thesis_headings() {
    assert!(matches_fixed_heading(" 摘要：本文"));
    assert!(matches_fixed_heading("Abstract"));
    assert!(!matches_fixed_heading("abstract"));
    assert!(is_thesis_anchor_heading("本科毕业论文"));
    assert!(is_thesis_anchor_heading("致谢"));
    assert!(!is_thesis_anchor_heading("第二章"));
    assert!(looks_like_thesis_title_line("论文题目：x"));
    assert!(looks_like_thesis_title_line("Title: y"));
    assert!(!looks_like_thesis_title_line(" 题目"));
}

#[test]
fn contents_titles() {
    assert!(is_toc_heading(" 目录 "));
    assert!(is_toc_heading("Table  of   Contents"));
    assert!(is_toc_heading("CONTENTS"));
    assert!(!is_toc_heading("目 录"));
}

#[test]
fn prefix_rules() {
    assert!(starts_with_any("第三章 方法", &["第"], &["章"]));
    assert!(!starts_with_any("第三节", &["第"], &["章"]));
    assert!(!starts_with_any("三章", &["第"], &["章"]));
    assert!(starts_with_ascii_prefix("Chapter 1", &["chapter "]));
    assert!(!starts_with_ascii_prefix("Chapters", &["chapter "]));
    assert!(starts_with_cn_list_marker("十一、总结"));
    assert!(!starts_with_cn_list_marker("一，总结"));
}

#[test]
fn number_segments() {
    assert_eq!(leading_number_segments("3.1.2 Scope"), 3);
    assert_eq!(leading_number_segments("  12. Intro"), 1);
    assert_eq!(leading_number_segments("1.2"), 2);
    assert_eq!(leading_number_segments("1..2"), 1);
    assert_eq!(leading_number_segments("Intro"), 0);
}

#[test]
fn heading_shapes() {
    assert!(matches_chapter_like("第一章 绪论"));
    assert!(matches_chapter_like("Part One"));
    assert!(matches_chapter_like("3 Methods"));
    assert!(matches_chapter_like("二、实验"));
    assert!(matches_section_like("3.1 Data"));
    assert!(matches_section_like("第二节 数据"));
    assert!(!matches_section_like("3 Data"));
    assert!(matches_subsection_like("3.1.2 X"));
    assert!(matches_subsection_like("Section 2"));
    assert!(!matches_subsection_like("3.1 X"));
}

#[test]
fn noise_lines() {
    assert!(is_likely_noise("学号：123"));
    assert!(is_likely_noise("a"));
    assert!(is_likely_noise(" ... "));
    assert!(is_likely_noise("Key words: x"));
    assert!(!is_likely_noise("第一章"));
    assert!(looks_like_page_number("- 12 -"));
    assert!(looks_like_page_number("3/10"));
    assert!(!looks_like_page_number("12a"));
    assert!(!looks_like_page_number("--"));
    assert!(!looks_like_page_number("1 2"));
    assert!(looks_like_date_line("2023年5月"));
    assert!(looks_like_date_line("v2021"));
    assert!(!looks_like_date_line("Intro"));
    assert!(is_header_footer_noise("Journal Title", true, false));
    assert!(is_header_footer_noise(" 12 ", false, true));
    assert!(!is_header_footer_noise("Some long body text", false, false));
    assert!(!is_header_footer_noise("A title that is longer than twenty", true, false));
}

#[test]
fn heading_levels_without_patterns() {
    let c = CustomPatterns::compile(None, None, None).ok().unwrap();
    assert_eq!(detect_heading_level("第一章 绪论", 3, &c), 1);
    assert_eq!(detect_heading_level(" 2.1 方法", 3, &c), 2);
    assert_eq!(detect_heading_level("2.1.3 细节", 1, &c), 3);
    assert_eq!(detect_heading_level("Plain text", 2, &c), 2);
}

#[test]
fn heading_levels_with_patterns() {
    let c = CustomPatterns::compile(Some("^Ch"), None, Some("^Sub")).ok().unwrap();
    assert_eq!(detect_heading_level("Ch five", 3, &c), 1);
    assert_eq!(detect_heading_level("Sub part", 1, &c), 3);
    assert_eq!(detect_heading_level("Other", 2, &c), 2);
}

#[test]
fn bad_heading_pattern() {
    let e = CustomPatterns::compile(None, Some("("), None).err().unwrap();
    assert!(e.starts_with("--section-pattern 正则无效: "));
    assert!(e.len() > "--section-pattern 正则无效: ".len());
}

#[test]
fn contents_lines() {
    assert_eq!(
        parse_toc_line("第一章 绪论 ........ 12"),
        Some(("第一章 绪论".to_string(), 12))
    );
    assert_eq!(parse_toc_line("1.2 Scope...5"), Some(("1.2 Scope".to_string(), 5)));
    assert_eq!(parse_toc_line("目录"), None);
    assert_eq!(parse_toc_line("Introduction"), None);
    assert_eq!(parse_toc_line("Chapter 12345"), None);
    assert_eq!(parse_toc_line(""), None);
}

#[test]
fn contents_entries() {
    assert_eq!(toc_entry("Intro..", "7"), Some(("Intro".to_string(), 7)));
    assert_eq!(toc_entry(" A ·…", "0012"), Some(("A".to_string(), 12)));
    assert_eq!(toc_entry("...", "3"), None);
    assert_eq!(toc_entry("A", "99999999999"), None);
}

#[test]
fn levels_after_user_patterns() {
    assert_eq!(level_given(true, true, true, "第一章 绪论", 3), 1);
    assert_eq!(level_given(false, true, false, "Plain words", 3), 2);
    assert_eq!(level_given(false, false, true, "Plain words", 1), 3);
    assert_eq!(level_given(false, false, false, "第一章 绪论", 3), 1);
    assert_eq!(level_given(false, false, false, "2.1 方法", 3), 2);
    assert_eq!(level_given(false, false, false, "2.1.3 细节", 1), 3);
    assert_eq!(level_given(false, false, false, "Plain words", 2), 2);
}
