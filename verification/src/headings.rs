//! What a line of page text looks like: a chapter or section heading, a
//! table-of-contents title, or noise such as a page number.
use vstd::prelude::*;
use crate::chars::chars_of;
use crate::keywords::{contains_seq, contains_str};
use crate::text::{is_digit, is_ws, is_ws_char, parse_unsigned, parse_unsigned_chars, trim, trim_chars};
use crate::patterns::{Pattern, compile_pattern, pattern_capture, pattern_is_match, regex_capture_of, regex_is_match_of, regex_new_of};

verus! {

/// `s` begins with `p`.
pub open spec fn starts_with(s: Seq<char>, p: Seq<char>) -> bool {
    p.len() <= s.len() && s.take(p.len() as int) == p
}

/// `s` ends with `p`.
pub open spec fn ends_with(s: Seq<char>, p: Seq<char>) -> bool {
    p.len() <= s.len() && s.skip(s.len() - p.len()) == p
}

/// Whether `v` begins with the text `lit`.
pub fn starts_with_str(v: &Vec<char>, lit: &str) -> (r: bool)
    ensures
        r == starts_with(v@, lit@),
{
    let n = lit.unicode_len();
    if n > v.len() {
        return false;
    }
    let mut i: usize = 0;
    while i < n
        invariant
            n == lit@.len(),
            n <= v.len(),
            i <= n,
            forall|k: int| 0 <= k < i ==> v@[k] == lit@[k],
        decreases n - i,
    {
        if v[i] != lit.get_char(i) {
            assert(v@.take(n as int)[i as int] != lit@[i as int]);
            return false;
        }
        i = i + 1;
    }
    assert(v@.take(n as int) =~= lit@);
    true
}

/// Whether `v` ends with the text `lit`.
pub fn ends_with_str(v: &Vec<char>, lit: &str) -> (r: bool)
    ensures
        r == ends_with(v@, lit@),
{
    let n = lit.unicode_len();
    if n > v.len() {
        return false;
    }
    let base = v.len() - n;
    let mut i: usize = 0;
    while i < n
        invariant
            n == lit@.len(),
            n <= v.len(),
            base == v.len() - n,
            i <= n,
            forall|k: int| 0 <= k < i ==> v@[base + k] == lit@[k],
        decreases n - i,
    {
        if v[base + i] != lit.get_char(i) {
            assert(v@.skip(base as int)[i as int] != lit@[i as int]);
            return false;
        }
        i = i + 1;
    }
    assert(v@.skip(base as int) =~= lit@);
    true
}

/// ASCII lower case of one character; other characters stay.
pub open spec fn ascii_lower(c: char) -> char {
    if 'A' <= c <= 'Z' {
        ((c as u32) + 32) as char
    } else {
        c
    }
}

/// `str::to_ascii_lowercase`.
pub open spec fn ascii_lower_seq(s: Seq<char>) -> Seq<char> {
    s.map_values(|c: char| ascii_lower(c))
}

fn ascii_lower_char(c: char) -> (r: char)
    ensures
        r == ascii_lower(c),
{
    if 'A' <= c && c <= 'Z' {
        let b = c as u8;
        assert(b == c as u32);
        ((b + 32) as char)
    } else {
        c
    }
}

/// The ASCII lower case of `v`.
pub fn ascii_lower_chars(v: &Vec<char>) -> (r: Vec<char>)
    ensures
        r@ == ascii_lower_seq(v@),
{
    let mut r: Vec<char> = Vec::new();
    let mut i: usize = 0;
    while i < v.len()
        invariant
            i <= v.len(),
            r@ == ascii_lower_seq(v@.take(i as int)),
        decreases v.len() - i,
    {
        r.push(ascii_lower_char(v[i]));
        i = i + 1;
        assert(r@ =~= ascii_lower_seq(v@.take(i as int)));
    }
    assert(v@.take(i as int) =~= v@);
    r
}

/// `str::eq_ignore_ascii_case`.
pub open spec fn eq_ignore_ascii_case(a: Seq<char>, b: Seq<char>) -> bool {
    ascii_lower_seq(a) == ascii_lower_seq(b)
}

/// The words of `s`: its maximal runs of non-whitespace characters, as
/// `str::split_whitespace` yields them.
pub open spec fn words(s: Seq<char>) -> Seq<Seq<char>>
    decreases s.len(),
{
    if s.len() == 0 {
        Seq::empty()
    } else {
        let w = words(s.drop_last());
        let c = s.last();
        if is_ws(c) {
            w
        } else if s.len() >= 2 && !is_ws(s[s.len() - 2]) {
            w.update(w.len() - 1, w.last().push(c))
        } else {
            w.push(seq![c])
        }
    }
}

/// The words joined with one space between each two.
pub open spec fn join_spaced(w: Seq<Seq<char>>) -> Seq<char>
    decreases w.len(),
{
    if w.len() == 0 {
        Seq::empty()
    } else if w.len() == 1 {
        w[0]
    } else {
        join_spaced(w.drop_last()) + seq![' '] + w.last()
    }
}

/// A title with every run of whitespace made one space and none at the ends.
pub open spec fn spec_normalize_title(s: Seq<char>) -> Seq<char> {
    join_spaced(words(s))
}

proof fn lemma_join_extend(w: Seq<Seq<char>>, c: char)
    requires
        w.len() > 0,
    ensures
        join_spaced(w.update(w.len() - 1, w.last().push(c))) == join_spaced(w).push(c),
{
    let w2 = w.update(w.len() - 1, w.last().push(c));
    if w.len() == 1 {
        assert(w2[0] == w[0].push(c));
    } else {
        assert(w2.drop_last() =~= w.drop_last());
        assert(join_spaced(w2) =~= join_spaced(w).push(c));
    }
}

proof fn lemma_join_push(w: Seq<Seq<char>>, c: char)
    ensures
        join_spaced(w.push(seq![c])) == if w.len() == 0 {
            seq![c]
        } else {
            join_spaced(w) + seq![' ', c]
        },
{
    let w2 = w.push(seq![c]);
    if w.len() > 0 {
        assert(w2.drop_last() =~= w);
        assert(join_spaced(w2) =~= join_spaced(w) + seq![' ', c]);
    }
}

/// `s` with every run of whitespace made one space and none at the ends.
pub fn normalize_outline_title(s: &str) -> (r: String)
    ensures
        r@ == spec_normalize_title(s@),
{
    let v = chars_of(s);
    let mut out: Vec<char> = Vec::new();
    let mut in_word = false;
    let mut i: usize = 0;
    while i < v.len()
        invariant
            i <= v.len(),
            out@ == join_spaced(words(v@.take(i as int))),
            in_word == (i > 0 && !is_ws(v@[i - 1])),
            in_word ==> words(v@.take(i as int)).len() > 0,
            (out@.len() == 0) == (words(v@.take(i as int)).len() == 0),
        decreases v.len() - i,
    {
        let c = v[i];
        let ghost pre = v@.take(i as int);
        let ghost cur = v@.take(i + 1);
        assert(cur.drop_last() =~= pre);
        assert(cur.last() == c);
        let ws = is_ws_char(c);
        if ws {
        } else if in_word {
            assert(cur[cur.len() - 2] == v@[i - 1]);
            proof {
                lemma_join_extend(words(pre), c);
            }
            out.push(c);
        } else {
            proof {
                lemma_join_push(words(pre), c);
                if i > 0 {
                    assert(cur[cur.len() - 2] == v@[i - 1]);
                }
            }
            if out.len() > 0 {
                out.push(' ');
            }
            out.push(c);
        }
        in_word = !ws;
        i = i + 1;
    }
    assert(v@.take(v.len() as int) =~= v@);
    crate::chars::string_of(&out)
}

/// Text that ends a heading which reads as complete: a full stop,
/// exclamation or question mark, or one of the fixed section names.
pub open spec fn complete_heading_endings() -> Seq<Seq<char>> {
    seq!["。"@, "！"@, "？"@, "摘要"@, "引言"@, "致谢"@, "参考文献"@]
}

/// The trimmed text ends with one of `complete_heading_endings`.
pub open spec fn spec_ends_like_complete_heading(s: Seq<char>) -> bool {
    exists|k: int|
        0 <= k < complete_heading_endings().len() && ends_with(
            trim(s),
            #[trigger] complete_heading_endings()[k],
        )
}

/// Whether a line, trimmed, ends as a complete heading does: with `。`, `！`
/// or `？`, or with `摘要`, `引言`, `致谢` or `参考文献`.
pub fn ends_like_complete_heading(s: &str) -> (r: bool)
    ensures
        r == spec_ends_like_complete_heading(s@),
{
    let t = trim_chars(&chars_of(s));
    let r = ends_with_str(&t, "。") || ends_with_str(&t, "！") || ends_with_str(&t, "？")
        || ends_with_str(&t, "摘要") || ends_with_str(&t, "引言") || ends_with_str(&t, "致谢")
        || ends_with_str(&t, "参考文献");
    proof {
        let e = complete_heading_endings();
        assert(e[0] == "。"@ && e[1] == "！"@ && e[2] == "？"@ && e[3] == "摘要"@);
        assert(e[4] == "引言"@ && e[5] == "致谢"@ && e[6] == "参考文献"@);
    }
    r
}

/// The section names that stand as headings of their own.
pub open spec fn fixed_headings() -> Seq<Seq<char>> {
    seq![
        "摘要"@,
        "Abstract"@,
        "引言"@,
        "前言"@,
        "绪论"@,
        "结论"@,
        "结束语"@,
        "参考文献"@,
        "致谢"@,
        "附录"@,
    ]
}

/// The trimmed text begins with one of the fixed section names (which
/// covers the name alone and the name followed by `：`).
pub open spec fn spec_matches_fixed_heading(s: Seq<char>) -> bool {
    exists|k: int|
        0 <= k < fixed_headings().len() && starts_with(trim(s), #[trigger] fixed_headings()[k])
}

/// Whether a line, trimmed, is or begins with one of the fixed section
/// names: `摘要`, `Abstract`, `引言`, `前言`, `绪论`, `结论`, `结束语`,
/// `参考文献`, `致谢`, `附录`.
pub fn matches_fixed_heading(s: &str) -> (r: bool)
    ensures
        r == spec_matches_fixed_heading(s@),
{
    let t = trim_chars(&chars_of(s));
    let r = starts_with_str(&t, "摘要") || starts_with_str(&t, "Abstract") || starts_with_str(
        &t,
        "引言",
    ) || starts_with_str(&t, "前言") || starts_with_str(&t, "绪论") || starts_with_str(&t, "结论")
        || starts_with_str(&t, "结束语") || starts_with_str(&t, "参考文献") || starts_with_str(
        &t,
        "致谢",
    ) || starts_with_str(&t, "附录");
    proof {
        let h = fixed_headings();
        assert(h[0] == "摘要"@ && h[1] == "Abstract"@ && h[2] == "引言"@ && h[3] == "前言"@);
        assert(h[4] == "绪论"@ && h[5] == "结论"@ && h[6] == "结束语"@ && h[7] == "参考文献"@);
        assert(h[8] == "致谢"@ && h[9] == "附录"@);
    }
    r
}

/// Words that mark the title page of a thesis.
pub open spec fn thesis_words() -> Seq<Seq<char>> {
    seq!["毕业论文"@, "毕业设计"@, "学位论文"@]
}

pub open spec fn spec_is_thesis_anchor_heading(s: Seq<char>) -> bool {
    spec_matches_fixed_heading(s) || exists|k: int|
        0 <= k < thesis_words().len() && contains_seq(s, #[trigger] thesis_words()[k])
}

/// Whether a line is a fixed section heading or names the thesis itself
/// (`毕业论文`, `毕业设计`, `学位论文`).
pub fn is_thesis_anchor_heading(s: &str) -> (r: bool)
    ensures
        r == spec_is_thesis_anchor_heading(s@),
{
    let v = chars_of(s);
    let r = matches_fixed_heading(s) || contains_str(&v, "毕业论文") || contains_str(&v, "毕业设计")
        || contains_str(&v, "学位论文");
    proof {
        let w = thesis_words();
        assert(w[0] == "毕业论文"@ && w[1] == "毕业设计"@ && w[2] == "学位论文"@);
    }
    r
}

/// The labels that open the title line of a thesis.
pub open spec fn title_labels() -> Seq<Seq<char>> {
    seq!["题目"@, "论文题目"@, "设计题目"@, "Title"@]
}

pub open spec fn spec_looks_like_thesis_title_line(s: Seq<char>) -> bool {
    exists|k: int| 0 <= k < title_labels().len() && starts_with(s, #[trigger] title_labels()[k])
}

/// Whether a line begins with `题目`, `论文题目`, `设计题目` or `Title`.
pub fn looks_like_thesis_title_line(s: &str) -> (r: bool)
    ensures
        r == spec_looks_like_thesis_title_line(s@),
{
    let v = chars_of(s);
    let r = starts_with_str(&v, "题目") || starts_with_str(&v, "论文题目") || starts_with_str(
        &v,
        "设计题目",
    ) || starts_with_str(&v, "Title");
    proof {
        let w = title_labels();
        assert(w[0] == "题目"@ && w[1] == "论文题目"@ && w[2] == "设计题目"@ && w[3] == "Title"@);
    }
    r
}

pub open spec fn spec_is_toc_heading(s: Seq<char>) -> bool {
    let t = spec_normalize_title(s);
    t == "目录"@ || eq_ignore_ascii_case(t, "contents"@) || eq_ignore_ascii_case(
        t,
        "table of contents"@,
    )
}

fn eq_ignore_ascii_case_str(v: &Vec<char>, lit: &str) -> (r: bool)
    ensures
        r == eq_ignore_ascii_case(v@, lit@),
{
    let a = ascii_lower_chars(v);
    let b = ascii_lower_chars(&chars_of(lit));
    if a.len() != b.len() {
        assert(ascii_lower_seq(v@).len() != ascii_lower_seq(lit@).len());
        return false;
    }
    let mut i: usize = 0;
    while i < a.len()
        invariant
            a.len() == b.len(),
            a@ == ascii_lower_seq(v@),
            b@ == ascii_lower_seq(lit@),
            i <= a.len(),
            forall|k: int| 0 <= k < i ==> a@[k] == b@[k],
        decreases a.len() - i,
    {
        if a[i] != b[i] {
            assert(a@[i as int] != b@[i as int]);
            return false;
        }
        i = i + 1;
    }
    assert(a@ =~= b@);
    true
}

/// Whether a line, its whitespace normalised, is a table-of-contents title:
/// `目录`, or `contents` or `table of contents` in any ASCII case.
pub fn is_toc_heading(s: &str) -> (r: bool)
    ensures
        r == spec_is_toc_heading(s@),
{
    let t = chars_of(normalize_outline_title(s).as_str());
    crate::chars::eq_str(&t, "目录") || eq_ignore_ascii_case_str(&t, "contents")
        || eq_ignore_ascii_case_str(&t, "table of contents")
}

/// Some prefix begins `s` and some suffix word occurs in it.
pub open spec fn spec_starts_with_any(s: Seq<char>, prefixes: Seq<&str>, suffixes: Seq<&str>) -> bool {
    (exists|i: int| 0 <= i < prefixes.len() && starts_with(s, #[trigger] prefixes[i]@)) && (exists|
        j: int,
    |
        0 <= j < suffixes.len() && contains_seq(s, #[trigger] suffixes[j]@))
}

/// Whether `s` begins with one of `prefixes` and contains one of
/// `suffixes` (anywhere).
pub fn starts_with_any(s: &str, prefixes: &[&str], suffixes: &[&str]) -> (r: bool)
    ensures
        r == spec_starts_with_any(s@, prefixes@, suffixes@),
{
    let v = chars_of(s);
    let mut found_prefix = false;
    let mut i: usize = 0;
    while i < prefixes.len()
        invariant
            v@ == s@,
            i <= prefixes@.len(),
            found_prefix == exists|k: int| 0 <= k < i && starts_with(s@, #[trigger] prefixes@[k]@),
        decreases prefixes@.len() - i,
    {
        if starts_with_str(&v, prefixes[i]) {
            found_prefix = true;
        }
        i = i + 1;
    }
    if !found_prefix {
        return false;
    }
    let mut j: usize = 0;
    while j < suffixes.len()
        invariant
            v@ == s@,
            j <= suffixes@.len(),
            exists|k: int| 0 <= k < prefixes@.len() && starts_with(s@, #[trigger] prefixes@[k]@),
            forall|k: int| 0 <= k < j ==> !contains_seq(s@, #[trigger] suffixes@[k]@),
        decreases suffixes@.len() - j,
    {
        if contains_str(&v, suffixes[j]) {
            assert(contains_seq(s@, suffixes@[j as int]@));
            return true;
        }
        j = j + 1;
    }
    false
}

pub open spec fn spec_starts_with_ascii_prefix(s: Seq<char>, prefixes: Seq<&str>) -> bool {
    exists|i: int| 0 <= i < prefixes.len() && starts_with(ascii_lower_seq(s), #[trigger] prefixes[i]@)
}

/// Whether the ASCII lower case of `s` begins with one of `prefixes`.
pub fn starts_with_ascii_prefix(s: &str, prefixes: &[&str]) -> (r: bool)
    ensures
        r == spec_starts_with_ascii_prefix(s@, prefixes@),
{
    let lower = ascii_lower_chars(&chars_of(s));
    let mut i: usize = 0;
    while i < prefixes.len()
        invariant
            lower@ == ascii_lower_seq(s@),
            i <= prefixes@.len(),
            forall|k: int| 0 <= k < i ==> !starts_with(lower@, #[trigger] prefixes@[k]@),
        decreases prefixes@.len() - i,
    {
        if starts_with_str(&lower, prefixes[i]) {
            return true;
        }
        i = i + 1;
    }
    false
}

/// The Chinese list markers `一、` to `十二、`.
pub open spec fn cn_list_markers() -> Seq<Seq<char>> {
    seq![
        "一、"@,
        "二、"@,
        "三、"@,
        "四、"@,
        "五、"@,
        "六、"@,
        "七、"@,
        "八、"@,
        "九、"@,
        "十、"@,
        "十一、"@,
        "十二、"@,
    ]
}

pub open spec fn spec_starts_with_cn_list_marker(s: Seq<char>) -> bool {
    exists|k: int| 0 <= k < cn_list_markers().len() && starts_with(s, #[trigger] cn_list_markers()[k])
}

/// Whether `s` begins with a Chinese list marker, `一、` to `十二、`.
pub fn starts_with_cn_list_marker(s: &str) -> (r: bool)
    ensures
        r == spec_starts_with_cn_list_marker(s@),
{
    let v = chars_of(s);
    let r = starts_with_str(&v, "一、") || starts_with_str(&v, "二、") || starts_with_str(&v, "三、")
        || starts_with_str(&v, "四、") || starts_with_str(&v, "五、") || starts_with_str(&v, "六、")
        || starts_with_str(&v, "七、") || starts_with_str(&v, "八、") || starts_with_str(&v, "九、")
        || starts_with_str(&v, "十、") || starts_with_str(&v, "十一、") || starts_with_str(
        &v,
        "十二、",
    );
    proof {
        let m = cn_list_markers();
        assert(m[0] == "一、"@ && m[1] == "二、"@ && m[2] == "三、"@ && m[3] == "四、"@);
        assert(m[4] == "五、"@ && m[5] == "六、"@ && m[6] == "七、"@ && m[7] == "八、"@);
        assert(m[8] == "九、"@ && m[9] == "十、"@ && m[10] == "十一、"@ && m[11] == "十二、"@);
    }
    r
}

/// How many ASCII digits begin `s`.
pub open spec fn digit_run(s: Seq<char>) -> nat
    decreases s.len(),
{
    if s.len() > 0 && is_digit(s[0]) {
        1 + digit_run(s.skip(1))
    } else {
        0
    }
}

/// How many dot-separated numbers begin `t`: `1` for `"3 Intro"`, `2` for
/// `"3.1 Scope"`, `3` for `"3.1.2."`.
pub open spec fn number_segments(t: Seq<char>) -> nat
    decreases t.len(),
{
    let d = digit_run(t);
    if d == 0 {
        0
    } else if d < t.len() && t[d as int] == '.' {
        1 + number_segments(t.skip(d as int + 1))
    } else {
        1
    }
}

proof fn lemma_digit_run(s: Seq<char>)
    ensures
        digit_run(s) <= s.len(),
        forall|k: int| 0 <= k < digit_run(s) ==> is_digit(#[trigger] s[k]),
        digit_run(s) < s.len() ==> !is_digit(s[digit_run(s) as int]),
    decreases s.len(),
{
    if s.len() > 0 && is_digit(s[0]) {
        lemma_digit_run(s.skip(1));
        assert forall|k: int| 0 <= k < digit_run(s) implies is_digit(#[trigger] s[k]) by {
            if k > 0 {
                assert(s[k] == s.skip(1)[k - 1]);
            }
        }
    }
}

proof fn lemma_digit_run_from(s: Seq<char>, i: int, j: int)
    requires
        0 <= i <= j <= s.len(),
        forall|k: int| i <= k < j ==> is_digit(#[trigger] s[k]),
        j == s.len() || !is_digit(s[j]),
    ensures
        digit_run(s.skip(i)) == j - i,
    decreases j - i,
{
    if i < j {
        assert(s.skip(i).skip(1) =~= s.skip(i + 1));
        lemma_digit_run_from(s, i + 1, j);
    } else if j < s.len() {
        assert(s.skip(i)[0] == s[j]);
    }
}

/// The number of dot-separated numbers that begin the trimmed text of `s`:
/// `"3.1.2 Scope"` has three, `"Intro"` none.
pub fn leading_number_segments(s: &str) -> (n: usize)
    ensures
        n == number_segments(trim(s@)),
{
    let chars = trim_chars(&chars_of(s));
    let ghost t = chars@;
    let mut count: usize = 0;
    let mut i: usize = 0;
    assert(t.skip(0) =~= t);
    while i < chars.len()
        invariant
            t == chars@,
            t == trim(s@),
            i <= chars.len(),
            count <= i,
            number_segments(t) == count + number_segments(t.skip(i as int)),
        decreases chars.len() - i,
    {
        let start = i;
        while i < chars.len() && is_ascii_digit(chars[i])
            invariant
                start <= i <= chars.len(),
                forall|k: int| start <= k < i ==> is_digit(#[trigger] chars@[k]),
            decreases chars.len() - i,
        {
            i = i + 1;
        }
        proof {
            lemma_digit_run_from(t, start as int, i as int);
        }
        if i == start {
            assert(number_segments(t.skip(start as int)) == 0);
            return count;
        }
        if i < chars.len() && chars[i] == '.' {
            assert(t.skip(start as int)[i - start] == '.');
            assert(t.skip(start as int).skip(i - start + 1) =~= t.skip(i + 1));
            count = count + 1;
            i = i + 1;
            continue;
        }
        assert(number_segments(t.skip(start as int)) == 1) by {
            if i < chars.len() {
                assert(t.skip(start as int)[i - start] == t[i as int]);
            }
        }
        count = count + 1;
        assert(number_segments(t) == count);
        return count;
    }
    proof {
        if i == chars.len() {
            assert(t.skip(i as int).len() == 0);
        }
    }
    count
}

fn is_ascii_digit(c: char) -> (r: bool)
    ensures
        r == is_digit(c),
{
    '0' <= c && c <= '9'
}


/// The words that close a `第…` chapter heading.
pub open spec fn chapter_suffixes() -> Seq<&'static str> {
    seq!["章", "篇", "部分", "卷", "回", "编", "幕", "课", "讲"]
}

/// The prefix of a numbered Chinese chapter or section heading.
pub open spec fn ordinal_prefixes() -> Seq<&'static str> {
    seq!["第"]
}

pub open spec fn chapter_words() -> Seq<&'static str> {
    seq!["chapter ", "part ", "unit "]
}

pub open spec fn section_suffixes() -> Seq<&'static str> {
    seq!["节", "条"]
}

pub open spec fn subsection_words() -> Seq<&'static str> {
    seq!["section ", "sec. "]
}

/// A chapter heading: `第…章` and the like, `Chapter `/`Part `/`Unit `, a
/// Chinese list marker, a single leading number, or a fixed section name.
pub open spec fn spec_matches_chapter_like(s: Seq<char>) -> bool {
    spec_starts_with_any(s, ordinal_prefixes(), chapter_suffixes()) || spec_starts_with_ascii_prefix(
        s,
        chapter_words(),
    ) || spec_starts_with_cn_list_marker(s) || number_segments(trim(s)) == 1
        || spec_matches_fixed_heading(s)
}

/// A section heading: `第…节`/`第…条`, or two leading numbers (`3.1`).
pub open spec fn spec_matches_section_like(s: Seq<char>) -> bool {
    spec_starts_with_any(s, ordinal_prefixes(), section_suffixes()) || number_segments(trim(s)) == 2
}

/// A subsection heading: three or more leading numbers, or
/// `Section `/`Sec. `.
pub open spec fn spec_matches_subsection_like(s: Seq<char>) -> bool {
    number_segments(trim(s)) >= 3 || spec_starts_with_ascii_prefix(s, subsection_words())
}

/// Whether a line reads as a chapter heading.
pub fn matches_chapter_like(s: &str) -> (r: bool)
    ensures
        r == spec_matches_chapter_like(s@),
{
    let pre: [&str; 1] = ["第"];
    let suf: [&str; 9] = ["章", "篇", "部分", "卷", "回", "编", "幕", "课", "讲"];
    let words: [&str; 3] = ["chapter ", "part ", "unit "];
    assert(pre@ =~= ordinal_prefixes());
    assert(suf@ =~= chapter_suffixes());
    assert(words@ =~= chapter_words());
    starts_with_any(s, &pre, &suf) || starts_with_ascii_prefix(s, &words)
        || starts_with_cn_list_marker(s) || leading_number_segments(s) == 1
        || matches_fixed_heading(s)
}

/// Whether a line reads as a section heading.
pub fn matches_section_like(s: &str) -> (r: bool)
    ensures
        r == spec_matches_section_like(s@),
{
    let pre: [&str; 1] = ["第"];
    let suf: [&str; 2] = ["节", "条"];
    assert(pre@ =~= ordinal_prefixes());
    assert(suf@ =~= section_suffixes());
    starts_with_any(s, &pre, &suf) || leading_number_segments(s) == 2
}

/// Whether a line reads as a subsection heading.
pub fn matches_subsection_like(s: &str) -> (r: bool)
    ensures
        r == spec_matches_subsection_like(s@),
{
    let words: [&str; 2] = ["section ", "sec. "];
    assert(words@ =~= subsection_words());
    leading_number_segments(s) >= 3 || starts_with_ascii_prefix(s, &words)
}

/// The labels that open the cover-page fields of a thesis, which are no
/// headings.
pub open spec fn field_labels() -> Seq<Seq<char>> {
    seq![
        "学号"@,
        "姓名"@,
        "学生姓名"@,
        "学院名称"@,
        "专业名称"@,
        "指导教师"@,
        "学院名"@,
        "专业名"@,
        "学生姓"@,
        "指导教"@,
        "关键词"@,
        "Key words"@,
    ]
}

/// `char::is_ascii_punctuation`.
pub open spec fn is_ascii_punct(c: char) -> bool {
    ('!' <= c <= '/') || (':' <= c <= '@') || ('[' <= c <= '`') || ('{' <= c <= '~')
}

/// Noise: the trimmed line has at most one character, opens with a
/// cover-page field label, or holds only ASCII punctuation and whitespace.
pub open spec fn spec_is_likely_noise(s: Seq<char>) -> bool {
    let t = trim(s);
    ||| t.len() <= 1
    ||| exists|k: int| 0 <= k < field_labels().len() && starts_with(t, #[trigger] field_labels()[k])
    ||| forall|k: int| 0 <= k < t.len() ==> is_ascii_punct(#[trigger] t[k]) || is_ws(t[k])
}

/// Whether a line is noise rather than a heading: at most one character
/// once trimmed, a cover-page field (`学号`, `姓名`, `指导教师`, `关键词`,
/// `Key words`, ...), or nothing but ASCII punctuation and whitespace.
pub fn is_likely_noise(s: &str) -> (r: bool)
    ensures
        r == spec_is_likely_noise(s@),
{
    let t = trim_chars(&chars_of(s));
    if t.len() <= 1 {
        return true;
    }
    let labelled = starts_with_str(&t, "学号") || starts_with_str(&t, "姓名") || starts_with_str(
        &t,
        "学生姓名",
    ) || starts_with_str(&t, "学院名称") || starts_with_str(&t, "专业名称") || starts_with_str(
        &t,
        "指导教师",
    ) || starts_with_str(&t, "学院名") || starts_with_str(&t, "专业名") || starts_with_str(
        &t,
        "学生姓",
    ) || starts_with_str(&t, "指导教") || starts_with_str(&t, "关键词") || starts_with_str(
        &t,
        "Key words",
    );
    proof {
        let f = field_labels();
        assert(f[0] == "学号"@ && f[1] == "姓名"@ && f[2] == "学生姓名"@ && f[3] == "学院名称"@);
        assert(f[4] == "专业名称"@ && f[5] == "指导教师"@ && f[6] == "学院名"@ && f[7] == "专业名"@);
        assert(f[8] == "学生姓"@ && f[9] == "指导教"@ && f[10] == "关键词"@ && f[11] == "Key words"@);
    }
    if labelled {
        return true;
    }
    let mut i: usize = 0;
    while i < t.len()
        invariant
            i <= t.len(),
            t@ == trim(s@),
            t@.len() > 1,
            !exists|k: int|
                0 <= k < field_labels().len() && starts_with(t@, #[trigger] field_labels()[k]),
            forall|k: int| 0 <= k < i ==> is_ascii_punct(#[trigger] t@[k]) || is_ws(t@[k]),
        decreases t.len() - i,
    {
        let c = t[i];
        if !(('!' <= c && c <= '/') || (':' <= c && c <= '@') || ('[' <= c && c <= '`') || ('{' <= c
            && c <= '~') || is_ws_char(c)) {
            assert(!(is_ascii_punct(t@[i as int]) || is_ws(t@[i as int])));
            return false;
        }
        i = i + 1;
    }
    true
}

/// Padding around a page number: whitespace, `-` and `—`.
pub open spec fn is_number_pad(c: char) -> bool {
    is_ws(c) || c == '-' || c == '—'
}

/// `s` without the padding characters at either end.
pub open spec fn strip_number_pad(s: Seq<char>) -> Seq<char>
    decreases s.len(),
{
    if s.len() > 0 && is_number_pad(s[0]) {
        strip_number_pad(s.skip(1))
    } else if s.len() > 0 && is_number_pad(s.last()) {
        strip_number_pad(s.drop_last())
    } else {
        s
    }
}

/// A page number: once the padding is stripped, one or more characters,
/// each an ASCII digit or `/`.
pub open spec fn spec_looks_like_page_number(s: Seq<char>) -> bool {
    let t = strip_number_pad(s);
    t.len() > 0 && forall|k: int| 0 <= k < t.len() ==> is_digit(#[trigger] t[k]) || t[k] == '/'
}

fn is_number_pad_char(c: char) -> (r: bool)
    ensures
        r == is_number_pad(c),
{
    is_ws_char(c) || c == '-' || c == '—'
}

/// Whether a line, stripped of whitespace, `-` and `—` at its ends, is a
/// page number such as `12` or `3/10`.
pub fn looks_like_page_number(s: &str) -> (r: bool)
    ensures
        r == spec_looks_like_page_number(s@),
{
    let v = chars_of(s);
    let mut lo: usize = 0;
    let mut hi: usize = v.len();
    assert(v@.subrange(0, v.len() as int) =~= v@);
    while lo < hi && (is_number_pad_char(v[lo]) || is_number_pad_char(v[hi - 1]))
        invariant
            lo <= hi <= v.len(),
            strip_number_pad(v@) == strip_number_pad(v@.subrange(lo as int, hi as int)),
        decreases hi - lo,
    {
        let ghost cur = v@.subrange(lo as int, hi as int);
        if is_number_pad_char(v[lo]) {
            assert(cur.skip(1) =~= v@.subrange(lo + 1, hi as int));
            lo = lo + 1;
        } else {
            assert(cur.drop_last() =~= v@.subrange(lo as int, hi - 1));
            hi = hi - 1;
        }
    }
    let ghost t = v@.subrange(lo as int, hi as int);
    assert(strip_number_pad(t) == t);
    if lo == hi {
        return false;
    }
    let mut i = lo;
    while i < hi
        invariant
            lo <= i <= hi <= v.len(),
            v@ == s@,
            t == v@.subrange(lo as int, hi as int),
            t == strip_number_pad(s@),
            t.len() > 0,
            forall|k: int| 0 <= k < i - lo ==> is_digit(#[trigger] t[k]) || t[k] == '/',
        decreases hi - i,
    {
        let c = v[i];
        if !(('0' <= c && c <= '9') || c == '/') {
            assert(t[i - lo] == c);
            return false;
        }
        assert(t[i - lo] == c);
        i = i + 1;
    }
    true
}

/// A date line: it holds `年` or `月`, or `202` (the ASCII lower case of
/// the line holds it).
pub open spec fn spec_looks_like_date_line(s: Seq<char>) -> bool {
    contains_seq(s, "年"@) || contains_seq(s, "月"@) || contains_seq(ascii_lower_seq(s), "202"@)
}

/// Whether a line looks like a date: it holds `年`, `月` or `202`.
pub fn looks_like_date_line(s: &str) -> (r: bool)
    ensures
        r == spec_looks_like_date_line(s@),
{
    let v = chars_of(s);
    contains_str(&v, "年") || contains_str(&v, "月") || contains_str(&ascii_lower_chars(&v), "202")
}

/// A running header or footer: near the top of the page, a line of at most
/// twenty characters once trimmed; near the bottom, a page number or a date.
pub open spec fn spec_header_footer_noise(s: Seq<char>, near_top: bool, near_bottom: bool) -> bool {
    let t = trim(s);
    (near_top && t.len() <= 20) || (near_bottom && (spec_looks_like_page_number(t)
        || spec_looks_like_date_line(t)))
}

/// Whether a line is a running header or footer. `near_top` and
/// `near_bottom` say where the line stands on the page (above 740 and below
/// 80 points from the bottom edge).
pub fn is_header_footer_noise(text: &str, near_top: bool, near_bottom: bool) -> (r: bool)
    ensures
        r == spec_header_footer_noise(text@, near_top, near_bottom),
{
    let t = crate::chars::string_of(&trim_chars(&chars_of(text)));
    if near_top && t.unicode_len() <= 20 {
        return true;
    }
    near_bottom && (looks_like_page_number(t.as_str()) || looks_like_date_line(t.as_str()))
}

pub open spec fn char_seq_views(v: Seq<Vec<char>>) -> Seq<Seq<char>> {
    v.map_values(|x: Vec<char>| x@)
}

/// The words of `v`: its maximal runs of non-whitespace characters.
pub fn words_of(v: &Vec<char>) -> (r: Vec<Vec<char>>)
    ensures
        char_seq_views(r@) == words(v@),
{
    let mut done: Vec<Vec<char>> = Vec::new();
    let mut cur: Vec<char> = Vec::new();
    let mut i: usize = 0;
    while i < v.len()
        invariant
            i <= v.len(),
            (if cur@.len() > 0 {
                char_seq_views(done@).push(cur@)
            } else {
                char_seq_views(done@)
            }) == words(v@.take(i as int)),
            cur@.len() > 0 <==> (i > 0 && !is_ws(v@[i - 1])),
        decreases v.len() - i,
    {
        let c = v[i];
        let ghost pre = v@.take(i as int);
        let ghost w = words(pre);
        let ghost cur_s = v@.take(i + 1);
        assert(cur_s.drop_last() =~= pre);
        assert(cur_s.last() == c);
        if i > 0 {
            assert(cur_s[cur_s.len() - 2] == v@[i - 1]);
        }
        if is_ws_char(c) {
            if cur.len() > 0 {
                let ghost before = char_seq_views(done@);
                done.push(cur);
                cur = Vec::new();
                assert(char_seq_views(done@) =~= before.push(done@.last()@));
            }
        } else {
            let ghost before = char_seq_views(done@);
            let ghost had = cur@.len() > 0;
            let ghost old_cur = cur@;
            cur.push(c);
            proof {
                if had {
                    assert(before.push(cur@) =~= before.push(old_cur).update(
                        before.len() as int,
                        old_cur.push(c),
                    ));
                } else {
                    assert(cur@ =~= seq![c]);
                    assert(before.push(cur@) =~= before.push(seq![c]));
                }
            }
        }
        i = i + 1;
    }
    assert(v@.take(v.len() as int) =~= v@);
    if cur.len() > 0 {
        let ghost before = char_seq_views(done@);
        done.push(cur);
        assert(char_seq_views(done@) =~= before.push(done@.last()@));
    }
    done
}

proof fn lemma_words_after_word(s: Seq<char>)
    requires
        s.len() > 0,
        !is_ws(s.last()),
    ensures
        words(s).len() > 0,
    decreases s.len(),
{
    if s.len() >= 2 && !is_ws(s[s.len() - 2]) {
        assert(s.drop_last().last() == s[s.len() - 2]);
        lemma_words_after_word(s.drop_last());
    }
}

/// Every word has at least one character.
pub proof fn lemma_words_nonempty(s: Seq<char>)
    ensures
        forall|k: int| 0 <= k < words(s).len() ==> (#[trigger] words(s)[k]).len() > 0,
    decreases s.len(),
{
    if s.len() > 0 {
        lemma_words_nonempty(s.drop_last());
        let w = words(s.drop_last());
        let c = s.last();
        if !is_ws(c) && s.len() >= 2 && !is_ws(s[s.len() - 2]) {
            assert(s.drop_last().last() == s[s.len() - 2]);
            lemma_words_after_word(s.drop_last());
            assert forall|k: int| 0 <= k < words(s).len() implies (#[trigger] words(s)[k]).len() > 0 by {
                if k < w.len() - 1 {
                    assert(words(s)[k] == w[k]);
                }
            }
        } else if !is_ws(c) {
            assert forall|k: int| 0 <= k < words(s).len() implies (#[trigger] words(s)[k]).len() > 0 by {
                if k < w.len() {
                    assert(words(s)[k] == w[k]);
                }
            }
        }
    }
}

/// The user's own patterns for chapter, section and subsection headings.
pub struct CustomPatterns {
    pub chapter: Option<Pattern>,
    pub section: Option<Pattern>,
    pub subsection: Option<Pattern>,
}

/// The pattern is given and matches `t`.
pub open spec fn custom_hit(p: Option<Pattern>, t: Seq<char>) -> bool {
    match p {
        Some(x) => regex_is_match_of(x.source(), t),
        None => false,
    }
}

/// The outline level of a heading: the user's patterns first (chapter 1,
/// section 2, subsection 3), then the built-in shapes in the same order,
/// and last `size_level`, the level that the font size gives.
pub open spec fn spec_heading_level(title: Seq<char>, size_level: nat, c: CustomPatterns) -> nat {
    let t = trim(title);
    spec_level_given(
        custom_hit(c.chapter, t),
        custom_hit(c.section, t),
        custom_hit(c.subsection, t),
        t,
        size_level,
    )
}

/// The outline level of the trimmed heading `t`, given whether the user's
/// chapter, section and subsection patterns match it.
pub open spec fn spec_level_given(chapter: bool, section: bool, subsection: bool, t: Seq<char>, size_level: nat) -> nat {
    if chapter {
        1
    } else if section {
        2
    } else if subsection {
        3
    } else if spec_matches_chapter_like(t) {
        1
    } else if spec_matches_section_like(t) {
        2
    } else if spec_matches_subsection_like(t) {
        3
    } else {
        size_level
    }
}

/// The outline level of the trimmed heading `t` once the user's patterns
/// have been tried on it: their verdict first, then the built-in shapes,
/// last `size_level`.
pub fn level_given(chapter: bool, section: bool, subsection: bool, t: &str, size_level: usize) -> (r: usize)
    ensures
        r == spec_level_given(chapter, section, subsection, t@, size_level as nat),
{
    if chapter {
        1
    } else if section {
        2
    } else if subsection {
        3
    } else if matches_chapter_like(t) {
        1
    } else if matches_section_like(t) {
        2
    } else if matches_subsection_like(t) {
        3
    } else {
        size_level
    }
}

fn custom_hit_exec(p: &Option<Pattern>, t: &str) -> (r: bool)
    ensures
        r == custom_hit(*p, t@),
{
    match p {
        Some(x) => pattern_is_match(x, t),
        None => false,
    }
}

/// The outline level (1 to 3) of a heading line. `size_level` is the level
/// that its font size gives (1 from 22 points, 2 from 18, else 3); it
/// counts only where no pattern decides.
pub fn detect_heading_level(title: &str, size_level: usize, custom: &CustomPatterns) -> (r: usize)
    ensures
        r == spec_heading_level(title@, size_level as nat, *custom),
{
    let t = crate::chars::string_of(&trim_chars(&chars_of(title)));
    let ts = t.as_str();
    let chapter = custom_hit_exec(&custom.chapter, ts);
    let section = custom_hit_exec(&custom.section, ts);
    let subsection = custom_hit_exec(&custom.subsection, ts);
    level_given(chapter, section, subsection, ts, size_level)
}

/// The message for a pattern given with `flag` that does not compile.
pub open spec fn pattern_error_message(flag: Seq<char>, err: Seq<char>) -> Seq<char> {
    flag + " 正则无效: "@ + err
}

pub open spec fn spec_compile_optional(p: Option<Seq<char>>, flag: Seq<char>) -> Result<Option<Seq<char>>, Seq<char>> {
    match p {
        None => Ok(None),
        Some(src) => match regex_new_of(src) {
            Ok(_) => Ok(Some(src)),
            Err(e) => Err(pattern_error_message(flag, e)),
        },
    }
}

pub open spec fn opt_str_view(p: Option<&str>) -> Option<Seq<char>> {
    match p {
        Some(s) => Some(s@),
        None => None,
    }
}

pub open spec fn pattern_source(p: Option<Pattern>) -> Option<Seq<char>> {
    match p {
        Some(x) => Some(x.source()),
        None => None,
    }
}

/// The compiled pattern given with `flag`, if one was given; the message
/// names the flag where it does not compile.
pub fn compile_optional_regex(pattern: Option<&str>, flag: &str) -> (r: Result<Option<Pattern>, String>)
    ensures
        match spec_compile_optional(opt_str_view(pattern), flag@) {
            Ok(src) => r matches Ok(x) && pattern_source(x) == src,
            Err(m) => r matches Err(e) && e@ == m,
        },
{
    match pattern {
        None => Ok(None),
        Some(p) => match compile_pattern(p) {
            Ok(x) => Ok(Some(x)),
            Err(e) => {
                let mut m = String::from_str(flag);
                m.append(" 正则无效: ");
                m.append(e.as_str());
                Err(m)
            },
        },
    }
}

impl CustomPatterns {
    /// The user's heading patterns, compiled; the first that does not
    /// compile (chapter, then section, then subsection) gives the error.
    pub fn compile(chapter: Option<&str>, section: Option<&str>, subsection: Option<&str>) -> (r:
        Result<CustomPatterns, String>)
        ensures
            match (
                spec_compile_optional(opt_str_view(chapter), "--chapter-pattern"@),
                spec_compile_optional(opt_str_view(section), "--section-pattern"@),
                spec_compile_optional(opt_str_view(subsection), "--subsection-pattern"@),
            ) {
                (Err(m), _, _) => r matches Err(e) && e@ == m,
                (Ok(_), Err(m), _) => r matches Err(e) && e@ == m,
                (Ok(_), Ok(_), Err(m)) => r matches Err(e) && e@ == m,
                (Ok(a), Ok(b), Ok(c)) => r matches Ok(x) && pattern_source(x.chapter) == a
                    && pattern_source(x.section) == b && pattern_source(x.subsection) == c,
            },
    {
        let chapter = match compile_optional_regex(chapter, "--chapter-pattern") {
            Ok(x) => x,
            Err(e) => {
                return Err(e);
            },
        };
        let section = match compile_optional_regex(section, "--section-pattern") {
            Ok(x) => x,
            Err(e) => {
                return Err(e);
            },
        };
        let subsection = match compile_optional_regex(subsection, "--subsection-pattern") {
            Ok(x) => x,
            Err(e) => {
                return Err(e);
            },
        };
        Ok(CustomPatterns { chapter, section, subsection })
    }
}

/// The pattern of a table-of-contents line: a title, then dots, middle
/// dots, ellipses or spaces, then a page number of one to four digits.
pub open spec fn toc_pattern() -> Seq<char> {
    "^(?P<title>.+?)(?:\\.|·|…|\\s)+(?P<page>\\d{1,4})$"@
}

/// A leader character that may trail a title: `.`, `·` or `…`.
pub open spec fn is_leader(c: char) -> bool {
    c == '.' || c == '·' || c == '…'
}

/// `s` without the leader characters at its end.
pub open spec fn strip_leaders_end(s: Seq<char>) -> Seq<char>
    decreases s.len(),
{
    if s.len() > 0 && is_leader(s.last()) {
        strip_leaders_end(s.drop_last())
    } else {
        s
    }
}

/// The entry that the two groups of a table-of-contents line give: the
/// title trimmed, stripped of trailing leaders and trimmed again, and the
/// page as a `u32`; `None` where the page does not parse or the title is
/// left empty.
pub open spec fn spec_toc_entry(title_cap: Seq<char>, page_cap: Seq<char>) -> Option<(Seq<char>, u32)> {
    match parse_unsigned(page_cap, u32::MAX as nat) {
        None => None,
        Some(p) => {
            let title = trim(strip_leaders_end(trim(title_cap)));
            if title.len() == 0 {
                None
            } else {
                Some((title, p as u32))
            }
        },
    }
}

/// The entry of a table-of-contents line from what its `title` and `page`
/// groups matched.
pub fn toc_entry(title_cap: &str, page_cap: &str) -> (r: Option<(String, u32)>)
    ensures
        match spec_toc_entry(title_cap@, page_cap@) {
            Some((t, p)) => r matches Some(x) && x.0@ == t && x.1 == p,
            None => r is None,
        },
{
    let raw = trim_chars(&chars_of(title_cap));
    let page = match parse_unsigned_chars(&chars_of(page_cap), 0xFFFF_FFFF) {
        Some(p) => p as u32,
        None => {
            return None;
        },
    };
    let mut end = raw.len();
    assert(raw@.take(raw.len() as int) =~= raw@);
    while end > 0 && (raw[end - 1] == '.' || raw[end - 1] == '·' || raw[end - 1] == '…')
        invariant
            end <= raw.len(),
            strip_leaders_end(raw@) == strip_leaders_end(raw@.take(end as int)),
        decreases end,
    {
        assert(raw@.take(end as int).drop_last() =~= raw@.take(end - 1));
        end = end - 1;
    }
    let mut kept: Vec<char> = Vec::new();
    let mut k: usize = 0;
    while k < end
        invariant
            k <= end <= raw.len(),
            kept@ == raw@.take(k as int),
        decreases end - k,
    {
        kept.push(raw[k]);
        k = k + 1;
        assert(kept@ =~= raw@.take(k as int));
    }
    let title = trim_chars(&kept);
    if title.len() == 0 {
        return None;
    }
    Some((crate::chars::string_of(&title), page))
}

/// A table-of-contents line, its whitespace normalised, read by
/// `toc_pattern`: `None` for an empty line, a contents title, a line that
/// does not match, or an entry that `spec_toc_entry` refuses.
pub open spec fn spec_parse_toc_line(s: Seq<char>) -> Option<(Seq<char>, u32)> {
    let c = spec_normalize_title(s);
    if c.len() == 0 || spec_is_toc_heading(c) {
        None
    } else if regex_new_of(toc_pattern()) is Err {
        None
    } else {
        match (
            regex_capture_of(toc_pattern(), c, "title"@),
            regex_capture_of(toc_pattern(), c, "page"@),
        ) {
            (Some(a), Some(b)) => spec_toc_entry(a, b),
            _ => None,
        }
    }
}

/// The title and page of a table-of-contents line such as
/// `第一章 绪论 ........ 12`.
pub fn parse_toc_line(s: &str) -> (r: Option<(String, u32)>)
    ensures
        match spec_parse_toc_line(s@) {
            Some((t, p)) => r matches Some(x) && x.0@ == t && x.1 == p,
            None => r is None,
        },
{
    let compact = normalize_outline_title(s);
    let cs = compact.as_str();
    if cs.unicode_len() == 0 || is_toc_heading(cs) {
        return None;
    }
    let re = match compile_pattern("^(?P<title>.+?)(?:\\.|·|…|\\s)+(?P<page>\\d{1,4})$") {
        Ok(re) => re,
        Err(_) => {
            return None;
        },
    };
    let title = match pattern_capture(&re, cs, "title") {
        Some(t) => t,
        None => {
            return None;
        },
    };
    let page = match pattern_capture(&re, cs, "page") {
        Some(p) => p,
        None => {
            return None;
        },
    };
    toc_entry(title.as_str(), page.as_str())
}

/// A line that begins with 第 and contains 章, 篇, 部分, 卷, 回, 编, 幕, 课 or
/// 讲 reads as a chapter heading, and (with no pattern of the user's
/// matching) gets level 1; one that begins with 第 and contains 节 or 条 reads
/// as a section heading.
pub proof fn lemma_ordinal_headings(s: Seq<char>, size_level: nat)
    ensures
        starts_with(s, "第"@) && (contains_seq(s, "章"@) || contains_seq(s, "篇"@) || contains_seq(s, "部分"@) || contains_seq(s, "卷"@) || contains_seq(s, "回"@) || contains_seq(s, "编"@) || contains_seq(s, "幕"@) || contains_seq(s, "课"@) || contains_seq(s, "讲"@)) ==> spec_matches_chapter_like(s),
        starts_with(s, "第"@) && (contains_seq(s, "章"@) || contains_seq(s, "篇"@) || contains_seq(s, "部分"@) || contains_seq(s, "卷"@) || contains_seq(s, "回"@) || contains_seq(s, "编"@) || contains_seq(s, "幕"@) || contains_seq(s, "课"@) || contains_seq(s, "讲"@)) ==> spec_level_given(false, false, false, s, size_level)
            == 1,
        starts_with(s, "第"@) && (contains_seq(s, "节"@) || contains_seq(s, "条"@)) ==> spec_matches_section_like(s),
{
    assert(ordinal_prefixes()[0]@ == "第"@);
    assert(chapter_suffixes()[0]@ == "章"@);
    if contains_seq(s, "章"@) {
        assert(contains_seq(s, chapter_suffixes()[0]@));
    }
    assert(chapter_suffixes()[1]@ == "篇"@);
    if contains_seq(s, "篇"@) {
        assert(contains_seq(s, chapter_suffixes()[1]@));
    }
    assert(chapter_suffixes()[2]@ == "部分"@);
    if contains_seq(s, "部分"@) {
        assert(contains_seq(s, chapter_suffixes()[2]@));
    }
    assert(chapter_suffixes()[3]@ == "卷"@);
    if contains_seq(s, "卷"@) {
        assert(contains_seq(s, chapter_suffixes()[3]@));
    }
    assert(chapter_suffixes()[4]@ == "回"@);
    if contains_seq(s, "回"@) {
        assert(contains_seq(s, chapter_suffixes()[4]@));
    }
    assert(chapter_suffixes()[5]@ == "编"@);
    if contains_seq(s, "编"@) {
        assert(contains_seq(s, chapter_suffixes()[5]@));
    }
    assert(chapter_suffixes()[6]@ == "幕"@);
    if contains_seq(s, "幕"@) {
        assert(contains_seq(s, chapter_suffixes()[6]@));
    }
    assert(chapter_suffixes()[7]@ == "课"@);
    if contains_seq(s, "课"@) {
        assert(contains_seq(s, chapter_suffixes()[7]@));
    }
    assert(chapter_suffixes()[8]@ == "讲"@);
    if contains_seq(s, "讲"@) {
        assert(contains_seq(s, chapter_suffixes()[8]@));
    }
    assert(section_suffixes()[0]@ == "节"@);
    if contains_seq(s, "节"@) {
        assert(contains_seq(s, section_suffixes()[0]@));
    }
    assert(section_suffixes()[1]@ == "条"@);
    if contains_seq(s, "条"@) {
        assert(contains_seq(s, section_suffixes()[1]@));
    }
    if starts_with(s, "第"@) {
        assert(starts_with(s, ordinal_prefixes()[0]@));
    }
}

/// Lines that read as chapter headings: those whose ASCII lower case begins
/// with `chapter `, `part ` or `unit `; those that begin with a list marker
/// `一、` to `十二、`; and those that, trimmed, begin with one of the fixed
/// section names `摘要`, `Abstract`, `引言`, `前言`, `绪论`, `结论`, `结束语`,
/// `参考文献`, `致谢`, `附录`. Lines whose ASCII lower case begins with
/// `section ` or `sec. ` read as subsection headings.
pub proof fn lemma_heading_words(s: Seq<char>)
    ensures
        (starts_with(ascii_lower_seq(s), "chapter "@) || starts_with(ascii_lower_seq(s), "part "@) || starts_with(ascii_lower_seq(s), "unit "@)) ==> spec_matches_chapter_like(s),
        (starts_with(s, "一、"@) || starts_with(s, "二、"@) || starts_with(s, "三、"@) || starts_with(s, "四、"@) || starts_with(s, "五、"@) || starts_with(s, "六、"@) || starts_with(s, "七、"@) || starts_with(s, "八、"@) || starts_with(s, "九、"@) || starts_with(s, "十、"@) || starts_with(s, "十一、"@) || starts_with(s, "十二、"@)) ==> spec_matches_chapter_like(s),
        (starts_with(trim(s), "摘要"@) || starts_with(trim(s), "Abstract"@) || starts_with(trim(s), "引言"@) || starts_with(trim(s), "前言"@) || starts_with(trim(s), "绪论"@) || starts_with(trim(s), "结论"@) || starts_with(trim(s), "结束语"@) || starts_with(trim(s), "参考文献"@) || starts_with(trim(s), "致谢"@) || starts_with(trim(s), "附录"@)) ==> spec_matches_chapter_like(s),
        (starts_with(ascii_lower_seq(s), "section "@) || starts_with(ascii_lower_seq(s), "sec. "@)) ==> spec_matches_subsection_like(s),
{
    let low = ascii_lower_seq(s);
    assert(chapter_words()[0]@ == "chapter "@);
    if starts_with(low, "chapter "@) {
        assert(starts_with(low, chapter_words()[0]@));
    }
    assert(chapter_words()[1]@ == "part "@);
    if starts_with(low, "part "@) {
        assert(starts_with(low, chapter_words()[1]@));
    }
    assert(chapter_words()[2]@ == "unit "@);
    if starts_with(low, "unit "@) {
        assert(starts_with(low, chapter_words()[2]@));
    }
    assert(subsection_words()[0]@ == "section "@);
    if starts_with(low, "section "@) {
        assert(starts_with(low, subsection_words()[0]@));
    }
    assert(subsection_words()[1]@ == "sec. "@);
    if starts_with(low, "sec. "@) {
        assert(starts_with(low, subsection_words()[1]@));
    }
    assert(cn_list_markers()[0] == "一、"@);
    if starts_with(s, "一、"@) {
        assert(starts_with(s, cn_list_markers()[0]));
    }
    assert(cn_list_markers()[1] == "二、"@);
    if starts_with(s, "二、"@) {
        assert(starts_with(s, cn_list_markers()[1]));
    }
    assert(cn_list_markers()[2] == "三、"@);
    if starts_with(s, "三、"@) {
        assert(starts_with(s, cn_list_markers()[2]));
    }
    assert(cn_list_markers()[3] == "四、"@);
    if starts_with(s, "四、"@) {
        assert(starts_with(s, cn_list_markers()[3]));
    }
    assert(cn_list_markers()[4] == "五、"@);
    if starts_with(s, "五、"@) {
        assert(starts_with(s, cn_list_markers()[4]));
    }
    assert(cn_list_markers()[5] == "六、"@);
    if starts_with(s, "六、"@) {
        assert(starts_with(s, cn_list_markers()[5]));
    }
    assert(cn_list_markers()[6] == "七、"@);
    if starts_with(s, "七、"@) {
        assert(starts_with(s, cn_list_markers()[6]));
    }
    assert(cn_list_markers()[7] == "八、"@);
    if starts_with(s, "八、"@) {
        assert(starts_with(s, cn_list_markers()[7]));
    }
    assert(cn_list_markers()[8] == "九、"@);
    if starts_with(s, "九、"@) {
        assert(starts_with(s, cn_list_markers()[8]));
    }
    assert(cn_list_markers()[9] == "十、"@);
    if starts_with(s, "十、"@) {
        assert(starts_with(s, cn_list_markers()[9]));
    }
    assert(cn_list_markers()[10] == "十一、"@);
    if starts_with(s, "十一、"@) {
        assert(starts_with(s, cn_list_markers()[10]));
    }
    assert(cn_list_markers()[11] == "十二、"@);
    if starts_with(s, "十二、"@) {
        assert(starts_with(s, cn_list_markers()[11]));
    }
    assert(fixed_headings()[0] == "摘要"@);
    if starts_with(trim(s), "摘要"@) {
        assert(starts_with(trim(s), fixed_headings()[0]));
    }
    assert(fixed_headings()[1] == "Abstract"@);
    if starts_with(trim(s), "Abstract"@) {
        assert(starts_with(trim(s), fixed_headings()[1]));
    }
    assert(fixed_headings()[2] == "引言"@);
    if starts_with(trim(s), "引言"@) {
        assert(starts_with(trim(s), fixed_headings()[2]));
    }
    assert(fixed_headings()[3] == "前言"@);
    if starts_with(trim(s), "前言"@) {
        assert(starts_with(trim(s), fixed_headings()[3]));
    }
    assert(fixed_headings()[4] == "绪论"@);
    if starts_with(trim(s), "绪论"@) {
        assert(starts_with(trim(s), fixed_headings()[4]));
    }
    assert(fixed_headings()[5] == "结论"@);
    if starts_with(trim(s), "结论"@) {
        assert(starts_with(trim(s), fixed_headings()[5]));
    }
    assert(fixed_headings()[6] == "结束语"@);
    if starts_with(trim(s), "结束语"@) {
        assert(starts_with(trim(s), fixed_headings()[6]));
    }
    assert(fixed_headings()[7] == "参考文献"@);
    if starts_with(trim(s), "参考文献"@) {
        assert(starts_with(trim(s), fixed_headings()[7]));
    }
    assert(fixed_headings()[8] == "致谢"@);
    if starts_with(trim(s), "致谢"@) {
        assert(starts_with(trim(s), fixed_headings()[8]));
    }
    assert(fixed_headings()[9] == "附录"@);
    if starts_with(trim(s), "附录"@) {
        assert(starts_with(trim(s), fixed_headings()[9]));
    }
}

} // verus!
