//! What a page analysis reads from a content stream without positions: how
//! many operations of each kind it holds, and the text that each text
//! object shows.
use vstd::prelude::*;
use crate::chars::{chars_of, eq_str, string_of};
use crate::content::ContentOp;
use crate::text::{trim, trim_chars};

verus! {

/// The kind under which an operation is counted.
#[derive(Debug, Clone, Copy, PartialEq, Eq, Structural)]
pub enum StatKind {
    Text,
    Path,
    Color,
    State,
    XObject,
    Marked,
    Uncounted,
}

/// How many operations of a content stream there are, in all and of each
/// kind.
#[derive(Debug, Clone, Copy, PartialEq, Eq, Default)]
pub struct ContentStats {
    pub total: usize,
    pub text: usize,
    pub path: usize,
    pub color: usize,
    pub state: usize,
    pub xobject: usize,
    pub marked: usize,
}

pub open spec fn is_state_op(op: Seq<char>, operands: nat) -> bool {
    (op == "cm"@ && operands >= 6) || op == "gs"@ || op == "w"@ || op == "J"@ || op == "j"@
        || op == "M"@ || op == "d"@ || op == "ri"@ || op == "i"@
}

pub open spec fn is_color_op(op: Seq<char>) -> bool {
    op == "CS"@ || op == "cs"@ || op == "SC"@ || op == "SCN"@ || op == "sc"@ || op == "scn"@
        || op == "G"@ || op == "g"@ || op == "RG"@ || op == "rg"@ || op == "K"@ || op == "k"@
}

/// Text-showing operators, which count as text inside a text object only.
pub open spec fn is_show_op(op: Seq<char>) -> bool {
    op == "Tj"@ || op == "TJ"@ || op == "'"@ || op == "\""@
}

pub open spec fn is_text_op(op: Seq<char>, operands: nat, in_bt: bool) -> bool {
    op == "BT"@ || op == "ET"@ || (op == "Tf"@ && operands >= 2) || ((op == "Td"@ || op == "TD"@)
        && operands >= 2) || (op == "Tm"@ && operands >= 6) || op == "T*"@ || (in_bt && is_show_op(
        op,
    )) || op == "Tc"@ || op == "Tw"@ || op == "Tz"@ || op == "TL"@ || op == "Tr"@ || op == "Ts"@
}

pub open spec fn is_path_op(op: Seq<char>) -> bool {
    op == "m"@ || op == "l"@ || op == "c"@ || op == "v"@ || op == "y"@ || op == "h"@ || op
        == "re"@ || op == "S"@ || op == "s"@ || op == "f"@ || op == "F"@ || op == "f*"@ || op
        == "B"@ || op == "B*"@ || op == "b"@ || op == "b*"@ || op == "n"@ || op == "W"@ || op
        == "W*"@
}

pub open spec fn is_marked_op(op: Seq<char>) -> bool {
    op == "BMC"@ || op == "BDC"@ || op == "EMC"@ || op == "MP"@ || op == "DP"@
}

/// The kind of operator `op` with `operands` operands, inside a text
/// object or not. A `cm` needs six operands to count, `Tf`, `Td` and `TD`
/// two, `Tm` six.
pub open spec fn spec_stat_kind(op: Seq<char>, operands: nat, in_bt: bool) -> StatKind {
    if is_state_op(op, operands) {
        StatKind::State
    } else if is_color_op(op) {
        StatKind::Color
    } else if is_text_op(op, operands, in_bt) {
        StatKind::Text
    } else if is_path_op(op) {
        StatKind::Path
    } else if op == "Do"@ {
        StatKind::XObject
    } else if is_marked_op(op) {
        StatKind::Marked
    } else {
        StatKind::Uncounted
    }
}

/// Whether operation `k` stands inside a text object: the last `BT` or
/// `ET` before it is a `BT`.
pub open spec fn in_text_at(ops: Seq<ContentOp>, k: int) -> bool
    decreases k,
{
    if k <= 0 {
        false
    } else {
        let p = ops[k - 1].operator@;
        if p == "BT"@ {
            true
        } else if p == "ET"@ {
            false
        } else {
            in_text_at(ops, k - 1)
        }
    }
}

pub open spec fn kind_at(ops: Seq<ContentOp>, k: int) -> StatKind {
    spec_stat_kind(ops[k].operator@, ops[k].operand_count as nat, in_text_at(ops, k))
}

/// How many of the first `n` operations are of kind `kind`.
pub open spec fn count_kind(ops: Seq<ContentOp>, kind: StatKind, n: int) -> nat
    decreases n,
{
    if n <= 0 {
        0
    } else {
        count_kind(ops, kind, n - 1) + if kind_at(ops, n - 1) == kind {
            1nat
        } else {
            0nat
        }
    }
}

/// The kind of operator `op` with `n` operands.
pub fn stat_kind(op: &str, n: usize, in_bt: bool) -> (r: StatKind)
    ensures
        r == spec_stat_kind(op@, n as nat, in_bt),
{
    let o = chars_of(op);
    if (eq_str(&o, "cm") && n >= 6) || eq_str(&o, "gs") || eq_str(&o, "w") || eq_str(&o, "J")
        || eq_str(&o, "j") || eq_str(&o, "M") || eq_str(&o, "d") || eq_str(&o, "ri") || eq_str(
        &o,
        "i",
    ) {
        return StatKind::State;
    }
    if eq_str(&o, "CS") || eq_str(&o, "cs") || eq_str(&o, "SC") || eq_str(&o, "SCN") || eq_str(
        &o,
        "sc",
    ) || eq_str(&o, "scn") || eq_str(&o, "G") || eq_str(&o, "g") || eq_str(&o, "RG") || eq_str(
        &o,
        "rg",
    ) || eq_str(&o, "K") || eq_str(&o, "k") {
        return StatKind::Color;
    }
    let show = eq_str(&o, "Tj") || eq_str(&o, "TJ") || eq_str(&o, "'") || eq_str(&o, "\"");
    if eq_str(&o, "BT") || eq_str(&o, "ET") || (eq_str(&o, "Tf") && n >= 2) || ((eq_str(&o, "Td")
        || eq_str(&o, "TD")) && n >= 2) || (eq_str(&o, "Tm") && n >= 6) || eq_str(&o, "T*") || (
    in_bt && show) || eq_str(&o, "Tc") || eq_str(&o, "Tw") || eq_str(&o, "Tz") || eq_str(&o, "TL")
        || eq_str(&o, "Tr") || eq_str(&o, "Ts") {
        return StatKind::Text;
    }
    if eq_str(&o, "m") || eq_str(&o, "l") || eq_str(&o, "c") || eq_str(&o, "v") || eq_str(&o, "y")
        || eq_str(&o, "h") || eq_str(&o, "re") || eq_str(&o, "S") || eq_str(&o, "s") || eq_str(
        &o,
        "f",
    ) || eq_str(&o, "F") || eq_str(&o, "f*") || eq_str(&o, "B") || eq_str(&o, "B*") || eq_str(
        &o,
        "b",
    ) || eq_str(&o, "b*") || eq_str(&o, "n") || eq_str(&o, "W") || eq_str(&o, "W*") {
        return StatKind::Path;
    }
    if eq_str(&o, "Do") {
        return StatKind::XObject;
    }
    if eq_str(&o, "BMC") || eq_str(&o, "BDC") || eq_str(&o, "EMC") || eq_str(&o, "MP") || eq_str(
        &o,
        "DP",
    ) {
        return StatKind::Marked;
    }
    StatKind::Uncounted
}

/// The counts of the operations of `ops`: all of them, and those of each
/// kind; every operation counts under one kind at most.
pub fn content_stats(ops: &Vec<ContentOp>) -> (r: ContentStats)
    ensures
        r.total == ops@.len(),
        r.text == count_kind(ops@, StatKind::Text, ops@.len() as int),
        r.path == count_kind(ops@, StatKind::Path, ops@.len() as int),
        r.color == count_kind(ops@, StatKind::Color, ops@.len() as int),
        r.state == count_kind(ops@, StatKind::State, ops@.len() as int),
        r.xobject == count_kind(ops@, StatKind::XObject, ops@.len() as int),
        r.marked == count_kind(ops@, StatKind::Marked, ops@.len() as int),
        r.text + r.path + r.color + r.state + r.xobject + r.marked + count_kind(
            ops@,
            StatKind::Uncounted,
            ops@.len() as int,
        ) == r.total,
{
    let mut r = ContentStats { total: 0, text: 0, path: 0, color: 0, state: 0, xobject: 0, marked: 0 };
    let mut in_bt = false;
    let mut k: usize = 0;
    while k < ops.len()
        invariant
            k <= ops@.len(),
            in_bt == in_text_at(ops@, k as int),
            r.total == k,
            r.text == count_kind(ops@, StatKind::Text, k as int),
            r.path == count_kind(ops@, StatKind::Path, k as int),
            r.color == count_kind(ops@, StatKind::Color, k as int),
            r.state == count_kind(ops@, StatKind::State, k as int),
            r.xobject == count_kind(ops@, StatKind::XObject, k as int),
            r.marked == count_kind(ops@, StatKind::Marked, k as int),
            r.text + r.path + r.color + r.state + r.xobject + r.marked + count_kind(
                ops@,
                StatKind::Uncounted,
                k as int,
            ) == k,
        decreases ops@.len() - k,
    {
        let kind = stat_kind(ops[k].operator.as_str(), ops[k].operand_count, in_bt);
        assert(kind == kind_at(ops@, k as int));
        match kind {
            StatKind::Text => r.text = r.text + 1,
            StatKind::Path => r.path = r.path + 1,
            StatKind::Color => r.color = r.color + 1,
            StatKind::State => r.state = r.state + 1,
            StatKind::XObject => r.xobject = r.xobject + 1,
            StatKind::Marked => r.marked = r.marked + 1,
            StatKind::Uncounted => {},
        }
        let o = chars_of(ops[k].operator.as_str());
        if eq_str(&o, "BT") {
            in_bt = true;
        } else if eq_str(&o, "ET") {
            in_bt = false;
        }
        r.total = r.total + 1;
        k = k + 1;
    }
    r
}

/// What a text-showing operation shows, where its text could be read.
pub open spec fn shown_at(shown: Seq<Option<String>>, k: int) -> Option<Seq<char>> {
    match shown[k] {
        Some(s) => Some(s@),
        None => None,
    }
}

/// `t` followed by `s`, with `sep` between them where `t` is not empty;
/// `t` itself where nothing was read.
pub open spec fn append_shown(t: Seq<char>, s: Option<Seq<char>>, sep: char) -> Seq<char> {
    match s {
        Some(x) => (if t.len() > 0 {
            t.push(sep)
        } else {
            t
        }) + x,
        None => t,
    }
}

/// The text gathered in the current text object before operation `k`:
/// `BT` and `ET` start afresh; inside a text object `Tj` and `TJ` add what
/// they show after a space, `'` and `"` after a line break.
pub open spec fn text_before(ops: Seq<ContentOp>, shown: Seq<Option<String>>, k: int) -> Seq<char>
    decreases k,
{
    if k <= 0 {
        Seq::empty()
    } else {
        let j = k - 1;
        let p = ops[j].operator@;
        let t = text_before(ops, shown, j);
        if p == "BT"@ || p == "ET"@ {
            Seq::empty()
        } else if in_text_at(ops, j) && (p == "Tj"@ || p == "TJ"@) {
            append_shown(t, shown_at(shown, j), ' ')
        } else if in_text_at(ops, j) && (p == "'"@ || p == "\""@) {
            append_shown(t, shown_at(shown, j), '\n')
        } else {
            t
        }
    }
}

/// Operation `k` closes a text object whose gathered text is not blank.
pub open spec fn emits_at(ops: Seq<ContentOp>, shown: Seq<Option<String>>, k: int) -> bool {
    ops[k].operator@ == "ET"@ && in_text_at(ops, k) && trim(text_before(ops, shown, k)).len() > 0
}

/// The text segments among the first `n` operations: for each `ET` that
/// closes a text object with text that is not blank, its index and the
/// text.
pub open spec fn spec_segments(ops: Seq<ContentOp>, shown: Seq<Option<String>>, n: int) -> Seq<
    (int, Seq<char>),
>
    decreases n,
{
    if n <= 0 {
        Seq::empty()
    } else {
        let prev = spec_segments(ops, shown, n - 1);
        if emits_at(ops, shown, n - 1) {
            prev.push((n - 1, text_before(ops, shown, n - 1)))
        } else {
            prev
        }
    }
}

fn append_chars(cur: &mut Vec<char>, s: &String, sep: char)
    ensures
        final(cur)@ == append_shown(old(cur)@, Some(s@), sep),
{
    if cur.len() > 0 {
        cur.push(sep);
    }
    let mut add = chars_of(s.as_str());
    let ghost before = cur@;
    let ghost av = add@;
    cur.append(&mut add);
    assert(cur@ =~= before + av);
}

/// The text shown by each text object of `ops`, with the index of the `ET`
/// that closes it; `shown[k]` is what operation `k` shows, where that could
/// be read. Text objects whose text is blank give no segment.
pub fn text_segments(ops: &Vec<ContentOp>, shown: &Vec<Option<String>>) -> (r: Vec<(usize, String)>)
    requires
        shown@.len() == ops@.len(),
    ensures
        r@.len() == spec_segments(ops@, shown@, ops@.len() as int).len(),
        forall|i: int|
            0 <= i < r@.len() ==> (#[trigger] r@[i]).0 == spec_segments(
                ops@,
                shown@,
                ops@.len() as int,
            )[i].0 && r@[i].1@ == spec_segments(ops@, shown@, ops@.len() as int)[i].1,
{
    let mut out: Vec<(usize, String)> = Vec::new();
    let mut cur: Vec<char> = Vec::new();
    let mut in_bt = false;
    let mut k: usize = 0;
    while k < ops.len()
        invariant
            k <= ops@.len(),
            shown@.len() == ops@.len(),
            in_bt == in_text_at(ops@, k as int),
            cur@ == text_before(ops@, shown@, k as int),
            out@.len() == spec_segments(ops@, shown@, k as int).len(),
            forall|i: int|
                0 <= i < out@.len() ==> (#[trigger] out@[i]).0 == spec_segments(
                    ops@,
                    shown@,
                    k as int,
                )[i].0 && out@[i].1@ == spec_segments(ops@, shown@, k as int)[i].1,
        decreases ops@.len() - k,
    {
        let ghost prev = spec_segments(ops@, shown@, k as int);
        let ghost emits = emits_at(ops@, shown@, k as int);
        assert(spec_segments(ops@, shown@, k + 1) == if emits {
            prev.push((k as int, text_before(ops@, shown@, k as int)))
        } else {
            prev
        });
        let o = chars_of(ops[k].operator.as_str());
        if eq_str(&o, "BT") {
            proof {
                reveal_strlit("BT");
                reveal_strlit("ET");
                assert("BT"@[0] != "ET"@[0]);
            }
            cur = Vec::new();
            in_bt = true;
        } else if eq_str(&o, "ET") {
            if in_bt {
                let t = trim_chars(&cur);
                if t.len() > 0 {
                    out.push((k, string_of(&cur)));
                }
            }
            assert(emits == (in_bt && trim(cur@).len() > 0));
            cur = Vec::new();
            in_bt = false;
        } else if in_bt && (eq_str(&o, "Tj") || eq_str(&o, "TJ") || eq_str(&o, "'") || eq_str(
            &o,
            "\"",
        )) {
            let sep = if eq_str(&o, "Tj") || eq_str(&o, "TJ") {
                ' '
            } else {
                '\n'
            };
            match &shown[k] {
                Some(s) => append_chars(&mut cur, s, sep),
                None => {},
            }
        }
        assert(cur@ =~= text_before(ops@, shown@, k + 1));
        k = k + 1;
    }
    out
}

} // verus!
