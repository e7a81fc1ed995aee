//! Watermark detection over the operations of a content stream.
use vstd::prelude::*;
use crate::chars::{chars_of, eq_str};
use crate::keywords::{
    is_form_content_watermark, lowercase_of, name_says_watermark, spec_is_form_content_watermark,
    spec_name_says_watermark, to_lowercase, utf8_lossy, utf8_lossy_of,
};
use crate::marks::{char_seqs, has_keyword, lower_keywords, lowered_keywords, text_has_keyword};

verus! {

/// The content-stream operators that watermark detection tells apart.
#[derive(Debug, Clone, Copy, PartialEq, Eq, Structural)]
pub enum OpCode {
    Bdc,
    Bmc,
    Emc,
    Do,
    Tj,
    TJ,
    Quote,
    DoubleQuote,
    MoveTo,
    LineTo,
    CurveTo,
    CurveV,
    CurveY,
    ClosePath,
    Rect,
    Stroke,
    CloseStroke,
    Fill,
    FillOld,
    FillEo,
    FillStroke,
    FillStrokeEo,
    CloseFillStroke,
    CloseFillStrokeEo,
    EndPath,
    Save,
    Restore,
    SetGs,
    Concat,
    TextMatrix,
    TextRender,
    Other,
}

/// The code of operator `o`.
pub open spec fn spec_opcode(o: Seq<char>) -> OpCode {
    if o == "BDC"@ {
        OpCode::Bdc
    } else if o == "BMC"@ {
        OpCode::Bmc
    } else if o == "EMC"@ {
        OpCode::Emc
    } else if o == "Do"@ {
        OpCode::Do
    } else if o == "Tj"@ {
        OpCode::Tj
    } else if o == "TJ"@ {
        OpCode::TJ
    } else if o == "'"@ {
        OpCode::Quote
    } else if o == "\""@ {
        OpCode::DoubleQuote
    } else if o == "m"@ {
        OpCode::MoveTo
    } else if o == "l"@ {
        OpCode::LineTo
    } else if o == "c"@ {
        OpCode::CurveTo
    } else if o == "v"@ {
        OpCode::CurveV
    } else if o == "y"@ {
        OpCode::CurveY
    } else if o == "h"@ {
        OpCode::ClosePath
    } else if o == "re"@ {
        OpCode::Rect
    } else if o == "S"@ {
        OpCode::Stroke
    } else if o == "s"@ {
        OpCode::CloseStroke
    } else if o == "f"@ {
        OpCode::Fill
    } else if o == "F"@ {
        OpCode::FillOld
    } else if o == "f*"@ {
        OpCode::FillEo
    } else if o == "B"@ {
        OpCode::FillStroke
    } else if o == "B*"@ {
        OpCode::FillStrokeEo
    } else if o == "b"@ {
        OpCode::CloseFillStroke
    } else if o == "b*"@ {
        OpCode::CloseFillStrokeEo
    } else if o == "n"@ {
        OpCode::EndPath
    } else if o == "q"@ {
        OpCode::Save
    } else if o == "Q"@ {
        OpCode::Restore
    } else if o == "gs"@ {
        OpCode::SetGs
    } else if o == "cm"@ {
        OpCode::Concat
    } else if o == "Tm"@ {
        OpCode::TextMatrix
    } else if o == "Tr"@ {
        OpCode::TextRender
    } else {
        OpCode::Other
    }
}

/// The code of operator `op`.
pub fn op_code(op: &str) -> (r: OpCode)
    ensures
        r == spec_opcode(op@),
{
    let o = chars_of(op);
    if eq_str(&o, "BDC") {
        OpCode::Bdc
    } else if eq_str(&o, "BMC") {
        OpCode::Bmc
    } else if eq_str(&o, "EMC") {
        OpCode::Emc
    } else if eq_str(&o, "Do") {
        OpCode::Do
    } else if eq_str(&o, "Tj") {
        OpCode::Tj
    } else if eq_str(&o, "TJ") {
        OpCode::TJ
    } else if eq_str(&o, "'") {
        OpCode::Quote
    } else if eq_str(&o, "\"") {
        OpCode::DoubleQuote
    } else if eq_str(&o, "m") {
        OpCode::MoveTo
    } else if eq_str(&o, "l") {
        OpCode::LineTo
    } else if eq_str(&o, "c") {
        OpCode::CurveTo
    } else if eq_str(&o, "v") {
        OpCode::CurveV
    } else if eq_str(&o, "y") {
        OpCode::CurveY
    } else if eq_str(&o, "h") {
        OpCode::ClosePath
    } else if eq_str(&o, "re") {
        OpCode::Rect
    } else if eq_str(&o, "S") {
        OpCode::Stroke
    } else if eq_str(&o, "s") {
        OpCode::CloseStroke
    } else if eq_str(&o, "f") {
        OpCode::Fill
    } else if eq_str(&o, "F") {
        OpCode::FillOld
    } else if eq_str(&o, "f*") {
        OpCode::FillEo
    } else if eq_str(&o, "B") {
        OpCode::FillStroke
    } else if eq_str(&o, "B*") {
        OpCode::FillStrokeEo
    } else if eq_str(&o, "b") {
        OpCode::CloseFillStroke
    } else if eq_str(&o, "b*") {
        OpCode::CloseFillStrokeEo
    } else if eq_str(&o, "n") {
        OpCode::EndPath
    } else if eq_str(&o, "q") {
        OpCode::Save
    } else if eq_str(&o, "Q") {
        OpCode::Restore
    } else if eq_str(&o, "gs") {
        OpCode::SetGs
    } else if eq_str(&o, "cm") {
        OpCode::Concat
    } else if eq_str(&o, "Tm") {
        OpCode::TextMatrix
    } else if eq_str(&o, "Tr") {
        OpCode::TextRender
    } else {
        OpCode::Other
    }
}

/// One operation of a content stream, with what detection reads of its
/// operands.
#[derive(Debug, Clone)]
pub struct ContentOp {
    pub operator: String,
    /// The first operand, where it is a name.
    pub name: Option<String>,
    /// The first operand, where it is an integer.
    pub int_operand: Option<i64>,
    /// For an operation with six operands or more: its second or third
    /// operand is a real number of magnitude above 0.01 (a rotated or skewed
    /// matrix for `cm` and `Tm`).
    pub rotated: bool,
    /// The `/Subtype` name of the property dictionary given as second
    /// operand; empty where there is none.
    pub marked_subtype: String,
    /// The string operands, and the strings inside array operands, in order.
    pub strings: Vec<Vec<u8>>,
    /// How many operands the operation has.
    pub operand_count: usize,
}

/// What detection knows of an XObject resource of the page.
#[derive(Debug, Clone)]
pub struct XObjInfo {
    /// The resource name under which the page refers to it.
    pub res_name: String,
    pub is_image: bool,
    pub is_form: bool,
    pub has_smask: bool,
    /// An image with `/ImageMask true`.
    pub has_image_mask: bool,
    /// A form whose `/PieceInfo` marks it as a watermark.
    pub piece_is_wm: bool,
    /// A form whose optional-content group is named like a watermark.
    pub oc_is_wm: bool,
    /// The form's `/Name` entry; empty where there is none.
    pub xobj_name: String,
    /// The first bytes of a form's content stream.
    pub content_preview: Vec<u8>,
    /// The resource name holds one of the keywords in force (any case);
    /// `detect_watermarks` sets it from its keywords.
    pub name_has_keyword: bool,
}

/// Which watermark kinds to look for, and whether the opacity threshold lies
/// above full opacity (then every block counts as translucent).
#[derive(Debug, Clone, Copy)]
pub struct DetectOptions {
    pub text: bool,
    pub curve: bool,
    pub path: bool,
    pub trace: bool,
    pub image: bool,
    pub pattern: bool,
    pub default_low: bool,
}

/// The kind of a detected watermark block.
#[derive(Debug, Clone, Copy, PartialEq, Eq, Structural)]
pub enum FindingKind {
    /// A marked `/Artifact` watermark block drawing a form XObject.
    MarkedPattern,
    /// A marked watermark block drawing an image.
    MarkedImage,
    /// A marked watermark block showing text.
    MarkedText,
    /// A marked watermark block drawing paths only.
    MarkedPath,
    /// A marked watermark block without drawing (graphics state only).
    MarkedTrace,
    /// Any other marked watermark block, where every kind is asked for.
    MarkedOther,
    /// A `q`..`Q` block showing translucent, rotated or invisible text.
    SavedText,
    /// A `q`..`Q` block of curves, translucent or of eight segments or more.
    SavedCurve,
    /// A `q`..`Q` block painting translucent straight paths.
    SavedPath,
    /// A `q`..`Q` block without painting, below 0.3 opacity.
    SavedTrace,
    /// A `q`..`Q` block drawing a masked image.
    SavedImage,
    /// A `q`..`Q` block drawing a form XObject marked as a watermark.
    SavedPattern,
}

/// A detected block: operations `start..=end`.
#[derive(Debug, Clone)]
pub struct Finding {
    pub kind: FindingKind,
    pub start: usize,
    pub end: usize,
    /// The XObject concerned: its `/Name` for `MarkedPattern`, its resource
    /// name for `SavedImage` and `SavedPattern`.
    pub name: Option<String>,
    /// The number of curve segments, for `SavedCurve`.
    pub count: usize,
    /// For `SavedImage`: the image has a soft mask (else an image mask).
    pub smask: bool,
}

pub open spec fn code_at(ops: Seq<ContentOp>, k: int) -> OpCode {
    spec_opcode(ops[k].operator@)
}

pub open spec fn is_text_show(c: OpCode) -> bool {
    c == OpCode::Tj || c == OpCode::TJ || c == OpCode::Quote || c == OpCode::DoubleQuote
}

pub open spec fn is_bezier(c: OpCode) -> bool {
    c == OpCode::CurveTo || c == OpCode::CurveV || c == OpCode::CurveY
}

pub open spec fn is_paint(c: OpCode) -> bool {
    c == OpCode::Stroke || c == OpCode::CloseStroke || c == OpCode::Fill || c == OpCode::FillOld
        || c == OpCode::FillEo || c == OpCode::FillStroke || c == OpCode::FillStrokeEo || c
        == OpCode::CloseFillStroke || c == OpCode::CloseFillStrokeEo
}

/// Path construction and painting, `n` included.
pub open spec fn is_path_op(c: OpCode) -> bool {
    c == OpCode::MoveTo || c == OpCode::LineTo || is_bezier(c) || c == OpCode::ClosePath || c
        == OpCode::Rect || is_paint(c) || c == OpCode::EndPath
}

pub open spec fn is_marked_open(c: OpCode) -> bool {
    c == OpCode::Bdc || c == OpCode::Bmc
}

/// A `BDC` operation that opens an `/Artifact` block of subtype `Watermark`.
pub open spec fn is_watermark_artifact(o: ContentOp) -> bool {
    &&& spec_opcode(o.operator@) == OpCode::Bdc
    &&& o.name is Some
    &&& o.name->0@ == "Artifact"@
    &&& o.marked_subtype@ == "Watermark"@
}

/// The position after the `EMC` that closes a marked block, `depth` blocks
/// being open at `i` (or the end of the operations).
pub open spec fn marked_end(ops: Seq<ContentOp>, i: int, depth: nat) -> int
    decreases ops.len() - i,
{
    if i < 0 || i >= ops.len() || depth == 0 {
        i
    } else if is_marked_open(code_at(ops, i)) {
        marked_end(ops, i + 1, depth + 1)
    } else if code_at(ops, i) == OpCode::Emc {
        marked_end(ops, i + 1, (depth - 1) as nat)
    } else {
        marked_end(ops, i + 1, depth)
    }
}

/// The position after the `Q` that closes a `q` block, `depth` blocks being
/// open at `i` (or the end of the operations).
pub open spec fn saved_end(ops: Seq<ContentOp>, i: int, depth: nat) -> int
    decreases ops.len() - i,
{
    if i < 0 || i >= ops.len() || depth == 0 {
        i
    } else if code_at(ops, i) == OpCode::Save {
        saved_end(ops, i + 1, depth + 1)
    } else if code_at(ops, i) == OpCode::Restore {
        saved_end(ops, i + 1, (depth - 1) as nat)
    } else {
        saved_end(ops, i + 1, depth)
    }
}

pub proof fn lemma_marked_end_bounds(ops: Seq<ContentOp>, i: int, depth: nat)
    requires
        0 <= i <= ops.len(),
    ensures
        i <= marked_end(ops, i, depth) <= ops.len(),
    decreases ops.len() - i,
{
    if i < ops.len() && depth != 0 {
        if is_marked_open(code_at(ops, i)) {
            lemma_marked_end_bounds(ops, i + 1, depth + 1);
        } else if code_at(ops, i) == OpCode::Emc {
            lemma_marked_end_bounds(ops, i + 1, (depth - 1) as nat);
        } else {
            lemma_marked_end_bounds(ops, i + 1, depth);
        }
    }
}

pub proof fn lemma_saved_end_bounds(ops: Seq<ContentOp>, i: int, depth: nat)
    requires
        0 <= i <= ops.len(),
    ensures
        i <= saved_end(ops, i, depth) <= ops.len(),
    decreases ops.len() - i,
{
    if i < ops.len() && depth != 0 {
        if code_at(ops, i) == OpCode::Save {
            lemma_saved_end_bounds(ops, i + 1, depth + 1);
        } else if code_at(ops, i) == OpCode::Restore {
            lemma_saved_end_bounds(ops, i + 1, (depth - 1) as nat);
        } else {
            lemma_saved_end_bounds(ops, i + 1, depth);
        }
    }
}

/// Some operation of `s..=t` has code `c`.
pub open spec fn has_code(ops: Seq<ContentOp>, s: int, t: int, c: OpCode) -> bool {
    exists|k: int| s <= k <= t && code_at(ops, k) == c
}

pub open spec fn has_text_show(ops: Seq<ContentOp>, s: int, t: int) -> bool {
    exists|k: int| s <= k <= t && is_text_show(#[trigger] code_at(ops, k))
}

pub open spec fn has_path_op(ops: Seq<ContentOp>, s: int, t: int) -> bool {
    exists|k: int| s <= k <= t && is_path_op(#[trigger] code_at(ops, k))
}

/// The name operand of the first `Do` in `k..=t`, if that `Do` has one.
pub open spec fn first_do_name(ops: Seq<ContentOp>, k: int, t: int) -> Option<String>
    decreases t + 1 - k,
{
    if k > t || k < 0 || k >= ops.len() {
        None
    } else if code_at(ops, k) == OpCode::Do {
        ops[k].name
    } else {
        first_do_name(ops, k + 1, t)
    }
}

/// The index of the first XObject with resource name `n`.
pub open spec fn find_xobj(x: Seq<XObjInfo>, n: Seq<char>) -> Option<int>
    decreases x.len(),
{
    if x.len() == 0 {
        None
    } else {
        match find_xobj(x.drop_last(), n) {
            Some(k) => Some(k),
            None => if x.last().res_name@ == n {
                Some(x.len() - 1)
            } else {
                None
            },
        }
    }
}

pub open spec fn finding(
    kind: FindingKind,
    s: int,
    t: int,
    name: Option<String>,
    count: nat,
    smask: bool,
) -> Finding {
    Finding { kind, start: s as usize, end: t as usize, name, count: count as usize, smask }
}

/// What a marked watermark block `s..=t` is taken for, if it is removed.
pub open spec fn classify_marked(
    ops: Seq<ContentOp>,
    x: Seq<XObjInfo>,
    opt: DetectOptions,
    s: int,
    t: int,
) -> Option<Finding> {
    let has_do = has_code(ops, s, t, OpCode::Do);
    let has_text = has_text_show(ops, s, t);
    let has_path = has_path_op(ops, s, t);
    let xi = match first_do_name(ops, s, t) {
        Some(n) => find_xobj(x, n@),
        None => None,
    };
    let is_form = xi is Some && x[xi->0].is_form;
    let is_image = xi is Some && x[xi->0].is_image;
    if has_do && is_form && opt.pattern {
        Some(finding(FindingKind::MarkedPattern, s, t, Some(x[xi->0].xobj_name), 0, false))
    } else if has_do && is_image && opt.image {
        Some(finding(FindingKind::MarkedImage, s, t, None, 0, false))
    } else if has_text && opt.text {
        Some(finding(FindingKind::MarkedText, s, t, None, 0, false))
    } else if has_path && !has_text && !has_do {
        if opt.path {
            Some(finding(FindingKind::MarkedPath, s, t, None, 0, false))
        } else {
            None
        }
    } else if !has_do && !has_text && !has_path {
        if opt.trace {
            Some(finding(FindingKind::MarkedTrace, s, t, None, 0, false))
        } else {
            None
        }
    } else if all_kinds(opt) {
        Some(finding(FindingKind::MarkedOther, s, t, None, 0, false))
    } else {
        None
    }
}

/// Every kind of content watermark is asked for.
pub open spec fn all_kinds(opt: DetectOptions) -> bool {
    opt.text && opt.curve && opt.path && opt.trace && opt.image && opt.pattern
}

pub open spec fn opt_seq(f: Option<Finding>) -> Seq<Finding> {
    match f {
        Some(v) => seq![v],
        None => Seq::empty(),
    }
}

/// The marked watermark blocks found scanning from `i` on: each block runs
/// from its `BDC` to the matching `EMC`, and scanning resumes after it.
pub open spec fn marked_findings(
    ops: Seq<ContentOp>,
    x: Seq<XObjInfo>,
    opt: DetectOptions,
    i: int,
) -> Seq<Finding>
    decreases ops.len() - i,
{
    if i < 0 || i >= ops.len() {
        Seq::empty()
    } else if is_watermark_artifact(ops[i]) {
        let e = marked_end(ops, i + 1, 1);
        proof {
            lemma_marked_end_bounds(ops, i + 1, 1);
        }
        opt_seq(classify_marked(ops, x, opt, i, e - 1)) + marked_findings(ops, x, opt, e)
    } else {
        marked_findings(ops, x, opt, i + 1)
    }
}

/// The codes of all operations.
pub fn op_codes(ops: &Vec<ContentOp>) -> (codes: Vec<OpCode>)
    ensures
        codes.len() == ops.len(),
        forall|k: int| 0 <= k < ops.len() ==> codes@[k] == code_at(ops@, k),
{
    let mut codes: Vec<OpCode> = Vec::new();
    let mut k: usize = 0;
    while k < ops.len()
        invariant
            k <= ops.len(),
            codes.len() == k,
            forall|j: int| 0 <= j < k ==> codes@[j] == code_at(ops@, j),
        decreases ops.len() - k,
    {
        codes.push(op_code(ops[k].operator.as_str()));
        k = k + 1;
    }
    codes
}

pub open spec fn codes_match(ops: Seq<ContentOp>, codes: Seq<OpCode>) -> bool {
    codes.len() == ops.len() && forall|k: int| 0 <= k < ops.len() ==> codes[k] == code_at(ops, k)
}

proof fn lemma_find_xobj_prefix(x: Seq<XObjInfo>, n: Seq<char>, j: int)
    requires
        0 <= j <= x.len(),
        find_xobj(x.take(j), n) is Some,
    ensures
        find_xobj(x, n) == find_xobj(x.take(j), n),
    decreases x.len() - j,
{
    if j < x.len() {
        assert(x.take(j + 1).drop_last() =~= x.take(j));
        lemma_find_xobj_prefix(x, n, j + 1);
    } else {
        assert(x.take(j) =~= x);
    }
}

/// The index of the first XObject with resource name `n`.
pub fn find_xobj_exec(x: &Vec<XObjInfo>, n: &String) -> (r: Option<usize>)
    ensures
        match find_xobj(x@, n@) {
            Some(k) => r == Some(k as usize),
            None => r is None,
        },
        r matches Some(k) ==> k < x.len(),
        find_xobj(x@, n@) matches Some(k) ==> 0 <= k < x.len(),
{
    let mut k: usize = 0;
    while k < x.len()
        invariant
            k <= x.len(),
            find_xobj(x@.take(k as int), n@) is None,
        decreases x.len() - k,
    {
        assert(x@.take(k + 1).drop_last() =~= x@.take(k as int));
        if x[k].res_name == *n {
            proof {
                lemma_find_xobj_prefix(x@, n@, k + 1);
            }
            return Some(k);
        }
        k = k + 1;
    }
    assert(x@.take(x.len() as int) =~= x@);
    None
}

/// The position after the `EMC` that closes the marked block opened before `i`.
fn marked_end_exec(Ghost(ops): Ghost<Seq<ContentOp>>, codes: &Vec<OpCode>, i0: usize) -> (r: usize)
    requires
        codes_match(ops, codes@),
        1 <= i0 <= codes.len(),
    ensures
        r == marked_end(ops, i0 as int, 1),
{
    let mut i = i0;
    let mut depth: usize = 1;
    while i < codes.len() && depth > 0
        invariant
            codes_match(ops, codes@),
            1 <= i0 <= i <= codes.len(),
            depth <= i - i0 + 1,
            marked_end(ops, i as int, depth as nat) == marked_end(ops, i0 as int, 1),
        decreases codes.len() - i,
    {
        let c = codes[i];
        if c == OpCode::Bdc || c == OpCode::Bmc {
            depth = depth + 1;
        } else if c == OpCode::Emc {
            depth = depth - 1;
        }
        i = i + 1;
    }
    i
}

/// The position after the `Q` that closes the `q` block opened before `i`.
fn saved_end_exec(Ghost(ops): Ghost<Seq<ContentOp>>, codes: &Vec<OpCode>, i0: usize) -> (r: usize)
    requires
        codes_match(ops, codes@),
        1 <= i0 <= codes.len(),
    ensures
        r == saved_end(ops, i0 as int, 1),
{
    let mut i = i0;
    let mut depth: usize = 1;
    while i < codes.len() && depth > 0
        invariant
            codes_match(ops, codes@),
            1 <= i0 <= i <= codes.len(),
            depth <= i - i0 + 1,
            saved_end(ops, i as int, depth as nat) == saved_end(ops, i0 as int, 1),
        decreases codes.len() - i,
    {
        let c = codes[i];
        if c == OpCode::Save {
            depth = depth + 1;
        } else if c == OpCode::Restore {
            depth = depth - 1;
        }
        i = i + 1;
    }
    i
}

fn is_text_show_code(c: OpCode) -> (r: bool)
    ensures
        r == is_text_show(c),
{
    c == OpCode::Tj || c == OpCode::TJ || c == OpCode::Quote || c == OpCode::DoubleQuote
}

fn is_bezier_code(c: OpCode) -> (r: bool)
    ensures
        r == is_bezier(c),
{
    c == OpCode::CurveTo || c == OpCode::CurveV || c == OpCode::CurveY
}

fn is_paint_code(c: OpCode) -> (r: bool)
    ensures
        r == is_paint(c),
{
    c == OpCode::Stroke || c == OpCode::CloseStroke || c == OpCode::Fill || c == OpCode::FillOld
        || c == OpCode::FillEo || c == OpCode::FillStroke || c == OpCode::FillStrokeEo || c
        == OpCode::CloseFillStroke || c == OpCode::CloseFillStrokeEo
}

fn is_path_code(c: OpCode) -> (r: bool)
    ensures
        r == is_path_op(c),
{
    c == OpCode::MoveTo || c == OpCode::LineTo || is_bezier_code(c) || c == OpCode::ClosePath || c
        == OpCode::Rect || is_paint_code(c) || c == OpCode::EndPath
}

fn clone_name(n: &Option<String>) -> (r: Option<String>)
    ensures
        r == *n,
{
    match n {
        Some(s) => Some(s.clone()),
        None => None,
    }
}

/// What the marked watermark block `s..=t` is taken for, if it is removed.
fn classify_marked_exec(
    ops: &Vec<ContentOp>,
    codes: &Vec<OpCode>,
    x: &Vec<XObjInfo>,
    opt: DetectOptions,
    s: usize,
    t: usize,
) -> (r: Option<Finding>)
    requires
        codes_match(ops@, codes@),
        s <= t < ops.len(),
    ensures
        r == classify_marked(ops@, x@, opt, s as int, t as int),
{
    let mut has_do = false;
    let mut has_text = false;
    let mut has_path = false;
    let mut do_name: Option<String> = None;
    let mut k = s;
    while k <= t
        invariant
            codes_match(ops@, codes@),
            s <= k <= t + 1,
            t < ops.len(),
            has_do == has_code(ops@, s as int, k - 1, OpCode::Do),
            has_text == has_text_show(ops@, s as int, k - 1),
            has_path == has_path_op(ops@, s as int, k - 1),
            has_do ==> do_name == first_do_name(ops@, s as int, t as int),
            !has_do ==> do_name is None,
            !has_do ==> first_do_name(ops@, s as int, t as int) == first_do_name(
                ops@,
                k as int,
                t as int,
            ),
        decreases t + 1 - k,
    {
        let c = codes[k];
        proof {
            assert(c == code_at(ops@, k as int));
        }
        if c == OpCode::Do && !has_do {
            do_name = clone_name(&ops[k].name);
        }
        if c == OpCode::Do {
            has_do = true;
        }
        if is_text_show_code(c) {
            has_text = true;
        }
        if is_path_code(c) {
            has_path = true;
        }
        k = k + 1;
    }
    assert(first_do_name(ops@, s as int, t as int) == do_name);
    let xi: Option<usize> = match &do_name {
        Some(n) => find_xobj_exec(x, n),
        None => None,
    };
    let is_form = match xi {
        Some(j) => x[j].is_form,
        None => false,
    };
    let is_image = match xi {
        Some(j) => x[j].is_image,
        None => false,
    };
    let ghost sxi = match first_do_name(ops@, s as int, t as int) {
        Some(n) => find_xobj(x@, n@),
        None => None,
    };
    assert(sxi is Some <==> xi is Some);
    assert(sxi is Some ==> sxi->0 == xi->0 as int);
    assert(is_form == (sxi is Some && x@[sxi->0].is_form));
    if has_do && is_form && opt.pattern {
        let j = xi.unwrap();
        Some(
            Finding {
                kind: FindingKind::MarkedPattern,
                start: s,
                end: t,
                name: Some(x[j].xobj_name.clone()),
                count: 0,
                smask: false,
            },
        )
    } else if has_do && is_image && opt.image {
        Some(Finding { kind: FindingKind::MarkedImage, start: s, end: t, name: None, count: 0, smask: false })
    } else if has_text && opt.text {
        Some(Finding { kind: FindingKind::MarkedText, start: s, end: t, name: None, count: 0, smask: false })
    } else if has_path && !has_text && !has_do {
        if opt.path {
            Some(Finding { kind: FindingKind::MarkedPath, start: s, end: t, name: None, count: 0, smask: false })
        } else {
            None
        }
    } else if !has_do && !has_text && !has_path {
        if opt.trace {
            Some(Finding { kind: FindingKind::MarkedTrace, start: s, end: t, name: None, count: 0, smask: false })
        } else {
            None
        }
    } else if opt.text && opt.curve && opt.path && opt.trace && opt.image && opt.pattern {
        Some(Finding { kind: FindingKind::MarkedOther, start: s, end: t, name: None, count: 0, smask: false })
    } else {
        None
    }
}

/// A `BDC` that opens an `/Artifact` block of subtype `Watermark`.
fn is_watermark_artifact_exec(op: &ContentOp, c: OpCode) -> (r: bool)
    requires
        c == spec_opcode(op.operator@),
    ensures
        r == is_watermark_artifact(*op),
{
    if c != OpCode::Bdc {
        return false;
    }
    match &op.name {
        None => false,
        Some(n) => eq_str(&chars_of(n.as_str()), "Artifact") && eq_str(
            &chars_of(op.marked_subtype.as_str()),
            "Watermark",
        ),
    }
}

/// The marked watermark blocks of the operations.
fn scan_marked(ops: &Vec<ContentOp>, codes: &Vec<OpCode>, x: &Vec<XObjInfo>, opt: DetectOptions) -> (r:
    Vec<Finding>)
    requires
        codes_match(ops@, codes@),
    ensures
        r@ == marked_findings(ops@, x@, opt, 0),
{
    let mut found: Vec<Finding> = Vec::new();
    let mut i: usize = 0;
    assert(found@ + marked_findings(ops@, x@, opt, 0) =~= marked_findings(ops@, x@, opt, 0));
    while i < ops.len()
        invariant
            codes_match(ops@, codes@),
            i <= ops.len(),
            found@ + marked_findings(ops@, x@, opt, i as int) == marked_findings(ops@, x@, opt, 0),
        decreases ops.len() - i,
    {
        let ghost before = found@;
        if is_watermark_artifact_exec(&ops[i], codes[i]) {
            let e = marked_end_exec(Ghost(ops@), codes, i + 1);
            proof {
                lemma_marked_end_bounds(ops@, i + 1, 1);
            }
            let f = classify_marked_exec(ops, codes, x, opt, i, e - 1);
            match f {
                Some(v) => {
                    found.push(v);
                },
                None => {},
            }
            assert(found@ =~= before + opt_seq(classify_marked(ops@, x@, opt, i as int, e - 1)));
            assert(found@ + marked_findings(ops@, x@, opt, e as int) =~= before + marked_findings(
                ops@,
                x@,
                opt,
                i as int,
            ));
            i = e;
        } else {
            i = i + 1;
        }
    }
    assert(found@ + marked_findings(ops@, x@, opt, i as int) =~= found@);
    found
}

/// The opacity of an `ExtGState` resource of the page, measured against the
/// threshold: `min(ca, CA)` lies below the threshold, below 0.3.
#[derive(Debug, Clone)]
pub struct GsOpacity {
    pub name: String,
    pub below_threshold: bool,
    pub below_trace: bool,
}

/// The index of the first graphics state with name `n`.
pub open spec fn find_gs(g: Seq<GsOpacity>, n: Seq<char>) -> Option<int>
    decreases g.len(),
{
    if g.len() == 0 {
        None
    } else {
        match find_gs(g.drop_last(), n) {
            Some(k) => Some(k),
            None => if g.last().name@ == n {
                Some(g.len() - 1)
            } else {
                None
            },
        }
    }
}

/// Operation `k` is a `gs` naming a graphics state below the threshold.
pub open spec fn gs_low_at(ops: Seq<ContentOp>, g: Seq<GsOpacity>, k: int) -> bool {
    &&& code_at(ops, k) == OpCode::SetGs
    &&& ops[k].name is Some
    &&& find_gs(g, ops[k].name->0@) matches Some(j) && g[j].below_threshold
}

/// Operation `k` is a `gs` naming a graphics state below 0.3 opacity.
pub open spec fn gs_trace_at(ops: Seq<ContentOp>, g: Seq<GsOpacity>, k: int) -> bool {
    &&& code_at(ops, k) == OpCode::SetGs
    &&& ops[k].name is Some
    &&& find_gs(g, ops[k].name->0@) matches Some(j) && g[j].below_trace
}

pub open spec fn has_low_opacity(
    ops: Seq<ContentOp>,
    g: Seq<GsOpacity>,
    opt: DetectOptions,
    s: int,
    t: int,
) -> bool {
    opt.default_low || exists|k: int| s <= k <= t && #[trigger] gs_low_at(ops, g, k)
}

pub open spec fn has_trace_opacity(ops: Seq<ContentOp>, g: Seq<GsOpacity>, s: int, t: int) -> bool {
    exists|k: int| s <= k <= t && #[trigger] gs_trace_at(ops, g, k)
}

pub open spec fn rotated_at(ops: Seq<ContentOp>, k: int, c: OpCode) -> bool {
    code_at(ops, k) == c && ops[k].rotated
}

pub open spec fn has_rotated(ops: Seq<ContentOp>, s: int, t: int, c: OpCode) -> bool {
    exists|k: int| s <= k <= t && #[trigger] rotated_at(ops, k, c)
}

pub open spec fn invisible_at(ops: Seq<ContentOp>, k: int) -> bool {
    code_at(ops, k) == OpCode::TextRender && ops[k].int_operand == Some(7i64)
}

pub open spec fn has_invisible(ops: Seq<ContentOp>, s: int, t: int) -> bool {
    exists|k: int| s <= k <= t && #[trigger] invisible_at(ops, k)
}

pub open spec fn has_bezier(ops: Seq<ContentOp>, s: int, t: int) -> bool {
    exists|k: int| s <= k <= t && is_bezier(#[trigger] code_at(ops, k))
}

pub open spec fn has_paint(ops: Seq<ContentOp>, s: int, t: int) -> bool {
    exists|k: int| s <= k <= t && is_paint(#[trigger] code_at(ops, k))
}

/// The number of curve segments among operations `k..=t`.
pub open spec fn bezier_count(ops: Seq<ContentOp>, k: int, t: int) -> nat
    decreases t + 1 - k,
{
    if k > t || k < 0 || k >= ops.len() {
        0
    } else {
        (if is_bezier(code_at(ops, k)) {
            1nat
        } else {
            0nat
        }) + bezier_count(ops, k + 1, t)
    }
}

/// An image drawn by `Do` with a soft mask or an image mask, or whose name
/// holds a keyword.
pub open spec fn is_masked_image(x: Seq<XObjInfo>, n: Seq<char>) -> bool {
    find_xobj(x, n) matches Some(j) && x[j].is_image && (x[j].has_smask || x[j].has_image_mask
        || x[j].name_has_keyword)
}

/// A form drawn by `Do` that is marked or named as a watermark, or whose
/// content reads like one in a translucent block.
pub open spec fn is_watermark_form(x: Seq<XObjInfo>, n: Seq<char>, low: bool) -> bool {
    find_xobj(x, n) matches Some(j) && x[j].is_form && (x[j].piece_is_wm || x[j].oc_is_wm
        || spec_name_says_watermark(x[j].xobj_name@) || (low && spec_is_form_content_watermark(
        x[j].content_preview@,
    )))
}

/// The name operand of the first `Do` in `k..=t` that draws a masked image.
pub open spec fn first_masked_image(ops: Seq<ContentOp>, x: Seq<XObjInfo>, k: int, t: int) -> Option<
    String,
>
    decreases t + 1 - k,
{
    if k > t || k < 0 || k >= ops.len() {
        None
    } else if code_at(ops, k) == OpCode::Do && ops[k].name is Some && is_masked_image(
        x,
        ops[k].name->0@,
    ) {
        ops[k].name
    } else {
        first_masked_image(ops, x, k + 1, t)
    }
}

/// The name operand of the first `Do` in `k..=t` that draws a watermark form.
pub open spec fn first_watermark_form(
    ops: Seq<ContentOp>,
    x: Seq<XObjInfo>,
    low: bool,
    k: int,
    t: int,
) -> Option<String>
    decreases t + 1 - k,
{
    if k > t || k < 0 || k >= ops.len() {
        None
    } else if code_at(ops, k) == OpCode::Do && ops[k].name is Some && is_watermark_form(
        x,
        ops[k].name->0@,
        low,
    ) {
        ops[k].name
    } else {
        first_watermark_form(ops, x, low, k + 1, t)
    }
}

/// What a `q`..`Q` block `s..=t` is taken for, if it is removed.
pub open spec fn classify_saved(
    ops: Seq<ContentOp>,
    x: Seq<XObjInfo>,
    g: Seq<GsOpacity>,
    opt: DetectOptions,
    s: int,
    t: int,
) -> Option<Finding> {
    let low = has_low_opacity(ops, g, opt, s, t);
    let text = has_text_show(ops, s, t);
    let bez = has_bezier(ops, s, t);
    let paint = has_paint(ops, s, t);
    let curves = bezier_count(ops, s, t);
    let img = first_masked_image(ops, x, s, t);
    let form = first_watermark_form(ops, x, low, s, t);
    if opt.text && text && (low || has_rotated(ops, s, t, OpCode::TextMatrix) || has_rotated(
        ops,
        s,
        t,
        OpCode::Concat,
    ) || has_invisible(ops, s, t)) {
        Some(finding(FindingKind::SavedText, s, t, None, 0, false))
    } else if opt.curve && bez && paint && (low || curves >= 8) {
        Some(finding(FindingKind::SavedCurve, s, t, None, curves, false))
    } else if opt.path && !text && !bez && paint && low {
        Some(finding(FindingKind::SavedPath, s, t, None, 0, false))
    } else if opt.trace && !text && !paint && !bez && low && has_trace_opacity(ops, g, s, t) {
        Some(finding(FindingKind::SavedTrace, s, t, None, 0, false))
    } else if opt.image && img is Some {
        let j = find_xobj(x, img->0@)->0;
        Some(finding(FindingKind::SavedImage, s, t, img, 0, x[j].has_smask))
    } else if opt.pattern && form is Some {
        Some(finding(FindingKind::SavedPattern, s, t, form, 0, false))
    } else {
        None
    }
}

/// Operation `k` lies in one of the blocks found.
pub open spec fn covered(f: Seq<Finding>, k: int) -> bool {
    exists|j: int| 0 <= j < f.len() && (#[trigger] f[j]).start <= k <= f[j].end
}

/// Blocks spanning more than this many operations are not judged as a whole;
/// the blocks inside them are judged on their own.
pub open spec fn max_block_span() -> int {
    200
}

/// The `q`..`Q` watermark blocks found scanning from `i` on: a block runs
/// from its `q` to the matching `Q`, and scanning resumes after it. A block
/// whose `q` lies in a marked block found before (`marked`) is passed over;
/// a block that spans more than 200 operations is not judged, and scanning
/// resumes inside it.
pub open spec fn saved_findings(
    ops: Seq<ContentOp>,
    x: Seq<XObjInfo>,
    g: Seq<GsOpacity>,
    opt: DetectOptions,
    marked: Seq<Finding>,
    i: int,
) -> Seq<Finding>
    decreases ops.len() - i,
{
    if i < 0 || i >= ops.len() {
        Seq::empty()
    } else if code_at(ops, i) != OpCode::Save {
        saved_findings(ops, x, g, opt, marked, i + 1)
    } else {
        let e = saved_end(ops, i + 1, 1);
        proof {
            lemma_saved_end_bounds(ops, i + 1, 1);
        }
        if covered(marked, i) {
            saved_findings(ops, x, g, opt, marked, e)
        } else if e - i > max_block_span() {
            saved_findings(ops, x, g, opt, marked, i + 1)
        } else {
            opt_seq(classify_saved(ops, x, g, opt, i, e - 1)) + saved_findings(
                ops,
                x,
                g,
                opt,
                marked,
                e,
            )
        }
    }
}

/// All watermark blocks of a content stream: the marked ones first, then
/// the `q`..`Q` ones.
pub open spec fn spec_detect(
    ops: Seq<ContentOp>,
    x: Seq<XObjInfo>,
    g: Seq<GsOpacity>,
    opt: DetectOptions,
) -> Seq<Finding> {
    let m = marked_findings(ops, x, opt, 0);
    m + saved_findings(ops, x, g, opt, m, 0)
}

proof fn lemma_find_gs_prefix(g: Seq<GsOpacity>, n: Seq<char>, j: int)
    requires
        0 <= j <= g.len(),
        find_gs(g.take(j), n) is Some,
    ensures
        find_gs(g, n) == find_gs(g.take(j), n),
    decreases g.len() - j,
{
    if j < g.len() {
        assert(g.take(j + 1).drop_last() =~= g.take(j));
        lemma_find_gs_prefix(g, n, j + 1);
    } else {
        assert(g.take(j) =~= g);
    }
}

/// The index of the first graphics state named `n`.
fn find_gs_exec(g: &Vec<GsOpacity>, n: &String) -> (r: Option<usize>)
    ensures
        match find_gs(g@, n@) {
            Some(k) => r == Some(k as usize),
            None => r is None,
        },
        r matches Some(k) ==> k < g.len(),
        find_gs(g@, n@) matches Some(k) ==> 0 <= k < g.len(),
{
    let mut k: usize = 0;
    while k < g.len()
        invariant
            k <= g.len(),
            find_gs(g@.take(k as int), n@) is None,
        decreases g.len() - k,
    {
        assert(g@.take(k + 1).drop_last() =~= g@.take(k as int));
        if g[k].name == *n {
            proof {
                lemma_find_gs_prefix(g@, n@, k + 1);
            }
            return Some(k);
        }
        k = k + 1;
    }
    assert(g@.take(g.len() as int) =~= g@);
    None
}

proof fn lemma_first_masked_image_found(ops: Seq<ContentOp>, x: Seq<XObjInfo>, k: int, t: int)
    requires
        first_masked_image(ops, x, k, t) is Some,
    ensures
        is_masked_image(x, first_masked_image(ops, x, k, t)->0@),
    decreases t + 1 - k,
{
    if !(k > t || k < 0 || k >= ops.len()) && !(code_at(ops, k) == OpCode::Do && ops[k].name is Some
        && is_masked_image(x, ops[k].name->0@)) {
        lemma_first_masked_image_found(ops, x, k + 1, t);
    }
}

/// Whether `n` names a masked image.
fn is_masked_image_exec(x: &Vec<XObjInfo>, n: &String) -> (r: bool)
    ensures
        r == is_masked_image(x@, n@),
{
    match find_xobj_exec(x, n) {
        Some(j) => x[j].is_image && (x[j].has_smask || x[j].has_image_mask || x[j].name_has_keyword),
        None => false,
    }
}

/// Whether `n` names a watermark form.
fn is_watermark_form_exec(x: &Vec<XObjInfo>, n: &String, low: bool) -> (r: bool)
    ensures
        r == is_watermark_form(x@, n@, low),
{
    match find_xobj_exec(x, n) {
        Some(j) => x[j].is_form && (x[j].piece_is_wm || x[j].oc_is_wm || name_says_watermark(
            &x[j].xobj_name,
        ) || (low && is_form_content_watermark(x[j].content_preview.as_slice()))),
        None => false,
    }
}

fn first_masked_image_exec(
    ops: &Vec<ContentOp>,
    codes: &Vec<OpCode>,
    x: &Vec<XObjInfo>,
    s: usize,
    t: usize,
) -> (r: Option<String>)
    requires
        codes_match(ops@, codes@),
        s <= t < ops.len(),
    ensures
        r == first_masked_image(ops@, x@, s as int, t as int),
{
    let mut k = s;
    while k <= t
        invariant
            codes_match(ops@, codes@),
            s <= k <= t + 1,
            t < ops.len(),
            first_masked_image(ops@, x@, s as int, t as int) == first_masked_image(
                ops@,
                x@,
                k as int,
                t as int,
            ),
        decreases t + 1 - k,
    {
        if codes[k] == OpCode::Do {
            match &ops[k].name {
                Some(n) => {
                    if is_masked_image_exec(x, n) {
                        return Some(n.clone());
                    }
                },
                None => {},
            }
        }
        k = k + 1;
    }
    None
}

fn first_watermark_form_exec(
    ops: &Vec<ContentOp>,
    codes: &Vec<OpCode>,
    x: &Vec<XObjInfo>,
    low: bool,
    s: usize,
    t: usize,
) -> (r: Option<String>)
    requires
        codes_match(ops@, codes@),
        s <= t < ops.len(),
    ensures
        r == first_watermark_form(ops@, x@, low, s as int, t as int),
{
    let mut k = s;
    while k <= t
        invariant
            codes_match(ops@, codes@),
            s <= k <= t + 1,
            t < ops.len(),
            first_watermark_form(ops@, x@, low, s as int, t as int) == first_watermark_form(
                ops@,
                x@,
                low,
                k as int,
                t as int,
            ),
        decreases t + 1 - k,
    {
        if codes[k] == OpCode::Do {
            match &ops[k].name {
                Some(n) => {
                    if is_watermark_form_exec(x, n, low) {
                        return Some(n.clone());
                    }
                },
                None => {},
            }
        }
        k = k + 1;
    }
    None
}

/// Whether operation `k` is a `gs` below the threshold, below 0.3.
fn gs_flags_at(ops: &Vec<ContentOp>, codes: &Vec<OpCode>, g: &Vec<GsOpacity>, k: usize) -> (r: (
    bool,
    bool,
))
    requires
        codes_match(ops@, codes@),
        k < ops.len(),
    ensures
        r.0 == gs_low_at(ops@, g@, k as int),
        r.1 == gs_trace_at(ops@, g@, k as int),
{
    if codes[k] != OpCode::SetGs {
        return (false, false);
    }
    match &ops[k].name {
        None => (false, false),
        Some(n) => match find_gs_exec(g, n) {
            Some(j) => (g[j].below_threshold, g[j].below_trace),
            None => (false, false),
        },
    }
}

/// What the `q`..`Q` block `s..=t` is taken for, if it is removed.
fn classify_saved_exec(
    ops: &Vec<ContentOp>,
    codes: &Vec<OpCode>,
    x: &Vec<XObjInfo>,
    g: &Vec<GsOpacity>,
    opt: DetectOptions,
    s: usize,
    t: usize,
) -> (r: Option<Finding>)
    requires
        codes_match(ops@, codes@),
        s <= t < ops.len(),
    ensures
        r == classify_saved(ops@, x@, g@, opt, s as int, t as int),
{
    let ghost o = ops@;
    let mut low_found = false;
    let mut trace_found = false;
    let mut text = false;
    let mut bez = false;
    let mut paint = false;
    let mut tm = false;
    let mut cm = false;
    let mut inv = false;
    let mut curves: usize = 0;
    let mut k = s;
    while k <= t
        invariant
            codes_match(ops@, codes@),
            o == ops@,
            s <= k <= t + 1,
            t < ops.len(),
            low_found == exists|j: int| s <= j <= k - 1 && #[trigger] gs_low_at(o, g@, j),
            trace_found == exists|j: int| s <= j <= k - 1 && #[trigger] gs_trace_at(o, g@, j),
            text == has_text_show(o, s as int, k - 1),
            bez == has_bezier(o, s as int, k - 1),
            paint == has_paint(o, s as int, k - 1),
            tm == has_rotated(o, s as int, k - 1, OpCode::TextMatrix),
            cm == has_rotated(o, s as int, k - 1, OpCode::Concat),
            inv == has_invisible(o, s as int, k - 1),
            curves + bezier_count(o, k as int, t as int) == bezier_count(o, s as int, t as int),
            curves <= k - s,
        decreases t + 1 - k,
    {
        let c = codes[k];
        assert(c == code_at(o, k as int));
        let (gl, gt) = gs_flags_at(ops, codes, g, k);
        if gl {
            low_found = true;
        }
        if gt {
            trace_found = true;
        }
        if is_text_show_code(c) {
            text = true;
        }
        if is_bezier_code(c) {
            bez = true;
            curves = curves + 1;
        }
        if is_paint_code(c) {
            paint = true;
        }
        if c == OpCode::TextMatrix && ops[k].rotated {
            assert(rotated_at(o, k as int, OpCode::TextMatrix));
            tm = true;
        }
        if c == OpCode::Concat && ops[k].rotated {
            assert(rotated_at(o, k as int, OpCode::Concat));
            cm = true;
        }
        if c == OpCode::TextRender && ops[k].int_operand == Some(7i64) {
            assert(invisible_at(o, k as int));
            inv = true;
        }
        k = k + 1;
    }
    let low = opt.default_low || low_found;
    let img = first_masked_image_exec(ops, codes, x, s, t);
    let form = first_watermark_form_exec(ops, codes, x, low, s, t);
    if opt.text && text && (low || tm || cm || inv) {
        Some(Finding { kind: FindingKind::SavedText, start: s, end: t, name: None, count: 0, smask: false })
    } else if opt.curve && bez && paint && (low || curves >= 8) {
        Some(Finding { kind: FindingKind::SavedCurve, start: s, end: t, name: None, count: curves, smask: false })
    } else if opt.path && !text && !bez && paint && low {
        Some(Finding { kind: FindingKind::SavedPath, start: s, end: t, name: None, count: 0, smask: false })
    } else if opt.trace && !text && !paint && !bez && low && trace_found {
        Some(Finding { kind: FindingKind::SavedTrace, start: s, end: t, name: None, count: 0, smask: false })
    } else if opt.image && img.is_some() {
        let n = img.unwrap();
        proof {
            lemma_first_masked_image_found(ops@, x@, s as int, t as int);
        }
        let j = find_xobj_exec(x, &n).unwrap();
        let sm = x[j].has_smask;
        Some(Finding { kind: FindingKind::SavedImage, start: s, end: t, name: Some(n), count: 0, smask: sm })
    } else if opt.pattern && form.is_some() {
        Some(Finding { kind: FindingKind::SavedPattern, start: s, end: t, name: form, count: 0, smask: false })
    } else {
        None
    }
}

/// Whether operation `k` lies in one of the blocks `f`.
fn covered_exec(f: &Vec<Finding>, k: usize) -> (r: bool)
    ensures
        r == covered(f@, k as int),
{
    let mut j: usize = 0;
    while j < f.len()
        invariant
            j <= f.len(),
            forall|m: int| 0 <= m < j ==> !((#[trigger] f@[m]).start <= k <= f@[m].end),
        decreases f.len() - j,
    {
        if f[j].start <= k && k <= f[j].end {
            return true;
        }
        j = j + 1;
    }
    false
}

/// The `q`..`Q` watermark blocks, given the marked ones found before.
fn scan_saved(
    ops: &Vec<ContentOp>,
    codes: &Vec<OpCode>,
    x: &Vec<XObjInfo>,
    g: &Vec<GsOpacity>,
    opt: DetectOptions,
    marked: &Vec<Finding>,
) -> (r: Vec<Finding>)
    requires
        codes_match(ops@, codes@),
    ensures
        r@ == saved_findings(ops@, x@, g@, opt, marked@, 0),
{
    let mut found: Vec<Finding> = Vec::new();
    let mut i: usize = 0;
    assert(found@ + saved_findings(ops@, x@, g@, opt, marked@, 0) =~= saved_findings(
        ops@,
        x@,
        g@,
        opt,
        marked@,
        0,
    ));
    while i < ops.len()
        invariant
            codes_match(ops@, codes@),
            i <= ops.len(),
            found@ + saved_findings(ops@, x@, g@, opt, marked@, i as int) == saved_findings(
                ops@,
                x@,
                g@,
                opt,
                marked@,
                0,
            ),
        decreases ops.len() - i,
    {
        let ghost before = found@;
        if codes[i] != OpCode::Save {
            i = i + 1;
        } else {
            let e = saved_end_exec(Ghost(ops@), codes, i + 1);
            proof {
                lemma_saved_end_bounds(ops@, i + 1, 1);
            }
            if covered_exec(marked, i) {
                i = e;
            } else if e - i > 200 {
                i = i + 1;
            } else {
                let f = classify_saved_exec(ops, codes, x, g, opt, i, e - 1);
                match f {
                    Some(v) => {
                        found.push(v);
                    },
                    None => {},
                }
                assert(found@ =~= before + opt_seq(
                    classify_saved(ops@, x@, g@, opt, i as int, e - 1),
                ));
                assert(found@ + saved_findings(ops@, x@, g@, opt, marked@, e as int) =~= before
                    + saved_findings(ops@, x@, g@, opt, marked@, i as int));
                i = e;
            }
        }
    }
    assert(found@ + saved_findings(ops@, x@, g@, opt, marked@, i as int) =~= found@);
    found
}

/// The watermark blocks of a content stream, in the order they are reported:
/// first the marked `/Artifact` watermark blocks (`BDC`..`EMC`), then the
/// `q`..`Q` blocks that look like text, curve, path, trace, image or pattern
/// watermarks.
fn detect_all(ops: &Vec<ContentOp>, x: &Vec<XObjInfo>, g: &Vec<GsOpacity>, opt: DetectOptions) -> (r:
    Vec<Finding>)
    ensures
        r@ == spec_detect(ops@, x@, g@, opt),
{
    let codes = op_codes(ops);
    let mut marked = scan_marked(ops, &codes, x, opt);
    let mut saved = scan_saved(ops, &codes, x, g, opt, &marked);
    marked.append(&mut saved);
    marked
}

/// A string operand of `o`, read as UTF-8 (invalid sequences replaced) and
/// lower-cased, holds one of the keywords.
pub open spec fn op_carries(o: ContentOp, lowered: Seq<Seq<char>>) -> bool {
    exists|m: int|
        0 <= m < o.strings@.len() && has_keyword(
            lowered,
            lowercase_of(utf8_lossy_of(#[trigger] o.strings@[m]@)),
        )
}

/// A block carries one of the keywords: in a string shown inside it, or in
/// the name of the XObject it was found for.
pub open spec fn carries_keyword(f: Finding, ops: Seq<ContentOp>, lowered: Seq<Seq<char>>) -> bool {
    ||| exists|k: int| f.start <= k <= f.end && 0 <= k < ops.len() && op_carries(#[trigger] ops[k], lowered)
    ||| f.name matches Some(n) && has_keyword(lowered, lowercase_of(n@))
}

/// The blocks of `f` that carry one of the keywords, in order.
pub open spec fn keep_carrying(f: Seq<Finding>, ops: Seq<ContentOp>, lowered: Seq<Seq<char>>) -> Seq<Finding>
    decreases f.len(),
{
    if f.len() == 0 {
        Seq::empty()
    } else {
        let p = keep_carrying(f.drop_last(), ops, lowered);
        if carries_keyword(f.last(), ops, lowered) {
            p.push(f.last())
        } else {
            p
        }
    }
}

/// The blocks found with the keywords `keywords`: all of them where none
/// are named; where some are named, only those that carry one.
pub open spec fn spec_detect_with(
    ops: Seq<ContentOp>,
    x: Seq<XObjInfo>,
    g: Seq<GsOpacity>,
    opt: DetectOptions,
    keywords: Seq<String>,
) -> Seq<Finding> {
    if keywords.len() > 0 {
        keep_carrying(spec_detect(ops, x, g, opt), ops, lowered_keywords(keywords))
    } else {
        spec_detect(ops, x, g, opt)
    }
}

fn op_carries_exec(o: &ContentOp, lowered: &Vec<Vec<char>>) -> (r: bool)
    ensures
        r == op_carries(*o, char_seqs(lowered@)),
{
    let mut m: usize = 0;
    while m < o.strings.len()
        invariant
            m <= o.strings@.len(),
            forall|j: int|
                0 <= j < m ==> !has_keyword(
                    char_seqs(lowered@),
                    lowercase_of(utf8_lossy_of(#[trigger] o.strings@[j]@)),
                ),
        decreases o.strings@.len() - m,
    {
        let t = chars_of(to_lowercase(utf8_lossy(o.strings[m].as_slice()).as_str()).as_str());
        if text_has_keyword(lowered, &t) {
            return true;
        }
        m = m + 1;
    }
    false
}

fn carries_keyword_exec(f: &Finding, ops: &Vec<ContentOp>, lowered: &Vec<Vec<char>>) -> (r: bool)
    ensures
        r == carries_keyword(*f, ops@, char_seqs(lowered@)),
{
    let mut k = f.start;
    while k <= f.end && k < ops.len()
        invariant
            f.start <= k,
            forall|j: int|
                f.start <= j < k && 0 <= j < ops@.len() ==> !op_carries(#[trigger] ops@[j], char_seqs(lowered@)),
        decreases ops@.len() - k,
    {
        if op_carries_exec(&ops[k], lowered) {
            return true;
        }
        k = k + 1;
    }
    match &f.name {
        Some(n) => text_has_keyword(lowered, &chars_of(to_lowercase(n.as_str()).as_str())),
        None => false,
    }
}

/// The watermark blocks of a content stream, in the order they are reported:
/// first the marked `/Artifact` watermark blocks (`BDC`..`EMC`), then the
/// `q`..`Q` blocks that look like text, curve, path, trace, image or pattern
/// watermarks. Where keywords are named, only the blocks that carry one of
/// them (any case) are kept.
pub fn detect_watermarks(
    ops: &Vec<ContentOp>,
    x: &Vec<XObjInfo>,
    g: &Vec<GsOpacity>,
    opt: DetectOptions,
    keywords: &[String],
) -> (r: Vec<Finding>)
    ensures
        r@ == spec_detect_with(ops@, x@, g@, opt, keywords@),
{
    let all = detect_all(ops, x, g, opt);
    if keywords.len() == 0 {
        return all;
    }
    let lowered = lower_keywords(keywords);
    let mut kept: Vec<Finding> = Vec::new();
    let mut i: usize = 0;
    while i < all.len()
        invariant
            i <= all@.len(),
            char_seqs(lowered@) == lowered_keywords(keywords@),
            kept@ == keep_carrying(all@.take(i as int), ops@, lowered_keywords(keywords@)),
        decreases all@.len() - i,
    {
        assert(all@.take(i + 1).drop_last() =~= all@.take(i as int));
        if carries_keyword_exec(&all[i], ops, &lowered) {
            let f = &all[i];
            kept.push(Finding { kind: f.kind, start: f.start, end: f.end, name: clone_name(&f.name), count: f.count, smask: f.smask });
        }
        i = i + 1;
    }
    assert(all@.take(all@.len() as int) =~= all@);
    kept
}

/// For each of `n` operations, whether it lies in one of the blocks `f`.
pub fn covered_mask(f: &Vec<Finding>, n: usize) -> (r: Vec<bool>)
    ensures
        r.len() == n,
        forall|k: int| 0 <= k < n ==> r@[k] == covered(f@, k),
{
    let mut r: Vec<bool> = Vec::new();
    let mut k: usize = 0;
    while k < n
        invariant
            k <= n,
            r.len() == k,
            forall|j: int| 0 <= j < k ==> r@[j] == covered(f@, j),
        decreases n - k,
    {
        r.push(covered_exec(f, k));
        k = k + 1;
    }
    r
}

} // verus!
