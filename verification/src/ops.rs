//! Editing and listing the operations of a content stream: which tokens
//! form one operation, which operations a listing shows, which a deletion
//! removes, how an operand typed on the command line reads, and the lines
//! of a hex dump.
use vstd::prelude::*;
use vstd::string::StringSliceAdditionalSpecFns;
use vstd::utf8::encode_utf8;
use crate::chars::{chars_of, eq_str, string_of};
use crate::operators::{ops_for_category, spec_ops_for_category};
use crate::pageops::{parse_i64, parse_i64_chars};

verus! {

/// The operations found among the first `n` tokens (`ops[k]` says whether
/// token `k` is an operator): the closed groups of token indices
/// `[start, end)`, each ending with an operator, and where the open group
/// starts.
pub open spec fn groups_upto(ops: Seq<bool>, n: int) -> (Seq<(int, int)>, int)
    decreases n,
{
    if n <= 0 {
        (Seq::empty(), 0)
    } else {
        let (g, s) = groups_upto(ops, n - 1);
        if ops[n - 1] {
            (g.push((s, n)), n)
        } else {
            (g, s)
        }
    }
}

/// The tokens grouped into operations: each group runs up to and
/// including an operator; tokens after the last operator form a last group.
pub open spec fn op_groups(ops: Seq<bool>) -> Seq<(int, int)> {
    let (g, s) = groups_upto(ops, ops.len() as int);
    if s < ops.len() {
        g.push((s, ops.len() as int))
    } else {
        g
    }
}

/// The index ranges `[start, end)` of the operations, given for each token
/// whether it is an operator.
pub fn group_tokens(is_op: &Vec<bool>) -> (r: Vec<(usize, usize)>)
    ensures
        r@.len() == op_groups(is_op@).len(),
        forall|k: int|
            0 <= k < r@.len() ==> (#[trigger] r@[k]).0 as int == op_groups(is_op@)[k].0 && r@[k].1 as int
                == op_groups(is_op@)[k].1,
{
    let mut out: Vec<(usize, usize)> = Vec::new();
    let mut start: usize = 0;
    let mut i: usize = 0;
    while i < is_op.len()
        invariant
            i <= is_op.len(),
            start <= i,
            groups_upto(is_op@, i as int).1 == start as int,
            out@.len() == groups_upto(is_op@, i as int).0.len(),
            forall|k: int|
                0 <= k < out@.len() ==> (#[trigger] out@[k]).0 as int == groups_upto(is_op@, i as int).0[k].0
                    && out@[k].1 as int == groups_upto(is_op@, i as int).0[k].1,
        decreases is_op.len() - i,
    {
        if is_op[i] {
            out.push((start, i + 1));
            start = i + 1;
        }
        i = i + 1;
    }
    if start < is_op.len() {
        out.push((start, is_op.len()));
    }
    out
}

/// Whether `name` is one of `names`.
pub open spec fn listed_in(names: Seq<Seq<char>>, name: Seq<char>) -> bool {
    exists|k: int| 0 <= k < names.len() && names[k] == name
}

pub open spec fn any_equal(v: Seq<String>, name: Seq<char>) -> bool {
    exists|k: int| 0 <= k < v.len() && (#[trigger] v[k])@ == name
}

fn any_equal_exec(v: &[String], name: &str) -> (r: bool)
    ensures
        r == any_equal(v@, name@),
{
    let mut i: usize = 0;
    while i < v.len()
        invariant
            i <= v@.len(),
            forall|k: int| 0 <= k < i ==> (#[trigger] v@[k])@ != name@,
        decreases v@.len() - i,
    {
        if eq_str(&chars_of(v[i].as_str()), name) {
            return true;
        }
        i = i + 1;
    }
    false
}

fn listed_exec(names: &Vec<&'static str>, name: &str) -> (r: bool)
    ensures
        r == listed_in(crate::operators::str_views(names@), name@),
{
    let n = chars_of(name);
    let mut i: usize = 0;
    while i < names.len()
        invariant
            i <= names@.len(),
            n@ == name@,
            forall|k: int| 0 <= k < i ==> (#[trigger] names@[k])@ != name@,
        decreases names@.len() - i,
    {
        if eq_str(&n, names[i]) {
            assert(crate::operators::str_views(names@)[i as int] == name@);
            return true;
        }
        i = i + 1;
    }
    proof {
        if listed_in(crate::operators::str_views(names@), name@) {
            let k = choose|k: int|
                0 <= k < names@.len() && crate::operators::str_views(names@)[k] == name@;
            assert(names@[k]@ == name@);
        }
    }
    false
}

/// An operation shows in a listing when it belongs to the chosen category
/// (an unknown category lists nothing) and, where operators are named,
/// is one of them.
pub open spec fn spec_op_listed(op: Seq<char>, category: Option<Seq<char>>, filter: Seq<String>) -> bool {
    (match category {
        Some(c) => listed_in(spec_ops_for_category(c), op),
        None => true,
    }) && (filter.len() == 0 || any_equal(filter, op))
}

/// Whether the operation with operator `op` shows in a listing of the
/// given category and operator names.
pub fn op_listed(op: &str, category: Option<&str>, filter: &[String]) -> (r: bool)
    ensures
        r == spec_op_listed(
            op@,
            match category {
                Some(c) => Some(c@),
                None => None,
            },
            filter@,
        ),
{
    let in_cat = match category {
        Some(c) => listed_exec(&ops_for_category(c), op),
        None => true,
    };
    in_cat && (filter.len() == 0 || any_equal_exec(filter, op))
}

/// In the offsets view a category that lists no operator filters nothing.
pub open spec fn spec_op_listed_in_offsets(
    op: Seq<char>,
    category: Option<Seq<char>>,
    filter: Seq<String>,
) -> bool {
    (match category {
        Some(c) => spec_ops_for_category(c).len() == 0 || listed_in(spec_ops_for_category(c), op),
        None => true,
    }) && (filter.len() == 0 || any_equal(filter, op))
}

/// Whether the operation with operator `op` shows in the offsets view.
pub fn op_listed_in_offsets(op: &str, category: Option<&str>, filter: &[String]) -> (r: bool)
    ensures
        r == spec_op_listed_in_offsets(
            op@,
            match category {
                Some(c) => Some(c@),
                None => None,
            },
            filter@,
        ),
{
    let in_cat = match category {
        Some(c) => {
            let allowed = ops_for_category(c);
            allowed.len() == 0 || listed_exec(&allowed, op)
        },
        None => true,
    };
    in_cat && (filter.len() == 0 || any_equal_exec(filter, op))
}

/// Why a deletion range was refused.
#[derive(Debug, Clone, Copy, PartialEq, Eq)]
pub enum DeleteRangeError {
    /// Fewer than two values were given.
    TooFew,
    /// The start lies after the end.
    Reversed { start: usize, end: usize },
    /// The end lies at or past the number of operations.
    PastEnd { end: usize, total: usize },
}

/// The range `start..=end` given as the first two values.
pub open spec fn spec_delete_range(range: Seq<usize>) -> Result<(usize, usize), DeleteRangeError> {
    if range.len() < 2 {
        Err(DeleteRangeError::TooFew)
    } else if range[0] > range[1] {
        Err(DeleteRangeError::Reversed { start: range[0], end: range[1] })
    } else {
        Ok((range[0], range[1]))
    }
}

/// The range of a deletion, from its first two values.
pub fn check_delete_range(range: &Vec<usize>) -> (r: Result<(usize, usize), DeleteRangeError>)
    ensures
        r == spec_delete_range(range@),
{
    if range.len() < 2 {
        return Err(DeleteRangeError::TooFew);
    }
    let (rs, re) = (range[0], range[1]);
    if rs > re {
        return Err(DeleteRangeError::Reversed { start: rs, end: re });
    }
    Ok((rs, re))
}

/// Operation `i` stays: it lies outside `start..=end` or is spared.
pub open spec fn op_kept(i: int, start: usize, end: usize, skip: Seq<usize>) -> bool {
    !(start <= i <= end && !skip.contains(i as usize))
}

/// For each of the `total` operations, whether it stays after deleting
/// `start..=end` except the indices in `skip`; `PastEnd` where `end` is not
/// below `total`.
pub fn delete_mask(total: usize, start: usize, end: usize, skip: &Vec<usize>) -> (r: Result<
    Vec<bool>,
    DeleteRangeError,
>)
    ensures
        end >= total ==> r == Err::<Vec<bool>, DeleteRangeError>(
            DeleteRangeError::PastEnd { end, total },
        ),
        end < total ==> (r matches Ok(v) && v@.len() == total && forall|i: int|
            0 <= i < total ==> v@[i] == op_kept(i, start, end, skip@)),
{
    if end >= total {
        return Err(DeleteRangeError::PastEnd { end, total });
    }
    let mut keep: Vec<bool> = Vec::new();
    let mut i: usize = 0;
    while i < total
        invariant
            i <= total,
            keep@.len() == i,
            forall|k: int| 0 <= k < i ==> keep@[k] == op_kept(k, start, end, skip@),
        decreases total - i,
    {
        let mut spared = false;
        let mut k: usize = 0;
        while k < skip.len()
            invariant
                k <= skip.len(),
                spared == exists|j: int| 0 <= j < k && skip@[j] == i,
            decreases skip.len() - k,
        {
            if skip[k] == i {
                spared = true;
            }
            k = k + 1;
        }
        assert(spared == skip@.contains(i));
        keep.push(!(start <= i && i <= end && !spared));
        i = i + 1;
    }
    Ok(keep)
}

/// Where an inserted operation goes: at `index`, or at the end where
/// `index` lies past it.
pub fn insert_position(index: usize, total: usize) -> (r: usize)
    ensures
        r == if index < total {
            index
        } else {
            total
        },
{
    if index < total {
        index
    } else {
        total
    }
}

/// An operand typed on the command line, as far as it reads without
/// floating point.
#[derive(Debug, Clone, PartialEq, Eq)]
pub enum PlainOperand {
    /// `/Name`: the bytes after the slash.
    Name(Vec<u8>),
    /// `true` or `false`.
    Boolean(bool),
    /// `null`.
    Null,
    /// A number that parses as an `i64`.
    Integer(i64),
    /// Anything else: a real number or a string.
    Other,
}

/// How an operand that does not begin with `/` reads: `true`, `false`,
/// `null`; an `i64`; else something else.
pub open spec fn spec_plain_operand(s: Seq<char>) -> PlainOperand {
    if s == "true"@ {
        PlainOperand::Boolean(true)
    } else if s == "false"@ {
        PlainOperand::Boolean(false)
    } else if s == "null"@ {
        PlainOperand::Null
    } else {
        match parse_i64(s) {
            Some(n) => PlainOperand::Integer(n as i64),
            None => PlainOperand::Other,
        }
    }
}

/// How a command-line operand reads, except for real numbers and strings
/// (`Other`), which need floating point. A name holds the UTF-8 bytes of
/// what follows the slash.
pub fn parse_operand_plain(s: &str) -> (r: PlainOperand)
    ensures
        s@.len() > 0 && s@[0] == '/' ==> (r matches PlainOperand::Name(b) && b@ == encode_utf8(
            s@.skip(1),
        )),
        !(s@.len() > 0 && s@[0] == '/') ==> r == spec_plain_operand(s@),
{
    let v = chars_of(s);
    if v.len() > 0 && v[0] == '/' {
        let mut rest: Vec<char> = Vec::new();
        let mut i: usize = 1;
        while i < v.len()
            invariant
                1 <= i <= v@.len(),
                rest@ == v@.subrange(1, i as int),
            decreases v@.len() - i,
        {
            rest.push(v[i]);
            i = i + 1;
            assert(rest@ =~= v@.subrange(1, i as int));
        }
        assert(rest@ =~= s@.skip(1));
        let text = string_of(&rest);
        let bytes = text.as_str().as_bytes();
        let mut name: Vec<u8> = Vec::new();
        let mut k: usize = 0;
        while k < bytes.len()
            invariant
                k <= bytes@.len(),
                name@ == bytes@.take(k as int),
            decreases bytes@.len() - k,
        {
            name.push(bytes[k]);
            k = k + 1;
            assert(name@ =~= bytes@.take(k as int));
        }
        assert(bytes@.take(bytes@.len() as int) =~= bytes@);
        return PlainOperand::Name(name);
    }
    if eq_str(&v, "true") {
        return PlainOperand::Boolean(true);
    }
    if eq_str(&v, "false") {
        return PlainOperand::Boolean(false);
    }
    if eq_str(&v, "null") {
        return PlainOperand::Null;
    }
    match parse_i64_chars(&v) {
        Some(n) => PlainOperand::Integer(n),
        None => PlainOperand::Other,
    }
}

/// The text between a leading `(` and a trailing `)`; the text itself
/// without them.
pub open spec fn spec_strip_parens(s: Seq<char>) -> Seq<char> {
    if s.len() >= 2 && s[0] == '(' && s.last() == ')' {
        s.subrange(1, s.len() - 1)
    } else {
        s
    }
}

/// A string operand typed on the command line: without its parentheses
/// where it has both.
pub fn strip_parens(s: &str) -> (r: String)
    ensures
        r@ == spec_strip_parens(s@),
{
    let v = chars_of(s);
    if v.len() >= 2 && v[0] == '(' && v[v.len() - 1] == ')' {
        let mut out: Vec<char> = Vec::new();
        let mut i: usize = 1;
        while i < v.len() - 1
            invariant
                1 <= i <= v.len() - 1,
                v.len() >= 2,
                out@ == v@.subrange(1, i as int),
            decreases v.len() - 1 - i,
        {
            out.push(v[i]);
            i = i + 1;
            assert(out@ =~= v@.subrange(1, i as int));
        }
        string_of(&out)
    } else {
        string_of(&v)
    }
}

/// A dictionary value typed on the command line, as far as it reads
/// without floating point.
#[derive(Debug, Clone, PartialEq, Eq)]
pub enum PlainValue {
    Null,
    Boolean(bool),
    /// `/Name`: the UTF-8 bytes after the slash.
    Name(Vec<u8>),
    /// `"text"`: the UTF-8 bytes between the quotes.
    Text(Vec<u8>),
    Integer(i64),
    /// Anything else: a real number, or no value at all.
    Other,
}

/// How a value reads that is neither a name nor a quoted text: `null`,
/// `true`, `false`, an `i64`, or something else.
pub open spec fn spec_plain_value(s: Seq<char>) -> PlainValue {
    if s == "null"@ {
        PlainValue::Null
    } else if s == "true"@ {
        PlainValue::Boolean(true)
    } else if s == "false"@ {
        PlainValue::Boolean(false)
    } else {
        match parse_i64(s) {
            Some(n) => PlainValue::Integer(n as i64),
            None => PlainValue::Other,
        }
    }
}

/// A quoted text: two characters or more, the first and last `"`.
pub open spec fn is_quoted(s: Seq<char>) -> bool {
    s.len() >= 2 && s[0] == '"' && s.last() == '"'
}

fn utf8_bytes_of(v: &Vec<char>, a: usize, b: usize) -> (r: Vec<u8>)
    requires
        a <= b <= v.len(),
    ensures
        r@ == encode_utf8(v@.subrange(a as int, b as int)),
{
    let mut part: Vec<char> = Vec::new();
    let mut i = a;
    while i < b
        invariant
            a <= i <= b <= v.len(),
            part@ == v@.subrange(a as int, i as int),
        decreases b - i,
    {
        part.push(v[i]);
        i = i + 1;
        assert(part@ =~= v@.subrange(a as int, i as int));
    }
    let text = string_of(&part);
    let bytes = text.as_str().as_bytes();
    let mut out: Vec<u8> = Vec::new();
    let mut k: usize = 0;
    while k < bytes.len()
        invariant
            k <= bytes@.len(),
            out@ == bytes@.take(k as int),
        decreases bytes@.len() - k,
    {
        out.push(bytes[k]);
        k = k + 1;
        assert(out@ =~= bytes@.take(k as int));
    }
    assert(bytes@.take(bytes@.len() as int) =~= bytes@);
    out
}

/// How a value given to set a dictionary entry reads: `null`, `true`,
/// `false`, then `/Name`, then `"text"`, then an `i64`; `Other` for the
/// rest (a real number, or nothing that parses).
pub fn parse_value_plain(s: &str) -> (r: PlainValue)
    ensures
        !(s@ == "null"@ || s@ == "true"@ || s@ == "false"@) && s@.len() > 0 && s@[0] == '/' ==> (r
            matches PlainValue::Name(b) && b@ == encode_utf8(s@.skip(1))),
        !(s@ == "null"@ || s@ == "true"@ || s@ == "false"@) && !(s@.len() > 0 && s@[0] == '/')
            && is_quoted(s@) ==> (r matches PlainValue::Text(b) && b@ == encode_utf8(
            s@.subrange(1, s@.len() - 1),
        )),
        (s@ == "null"@ || s@ == "true"@ || s@ == "false"@) || (!(s@.len() > 0 && s@[0] == '/')
            && !is_quoted(s@)) ==> r == spec_plain_value(s@),
{
    let v = chars_of(s);
    if eq_str(&v, "null") {
        return PlainValue::Null;
    }
    if eq_str(&v, "true") {
        return PlainValue::Boolean(true);
    }
    if eq_str(&v, "false") {
        return PlainValue::Boolean(false);
    }
    if v.len() > 0 && v[0] == '/' {
        assert(v@.subrange(1, v@.len() as int) =~= s@.skip(1));
        return PlainValue::Name(utf8_bytes_of(&v, 1, v.len()));
    }
    if v.len() >= 2 && v[0] == '"' && v[v.len() - 1] == '"' {
        return PlainValue::Text(utf8_bytes_of(&v, 1, v.len() - 1));
    }
    match parse_i64_chars(&v) {
        Some(n) => PlainValue::Integer(n),
        None => PlainValue::Other,
    }
}

/// The uppercase hexadecimal digit of `d` (below 16).
pub open spec fn hex_upper(d: nat) -> char {
    if d < 10 {
        (('0' as nat) + d) as char
    } else {
        (('A' as nat) + d - 10) as char
    }
}

/// The uppercase hexadecimal digits of `n`, without leading zeros (`0`
/// for zero).
pub open spec fn hex_digits(n: nat) -> Seq<char>
    decreases n,
{
    if n < 16 {
        seq![hex_upper(n)]
    } else {
        hex_digits(n / 16).push(hex_upper(n % 16))
    }
}

/// `s` with `c` in front until it is `w` characters long.
pub open spec fn pad_left(s: Seq<char>, c: char, w: nat) -> Seq<char> {
    if s.len() >= w {
        s
    } else {
        Seq::new((w - s.len()) as nat, |_i: int| c) + s
    }
}

/// `s` with spaces after it until it is `w` characters long.
pub open spec fn pad_right(s: Seq<char>, w: nat) -> Seq<char> {
    if s.len() >= w {
        s
    } else {
        s + Seq::new((w - s.len()) as nat, |_i: int| ' ')
    }
}

/// The bytes as two uppercase hexadecimal digits each, a space between
/// each two bytes.
pub open spec fn hex_column(b: Seq<u8>) -> Seq<char>
    decreases b.len(),
{
    if b.len() == 0 {
        Seq::empty()
    } else if b.len() == 1 {
        pad_left(hex_digits(b[0] as nat), '0', 2)
    } else {
        hex_column(b.drop_last()) + seq![' '] + pad_left(hex_digits(b.last() as nat), '0', 2)
    }
}

/// The bytes as characters, `.` for each byte that is no printable ASCII.
pub open spec fn ascii_column(b: Seq<u8>) -> Seq<char> {
    b.map_values(|x: u8| if 32 <= x <= 126 {
        (x as u32) as char
    } else {
        '.'
    })
}

/// One line of a hex dump: the offset as at least eight uppercase
/// hexadecimal digits, the bytes in hexadecimal (padded to 47 columns),
/// and the bytes as text.
pub open spec fn spec_hex_dump_line(offset: nat, b: Seq<u8>) -> Seq<char> {
    pad_left(hex_digits(offset), '0', 8) + "   | "@ + pad_right(hex_column(b), 47) + " | "@
        + ascii_column(b)
}

fn hex_upper_exec(d: u8) -> (c: char)
    requires
        d < 16,
    ensures
        c == hex_upper(d as nat),
{
    if d < 10 {
        ((48 + d) as char)
    } else {
        ((55 + d) as char)
    }
}

fn hex_digits_exec(n: usize) -> (r: Vec<char>)
    ensures
        r@ == hex_digits(n as nat),
    decreases n,
{
    if n < 16 {
        let mut v: Vec<char> = Vec::new();
        v.push(hex_upper_exec(n as u8));
        assert(v@ =~= seq![hex_upper(n as nat)]);
        v
    } else {
        let mut v = hex_digits_exec(n / 16);
        v.push(hex_upper_exec((n % 16) as u8));
        v
    }
}

fn pad_left_exec(s: Vec<char>, c: char, w: usize) -> (r: Vec<char>)
    ensures
        r@ == pad_left(s@, c, w as nat),
{
    if s.len() >= w {
        return s;
    }
    let mut out: Vec<char> = Vec::new();
    let k = w - s.len();
    let mut i: usize = 0;
    while i < k
        invariant
            i <= k,
            out@ == Seq::new(i as nat, |_i: int| c),
        decreases k - i,
    {
        out.push(c);
        i = i + 1;
        assert(out@ =~= Seq::new(i as nat, |_i: int| c));
    }
    let mut s2 = s;
    let ghost sv = s2@;
    out.append(&mut s2);
    assert(out@ =~= pad_left(sv, c, w as nat));
    out
}

/// One line of a hex dump of the bytes `b` found at `offset`: as
/// `format!("{:08X}   | {:<47} | {}", ..)` writes it.
pub fn hex_dump_line(offset: usize, b: &[u8]) -> (r: String)
    ensures
        r@ == spec_hex_dump_line(offset as nat, b@),
{
    let mut out = pad_left_exec(hex_digits_exec(offset), '0', 8);
    let ghost head = out@;
    out.push(' ');
    out.push(' ');
    out.push(' ');
    out.push('|');
    out.push(' ');
    proof {
        reveal_strlit("   | ");
        reveal_strlit(" | ");
    }
    assert(out@ =~= head + "   | "@);
    let ghost before_hex = out@;
    let mut col: Vec<char> = Vec::new();
    let mut i: usize = 0;
    while i < b.len()
        invariant
            i <= b.len(),
            col@ == hex_column(b@.take(i as int)),
        decreases b.len() - i,
    {
        assert(b@.take(i + 1).drop_last() =~= b@.take(i as int));
        let pair = pad_left_exec(hex_digits_exec(b[i] as usize), '0', 2);
        if i > 0 {
            col.push(' ');
        }
        let mut p = pair;
        let ghost pv = p@;
        let ghost cv = col@;
        col.append(&mut p);
        assert(col@ =~= cv + pv);
        i = i + 1;
    }
    assert(b@.take(b.len() as int) =~= b@);
    let ghost hc = col@;
    let mut k = col.len();
    while k < 47
        invariant
            hc.len() <= k <= 47 || (k == hc.len() && hc.len() >= 47),
            col@ == hc + Seq::new((k - hc.len()) as nat, |_i: int| ' '),
        decreases 47 - k,
    {
        col.push(' ');
        k = k + 1;
        assert(col@ =~= hc + Seq::new((k - hc.len()) as nat, |_i: int| ' '));
    }
    assert(col@ =~= pad_right(hc, 47));
    let ghost padded = col@;
    out.append(&mut col);
    out.push(' ');
    out.push('|');
    out.push(' ');
    let ghost mid = out@;
    assert(mid =~= before_hex + padded + " | "@);
    let mut j: usize = 0;
    while j < b.len()
        invariant
            j <= b.len(),
            out@ == mid + ascii_column(b@.take(j as int)),
        decreases b.len() - j,
    {
        let x = b[j];
        if 32 <= x && x <= 126 {
            out.push(x as char);
        } else {
            out.push('.');
        }
        j = j + 1;
        assert(out@ =~= mid + ascii_column(b@.take(j as int)));
    }
    assert(b@.take(b.len() as int) =~= b@);
    string_of(&out)
}

/// Why an operation cannot be patched.
#[derive(Debug, Clone, PartialEq, Eq)]
pub enum PatchError {
    /// The index is past the last of this many operations.
    OutOfRange(usize),
    /// The operation at the index has this operator, not the one named.
    OperatorMismatch(String),
}

/// The checks before an operation is patched: the index must name one of
/// the operations (whose operators are `operators`), and where an operator
/// is named it must be the one there.
pub fn check_patch_target(operators: &Vec<String>, index: usize, expected: &Option<String>) -> (r:
    Result<(), PatchError>)
    ensures
        index >= operators@.len() ==> (r matches Err(PatchError::OutOfRange(t)) && t
            == operators@.len()),
        index < operators@.len() && expected is Some && operators@[index as int]@ != expected->0@
            ==> (r matches Err(PatchError::OperatorMismatch(a)) && a@
            == operators@[index as int]@),
        index < operators@.len() && (expected is None || operators@[index as int]@
            == expected->0@) ==> r is Ok,
{
    if index >= operators.len() {
        return Err(PatchError::OutOfRange(operators.len()));
    }
    match expected {
        Some(e) => {
            let actual = chars_of(operators[index].as_str());
            if !eq_str(&actual, e.as_str()) {
                return Err(PatchError::OperatorMismatch(string_of(&actual)));
            }
            Ok(())
        },
        None => Ok(()),
    }
}

} // verus!
