//! Byte-level tokenizer for PDF content streams.
use vstd::prelude::*;

verus! {

/// PDF white-space bytes: space, tab, CR, LF, form feed and NUL.
pub open spec fn is_space(b: u8) -> bool {
    b == 32 || b == 9 || b == 13 || b == 10 || b == 12 || b == 0
}

/// Bytes that end a bare token: white space and the PDF delimiters
/// `( ) < > [ ] { } %`.
pub open spec fn is_delimiter(b: u8) -> bool {
    is_space(b) || b == 40 || b == 41 || b == 60 || b == 62 || b == 91 || b == 93 || b == 123
        || b == 125 || b == 37
}

/// The position reached from `i` after skipping white space and `%` comments.
/// `in_comment` says that a comment is open; it runs up to (not including)
/// the next CR or LF.
pub open spec fn skip_filler(d: Seq<u8>, i: int, in_comment: bool) -> int
    decreases d.len() - i, if in_comment { 1int } else { 0int },
{
    if i < 0 || i >= d.len() {
        i
    } else if in_comment {
        if d[i] != 10 && d[i] != 13 {
            skip_filler(d, i + 1, true)
        } else {
            skip_filler(d, i, false)
        }
    } else if is_space(d[i]) {
        skip_filler(d, i + 1, false)
    } else if d[i] == 37 {
        skip_filler(d, i + 1, true)
    } else {
        i
    }
}

/// End of a literal string whose body starts at `i`, with `depth` open
/// parentheses; a backslash escapes the byte after it.
pub open spec fn string_end(d: Seq<u8>, i: int, depth: nat) -> int
    decreases d.len() - i,
{
    if i < 0 || i >= d.len() || depth == 0 {
        i
    } else if d[i] == 92 {
        if i + 1 < d.len() {
            string_end(d, i + 2, depth)
        } else {
            i + 1
        }
    } else if d[i] == 40 {
        string_end(d, i + 1, depth + 1)
    } else if d[i] == 41 {
        string_end(d, i + 1, (depth - 1) as nat)
    } else {
        string_end(d, i + 1, depth)
    }
}

/// End of a dictionary whose body starts at `i`, with `depth` open `<<`.
pub open spec fn dict_end(d: Seq<u8>, i: int, depth: nat) -> int
    decreases d.len() - i,
{
    if i < 0 || i + 1 >= d.len() || depth == 0 {
        i
    } else if d[i] == 60 && d[i + 1] == 60 {
        dict_end(d, i + 2, depth + 1)
    } else if d[i] == 62 && d[i + 1] == 62 {
        dict_end(d, i + 2, (depth - 1) as nat)
    } else {
        dict_end(d, i + 1, depth)
    }
}

/// Closing `m` open dictionaries and then `n` more is closing `m + n`: every
/// nested dictionary closes with its own `>>`.
pub proof fn lemma_dict_end_compose(d: Seq<u8>, j: int, m: nat, n: nat)
    requires
        m >= 1,
    ensures
        dict_end(d, j, m + n) == dict_end(d, dict_end(d, j, m), n),
    decreases d.len() - j,
{
    if j < 0 || j + 1 >= d.len() {
    } else if d[j] == 60 && d[j + 1] == 60 {
        lemma_dict_end_compose(d, j + 2, m + 1, n);
        assert(m + 1 + n == m + n + 1);
    } else if d[j] == 62 && d[j + 1] == 62 {
        if m > 1 {
            lemma_dict_end_compose(d, j + 2, (m - 1) as nat, n);
            assert((m - 1) as nat + n == (m + n - 1) as nat);
        }
    } else {
        lemma_dict_end_compose(d, j + 1, m, n);
    }
}

/// Bytes other than `<` and `>` inside a dictionary are passed over.
proof fn lemma_dict_end_skip(d: Seq<u8>, j: int, k: int, m: nat)
    requires
        0 <= j,
        0 <= k,
        m >= 1,
        j + k + 1 < d.len(),
        forall|i: int| j <= i < j + k ==> d[i] != 60 && d[i] != 62,
    ensures
        dict_end(d, j, m) == dict_end(d, j + k, m),
    decreases k,
{
    if k > 0 {
        lemma_dict_end_skip(d, j + 1, k - 1, m);
    }
}

/// A dictionary token that holds a nested dictionary: where the first `<`
/// or `>` inside the outer `<<` opens a nested `<<` (at `s + 2 + k`), the
/// token runs past the nested dictionary's own `>>` and on to the `>>` that
/// closes the outer one; in particular a `>>` closes the outer dictionary
/// only once every nested one is closed.
pub proof fn lemma_nested_dictionary(d: Seq<u8>, s: int, k: int)
    requires
        0 <= s,
        0 <= k,
        s + 4 + k <= d.len(),
        d[s] == 60,
        d[s + 1] == 60,
        d[s + 2 + k] == 60,
        d[s + 3 + k] == 60,
        forall|i: int| s + 2 <= i < s + 2 + k ==> d[i] != 60 && d[i] != 62,
    ensures
        token_end(d, s) == dict_end(d, dict_end(d, s + 4 + k, 1), 1),
        token_end(d, s) == dict_end(d, s + 4 + k, 2),
{
    lemma_dict_end_skip(d, s + 2, k, 1);
    lemma_dict_end_compose(d, s + 4 + k, 1, 1);
}

/// Position of the first `>` at or after `i` (or the end of the data).
pub open spec fn hex_close(d: Seq<u8>, i: int) -> int
    decreases d.len() - i,
{
    if 0 <= i < d.len() && d[i] != 62 {
        hex_close(d, i + 1)
    } else {
        i
    }
}

/// End of an array whose body starts at `i`, with `depth` open `[`; literal
/// strings inside it are skipped as a whole.
pub open spec fn array_end(d: Seq<u8>, i: int, depth: nat) -> int
    decreases d.len() - i,
{
    if i < 0 || i >= d.len() || depth == 0 {
        i
    } else if d[i] == 91 {
        array_end(d, i + 1, depth + 1)
    } else if d[i] == 93 {
        array_end(d, i + 1, (depth - 1) as nat)
    } else if d[i] == 40 {
        proof {
            lemma_string_end_bounds(d, i + 1, 1);
        }
        array_end(d, string_end(d, i + 1, 1), depth)
    } else {
        array_end(d, i + 1, depth)
    }
}

/// End of a bare token (number, name, operator, ...) starting at `i`.
pub open spec fn bare_end(d: Seq<u8>, i: int) -> int
    decreases d.len() - i,
{
    if 0 <= i < d.len() && !is_delimiter(d[i]) {
        bare_end(d, i + 1)
    } else {
        i
    }
}

/// End of the token that starts at `s`.
pub open spec fn token_end(d: Seq<u8>, s: int) -> int {
    if d[s] == 40 {
        string_end(d, s + 1, 1)
    } else if d[s] == 60 && s + 1 < d.len() && d[s + 1] == 60 {
        dict_end(d, s + 2, 1)
    } else if d[s] == 60 {
        let c = hex_close(d, s + 1);
        if c < d.len() {
            c + 1
        } else {
            c
        }
    } else if d[s] == 91 {
        array_end(d, s + 1, 1)
    } else {
        bare_end(d, s)
    }
}

/// The token spans `(start, end)` of `d` from position `i` on, or `None`
/// where scanning stalls: a token would start at a `)`, `>`, `]`, `{` or `}`,
/// which no token kind consumes.
pub open spec fn scan_tokens(d: Seq<u8>, i: int) -> Option<Seq<(int, int)>>
    decreases d.len() - i,
{
    if i < 0 || i > d.len() {
        None
    } else {
        let s = skip_filler(d, i, false);
        proof {
            lemma_skip_filler_bounds(d, i, false);
        }
        if s >= d.len() {
            Some(Seq::empty())
        } else {
            let e = token_end(d, s);
            if e <= s || e > d.len() {
                None
            } else {
                match scan_tokens(d, e) {
                    Some(rest) => Some(seq![(s, e)] + rest),
                    None => None,
                }
            }
        }
    }
}

pub proof fn lemma_skip_filler_bounds(d: Seq<u8>, i: int, c: bool)
    requires
        0 <= i <= d.len(),
    ensures
        i <= skip_filler(d, i, c) <= d.len(),
        skip_filler(d, i, c) < d.len() ==> !is_space(d[skip_filler(d, i, c)]) && d[skip_filler(d, i, c)] != 37,
    decreases d.len() - i, if c { 1int } else { 0int },
{
    if i < d.len() {
        if c {
            if d[i] != 10 && d[i] != 13 {
                lemma_skip_filler_bounds(d, i + 1, true);
            } else {
                lemma_skip_filler_bounds(d, i, false);
            }
        } else if is_space(d[i]) {
            lemma_skip_filler_bounds(d, i + 1, false);
        } else if d[i] == 37 {
            lemma_skip_filler_bounds(d, i + 1, true);
        }
    }
}

pub proof fn lemma_string_end_bounds(d: Seq<u8>, i: int, depth: nat)
    requires
        0 <= i <= d.len(),
    ensures
        i <= string_end(d, i, depth) <= d.len(),
    decreases d.len() - i,
{
    if i < d.len() && depth != 0 {
        if d[i] == 92 {
            if i + 1 < d.len() {
                lemma_string_end_bounds(d, i + 2, depth);
            }
        } else if d[i] == 40 {
            lemma_string_end_bounds(d, i + 1, depth + 1);
        } else if d[i] == 41 {
            lemma_string_end_bounds(d, i + 1, (depth - 1) as nat);
        } else {
            lemma_string_end_bounds(d, i + 1, depth);
        }
    }
}


fn is_space_byte(b: u8) -> (r: bool)
    ensures
        r == is_space(b),
{
    b == 32 || b == 9 || b == 13 || b == 10 || b == 12 || b == 0
}

fn is_delimiter_byte(b: u8) -> (r: bool)
    ensures
        r == is_delimiter(b),
{
    is_space_byte(b) || b == 40 || b == 41 || b == 60 || b == 62 || b == 91 || b == 93 || b == 123
        || b == 125 || b == 37
}

fn skip_filler_exec(d: &[u8], i0: usize) -> (r: usize)
    requires
        i0 <= d.len(),
    ensures
        r == skip_filler(d@, i0 as int, false),
{
    let ghost target = skip_filler(d@, i0 as int, false);
    let mut i = i0;
    loop
        invariant
            i <= d.len(),
            skip_filler(d@, i as int, false) == target,
        ensures
            i == target,
        decreases d.len() - i,
    {
        let ghost i_start = i;
        while i < d.len() && is_space_byte(d[i])
            invariant
                i_start <= i <= d.len(),
                skip_filler(d@, i as int, false) == target,
            decreases d.len() - i,
        {
            i = i + 1;
        }
        if i < d.len() && d[i] == 37 {
            i = i + 1;
            while i < d.len() && d[i] != 10 && d[i] != 13
                invariant
                    i_start < i <= d.len(),
                    skip_filler(d@, i as int, true) == target,
                decreases d.len() - i,
            {
                i = i + 1;
            }
        } else {
            break;
        }
    }
    i
}

fn string_end_exec(d: &[u8], i0: usize) -> (r: usize)
    requires
        1 <= i0 <= d.len(),
    ensures
        r == string_end(d@, i0 as int, 1),
{
    let mut i = i0;
    let mut depth: usize = 1;
    while i < d.len() && depth > 0
        invariant
            1 <= i0 <= i <= d.len(),
            depth <= i - i0 + 1,
            string_end(d@, i as int, depth as nat) == string_end(d@, i0 as int, 1),
        decreases d.len() - i,
    {
        if d[i] == 92 {
            if i + 1 < d.len() {
                i = i + 2;
            } else {
                i = i + 1;
            }
        } else if d[i] == 40 {
            depth = depth + 1;
            i = i + 1;
        } else if d[i] == 41 {
            depth = depth - 1;
            i = i + 1;
        } else {
            i = i + 1;
        }
    }
    i
}

fn dict_end_exec(d: &[u8], i0: usize) -> (r: usize)
    requires
        2 <= i0 <= d.len(),
    ensures
        r == dict_end(d@, i0 as int, 1),
{
    let mut i = i0;
    let mut depth: usize = 1;
    while d.len() - i > 1 && depth > 0
        invariant
            2 <= i0 <= i <= d.len(),
            depth <= i - i0 + 1,
            dict_end(d@, i as int, depth as nat) == dict_end(d@, i0 as int, 1),
        decreases d.len() - i,
    {
        if d[i] == 60 && d[i + 1] == 60 {
            depth = depth + 1;
            i = i + 2;
        } else if d[i] == 62 && d[i + 1] == 62 {
            depth = depth - 1;
            i = i + 2;
        } else {
            i = i + 1;
        }
    }
    i
}

fn hex_close_exec(d: &[u8], i0: usize) -> (r: usize)
    requires
        i0 <= d.len(),
    ensures
        r == hex_close(d@, i0 as int),
        i0 <= r <= d.len(),
{
    let mut i = i0;
    while i < d.len() && d[i] != 62
        invariant
            i0 <= i <= d.len(),
            hex_close(d@, i as int) == hex_close(d@, i0 as int),
        decreases d.len() - i,
    {
        i = i + 1;
    }
    i
}

fn array_end_exec(d: &[u8], i0: usize) -> (r: usize)
    requires
        1 <= i0 <= d.len(),
    ensures
        r == array_end(d@, i0 as int, 1),
{
    let mut i = i0;
    let mut depth: usize = 1;
    while i < d.len() && depth > 0
        invariant
            1 <= i0 <= i <= d.len(),
            depth <= i - i0 + 1,
            array_end(d@, i as int, depth as nat) == array_end(d@, i0 as int, 1),
        decreases d.len() - i,
    {
        if d[i] == 91 {
            depth = depth + 1;
            i = i + 1;
        } else if d[i] == 93 {
            depth = depth - 1;
            i = i + 1;
        } else if d[i] == 40 {
            proof {
                lemma_string_end_bounds(d@, i + 1, 1);
            }
            i = string_end_exec(d, i + 1);
        } else {
            i = i + 1;
        }
    }
    i
}

fn bare_end_exec(d: &[u8], i0: usize) -> (r: usize)
    requires
        i0 <= d.len(),
    ensures
        r == bare_end(d@, i0 as int),
        i0 <= r <= d.len(),
{
    let mut i = i0;
    while i < d.len() && !is_delimiter_byte(d[i])
        invariant
            i0 <= i <= d.len(),
            bare_end(d@, i as int) == bare_end(d@, i0 as int),
        decreases d.len() - i,
    {
        i = i + 1;
    }
    i
}

fn token_end_exec(d: &[u8], s: usize) -> (r: usize)
    requires
        s < d.len(),
    ensures
        r == token_end(d@, s as int),
{
    if d[s] == 40 {
        string_end_exec(d, s + 1)
    } else if d[s] == 60 && s + 1 < d.len() && d[s + 1] == 60 {
        dict_end_exec(d, s + 2)
    } else if d[s] == 60 {
        let c = hex_close_exec(d, s + 1);
        if c < d.len() {
            c + 1
        } else {
            c
        }
    } else if d[s] == 91 {
        array_end_exec(d, s + 1)
    } else {
        bare_end_exec(d, s)
    }
}


/// The `(start, end)` spans of a token list.
pub open spec fn token_spans(v: Seq<(usize, usize, Vec<u8>)>) -> Seq<(int, int)> {
    Seq::new(v.len(), |k: int| (v[k].0 as int, v[k].1 as int))
}

/// `prefix` followed by the tokens of `rest`, or `None` where `rest` is.
pub open spec fn prepend_spans(prefix: Seq<(int, int)>, rest: Option<Seq<(int, int)>>) -> Option<
    Seq<(int, int)>,
> {
    match rest {
        Some(r) => Some(prefix + r),
        None => None,
    }
}

/// The bytes `d[s..e]`.
fn copy_range(d: &[u8], s: usize, e: usize) -> (v: Vec<u8>)
    requires
        s <= e <= d.len(),
    ensures
        v@ == d@.subrange(s as int, e as int),
{
    let mut v: Vec<u8> = Vec::new();
    let mut k = s;
    while k < e
        invariant
            s <= k <= e <= d.len(),
            v@ == d@.subrange(s as int, k as int),
        decreases e - k,
    {
        v.push(d[k]);
        k = k + 1;
        assert(v@ =~= d@.subrange(s as int, k as int));
    }
    v
}

/// Splits a content stream into tokens `(start, end, bytes)`, skipping white
/// space and `%` comments. Literal strings `( .. )`, dictionaries `<< .. >>`,
/// hex strings `< .. >` and arrays `[ .. ]` are single tokens, nesting
/// included; any other token runs up to the next delimiter.
///
/// Scanning cannot go on where a token would start at a byte that no token
/// kind consumes (`)`, `>`, `]`, `{` or `}`); the result is then `None`.
pub fn tokenize_stream(data: &[u8]) -> (res: Option<Vec<(usize, usize, Vec<u8>)>>)
    ensures
        res is Some <==> scan_tokens(data@, 0) is Some,
        res is Some ==> token_spans(res->0@) == scan_tokens(data@, 0)->0,
        res is Some ==> forall|k: int|
            0 <= k < res->0.len() ==> (#[trigger] res->0@[k]).2@ == data@.subrange(
                res->0@[k].0 as int,
                res->0@[k].1 as int,
            ),
{
    let ghost full = scan_tokens(data@, 0);
    let mut tokens: Vec<(usize, usize, Vec<u8>)> = Vec::new();
    let mut i: usize = 0;
    assert(token_spans(tokens@) + Seq::<(int, int)>::empty() =~= Seq::<(int, int)>::empty());
    assert(scan_tokens(data@, 0) == prepend_spans(token_spans(tokens@), scan_tokens(data@, 0))) by {
        match scan_tokens(data@, 0) {
            Some(r) => {
                assert(token_spans(tokens@) + r =~= r);
            },
            None => {},
        }
    }
    loop
        invariant
            i <= data.len(),
            full == scan_tokens(data@, 0),
            full == prepend_spans(token_spans(tokens@), scan_tokens(data@, i as int)),
            forall|k: int|
                0 <= k < tokens.len() ==> (#[trigger] tokens@[k]).2@ == data@.subrange(
                    tokens@[k].0 as int,
                    tokens@[k].1 as int,
                ),
        decreases data.len() - i,
    {
        let s = skip_filler_exec(data, i);
        proof {
            lemma_skip_filler_bounds(data@, i as int, false);
        }
        if s >= data.len() {
            assert(token_spans(tokens@) + Seq::<(int, int)>::empty() =~= token_spans(tokens@));
            return Some(tokens);
        }
        let e = token_end_exec(data, s);
        if e <= s || e > data.len() {
            return None;
        }
        let bytes = copy_range(data, s, e);
        let ghost before = token_spans(tokens@);
        tokens.push((s, e, bytes));
        proof {
            assert(token_spans(tokens@) =~= before.push((s as int, e as int)));
            match scan_tokens(data@, e as int) {
                Some(r) => {
                    assert(before + (seq![(s as int, e as int)] + r) =~= token_spans(tokens@) + r);
                },
                None => {},
            }
        }
        i = e;
    }
}


/// Tokens come out in order and do not overlap: every token is a non-empty
/// span inside the data, starting at a byte that is neither white space nor
/// `%`, and each one ends at or before the start of the next.
pub proof fn lemma_tokens_ordered(d: Seq<u8>, i: int)
    requires
        0 <= i <= d.len(),
        scan_tokens(d, i) is Some,
    ensures
        ({
            let t = scan_tokens(d, i)->0;
            &&& forall|k: int|
                0 <= k < t.len() ==> i <= (#[trigger] t[k]).0 < t[k].1 <= d.len() && !is_space(
                    d[t[k].0],
                ) && d[t[k].0] != 37
            &&& forall|k: int| 0 <= k < t.len() - 1 ==> (#[trigger] t[k]).1 <= t[k + 1].0
        }),
    decreases d.len() - i,
{
    lemma_skip_filler_bounds(d, i, false);
    let s = skip_filler(d, i, false);
    if s < d.len() {
        let e = token_end(d, s);
        lemma_tokens_ordered(d, e);
        let rest = scan_tokens(d, e)->0;
        let t = scan_tokens(d, i)->0;
        assert(t == seq![(s, e)] + rest);
        assert forall|k: int| 0 <= k < t.len() - 1 implies (#[trigger] t[k]).1 <= t[k + 1].0 by {
            if k > 0 {
                assert(t[k] == rest[k - 1]);
                assert(t[k + 1] == rest[k]);
            } else if rest.len() > 0 {
                assert(t[1] == rest[0]);
            }
        }
        assert forall|k: int| 0 <= k < t.len() implies i <= (#[trigger] t[k]).0 < t[k].1 <= d.len()
            && !is_space(d[t[k].0]) && d[t[k].0] != 37 by {
            if k > 0 {
                assert(t[k] == rest[k - 1]);
            }
        }
    }
}


/// ASCII lower case of a byte.
pub open spec fn ascii_lower(b: u8) -> u8 {
    if 65 <= b <= 90 {
        (b + 32) as u8
    } else {
        b
    }
}

/// Whether `t` spells, ignoring ASCII case, one of the words that std's
/// float parser reads as a number: `inf`, `infinity` or `nan`.
pub open spec fn is_float_word(t: Seq<u8>) -> bool {
    let l = t.map_values(|b: u8| ascii_lower(b));
    l == seq![105u8, 110, 102] || l == seq![105u8, 110, 102, 105, 110, 105, 116, 121] || l == seq![
        110u8,
        97,
        110,
    ]
}

/// Bytes with which an operand token begins: a digit, a sign, a point, or the
/// opening byte of a string, hex string, array or name.
pub open spec fn starts_operand(b: u8) -> bool {
    (48 <= b <= 57) || b == 43 || b == 45 || b == 46 || b == 40 || b == 60 || b == 91 || b == 47
}

/// The boolean and null objects `true`, `false` and `null`, which are
/// operands.
pub open spec fn is_constant_word(t: Seq<u8>) -> bool {
    t == seq![116u8, 114, 117, 101] || t == seq![102u8, 97, 108, 115, 101] || t == seq![
        110u8,
        117,
        108,
        108,
    ]
}

/// A token is an operator when it is not empty, does not begin like an
/// operand, does not read as a floating-point number, and is not one of the
/// operands `true`, `false` and `null`.
pub open spec fn spec_is_pdf_operator(t: Seq<u8>) -> bool {
    t.len() > 0 && !starts_operand(t[0]) && !is_float_word(t) && !is_constant_word(t)
}

fn bytes_equal(t: &[u8], w: &[u8]) -> (r: bool)
    ensures
        r == (t@ == w@),
{
    if t.len() != w.len() {
        return false;
    }
    let mut i: usize = 0;
    while i < t.len()
        invariant
            t.len() == w.len(),
            i <= t.len(),
            forall|k: int| 0 <= k < i ==> t@[k] == w@[k],
        decreases t.len() - i,
    {
        if t[i] != w[i] {
            return false;
        }
        i = i + 1;
    }
    assert(t@ =~= w@);
    true
}

fn lower_byte(b: u8) -> (r: u8)
    ensures
        r == ascii_lower(b),
{
    if 65 <= b && b <= 90 {
        b + 32
    } else {
        b
    }
}

fn lower_matches(t: &[u8], w: &[u8]) -> (r: bool)
    ensures
        r == (t@.map_values(|b: u8| ascii_lower(b)) == w@),
{
    if t.len() != w.len() {
        assert(t@.map_values(|b: u8| ascii_lower(b)).len() != w@.len());
        return false;
    }
    let mut i: usize = 0;
    while i < t.len()
        invariant
            t.len() == w.len(),
            i <= t.len(),
            forall|k: int| 0 <= k < i ==> ascii_lower(t@[k]) == w@[k],
        decreases t.len() - i,
    {
        if lower_byte(t[i]) != w[i] {
            assert(t@.map_values(|b: u8| ascii_lower(b))[i as int] != w@[i as int]);
            return false;
        }
        i = i + 1;
    }
    assert(t@.map_values(|b: u8| ascii_lower(b)) =~= w@);
    true
}

/// Whether a token is a PDF operator rather than an operand.
pub fn is_pdf_operator(tok: &[u8]) -> (r: bool)
    ensures
        r == spec_is_pdf_operator(tok@),
{
    if tok.len() == 0 {
        return false;
    }
    let b = tok[0];
    if (48 <= b && b <= 57) || b == 43 || b == 45 || b == 46 || b == 40 || b == 60 || b == 91 || b
        == 47 {
        return false;
    }
    let inf: [u8; 3] = [105, 110, 102];
    let infinity: [u8; 8] = [105, 110, 102, 105, 110, 105, 116, 121];
    let nan: [u8; 3] = [110, 97, 110];
    assert(inf@ =~= seq![105u8, 110, 102]);
    assert(infinity@ =~= seq![105u8, 110, 102, 105, 110, 105, 116, 121]);
    assert(nan@ =~= seq![110u8, 97, 110]);
    if lower_matches(tok, &inf) || lower_matches(tok, &infinity) || lower_matches(tok, &nan) {
        return false;
    }
    let t: [u8; 4] = [116, 114, 117, 101];
    let f: [u8; 5] = [102, 97, 108, 115, 101];
    let n: [u8; 4] = [110, 117, 108, 108];
    assert(t@ =~= seq![116u8, 114, 117, 101]);
    assert(f@ =~= seq![102u8, 97, 108, 115, 101]);
    assert(n@ =~= seq![110u8, 117, 108, 108]);
    !(bytes_equal(tok, &t) || bytes_equal(tok, &f) || bytes_equal(tok, &n))
}

/// Closing `m` open parentheses of a literal string and then `n` more is
/// closing `m + n`: nested balanced parentheses close with their own `)`.
pub proof fn lemma_string_end_compose(d: Seq<u8>, j: int, m: nat, n: nat)
    requires
        m >= 1,
    ensures
        string_end(d, j, m + n) == string_end(d, string_end(d, j, m), n),
    decreases d.len() - j,
{
    if j < 0 || j >= d.len() {
    } else if d[j] == 92 {
        if j + 1 < d.len() {
            lemma_string_end_compose(d, j + 2, m, n);
        }
    } else if d[j] == 40 {
        lemma_string_end_compose(d, j + 1, m + 1, n);
        assert(m + 1 + n == m + n + 1);
    } else if d[j] == 41 {
        if m > 1 {
            lemma_string_end_compose(d, j + 1, (m - 1) as nat, n);
            assert((m - 1) as nat + n == (m + n - 1) as nat);
        }
    } else {
        lemma_string_end_compose(d, j + 1, m, n);
    }
}

proof fn lemma_string_end_skip(d: Seq<u8>, j: int, k: int, m: nat)
    requires
        0 <= j,
        0 <= k,
        m >= 1,
        j + k < d.len(),
        forall|i: int| j <= i < j + k ==> d[i] != 40 && d[i] != 41 && d[i] != 92,
    ensures
        string_end(d, j, m) == string_end(d, j + k, m),
    decreases k,
{
    if k > 0 {
        lemma_string_end_skip(d, j + 1, k - 1, m);
    }
}

/// A literal string holding nested parentheses: where the first `(`, `)`
/// or `\\` inside it is a `(` (at `s + 1 + k`), the string token runs past
/// the `)` that balances it and on to the `)` that closes the string.
pub proof fn lemma_nested_parentheses(d: Seq<u8>, s: int, k: int)
    requires
        0 <= s,
        0 <= k,
        s + 2 + k <= d.len(),
        d[s] == 40,
        d[s + 1 + k] == 40,
        forall|i: int| s + 1 <= i < s + 1 + k ==> d[i] != 40 && d[i] != 41 && d[i] != 92,
    ensures
        token_end(d, s) == string_end(d, string_end(d, s + 2 + k, 1), 1),
        token_end(d, s) == string_end(d, s + 2 + k, 2),
{
    lemma_string_end_skip(d, s + 1, k, 1);
    lemma_string_end_compose(d, s + 2 + k, 1, 1);
}

/// Closing `m` open brackets of an array and then `n` more is closing
/// `m + n`: nested arrays close with their own `]`.
#[verifier::spinoff_prover]
pub proof fn lemma_array_end_compose(d: Seq<u8>, j: int, m: nat, n: nat)
    requires
        m >= 1,
        0 <= j,
    ensures
        array_end(d, j, m + n) == array_end(d, array_end(d, j, m), n),
    decreases d.len() - j,
{
    if j >= d.len() {
        assert(array_end(d, j, m + n) == j);
        assert(array_end(d, j, m) == j);
    } else if d[j] == 91 {
        lemma_array_end_compose(d, j + 1, m + 1, n);
        assert(m + 1 + n == m + n + 1);
        assert(array_end(d, j, m + n) == array_end(d, j + 1, m + n + 1));
        assert(array_end(d, j, m) == array_end(d, j + 1, m + 1));
    } else if d[j] == 93 {
        if m > 1 {
            lemma_array_end_compose(d, j + 1, (m - 1) as nat, n);
            assert((m - 1) as nat + n == (m + n - 1) as nat);
        }
        assert(array_end(d, j, m + n) == array_end(d, j + 1, (m + n - 1) as nat));
        assert(array_end(d, j, m) == array_end(d, j + 1, (m - 1) as nat));
    } else if d[j] == 40 {
        lemma_string_end_bounds(d, j + 1, 1);
        let e = string_end(d, j + 1, 1);
        lemma_array_end_compose(d, e, m, n);
        assert(array_end(d, j, m + n) == array_end(d, e, m + n));
        assert(array_end(d, j, m) == array_end(d, e, m));
    } else {
        lemma_array_end_compose(d, j + 1, m, n);
        assert(array_end(d, j, m + n) == array_end(d, j + 1, m + n));
        assert(array_end(d, j, m) == array_end(d, j + 1, m));
    }
}

proof fn lemma_array_end_skip(d: Seq<u8>, j: int, k: int, m: nat)
    requires
        0 <= j,
        0 <= k,
        m >= 1,
        j + k < d.len(),
        forall|i: int| j <= i < j + k ==> d[i] != 91 && d[i] != 93 && d[i] != 40,
    ensures
        array_end(d, j, m) == array_end(d, j + k, m),
    decreases k,
{
    if k > 0 {
        lemma_array_end_skip(d, j + 1, k - 1, m);
    }
}

/// An array holding a nested array: where the first `[`, `]` or `(` inside
/// it is a `[` (at `s + 1 + k`), the array token runs past the `]` that
/// closes the nested array and on to the `]` that closes the outer one.
pub proof fn lemma_nested_array(d: Seq<u8>, s: int, k: int)
    requires
        0 <= s,
        0 <= k,
        s + 2 + k <= d.len(),
        d[s] == 91,
        d[s + 1 + k] == 91,
        forall|i: int| s + 1 <= i < s + 1 + k ==> d[i] != 91 && d[i] != 93 && d[i] != 40,
    ensures
        token_end(d, s) == array_end(d, array_end(d, s + 2 + k, 1), 1),
        token_end(d, s) == array_end(d, s + 2 + k, 2),
{
    lemma_array_end_skip(d, s + 1, k, 1);
    lemma_array_end_compose(d, s + 2 + k, 1, 1);
}

} // verus!
