//! Character-level helpers: white space, trimming, splitting and decimal
//! numbers, with the meaning std gives them.
use vstd::prelude::*;

verus! {

/// Unicode `White_Space`, as `char::is_whitespace` documents it.
pub open spec fn is_ws(c: char) -> bool {
    ('\u{9}' <= c <= '\u{d}') || c == ' ' || c == '\u{85}' || c == '\u{a0}' || c == '\u{1680}'
        || ('\u{2000}' <= c <= '\u{200a}') || c == '\u{2028}' || c == '\u{2029}' || c == '\u{202f}'
        || c == '\u{205f}' || c == '\u{3000}'
}

pub fn is_ws_char(c: char) -> (r: bool)
    ensures
        r == is_ws(c),
{
    ('\u{9}' <= c && c <= '\u{d}') || c == ' ' || c == '\u{85}' || c == '\u{a0}' || c
        == '\u{1680}' || ('\u{2000}' <= c && c <= '\u{200a}') || c == '\u{2028}' || c == '\u{2029}'
        || c == '\u{202f}' || c == '\u{205f}' || c == '\u{3000}'
}

/// `s` without its leading white space.
pub open spec fn trim_start(s: Seq<char>) -> Seq<char>
    decreases s.len(),
{
    if s.len() > 0 && is_ws(s[0]) {
        trim_start(s.skip(1))
    } else {
        s
    }
}

/// `s` without its trailing white space.
pub open spec fn trim_end(s: Seq<char>) -> Seq<char>
    decreases s.len(),
{
    if s.len() > 0 && is_ws(s.last()) {
        trim_end(s.drop_last())
    } else {
        s
    }
}

/// `s` without leading and trailing white space, as `str::trim`.
pub open spec fn trim(s: Seq<char>) -> Seq<char> {
    trim_end(trim_start(s))
}

/// The pieces of `s` between occurrences of `sep`, as `str::split`: one
/// piece more than there are separators.
pub open spec fn split_on(s: Seq<char>, sep: char) -> Seq<Seq<char>>
    decreases s.len(),
{
    if s.len() == 0 {
        seq![Seq::empty()]
    } else {
        let rest = split_on(s.drop_last(), sep);
        if s.last() == sep {
            rest.push(Seq::empty())
        } else {
            rest.update(rest.len() - 1, rest.last().push(s.last()))
        }
    }
}

pub proof fn lemma_split_on_nonempty(s: Seq<char>, sep: char)
    ensures
        split_on(s, sep).len() >= 1,
    decreases s.len(),
{
    if s.len() > 0 {
        lemma_split_on_nonempty(s.drop_last(), sep);
    }
}

/// Splitting two texts joined by the separator gives the pieces of the first
/// followed by those of the second.
pub proof fn lemma_split_on_join(a: Seq<char>, b: Seq<char>, sep: char)
    ensures
        split_on(a + seq![sep] + b, sep) == split_on(a, sep) + split_on(b, sep),
    decreases b.len(),
{
    lemma_split_on_nonempty(a, sep);
    lemma_split_on_nonempty(b, sep);
    let s = a + seq![sep] + b;
    if b.len() == 0 {
        assert(s.drop_last() =~= a);
        assert(s.last() == sep);
        assert(split_on(s, sep) =~= split_on(a, sep) + split_on(b, sep));
    } else {
        let b2 = b.drop_last();
        lemma_split_on_join(a, b2, sep);
        lemma_split_on_nonempty(b2, sep);
        assert(s.drop_last() =~= a + seq![sep] + b2);
        assert(s.last() == b.last());
        assert(split_on(s, sep) =~= split_on(a, sep) + split_on(b, sep));
    }
}

pub open spec fn is_digit(c: char) -> bool {
    '0' <= c <= '9'
}

pub open spec fn digit_value(c: char) -> nat {
    (c as int - '0' as int) as nat
}

/// The number that the decimal digits `d` spell.
pub open spec fn decimal_value(d: Seq<char>) -> nat
    decreases d.len(),
{
    if d.len() == 0 {
        0
    } else {
        decimal_value(d.drop_last()) * 10 + digit_value(d.last())
    }
}

/// `s` without one leading `+`.
pub open spec fn unsigned_digits(s: Seq<char>) -> Seq<char> {
    if s.len() > 0 && s[0] == '+' {
        s.skip(1)
    } else {
        s
    }
}

/// std's reading of an unsigned integer no larger than `max`: an optional
/// `+`, then one or more ASCII digits.
pub open spec fn parse_unsigned(s: Seq<char>, max: nat) -> Option<nat> {
    let d = unsigned_digits(s);
    if d.len() == 0 || !(forall|k: int| 0 <= k < d.len() ==> is_digit(#[trigger] d[k])) {
        None
    } else if decimal_value(d) > max {
        None
    } else {
        Some(decimal_value(d))
    }
}

pub open spec fn seq_views(v: Seq<Vec<char>>) -> Seq<Seq<char>> {
    v.map_values(|x: Vec<char>| x@)
}

pub proof fn lemma_decimal_prefix_le(d: Seq<char>, i: int)
    requires
        0 <= i <= d.len(),
    ensures
        decimal_value(d.take(i)) <= decimal_value(d),
    decreases d.len(),
{
    if i < d.len() {
        assert(d.drop_last().take(i) =~= d.take(i));
        lemma_decimal_prefix_le(d.drop_last(), i);
    } else {
        assert(d.take(i) =~= d);
    }
}

/// `v` without leading and trailing white space.
pub fn trim_chars(v: &Vec<char>) -> (r: Vec<char>)
    ensures
        r@ == trim(v@),
{
    let mut a: usize = 0;
    assert(v@.skip(0) =~= v@);
    while a < v.len() && is_ws_char(v[a])
        invariant
            a <= v.len(),
            trim_start(v@) == trim_start(v@.skip(a as int)),
        decreases v.len() - a,
    {
        assert(v@.skip(a as int).skip(1) =~= v@.skip(a + 1));
        a = a + 1;
    }
    let mut b: usize = v.len();
    while b > a && is_ws_char(v[b - 1])
        invariant
            a <= b <= v.len(),
            trim_start(v@) == v@.skip(a as int),
            trim(v@) == trim_end(v@.subrange(a as int, b as int)),
        decreases b,
    {
        assert(v@.subrange(a as int, b as int).drop_last() =~= v@.subrange(a as int, b - 1));
        b = b - 1;
    }
    let mut r: Vec<char> = Vec::new();
    let mut k = a;
    while k < b
        invariant
            a <= k <= b <= v.len(),
            r@ == v@.subrange(a as int, k as int),
        decreases b - k,
    {
        r.push(v[k]);
        k = k + 1;
        assert(r@ =~= v@.subrange(a as int, k as int));
    }
    r
}

/// The pieces of `v` between occurrences of `sep`.
pub fn split_chars(v: &Vec<char>, sep: char) -> (r: Vec<Vec<char>>)
    ensures
        seq_views(r@) == split_on(v@, sep),
{
    let mut done: Vec<Vec<char>> = Vec::new();
    let mut cur: Vec<char> = Vec::new();
    let mut i: usize = 0;
    proof {
        assert(v@.take(0) =~= Seq::<char>::empty());
        assert(seq_views(done@).push(cur@) =~= seq![Seq::<char>::empty()]);
    }
    while i < v.len()
        invariant
            i <= v.len(),
            seq_views(done@).push(cur@) == split_on(v@.take(i as int), sep),
        decreases v.len() - i,
    {
        let c = v[i];
        let ghost before = seq_views(done@).push(cur@);
        proof {
            assert(v@.take(i + 1).drop_last() =~= v@.take(i as int));
            assert(v@.take(i + 1).last() == c);
        }
        if c == sep {
            done.push(cur);
            cur = Vec::new();
            assert(seq_views(done@).push(cur@) =~= before.push(Seq::empty()));
        } else {
            cur.push(c);
            assert(seq_views(done@).push(cur@) =~= before.update(
                before.len() - 1,
                before.last().push(c),
            ));
        }
        i = i + 1;
    }
    done.push(cur);
    assert(v@.take(v.len() as int) =~= v@);
    assert(seq_views(done@) =~= split_on(v@, sep));
    done
}

/// std's `parse` of an unsigned integer that must not exceed `max`.
pub fn parse_unsigned_chars(s: &Vec<char>, max: usize) -> (r: Option<usize>)
    ensures
        match parse_unsigned(s@, max as nat) {
            Some(n) => r == Some(n as usize),
            None => r is None,
        },
{
    let start: usize = if s.len() > 0 && s[0] == '+' {
        1
    } else {
        0
    };
    let ghost d = unsigned_digits(s@);
    assert(d =~= s@.skip(start as int));
    if start == s.len() {
        return None;
    }
    let mut acc: usize = 0;
    let mut i: usize = start;
    while i < s.len()
        invariant
            start <= i <= s.len(),
            start < s.len(),
            d == s@.skip(start as int),
            d == unsigned_digits(s@),
            forall|k: int| 0 <= k < i - start ==> is_digit(#[trigger] d[k]),
            acc as nat == decimal_value(d.take(i - start)),
            acc <= max,
        decreases s.len() - i,
    {
        let c = s[i];
        assert(d[i - start] == c);
        if !('0' <= c && c <= '9') {
            assert(!is_digit(d[i - start]));
            assert(!(forall|k: int| 0 <= k < d.len() ==> is_digit(#[trigger] d[k])));
            assert(parse_unsigned(s@, max as nat) is None);
            return None;
        }
        let dv = (c as u32 - '0' as u32) as usize;
        proof {
            assert(d.take(i + 1 - start).drop_last() =~= d.take(i - start));
            assert(d.take(i + 1 - start).last() == c);
            assert(dv as nat == digit_value(c));
        }
        if dv > max || acc > (max - dv) / 10 {
            proof {
                assert(decimal_value(d.take(i + 1 - start)) > max) by (nonlinear_arith)
                    requires
                        dv > max || acc > (max - dv) / 10,
                        decimal_value(d.take(i + 1 - start)) == acc * 10 + dv,
                ;
                lemma_decimal_prefix_le(d, i + 1 - start);
                assert(decimal_value(d) > max);
                assert(parse_unsigned(s@, max as nat) is None);
            }
            return None;
        }
        proof {
            assert(acc * 10 + dv <= max) by (nonlinear_arith)
                requires
                    acc <= (max - dv) / 10,
                    dv <= max,
            ;
        }
        acc = acc * 10 + dv;
        i = i + 1;
    }
    assert(d.take(s.len() - start) =~= d);
    Some(acc)
}

/// Why std's reading of an unsigned integer refuses a text, as its
/// `IntErrorKind` names the cases.
#[derive(Debug, Clone, Copy, PartialEq, Eq)]
pub enum NumberError {
    /// The text is empty.
    Empty,
    /// A character that is not a digit was met.
    InvalidDigit,
    /// The number is too large for the target type.
    PosOverflow,
}

/// What std's reading reports for the digits `d` from position `i` on: the
/// first position that holds no digit, or at which the digits read so far
/// exceed `max`, decides.
pub open spec fn digits_fault(d: Seq<char>, max: nat, i: int) -> NumberError
    decreases d.len() - i,
{
    if i < 0 || i >= d.len() {
        NumberError::PosOverflow
    } else if !is_digit(d[i]) {
        NumberError::InvalidDigit
    } else if decimal_value(d.take(i + 1)) > max {
        NumberError::PosOverflow
    } else {
        digits_fault(d, max, i + 1)
    }
}

/// What std's reading of an unsigned integer no larger than `max` reports for
/// a text it refuses: `Empty` for the empty text, `InvalidDigit` for a lone
/// `+` or where a character that is no digit comes before the number read so
/// far exceeds `max`, and `PosOverflow` otherwise.
pub open spec fn number_fault(s: Seq<char>, max: nat) -> NumberError {
    if s.len() == 0 {
        NumberError::Empty
    } else if unsigned_digits(s).len() == 0 {
        NumberError::InvalidDigit
    } else {
        digits_fault(unsigned_digits(s), max, 0)
    }
}

/// std's reading of an unsigned integer no larger than `max`, with the reason
/// where it refuses the text.
pub fn read_unsigned_chars(s: &Vec<char>, max: usize) -> (r: Result<usize, NumberError>)
    ensures
        match parse_unsigned(s@, max as nat) {
            Some(n) => r == Ok::<usize, NumberError>(n as usize),
            None => r == Err::<usize, NumberError>(number_fault(s@, max as nat)),
        },
{
    if s.len() == 0 {
        return Err(NumberError::Empty);
    }
    let start: usize = if s[0] == '+' {
        1
    } else {
        0
    };
    let ghost d = unsigned_digits(s@);
    assert(d =~= s@.skip(start as int));
    if start == s.len() {
        return Err(NumberError::InvalidDigit);
    }
    let mut acc: usize = 0;
    let mut i: usize = start;
    while i < s.len()
        invariant
            start <= i <= s.len(),
            start < s.len(),
            s.len() > 0,
            d == s@.skip(start as int),
            d == unsigned_digits(s@),
            forall|k: int| 0 <= k < i - start ==> is_digit(#[trigger] d[k]),
            acc as nat == decimal_value(d.take(i - start)),
            acc <= max,
            number_fault(s@, max as nat) == digits_fault(d, max as nat, i - start),
        decreases s.len() - i,
    {
        let c = s[i];
        assert(d[i - start] == c);
        if !('0' <= c && c <= '9') {
            assert(!is_digit(d[i - start]));
            assert(!(forall|k: int| 0 <= k < d.len() ==> is_digit(#[trigger] d[k])));
            assert(parse_unsigned(s@, max as nat) is None);
            return Err(NumberError::InvalidDigit);
        }
        let dv = (c as u32 - '0' as u32) as usize;
        proof {
            assert(d.take(i + 1 - start).drop_last() =~= d.take(i - start));
            assert(d.take(i + 1 - start).last() == c);
            assert(dv as nat == digit_value(c));
        }
        if dv > max || acc > (max - dv) / 10 {
            proof {
                assert(decimal_value(d.take(i + 1 - start)) > max) by (nonlinear_arith)
                    requires
                        dv > max || acc > (max - dv) / 10,
                        decimal_value(d.take(i + 1 - start)) == acc * 10 + dv,
                ;
                lemma_decimal_prefix_le(d, i + 1 - start);
                assert(decimal_value(d) > max);
                assert(parse_unsigned(s@, max as nat) is None);
            }
            return Err(NumberError::PosOverflow);
        }
        proof {
            assert(acc * 10 + dv <= max) by (nonlinear_arith)
                requires
                    acc <= (max - dv) / 10,
                    dv <= max,
            ;
        }
        acc = acc * 10 + dv;
        i = i + 1;
    }
    assert(d.take(s.len() - start) =~= d);
    Ok(acc)
}

/// A line without the `\r` of a `\r\n` ending.
pub open spec fn strip_cr(l: Seq<char>) -> Seq<char> {
    if l.len() > 0 && l.last() == '\r' {
        l.drop_last()
    } else {
        l
    }
}

/// The lines of `s` as `str::lines` gives them: split at `\n`, a `\r`
/// just before a `\n` dropped, and no empty line after a final `\n`.
pub open spec fn std_lines(s: Seq<char>) -> Seq<Seq<char>> {
    let ps = split_on(s, '\n');
    let ended = ps.drop_last().map_values(|l: Seq<char>| strip_cr(l));
    if s.len() == 0 || s.last() == '\n' {
        ended
    } else {
        ended.push(ps.last())
    }
}

/// The lines of `ls` that hold more than white space.
pub open spec fn nonblank_lines(ls: Seq<Seq<char>>) -> Seq<Seq<char>>
    decreases ls.len(),
{
    if ls.len() == 0 {
        Seq::empty()
    } else {
        let p = nonblank_lines(ls.drop_last());
        if trim(ls.last()).len() > 0 {
            p.push(ls.last())
        } else {
            p
        }
    }
}

/// The lines joined with `\n` between them.
pub open spec fn join_lines(w: Seq<Seq<char>>) -> Seq<char>
    decreases w.len(),
{
    if w.len() == 0 {
        Seq::empty()
    } else if w.len() == 1 {
        w[0]
    } else {
        join_lines(w.drop_last()) + seq!['\n'] + w.last()
    }
}

/// `s` without its blank lines: its lines (as `str::lines` reads them)
/// that hold more than white space, joined with `\n`.
pub fn drop_blank_lines(s: &str) -> (r: String)
    ensures
        r@ == join_lines(nonblank_lines(std_lines(s@))),
{
    let v = crate::chars::chars_of(s);
    let pieces = split_chars(&v, '\n');
    proof {
        lemma_split_on_nonempty(v@, '\n');
    }
    let ghost ps = split_on(v@, '\n');
    let ghost lines = std_lines(v@);
    let n = pieces.len();
    let m = if v.len() == 0 || v[v.len() - 1] == '\n' {
        n - 1
    } else {
        n
    };
    assert(lines.len() == m);
    let mut out: Vec<char> = Vec::new();
    let mut any = false;
    let mut j: usize = 0;
    while j < m
        invariant
            j <= m,
            any == (nonblank_lines(lines.take(j as int)).len() > 0),
            m == lines.len(),
            n == pieces@.len(),
            n >= 1,
            m == n || m == n - 1,
            seq_views(pieces@) == ps,
            lines == std_lines(v@),
            ps == split_on(v@, '\n'),
            forall|k: int| 0 <= k < m ==> #[trigger] lines[k] == if k < n - 1 {
                strip_cr(ps[k])
            } else {
                ps[k]
            },
            out@ == join_lines(nonblank_lines(lines.take(j as int))),
        decreases m - j,
    {
        let mut l: Vec<char> = pieces[j].clone();
        assert(l@ == ps[j as int]);
        if j < n - 1 && l.len() > 0 && l[l.len() - 1] == '\r' {
            l.pop();
        }
        assert(l@ == lines[j as int]);
        let ghost before = nonblank_lines(lines.take(j as int));
        assert(lines.take(j + 1).drop_last() =~= lines.take(j as int));
        if trim_chars(&l).len() > 0 {
            if any {
                out.push('\n');
            }
            any = true;
            let mut add = l;
            out.append(&mut add);
            assert(before.push(lines[j as int]).drop_last() =~= before);
            assert(out@ =~= join_lines(before.push(lines[j as int])));
        }
        j = j + 1;
    }
    assert(lines.take(m as int) =~= lines);
    crate::chars::string_of(&out)
}

} // verus!
