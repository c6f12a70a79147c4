//! Character-level text utilities. Every string is modelled by its `Seq<char>`
//! view; the spec functions here say what each operation computes.
use vstd::prelude::*;

verus! {

/// Appends one character to a string (`String::push`).
#[verifier::external_body]
pub(crate) fn push_char(s: &mut String, c: char)
    ensures
        final(s)@ == old(s)@.push(c),
{
    s.push(c);
}

/// Appends a string slice to a string.
pub fn push_str(s: &mut String, t: &str)
    ensures
        final(s)@ == old(s)@ + t@,
{
    s.append(t);
}

/// The characters of a string slice, in order.
pub fn chars_of(s: &str) -> (res: Vec<char>)
    ensures
        res@ == s@,
{
    let mut res: Vec<char> = Vec::new();
    for c in it: s.chars()
        invariant
            res@ == it.seq().take(it.index()),
    {
        res.push(c);
    }
    res
}

/// The string made of a slice of characters, in order.
pub fn string_of(cs: &[char]) -> (res: String)
    ensures
        res@ == cs@,
{
    let mut res = String::new();
    let n = cs.len();
    let mut i: usize = 0;
    while i < n
        invariant
            n == cs@.len(),
            i <= n,
            res@ == cs@.take(i as int),
        decreases n - i,
    {
        push_char(&mut res, cs[i]);
        proof {
            assert(cs@.take(i + 1) =~= cs@.take(i as int).push(cs@[i as int]));
        }
        i = i + 1;
    }
    proof {
        assert(cs@.take(n as int) =~= cs@);
    }
    res
}

// ── whitespace ─────────────────────────────────────────────────────────────

/// A character with the Unicode `White_Space` property (what
/// `char::is_whitespace` tests).
pub open spec fn is_ws(c: char) -> bool {
    ||| ('\u{9}' <= c && c <= '\u{d}')
    ||| c == ' '
    ||| c == '\u{85}'
    ||| c == '\u{a0}'
    ||| c == '\u{1680}'
    ||| ('\u{2000}' <= c && c <= '\u{200a}')
    ||| c == '\u{2028}'
    ||| c == '\u{2029}'
    ||| c == '\u{202f}'
    ||| c == '\u{205f}'
    ||| c == '\u{3000}'
}

/// `s` without its leading whitespace.
pub open spec fn trim_start_seq(s: Seq<char>) -> Seq<char>
    decreases s.len(),
{
    if s.len() > 0 && is_ws(s[0]) {
        trim_start_seq(s.drop_first())
    } else {
        s
    }
}

/// `s` without its trailing whitespace.
pub open spec fn trim_end_seq(s: Seq<char>) -> Seq<char>
    decreases s.len(),
{
    if s.len() > 0 && is_ws(s.last()) {
        trim_end_seq(s.drop_last())
    } else {
        s
    }
}

/// `s` without leading and trailing whitespace.
pub open spec fn trim_seq(s: Seq<char>) -> Seq<char> {
    trim_end_seq(trim_start_seq(s))
}

/// Whether `c` has the Unicode `White_Space` property.
pub fn is_whitespace(c: char) -> (res: bool)
    ensures
        res == is_ws(c),
{
    ('\u{9}' <= c && c <= '\u{d}') || c == ' ' || c == '\u{85}' || c == '\u{a0}' || c
        == '\u{1680}' || ('\u{2000}' <= c && c <= '\u{200a}') || c == '\u{2028}' || c
        == '\u{2029}' || c == '\u{202f}' || c == '\u{205f}' || c == '\u{3000}'
}

/// Number of whitespace characters at the start of `s`.
pub fn leading_ws(s: &[char]) -> (n: usize)
    ensures
        n <= s@.len(),
        s@.skip(n as int) == trim_start_seq(s@),
        forall|i: int| 0 <= i < n ==> is_ws(#[trigger] s@[i]),
{
    let len = s.len();
    let mut i: usize = 0;
    proof {
        assert(s@.skip(0) =~= s@);
    }
    while i < len && is_whitespace(s[i])
        invariant
            len == s@.len(),
            i <= len,
            trim_start_seq(s@.skip(i as int)) == trim_start_seq(s@),
            forall|j: int| 0 <= j < i ==> is_ws(#[trigger] s@[j]),
        decreases len - i,
    {
        proof {
            assert(s@.skip(i as int).drop_first() =~= s@.skip(i + 1));
        }
        i = i + 1;
    }
    i
}

/// Index one past the last non-whitespace character of `s`.
pub fn trailing_ws_start(s: &[char]) -> (n: usize)
    ensures
        n <= s@.len(),
        s@.take(n as int) == trim_end_seq(s@),
        forall|i: int| n <= i < s@.len() ==> is_ws(#[trigger] s@[i]),
{
    let mut i: usize = s.len();
    proof {
        assert(s@.take(s@.len() as int) =~= s@);
    }
    while i > 0 && is_whitespace(s[i - 1])
        invariant
            i <= s@.len(),
            trim_end_seq(s@.take(i as int)) == trim_end_seq(s@),
            forall|j: int| i <= j < s@.len() ==> is_ws(#[trigger] s@[j]),
        decreases i,
    {
        proof {
            assert(s@.take(i as int).drop_last() =~= s@.take(i - 1));
        }
        i = i - 1;
    }
    i
}

/// `s` without leading and trailing whitespace (`str::trim`).
pub fn trim(s: &str) -> (res: String)
    ensures
        res@ == trim_seq(s@),
{
    let cs = chars_of(s);
    let a = leading_ws(cs.as_slice());
    let rest = slice_skip(cs.as_slice(), a);
    let b = trailing_ws_start(rest.as_slice());
    let kept = slice_take(rest.as_slice(), b);
    string_of(kept.as_slice())
}

/// The suffix of a slice that starts at `n`.
pub fn slice_skip(s: &[char], n: usize) -> (res: Vec<char>)
    requires
        n <= s@.len(),
    ensures
        res@ == s@.skip(n as int),
{
    let mut res: Vec<char> = Vec::new();
    let len = s.len();
    let mut i: usize = n;
    while i < len
        invariant
            len == s@.len(),
            n <= i <= len,
            res@ == s@.subrange(n as int, i as int),
        decreases len - i,
    {
        res.push(s[i]);
        proof {
            assert(s@.subrange(n as int, i + 1) =~= s@.subrange(n as int, i as int).push(s@[i as int]));
        }
        i = i + 1;
    }
    proof {
        assert(s@.subrange(n as int, len as int) =~= s@.skip(n as int));
    }
    res
}

/// The prefix of a slice of length `n`.
pub fn slice_take(s: &[char], n: usize) -> (res: Vec<char>)
    requires
        n <= s@.len(),
    ensures
        res@ == s@.take(n as int),
{
    let mut res: Vec<char> = Vec::new();
    let mut i: usize = 0;
    while i < n
        invariant
            n <= s@.len(),
            i <= n,
            res@ == s@.take(i as int),
        decreases n - i,
    {
        res.push(s[i]);
        proof {
            assert(s@.take(i + 1) =~= s@.take(i as int).push(s@[i as int]));
        }
        i = i + 1;
    }
    res
}

// ── prefixes and substrings ───────────────────────────────────────────────

/// `p` is a prefix of `s`.
pub open spec fn has_prefix(s: Seq<char>, p: Seq<char>) -> bool {
    p.len() <= s.len() && s.take(p.len() as int) == p
}

/// `needle` occurs in `hay` starting at index `i`.
pub open spec fn occurs_at(hay: Seq<char>, needle: Seq<char>, i: int) -> bool {
    0 <= i && i + needle.len() <= hay.len() && hay.subrange(i, i + needle.len()) == needle
}

/// Whether `p` is a prefix of `s` starting at offset `at`.
pub fn matches_at(s: &[char], p: &[char], at: usize) -> (res: bool)
    ensures
        res == occurs_at(s@, p@, at as int),
{
    let n = s.len();
    let m = p.len();
    if at > n || m > n - at {
        return false;
    }
    let mut j: usize = 0;
    while j < m
        invariant
            n == s@.len(),
            m == p@.len(),
            at + m <= n,
            j <= m,
            forall|k: int| 0 <= k < j ==> s@[at + k] == p@[k],
        decreases m - j,
    {
        if s[at + j] != p[j] {
            proof {
                assert(s@.subrange(at as int, at + m)[j as int] != p@[j as int]);
            }
            return false;
        }
        j = j + 1;
    }
    proof {
        assert(s@.subrange(at as int, at + m) =~= p@);
    }
    true
}

/// Whether `p` is a prefix of `s`.
pub fn starts_with(s: &[char], p: &[char]) -> (res: bool)
    ensures
        res == has_prefix(s@, p@),
{
    let r = matches_at(s, p, 0);
    proof {
        if p@.len() <= s@.len() {
            assert(s@.subrange(0, p@.len() as int) =~= s@.take(p@.len() as int));
        }
    }
    r
}

/// The first index at which `needle` occurs in `hay` (`str::find`).
pub fn find(hay: &[char], needle: &[char]) -> (res: Option<usize>)
    ensures
        match res {
            Some(i) => occurs_at(hay@, needle@, i as int) && forall|j: int|
                0 <= j < i ==> !occurs_at(hay@, needle@, j),
            None => forall|j: int| !occurs_at(hay@, needle@, j),
        },
{
    let n = hay.len();
    let mut i: usize = 0;
    loop
        invariant
            n == hay@.len(),
            i <= n,
            forall|j: int| 0 <= j < i ==> !occurs_at(hay@, needle@, j),
        decreases n - i,
    {
        if matches_at(hay, needle, i) {
            return Some(i);
        }
        if i == n {
            return None;
        }
        i = i + 1;
    }
}

// ── decimal numerals ───────────────────────────────────────────────────────

/// The ASCII digit for `d` (meaningful for `d < 10`).
pub open spec fn digit_char(d: nat) -> char {
    if d == 0 {
        '0'
    } else if d == 1 {
        '1'
    } else if d == 2 {
        '2'
    } else if d == 3 {
        '3'
    } else if d == 4 {
        '4'
    } else if d == 5 {
        '5'
    } else if d == 6 {
        '6'
    } else if d == 7 {
        '7'
    } else if d == 8 {
        '8'
    } else {
        '9'
    }
}

/// The decimal numeral of `n`, without leading zeros (what `to_string` gives
/// for an unsigned integer).
pub open spec fn decimal_seq(n: nat) -> Seq<char>
    decreases n,
{
    if n < 10 {
        seq![digit_char(n)]
    } else {
        decimal_seq(n / 10).push(digit_char(n % 10))
    }
}

/// The number that a string of ASCII digits denotes in base ten.
pub open spec fn numeral_value(d: Seq<char>) -> int
    decreases d.len(),
{
    if d.len() == 0 {
        0
    } else {
        numeral_value(d.drop_last()) * 10 + (d.last() as int - '0' as int)
    }
}

/// `decimal_seq(n)` is the base-ten numeral of `n`: ASCII digits only, no
/// leading zero unless it is the single digit `0`, denoting `n`.
pub proof fn lemma_decimal_seq_numeral(n: nat)
    ensures
        decimal_seq(n).len() > 0,
        forall|i: int| 0 <= i < decimal_seq(n).len() ==> '0' <= #[trigger] decimal_seq(n)[i] <= '9',
        decimal_seq(n).len() > 1 ==> decimal_seq(n)[0] != '0',
        numeral_value(decimal_seq(n)) == n,
        n >= 10 ==> decimal_seq(n).len() > 1,
    decreases n,
{
    if n >= 10 {
        lemma_decimal_seq_numeral(n / 10);
        let p = decimal_seq(n / 10);
        let d = decimal_seq(n);
        assert(d == p.push(digit_char(n % 10)));
        assert(d.drop_last() =~= p);
        assert forall|i: int| 0 <= i < d.len() implies '0' <= #[trigger] d[i] <= '9' by {
            if i < p.len() {
                assert(d[i] == p[i]);
            } else {
                assert(d[i] == digit_char(n % 10));
            }
        }
        assert(d[0] == p[0]);
        if n / 10 < 10 {
            assert(p == seq![digit_char(n / 10)]);
        }
        let r = n % 10;
        assert((digit_char(r) as int) - ('0' as int) == r) by {
            if r == 0 {} else if r == 1 {} else if r == 2 {} else if r == 3 {} else if r == 4 {}
            else if r == 5 {} else if r == 6 {} else if r == 7 {} else if r == 8 {} else {}
        }
        assert(numeral_value(d) == numeral_value(p) * 10 + r);
        assert((n / 10) * 10 + r == n);
        assert(numeral_value(p) == n / 10);
        assert(numeral_value(d) == n);
    } else {
        let d = decimal_seq(n);
        assert(d == seq![digit_char(n)]);
        assert('0' <= digit_char(n) <= '9');
        assert forall|i: int| 0 <= i < d.len() implies '0' <= #[trigger] d[i] <= '9' by {
            assert(d[i] == digit_char(n));
        }
        assert(d.drop_last() =~= Seq::<char>::empty());
        assert((digit_char(n) as int) - ('0' as int) == n) by {
            if n == 0 {} else if n == 1 {} else if n == 2 {} else if n == 3 {} else if n == 4 {}
            else if n == 5 {} else if n == 6 {} else if n == 7 {} else if n == 8 {} else {}
        }
        assert(numeral_value(Seq::<char>::empty()) == 0);
        assert(numeral_value(d) == n);
    }
}

fn digit(d: u64) -> (c: char)
    requires
        d < 10,
    ensures
        c == digit_char(d as nat),
{
    if d == 0 {
        '0'
    } else if d == 1 {
        '1'
    } else if d == 2 {
        '2'
    } else if d == 3 {
        '3'
    } else if d == 4 {
        '4'
    } else if d == 5 {
        '5'
    } else if d == 6 {
        '6'
    } else if d == 7 {
        '7'
    } else if d == 8 {
        '8'
    } else {
        '9'
    }
}

fn push_decimal(out: &mut String, n: u64)
    ensures
        final(out)@ == old(out)@ + decimal_seq(n as nat),
    decreases n,
{
    if n >= 10 {
        push_decimal(out, n / 10);
    }
    push_char(out, digit(n % 10));
    proof {
        if n >= 10 {
            assert(decimal_seq(n as nat) == decimal_seq((n / 10) as nat).push(digit_char((n % 10) as nat)));
        }
    }
}

/// The decimal numeral of `n`.
pub fn decimal(n: u64) -> (res: String)
    ensures
        res@ == decimal_seq(n as nat),
{
    let mut s = String::new();
    push_decimal(&mut s, n);
    proof {
        assert(s@ =~= decimal_seq(n as nat));
    }
    s
}

// ── joining ────────────────────────────────────────────────────────────────

/// The parts joined by `sep` (`[String]::join`).
pub open spec fn join_seq(parts: Seq<Seq<char>>, sep: Seq<char>) -> Seq<char>
    decreases parts.len(),
{
    if parts.len() == 0 {
        Seq::empty()
    } else if parts.len() == 1 {
        parts[0]
    } else {
        join_seq(parts.drop_last(), sep) + sep + parts.last()
    }
}

/// The views of a sequence of strings.
pub open spec fn views(v: Seq<String>) -> Seq<Seq<char>> {
    v.map_values(|s: String| s@)
}

/// The strings joined by `sep`.
pub fn join(parts: &Vec<String>, sep: &str) -> (res: String)
    ensures
        res@ == join_seq(views(parts@), sep@),
{
    let mut res = String::new();
    let n = parts.len();
    let mut i: usize = 0;
    while i < n
        invariant
            n == parts@.len(),
            i <= n,
            res@ == join_seq(views(parts@).take(i as int), sep@),
        decreases n - i,
    {
        proof {
            assert(views(parts@).take(i + 1).drop_last() =~= views(parts@).take(i as int));
        }
        if i > 0 {
            push_str(&mut res, sep);
        }
        push_str(&mut res, parts[i].as_str());
        i = i + 1;
    }
    proof {
        assert(views(parts@).take(n as int) =~= views(parts@));
    }
    res
}

// ── lines ──────────────────────────────────────────────────────────────────

/// The first index at or after `i` that holds a line feed, if any.
pub open spec fn newline_from(s: Seq<char>, i: int) -> Option<int>
    decreases s.len() - i,
{
    if i < 0 || i >= s.len() {
        None
    } else if s[i] == '\n' {
        Some(i)
    } else {
        newline_from(s, i + 1)
    }
}

/// A line feed found at or after `i` lies in the text, at or after `i`.
pub proof fn lemma_newline_bounds(s: Seq<char>, i: int)
    ensures
        newline_from(s, i) matches Some(k) ==> i <= k < s.len() && s[k] == '\n',
    decreases s.len() - i,
{
    if 0 <= i < s.len() && s[i] != '\n' {
        lemma_newline_bounds(s, i + 1);
    }
}

/// A terminated line without its carriage return, if it has one.
pub open spec fn strip_cr(line: Seq<char>) -> Seq<char> {
    if line.len() > 0 && line.last() == '\r' {
        line.drop_last()
    } else {
        line
    }
}

/// The lines of a text as `str::lines` yields them: split at each line feed,
/// a carriage return just before the line feed dropped, and no empty line
/// after a final line feed.
pub open spec fn lines_of(s: Seq<char>) -> Seq<Seq<char>>
    decreases s.len(),
{
    if s.len() == 0 {
        Seq::empty()
    } else {
        match newline_from(s, 0) {
            Some(i) => {
                proof {
                    lemma_newline_bounds(s, 0);
                }
                seq![strip_cr(s.take(i))] + lines_of(s.skip(i + 1))
            },
            None => seq![s],
        }
    }
}

/// The values of a sequence of character vectors.
pub open spec fn vviews(v: Seq<Vec<char>>) -> Seq<Seq<char>> {
    v.map_values(|x: Vec<char>| x@)
}

/// No line feed stands between `start` and `i`, so the search for one from
/// `start` goes on from `i`.
pub proof fn lemma_newline_from(s: Seq<char>, start: int, i: int)
    requires
        0 <= start <= i <= s.len(),
        forall|k: int| start <= k < i ==> s[k] != '\n',
    ensures
        newline_from(s, start) == newline_from(s, i),
    decreases i - start,
{
    if start < i {
        lemma_newline_from(s, start + 1, i);
    }
}

proof fn lemma_newline_skip(s: Seq<char>, start: int, i: int)
    requires
        0 <= start <= i <= s.len(),
    ensures
        newline_from(s.skip(start), i - start) == match newline_from(s, i) {
            Some(k) => Some(k - start),
            None => None,
        },
    decreases s.len() - i,
{
    if i < s.len() {
        assert(s.skip(start)[i - start] == s[i]);
        lemma_newline_skip(s, start, i + 1);
    }
}

/// Splits a text into lines (`str::lines`).
pub fn split_lines(s: &[char]) -> (res: Vec<Vec<char>>)
    ensures
        vviews(res@) == lines_of(s@),
{
    let n = s.len();
    let mut res: Vec<Vec<char>> = Vec::new();
    let mut cur: Vec<char> = Vec::new();
    let mut start: usize = 0;
    let mut i: usize = 0;
    proof {
        assert(s@.skip(0) =~= s@);
    }
    while i < n
        invariant
            n == s@.len(),
            start <= i <= n,
            cur@ == s@.subrange(start as int, i as int),
            forall|k: int| start <= k < i ==> s@[k] != '\n',
            lines_of(s@) == vviews(res@) + lines_of(s@.skip(start as int)),
        decreases n - i,
    {
        let c = s[i];
        if c == '\n' {
            let ghost rest = s@.skip(start as int);
            proof {
                lemma_newline_from(s@, start as int, i as int);
                lemma_newline_skip(s@, start as int, start as int);
                assert(rest.len() > 0);
                assert(newline_from(rest, 0) == Some(i - start));
                assert(rest.take(i - start) =~= cur@);
                assert(rest.skip(i - start + 1) =~= s@.skip(i + 1));
            }
            let line = if cur.len() > 0 && cur[cur.len() - 1] == '\r' {
                let mut t = cur;
                t.pop();
                t
            } else {
                cur
            };
            let ghost before = res@;
            res.push(line);
            proof {
                assert(vviews(res@) =~= vviews(before).push(strip_cr(rest.take(i - start))));
                assert(lines_of(rest) == seq![strip_cr(rest.take(i - start))] + lines_of(
                    s@.skip(i + 1),
                ));
                assert(vviews(res@) + lines_of(s@.skip(i + 1)) =~= vviews(before) + lines_of(
                    rest,
                ));
            }
            cur = Vec::new();
            start = i + 1;
        } else {
            cur.push(c);
            proof {
                assert(s@.subrange(start as int, i + 1) =~= s@.subrange(start as int, i as int).push(c));
            }
        }
        i = i + 1;
    }
    let ghost rest = s@.skip(start as int);
    proof {
        assert(rest =~= cur@);
        lemma_newline_from(s@, start as int, n as int);
        lemma_newline_skip(s@, start as int, start as int);
    }
    if cur.len() > 0 {
        let ghost before = res@;
        res.push(cur);
        proof {
            assert(lines_of(rest) == seq![rest]);
            assert(vviews(res@) =~= vviews(before) + lines_of(rest));
        }
    } else {
        proof {
            assert(vviews(res@) =~= vviews(res@) + lines_of(rest));
        }
    }
    res
}

/// A line holds no line feed.
pub open spec fn no_newline(l: Seq<char>) -> bool {
    forall|i: int| 0 <= i < l.len() ==> l[i] != '\n'
}

/// A line does not end with a carriage return.
pub open spec fn no_cr_end(l: Seq<char>) -> bool {
    !(l.len() > 0 && l.last() == '\r')
}

/// Joining by a separator, seen from the front.
pub proof fn lemma_join_front(ls: Seq<Seq<char>>, sep: Seq<char>)
    requires
        ls.len() >= 2,
    ensures
        join_seq(ls, sep) == ls[0] + sep + join_seq(ls.drop_first(), sep),
    decreases ls.len(),
{
    if ls.len() == 2 {
        assert(ls.drop_last() =~= seq![ls[0]]);
        assert(ls.drop_first() =~= seq![ls[1]]);
        assert(join_seq(ls.drop_last(), sep) == ls[0]);
        assert(join_seq(ls.drop_first(), sep) == ls[1]);
        assert(join_seq(ls, sep) =~= ls[0] + sep + join_seq(ls.drop_first(), sep));
    } else {
        let dl = ls.drop_last();
        let df = ls.drop_first();
        lemma_join_front(dl, sep);
        assert(dl.drop_first() =~= df.drop_last());
        assert(df.last() == ls.last());
        assert(dl[0] == ls[0]);
        assert(join_seq(df, sep) == join_seq(df.drop_last(), sep) + sep + df.last());
        assert(join_seq(ls, sep) == join_seq(dl, sep) + sep + ls.last());
        assert(join_seq(ls, sep) =~= ls[0] + sep + join_seq(ls.drop_first(), sep));
    }
}

/// Lines joined by line feeds (with a final one when `tail`) split back into
/// the same lines, when no line holds a line feed, none but an unterminated
/// last line ends with a carriage return, and an unterminated last line is
/// not empty.
pub proof fn lemma_lines_round_trip(ls: Seq<Seq<char>>, tail: bool)
    requires
        ls.len() >= 1,
        forall|i: int| 0 <= i < ls.len() ==> no_newline(#[trigger] ls[i]),
        forall|i: int| 0 <= i < ls.len() - 1 ==> no_cr_end(#[trigger] ls[i]),
        tail ==> no_cr_end(ls.last()),
        !tail ==> ls.last().len() > 0,
    ensures
        lines_of(join_seq(ls, "\n"@) + if tail {
            "\n"@
        } else {
            Seq::empty()
        }) == ls,
    decreases ls.len(),
{
    reveal_strlit("\n");
    assert("\n"@ =~= seq!['\n']);
    let nl = "\n"@;
    let end = if tail {
        nl
    } else {
        Seq::<char>::empty()
    };
    let l = ls[0];
    if ls.len() == 1 {
        let text = join_seq(ls, nl) + end;
        assert(join_seq(ls, nl) == l);
        if tail {
            assert(text.len() > 0);
            lemma_newline_from(text, 0, l.len() as int);
            assert(text[l.len() as int] == '\n');
            assert(text.take(l.len() as int) =~= l);
            assert(text.skip(l.len() as int + 1) =~= Seq::<char>::empty());
            assert(lines_of(text) == seq![strip_cr(l)] + lines_of(Seq::<char>::empty()));
            assert(lines_of(text) =~= ls);
        } else {
            assert(text =~= l);
            lemma_newline_from(text, 0, l.len() as int);
            assert(lines_of(text) =~= ls);
        }
    } else {
        let rest = ls.drop_first();
        lemma_join_front(ls, nl);
        assert forall|i: int| 0 <= i < rest.len() implies no_newline(#[trigger] rest[i]) by {
            assert(rest[i] == ls[i + 1]);
        }
        assert forall|i: int| 0 <= i < rest.len() - 1 implies no_cr_end(#[trigger] rest[i]) by {
            assert(rest[i] == ls[i + 1]);
        }
        lemma_lines_round_trip(rest, tail);
        let after = join_seq(rest, nl) + end;
        let text = join_seq(ls, nl) + end;
        assert(text =~= l + nl + after);
        assert(no_newline(ls[0]));
        assert(no_cr_end(ls[0]));
        lemma_newline_from(text, 0, l.len() as int);
        assert(text[l.len() as int] == '\n');
        assert(text.take(l.len() as int) =~= l);
        assert(text.skip(l.len() as int + 1) =~= after);
        assert(lines_of(text) == seq![strip_cr(l)] + lines_of(after));
        assert(lines_of(text) =~= ls);
    }
}

/// The line found first lies before any other line feed: the text before it
/// holds none.
pub proof fn lemma_newline_first(s: Seq<char>, i: int)
    requires
        0 <= i,
    ensures
        newline_from(s, i) matches Some(k) ==> forall|j: int| i <= j < k ==> s[j] != '\n',
        newline_from(s, i) is None ==> forall|j: int| i <= j < s.len() ==> s[j] != '\n',
    decreases s.len() - i,
{
    if i < s.len() && s[i] != '\n' {
        lemma_newline_first(s, i + 1);
    }
}

/// The lines of a text hold no line feed; a non-empty text has a line; and
/// when the text does not end with a line feed its last line is not empty.
pub proof fn lemma_lines_shape(s: Seq<char>)
    ensures
        forall|i: int| 0 <= i < lines_of(s).len() ==> no_newline(#[trigger] lines_of(s)[i]),
        s.len() > 0 ==> lines_of(s).len() >= 1,
        s.len() > 0 && s.last() != '\n' ==> lines_of(s).last().len() > 0,
    decreases s.len(),
{
    if s.len() > 0 {
        lemma_newline_bounds(s, 0);
        lemma_newline_first(s, 0);
        match newline_from(s, 0) {
            Some(k) => {
                let rest = s.skip(k + 1);
                lemma_lines_shape(rest);
                let first = strip_cr(s.take(k));
                assert(no_newline(first)) by {
                    assert forall|j: int| 0 <= j < first.len() implies first[j] != '\n' by {
                        assert(first[j] == s[j]);
                    }
                }
                let ls = lines_of(s);
                assert(ls == seq![first] + lines_of(rest));
                assert forall|i: int| 0 <= i < ls.len() implies no_newline(#[trigger] ls[i]) by {
                    if i > 0 {
                        assert(ls[i] == lines_of(rest)[i - 1]);
                    }
                }
                if s.last() != '\n' {
                    assert(k < s.len() - 1);
                    assert(rest.len() > 0);
                    assert(rest.last() == s.last());
                    assert(ls.last() == lines_of(rest).last());
                }
            },
            None => {
                assert(lines_of(s) == seq![s]);
            },
        }
    }
}

/// The text of joined lines ends with the last line.
pub proof fn lemma_join_suffix(ls: Seq<Seq<char>>, sep: Seq<char>)
    requires
        ls.len() >= 1,
    ensures
        join_seq(ls, sep).len() >= ls.last().len(),
        join_seq(ls, sep).skip(join_seq(ls, sep).len() - ls.last().len()) == ls.last(),
{
    let j = join_seq(ls, sep);
    if ls.len() == 1 {
        assert(j.skip(0) =~= j);
    } else {
        assert(j == join_seq(ls.drop_last(), sep) + sep + ls.last());
        assert(j.skip(j.len() - ls.last().len()) =~= ls.last());
    }
}

/// Leading whitespace: `trim_start_seq` drops a run of whitespace and keeps
/// the rest.
pub proof fn lemma_trim_start_shape(s: Seq<char>)
    ensures
        trim_start_seq(s).len() <= s.len(),
        trim_start_seq(s) == s.skip(s.len() - trim_start_seq(s).len()),
        forall|i: int| 0 <= i < s.len() - trim_start_seq(s).len() ==> is_ws(#[trigger] s[i]),
        trim_start_seq(s).len() > 0 ==> !is_ws(trim_start_seq(s)[0]),
    decreases s.len(),
{
    if s.len() > 0 && is_ws(s[0]) {
        lemma_trim_start_shape(s.drop_first());
        let t = trim_start_seq(s);
        assert(s.drop_first().skip(s.drop_first().len() - t.len()) =~= s.skip(s.len() - t.len()));
        assert forall|i: int| 0 <= i < s.len() - t.len() implies is_ws(#[trigger] s[i]) by {
            if i > 0 {
                assert(s[i] == s.drop_first()[i - 1]);
            }
        }
    } else {
        assert(s.skip(0) =~= s);
    }
}

/// Whitespace before a text is dropped by `trim_start_seq`.
pub proof fn lemma_trim_start_after_ws(a: Seq<char>, b: Seq<char>)
    requires
        forall|i: int| 0 <= i < a.len() ==> is_ws(#[trigger] a[i]),
    ensures
        trim_start_seq(a + b) == trim_start_seq(b),
    decreases a.len(),
{
    if a.len() > 0 {
        assert((a + b).drop_first() =~= a.drop_first() + b);
        assert((a + b)[0] == a[0]);
        lemma_trim_start_after_ws(a.drop_first(), b);
    } else {
        assert(a + b =~= b);
    }
}

} // verus!
