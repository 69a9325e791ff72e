//! Character-level text toolkit shared by the `/proc` parsers, the command
//! builders and the report renderers.
//!
//! Text is modelled as `Seq<char>` (the view of `str` and `String`). The spec
//! functions here mirror the `str` operations the parsers rely on:
//! [`split_on2`] is `str::split` on a set of separator characters, [`words`]
//! is `str::split_whitespace`, [`trim`] is `str::trim`, [`split_once`] is
//! `str::split_once` and [`parse_unsigned`] is `FromStr` for unsigned
//! integers.
use vstd::prelude::*;

verus! {

/// `String::push` appends one character.
pub assume_specification[ String::push ](s: &mut String, ch: char)
    ensures
        final(s)@ == old(s)@.push(ch),
;

/// Unicode `White_Space` characters, as `char::is_whitespace` classifies them.
pub open spec fn is_ws(c: char) -> bool {
    ||| ('\u{9}' <= c && c <= '\u{d}')
    ||| c == ' '
    ||| c == '\u{85}'
    ||| c == '\u{a0}'
    ||| c == '\u{1680}'
    ||| ('\u{2000}' <= c && c <= '\u{200a}')
    ||| c == '\u{2028}'
    ||| c == '\u{2029}'
    ||| c == '\u{202f}'
    ||| c == '\u{205f}'
    ||| c == '\u{3000}'
}

/// Whether `c` is a whitespace character.
pub fn is_whitespace(c: char) -> (b: bool)
    ensures
        b == is_ws(c),
{
    ('\u{9}' <= c && c <= '\u{d}') || c == ' ' || c == '\u{85}' || c == '\u{a0}' || c == '\u{1680}'
        || ('\u{2000}' <= c && c <= '\u{200a}') || c == '\u{2028}' || c == '\u{2029}' || c
        == '\u{202f}' || c == '\u{205f}' || c == '\u{3000}'
}

/// The characters of `s`, in order.
pub fn chars_of(s: &str) -> (v: Vec<char>)
    ensures
        v@ == s@,
{
    let mut v: Vec<char> = Vec::new();
    for c in it: s.chars()
        invariant
            v@ == it.seq().take(it.index() as int),
            it.seq() == s@,
    {
        v.push(c);
    }
    v
}

/// A `String` holding exactly the characters `v`.
pub fn string_of(v: &[char]) -> (s: String)
    ensures
        s@ == v@,
{
    let mut s = String::new();
    let mut i: usize = 0;
    while i < v.len()
        invariant
            i <= v.len(),
            s@ == v@.take(i as int),
        decreases v.len() - i,
    {
        s.push(v[i]);
        proof {
            assert(v@.take(i + 1) =~= v@.take(i as int).push(v@[i as int]));
        }
        i = i + 1;
    }
    proof {
        assert(v@.take(v@.len() as int) =~= v@);
    }
    s
}

/// Append the characters of `t` to `s`.
pub fn push_str(s: &mut String, t: &str)
    ensures
        final(s)@ == old(s)@ + t@,
{
    let v = chars_of(t);
    let mut i: usize = 0;
    while i < v.len()
        invariant
            i <= v.len(),
            v@ == t@,
            s@ == old(s)@ + v@.take(i as int),
        decreases v.len() - i,
    {
        s.push(v[i]);
        proof {
            assert(v@.take(i + 1) =~= v@.take(i as int).push(v@[i as int]));
        }
        i = i + 1;
    }
    proof {
        assert(v@.take(v@.len() as int) =~= v@);
    }
}

/// The character sequences held by a vector of character vectors.
pub open spec fn views(v: Seq<Vec<char>>) -> Seq<Seq<char>> {
    Seq::new(v.len(), |i: int| v[i]@)
}

// ---------------------------------------------------------------------------
// Splitting
// ---------------------------------------------------------------------------

/// The pieces of `s` between separators, where a separator is `a` or `b`
/// (`str::split` with a two-character pattern). There is always at least one
/// piece; adjacent separators yield empty pieces.
pub open spec fn split_on2(s: Seq<char>, a: char, b: char) -> Seq<Seq<char>>
    decreases s.len(),
{
    if s.len() == 0 {
        seq![Seq::<char>::empty()]
    } else {
        let r = split_on2(s.drop_last(), a, b);
        if s.last() == a || s.last() == b {
            r.push(Seq::<char>::empty())
        } else {
            r.update(r.len() - 1, r.last().push(s.last()))
        }
    }
}

/// The pieces of `s` between occurrences of `sep` (`str::split(sep)`).
pub open spec fn split_on(s: Seq<char>, sep: char) -> Seq<Seq<char>> {
    split_on2(s, sep, sep)
}

/// The lines of `s`: the pieces between `'\n'` characters. A carriage return
/// before a line feed stays in the line, where it is whitespace to every
/// consumer; a trailing empty piece has no fields and is skipped by every
/// consumer.
pub open spec fn lines(s: Seq<char>) -> Seq<Seq<char>> {
    split_on(s, '\n')
}

pub proof fn lemma_split_nonempty(s: Seq<char>, a: char, b: char)
    ensures
        split_on2(s, a, b).len() >= 1,
    decreases s.len(),
{
    if s.len() > 0 {
        lemma_split_nonempty(s.drop_last(), a, b);
    }
}

/// Split `s` at every `a` or `b`.
pub fn split_chars2(s: &Vec<char>, a: char, b: char) -> (out: Vec<Vec<char>>)
    ensures
        views(out@) == split_on2(s@, a, b),
{
    let mut out: Vec<Vec<char>> = Vec::new();
    let mut cur: Vec<char> = Vec::new();
    let mut i: usize = 0;
    proof {
        assert(s@.take(0) =~= Seq::<char>::empty());
        assert(views(out@).push(cur@) =~= split_on2(s@.take(0), a, b));
    }
    while i < s.len()
        invariant
            i <= s.len(),
            views(out@).push(cur@) =~= split_on2(s@.take(i as int), a, b),
        decreases s.len() - i,
    {
        let c = s[i];
        proof {
            let t = s@.take(i + 1);
            assert(t.drop_last() =~= s@.take(i as int));
            assert(t.last() == c);
            lemma_split_nonempty(s@.take(i as int), a, b);
        }
        if c == a || c == b {
            let ghost before = views(out@);
            let ghost piece = cur@;
            out.push(cur);
            cur = Vec::new();
            proof {
                assert(views(out@) =~= before.push(piece));
            }
        } else {
            cur.push(c);
        }
        i = i + 1;
    }
    proof {
        assert(s@.take(s@.len() as int) =~= s@);
    }
    let ghost before = views(out@);
    let ghost piece = cur@;
    out.push(cur);
    proof {
        assert(views(out@) =~= before.push(piece));
    }
    out
}

/// The whitespace-separated words of `s` (`str::split_whitespace`): the
/// maximal runs of non-whitespace characters, in order.
pub open spec fn words(s: Seq<char>) -> Seq<Seq<char>>
    decreases s.len(),
{
    if s.len() == 0 {
        Seq::<Seq<char>>::empty()
    } else {
        let r = words(s.drop_last());
        let c = s.last();
        if is_ws(c) {
            r
        } else if s.len() >= 2 && !is_ws(s[s.len() - 2]) {
            r.update(r.len() - 1, r.last().push(c))
        } else {
            r.push(seq![c])
        }
    }
}

pub proof fn lemma_words_nonempty(s: Seq<char>)
    requires
        s.len() >= 1,
        !is_ws(s.last()),
    ensures
        words(s).len() >= 1,
    decreases s.len(),
{
    if s.len() >= 2 && !is_ws(s[s.len() - 2]) {
        let t = s.drop_last();
        assert(t.last() == s[s.len() - 2]);
        lemma_words_nonempty(t);
    }
}

/// Split `s` into whitespace-separated words.
pub fn split_words(s: &Vec<char>) -> (out: Vec<Vec<char>>)
    ensures
        views(out@) == words(s@),
{
    let mut out: Vec<Vec<char>> = Vec::new();
    let mut cur: Vec<char> = Vec::new();
    let mut i: usize = 0;
    proof {
        assert(s@.take(0) =~= Seq::<char>::empty());
        assert(views(out@) =~= Seq::<Seq<char>>::empty());
    }
    while i < s.len()
        invariant
            i <= s.len(),
            i > 0 && !is_ws(s@[i - 1]) ==> views(out@).push(cur@) =~= words(s@.take(i as int)),
            !(i > 0 && !is_ws(s@[i - 1])) ==> views(out@) =~= words(s@.take(i as int)) && cur@
                == Seq::<char>::empty(),
        decreases s.len() - i,
    {
        let c = s[i];
        let ws = is_whitespace(c);
        let in_word = i > 0 && !is_whitespace(s[i - 1]);
        proof {
            let t = s@.take(i + 1);
            assert(t.drop_last() =~= s@.take(i as int));
            assert(t.last() == c);
            if i > 0 {
                assert(t[t.len() - 2] == s@[i - 1]);
            }
        }
        if ws {
            if in_word {
                let ghost before = views(out@);
                let ghost piece = cur@;
                out.push(cur);
                cur = Vec::new();
                proof {
                    assert(views(out@) =~= before.push(piece));
                }
            }
        } else {
            cur.push(c);
        }
        i = i + 1;
    }
    if i > 0 && !is_whitespace(s[i - 1]) {
        let ghost before = views(out@);
        let ghost piece = cur@;
        out.push(cur);
        proof {
            assert(views(out@) =~= before.push(piece));
        }
    }
    proof {
        assert(s@.take(s@.len() as int) =~= s@);
    }
    out
}

/// `s` without leading whitespace (`str::trim_start`).
pub open spec fn trim_start(s: Seq<char>) -> Seq<char>
    decreases s.len(),
{
    if s.len() > 0 && is_ws(s[0]) {
        trim_start(s.drop_first())
    } else {
        s
    }
}

/// `s` without trailing whitespace (`str::trim_end`).
pub open spec fn trim_end(s: Seq<char>) -> Seq<char>
    decreases s.len(),
{
    if s.len() > 0 && is_ws(s.last()) {
        trim_end(s.drop_last())
    } else {
        s
    }
}

/// `s` without leading and trailing whitespace (`str::trim`).
pub open spec fn trim(s: Seq<char>) -> Seq<char> {
    trim_end(trim_start(s))
}

/// Whether every character of `s` is whitespace.
pub open spec fn is_blank(s: Seq<char>) -> bool {
    forall|i: int| 0 <= i < s.len() ==> is_ws(#[trigger] s[i])
}

pub proof fn lemma_trim_start_skip(s: Seq<char>, lo: int)
    requires
        0 <= lo <= s.len(),
        forall|j: int| 0 <= j < lo ==> is_ws(#[trigger] s[j]),
    ensures
        trim_start(s) == trim_start(s.subrange(lo, s.len() as int)),
    decreases lo,
{
    if lo > 0 {
        assert(is_ws(s[0]));
        let t = s.drop_first();
        assert forall|j: int| 0 <= j < lo - 1 implies is_ws(#[trigger] t[j]) by {
            assert(t[j] == s[j + 1]);
        }
        lemma_trim_start_skip(t, lo - 1);
        assert(t.subrange(lo - 1, t.len() as int) =~= s.subrange(lo, s.len() as int));
    } else {
        assert(s.subrange(0, s.len() as int) =~= s);
    }
}

pub proof fn lemma_trim_end_skip(s: Seq<char>, hi: int)
    requires
        0 <= hi <= s.len(),
        forall|j: int| hi <= j < s.len() ==> is_ws(#[trigger] s[j]),
    ensures
        trim_end(s) == trim_end(s.subrange(0, hi)),
    decreases s.len() - hi,
{
    if hi < s.len() {
        assert(is_ws(s.last()));
        let t = s.drop_last();
        assert forall|j: int| hi <= j < t.len() implies is_ws(#[trigger] t[j]) by {
            assert(t[j] == s[j]);
        }
        lemma_trim_end_skip(t, hi);
        assert(t.subrange(0, hi) =~= s.subrange(0, hi));
    } else {
        assert(s.subrange(0, hi) =~= s);
    }
}

/// `s` with surrounding whitespace removed.
pub fn trim_chars(s: &Vec<char>) -> (out: Vec<char>)
    ensures
        out@ == trim(s@),
{
    let mut lo: usize = 0;
    while lo < s.len() && is_whitespace(s[lo])
        invariant
            lo <= s.len(),
            forall|j: int| 0 <= j < lo ==> is_ws(#[trigger] s@[j]),
        decreases s.len() - lo,
    {
        lo = lo + 1;
    }
    let mut hi: usize = s.len();
    while hi > lo && is_whitespace(s[hi - 1])
        invariant
            lo <= hi <= s.len(),
            forall|j: int| hi <= j < s.len() ==> is_ws(#[trigger] s@[j]),
        decreases hi,
    {
        hi = hi - 1;
    }
    let mut out: Vec<char> = Vec::new();
    let mut k: usize = lo;
    while k < hi
        invariant
            lo <= k <= hi,
            hi <= s.len(),
            out@ =~= s@.subrange(lo as int, k as int),
        decreases hi - k,
    {
        out.push(s[k]);
        k = k + 1;
    }
    proof {
        lemma_trim_start_skip(s@, lo as int);
        let u = s@.subrange(lo as int, s@.len() as int);
        if lo < s.len() {
            assert(!is_ws(u[0]));
            assert(trim_start(u) == u);
        } else {
            assert(u.len() == 0);
        }
        assert forall|j: int| hi - lo <= j < u.len() implies is_ws(#[trigger] u[j]) by {
            assert(u[j] == s@[j + lo]);
        }
        lemma_trim_end_skip(u, hi - lo);
        let w = u.subrange(0, hi - lo);
        assert(w =~= s@.subrange(lo as int, hi as int));
        if hi > lo {
            assert(w.last() == s@[hi - 1]);
            assert(!is_ws(w.last()));
        }
        assert(trim_end(w) == w);
    }
    out
}

/// Whether `s` is empty or whitespace only (`s.trim().is_empty()`).
pub fn is_blank_str(s: &str) -> (b: bool)
    ensures
        b == is_blank(s@),
        b == (trim(s@).len() == 0),
{
    let v = chars_of(s);
    let mut i: usize = 0;
    while i < v.len()
        invariant
            i <= v.len(),
            v@ == s@,
            forall|j: int| 0 <= j < i ==> is_ws(#[trigger] v@[j]),
        decreases v.len() - i,
    {
        if !is_whitespace(v[i]) {
            proof {
                lemma_trim_start_skip(v@, i as int);
                let u = v@.subrange(i as int, v@.len() as int);
                assert(!is_ws(u[0]));
                lemma_trim_end_nonblank(u);
            }
            return false;
        }
        i = i + 1;
    }
    proof {
        lemma_trim_start_skip(v@, v@.len() as int);
        assert(v@.subrange(v@.len() as int, v@.len() as int).len() == 0);
    }
    true
}

pub proof fn lemma_trim_end_nonblank(u: Seq<char>)
    requires
        u.len() > 0,
        !is_ws(u[0]),
    ensures
        trim_end(u).len() > 0,
    decreases u.len(),
{
    if is_ws(u.last()) {
        assert(u.len() > 1);
        let t = u.drop_last();
        assert(t[0] == u[0]);
        lemma_trim_end_nonblank(t);
    }
}

/// The position of the first `c` in `s`.
pub open spec fn is_first(s: Seq<char>, c: char, i: int) -> bool {
    &&& 0 <= i < s.len()
    &&& s[i] == c
    &&& forall|j: int| 0 <= j < i ==> s[j] != c
}

/// `str::split_once(c)`: the text before and after the first `c`.
pub open spec fn split_once(s: Seq<char>, c: char) -> Option<(Seq<char>, Seq<char>)> {
    if exists|i: int| is_first(s, c, i) {
        let i = choose|i: int| is_first(s, c, i);
        Some((s.take(i), s.skip(i + 1)))
    } else {
        None
    }
}

/// Split `s` at its first `c`.
pub fn split_once_chars(s: &Vec<char>, c: char) -> (r: Option<(Vec<char>, Vec<char>)>)
    ensures
        match (r, split_once(s@, c)) {
            (None, None) => true,
            (Some((x, y)), Some((xs, ys))) => x@ == xs && y@ == ys,
            _ => false,
        },
{
    let mut i: usize = 0;
    while i < s.len()
        invariant
            i <= s.len(),
            forall|j: int| 0 <= j < i ==> s@[j] != c,
        decreases s.len() - i,
    {
        if s[i] == c {
            let mut before: Vec<char> = Vec::new();
            let mut k: usize = 0;
            while k < i
                invariant
                    k <= i < s.len(),
                    before@ =~= s@.take(k as int),
                decreases i - k,
            {
                before.push(s[k]);
                k = k + 1;
            }
            let mut after: Vec<char> = Vec::new();
            let mut k: usize = i + 1;
            while k < s.len()
                invariant
                    i + 1 <= k <= s.len(),
                    after@ =~= s@.subrange(i + 1, k as int),
                decreases s.len() - k,
            {
                after.push(s[k]);
                k = k + 1;
            }
            proof {
                assert(is_first(s@, c, i as int));
                let w = choose|w: int| is_first(s@, c, w);
                assert(w == i) by {
                    if w < i {
                        assert(s@[w] != c);
                    } else if w > i {
                        assert(s@[i as int] != c);
                    }
                }
                assert(after@ =~= s@.skip(i + 1));
            }
            return Some((before, after));
        }
        i = i + 1;
    }
    None
}

// ---------------------------------------------------------------------------
// Numbers
// ---------------------------------------------------------------------------

/// Whether `c` is an ASCII decimal digit.
pub open spec fn is_digit(c: char) -> bool {
    '0' <= c && c <= '9'
}

/// The value of a digit character.
pub open spec fn digit_value(c: char) -> nat {
    (c as nat - '0' as nat) as nat
}

/// The value of a run of decimal digits.
pub open spec fn digits_value(s: Seq<char>) -> nat
    decreases s.len(),
{
    if s.len() == 0 {
        0
    } else {
        digits_value(s.drop_last()) * 10 + digit_value(s.last())
    }
}

/// The digit part of an unsigned literal: `FromStr` for unsigned integers
/// accepts one optional leading `+`.
pub open spec fn unsigned_digits(s: Seq<char>) -> Seq<char> {
    if s.len() > 0 && s[0] == '+' {
        s.drop_first()
    } else {
        s
    }
}

/// `FromStr` for an unsigned integer whose largest value is `max`: an
/// optional `+` followed by one or more ASCII digits whose value is at most
/// `max`; anything else is rejected.
pub open spec fn parse_unsigned(s: Seq<char>, max: nat) -> Option<nat> {
    let d = unsigned_digits(s);
    if d.len() > 0 && (forall|i: int| 0 <= i < d.len() ==> is_digit(#[trigger] d[i]))
        && digits_value(d) <= max {
        Some(digits_value(d))
    } else {
        None
    }
}

/// `s.parse::<u64>().unwrap_or(0)`.
pub open spec fn u64_or_zero(s: Seq<char>) -> u64 {
    match parse_unsigned(s, u64::MAX as nat) {
        Some(v) => v as u64,
        None => 0,
    }
}

pub proof fn lemma_digits_value_monotone(s: Seq<char>, k: int)
    requires
        0 <= k <= s.len(),
    ensures
        digits_value(s.take(k)) <= digits_value(s),
    decreases s.len(),
{
    if k < s.len() {
        let t = s.drop_last();
        lemma_digits_value_monotone(t, k);
        assert(t.take(k) =~= s.take(k));
    } else {
        assert(s.take(k) =~= s);
    }
}

/// `s.parse::<u64>()` as an option.
pub fn parse_u64(s: &Vec<char>) -> (r: Option<u64>)
    ensures
        match parse_unsigned(s@, u64::MAX as nat) {
            Some(v) => r == Some(v as u64),
            None => r.is_none(),
        },
{
    let start: usize = if s.len() > 0 && s[0] == '+' { 1 } else { 0 };
    let ghost d = unsigned_digits(s@);
    proof {
        assert(d =~= s@.subrange(start as int, s@.len() as int));
    }
    if start >= s.len() {
        return None;
    }
    let mut acc: u64 = 0;
    let mut i: usize = start;
    while i < s.len()
        invariant
            start <= i <= s.len(),
            start < s.len(),
            d == unsigned_digits(s@),
            d =~= s@.subrange(start as int, s@.len() as int),
            forall|j: int| 0 <= j < i - start ==> is_digit(#[trigger] d[j]),
            acc == digits_value(d.take(i - start)),
        decreases s.len() - i,
    {
        let c = s[i];
        if !('0' <= c && c <= '9') {
            proof {
                let j = i - start;
                assert(d[j] == c);
                assert(!is_digit(d[j]));
            }
            return None;
        }
        let dv: u64 = (c as u64) - ('0' as u64);
        let k = i - start;
        proof {
            assert(d[k as int] == c);
            let t = d.take(k + 1);
            assert(t.drop_last() =~= d.take(k as int));
            assert(t.last() == c);
            assert(digits_value(t) == acc * 10 + dv);
        }
        match acc.checked_mul(10) {
            None => {
                proof {
                    lemma_digits_value_monotone(d, k + 1);
                }
                return None;
            }
            Some(m) => match m.checked_add(dv) {
                None => {
                    proof {
                        assert(m == acc * 10);
                        assert(m + dv > u64::MAX);
                        lemma_digits_value_monotone(d, k + 1);
                        assert(digits_value(d) > u64::MAX);
                    }
                    return None;
                }
                Some(n) => {
                    acc = n;
                },
            },
        }
        i = i + 1;
    }
    proof {
        assert(d.take(d.len() as int) =~= d);
    }
    Some(acc)
}

/// `s.parse::<u64>().unwrap_or(0)`.
pub fn parse_u64_or_zero(s: &Vec<char>) -> (v: u64)
    ensures
        v == u64_or_zero(s@),
{
    match parse_u64(s) {
        Some(v) => v,
        None => 0,
    }
}

/// `s.parse::<u32>()` as an option.
pub fn parse_u32(s: &Vec<char>) -> (r: Option<u32>)
    ensures
        match parse_unsigned(s@, u32::MAX as nat) {
            Some(v) => r == Some(v as u32),
            None => r.is_none(),
        },
{
    match parse_u64(s) {
        Some(v) => if v <= u32::MAX as u64 {
            Some(v as u32)
        } else {
            None
        },
        None => None,
    }
}

/// The character of a digit value below ten.
pub open spec fn digit_char(d: nat) -> char {
    (d + '0' as nat) as char
}

/// Decimal rendering of `n` (`Display` for unsigned integers).
pub open spec fn decimal(n: nat) -> Seq<char>
    decreases n,
{
    if n < 10 {
        seq![digit_char(n)]
    } else {
        decimal(n / 10).push(digit_char(n % 10))
    }
}

/// Append the decimal rendering of `n` to `s`.
pub fn push_decimal(s: &mut String, n: u64)
    ensures
        final(s)@ == old(s)@ + decimal(n as nat),
    decreases n,
{
    if n >= 10 {
        push_decimal(s, n / 10);
    }
    let d: u8 = (n % 10) as u8;
    let c: char = (48u8 + d) as char;
    proof {
        assert(c == digit_char((n % 10) as nat));
    }
    s.push(c);
    proof {
        if n >= 10 {
            assert(final(s)@ =~= old(s)@ + decimal(n as nat));
        } else {
            assert(final(s)@ =~= old(s)@ + decimal(n as nat));
        }
    }
}

/// The decimal rendering of `n` as a `String`.
pub fn decimal_string(n: u64) -> (s: String)
    ensures
        s@ == decimal(n as nat),
{
    let mut s = String::new();
    push_decimal(&mut s, n);
    proof {
        assert(s@ =~= decimal(n as nat));
    }
    s
}

// ---------------------------------------------------------------------------
// Joining
// ---------------------------------------------------------------------------

/// The pieces joined with `sep` between consecutive pieces (`[T]::join`).
pub open spec fn join(pieces: Seq<Seq<char>>, sep: Seq<char>) -> Seq<char>
    decreases pieces.len(),
{
    if pieces.len() == 0 {
        Seq::<char>::empty()
    } else if pieces.len() == 1 {
        pieces[0]
    } else {
        join(pieces.drop_last(), sep) + sep + pieces.last()
    }
}

/// The views of a sequence of strings.
pub open spec fn string_views(v: Seq<String>) -> Seq<Seq<char>> {
    Seq::new(v.len(), |i: int| v[i]@)
}

/// Join `pieces` with `sep` between consecutive pieces.
pub fn join_strings(pieces: &Vec<String>, sep: &str) -> (s: String)
    ensures
        s@ == join(string_views(pieces@), sep@),
{
    let mut s = String::new();
    let mut i: usize = 0;
    while i < pieces.len()
        invariant
            i <= pieces.len(),
            s@ == join(string_views(pieces@).take(i as int), sep@),
        decreases pieces.len() - i,
    {
        let ghost t = string_views(pieces@).take(i + 1);
        proof {
            assert(t.drop_last() =~= string_views(pieces@).take(i as int));
            assert(t.last() == pieces@[i as int]@);
        }
        if i > 0 {
            push_str(&mut s, sep);
        }
        push_str(&mut s, pieces[i].as_str());
        proof {
            if i == 0 {
                assert(t.len() == 1);
                assert(s@ =~= t[0]);
            } else {
                assert(s@ =~= join(t.drop_last(), sep@) + sep@ + t.last());
            }
        }
        i = i + 1;
    }
    proof {
        assert(string_views(pieces@).take(pieces@.len() as int) =~= string_views(pieces@));
    }
    s
}

// ---------------------------------------------------------------------------
// Conversions between character vectors and strings
// ---------------------------------------------------------------------------

/// Whether two character vectors hold the same characters.
pub fn chars_equal(a: &Vec<char>, b: &Vec<char>) -> (r: bool)
    ensures
        r == (a@ == b@),
{
    if a.len() != b.len() {
        return false;
    }
    let mut i: usize = 0;
    while i < a.len()
        invariant
            i <= a.len(),
            a.len() == b.len(),
            forall|j: int| 0 <= j < i ==> a@[j] == b@[j],
        decreases a.len() - i,
    {
        if a[i] != b[i] {
            return false;
        }
        i = i + 1;
    }
    proof {
        assert(a@ =~= b@);
    }
    true
}

/// Whether the characters `a` spell out the text `b`.
pub fn chars_equal_str(a: &Vec<char>, b: &str) -> (r: bool)
    ensures
        r == (a@ == b@),
{
    let bv = chars_of(b);
    chars_equal(a, &bv)
}

/// Whether `a` begins with the text `prefix` (`str::starts_with`).
pub fn starts_with_str(a: &Vec<char>, prefix: &str) -> (r: bool)
    ensures
        r == (prefix@.len() <= a@.len() && a@.take(prefix@.len() as int) == prefix@),
{
    let p = chars_of(prefix);
    if p.len() > a.len() {
        return false;
    }
    let mut i: usize = 0;
    while i < p.len()
        invariant
            i <= p.len() <= a.len(),
            p@ == prefix@,
            forall|j: int| 0 <= j < i ==> a@[j] == p@[j],
        decreases p.len() - i,
    {
        if a[i] != p[i] {
            proof {
                assert(a@.take(p@.len() as int)[i as int] != p@[i as int]);
            }
            return false;
        }
        i = i + 1;
    }
    proof {
        assert(a@.take(p@.len() as int) =~= p@);
    }
    true
}

/// One `String` per character vector, in order.
pub fn strings_of(v: &Vec<Vec<char>>) -> (out: Vec<String>)
    ensures
        string_views(out@) == views(v@),
{
    let mut out: Vec<String> = Vec::new();
    let mut i: usize = 0;
    while i < v.len()
        invariant
            i <= v.len(),
            string_views(out@) =~= views(v@).take(i as int),
        decreases v.len() - i,
    {
        let s = string_of(v[i].as_slice());
        let ghost before = string_views(out@);
        out.push(s);
        proof {
            assert(string_views(out@) =~= before.push(v@[i as int]@));
            assert(views(v@).take(i + 1) =~= views(v@).take(i as int).push(v@[i as int]@));
        }
        i = i + 1;
    }
    proof {
        assert(views(v@).take(v@.len() as int) =~= views(v@));
    }
    out
}

// ---------------------------------------------------------------------------
// Ordering
// ---------------------------------------------------------------------------

/// Strict lexicographic order by code point, which is the order `String`'s
/// `Ord` gives (UTF-8 byte order agrees with code point order).
pub open spec fn lex_lt(a: Seq<char>, b: Seq<char>) -> bool
    decreases a.len(),
{
    if a.len() == 0 {
        b.len() > 0
    } else if b.len() == 0 {
        false
    } else if a[0] < b[0] {
        true
    } else if a[0] > b[0] {
        false
    } else {
        lex_lt(a.drop_first(), b.drop_first())
    }
}

/// Every element is strictly smaller than every later one (so the elements
/// are also distinct).
pub open spec fn strictly_sorted(s: Seq<Seq<char>>) -> bool {
    forall|i: int, j: int| 0 <= i < j < s.len() ==> lex_lt(#[trigger] s[i], #[trigger] s[j])
}

pub proof fn lemma_lex_irreflexive(a: Seq<char>)
    ensures
        !lex_lt(a, a),
    decreases a.len(),
{
    if a.len() > 0 {
        lemma_lex_irreflexive(a.drop_first());
    }
}

pub proof fn lemma_lex_transitive(a: Seq<char>, b: Seq<char>, c: Seq<char>)
    requires
        lex_lt(a, b),
        lex_lt(b, c),
    ensures
        lex_lt(a, c),
    decreases a.len(),
{
    if a.len() > 0 && b.len() > 0 && c.len() > 0 {
        if a[0] == b[0] && b[0] == c[0] {
            lemma_lex_transitive(a.drop_first(), b.drop_first(), c.drop_first());
        }
    }
}

pub proof fn lemma_lex_total(a: Seq<char>, b: Seq<char>)
    requires
        a != b,
    ensures
        lex_lt(a, b) || lex_lt(b, a),
    decreases a.len(),
{
    if a.len() > 0 && b.len() > 0 && a[0] == b[0] {
        if a.drop_first() == b.drop_first() {
            assert(a =~= seq![a[0]] + a.drop_first());
            assert(b =~= seq![b[0]] + b.drop_first());
        }
        lemma_lex_total(a.drop_first(), b.drop_first());
    } else if a.len() == 0 && b.len() == 0 {
        assert(a =~= b);
    }
}

/// Whether `a` comes strictly before `b`.
pub fn chars_lt(a: &Vec<char>, b: &Vec<char>) -> (r: bool)
    ensures
        r == lex_lt(a@, b@),
{
    let mut i: usize = 0;
    proof {
        assert(a@.skip(0) =~= a@);
        assert(b@.skip(0) =~= b@);
    }
    while i < a.len() && i < b.len()
        invariant
            i <= a.len(),
            i <= b.len(),
            lex_lt(a@, b@) == lex_lt(a@.skip(i as int), b@.skip(i as int)),
        decreases a.len() - i,
    {
        let x = a[i];
        let y = b[i];
        proof {
            assert(a@.skip(i as int)[0] == a@[i as int]);
            assert(b@.skip(i as int)[0] == b@[i as int]);
        }
        if x < y {
            return true;
        }
        if x > y {
            return false;
        }
        proof {
            assert(a@.skip(i as int).drop_first() =~= a@.skip(i + 1));
            assert(b@.skip(i as int).drop_first() =~= b@.skip(i + 1));
        }
        i = i + 1;
    }
    i == a.len() && i < b.len()
}

/// Whether the string `s` comes strictly before the characters `xc`.
pub fn string_lt_chars(s: &String, xc: &Vec<char>) -> (r: bool)
    ensures
        r == lex_lt(s@, xc@),
{
    let sc = chars_of(s.as_str());
    chars_lt(&sc, xc)
}

/// Insert `x` into the strictly sorted `out`, unless it is already there.
pub fn insert_sorted_distinct(out: &mut Vec<String>, x: &str)
    requires
        strictly_sorted(string_views(old(out)@)),
    ensures
        strictly_sorted(string_views(final(out)@)),
        string_views(final(out)@).to_set() == string_views(old(out)@).to_set().insert(x@),
{
    let xc = chars_of(x);
    let mut j: usize = 0;
    while j < out.len() && string_lt_chars(&out[j], &xc)
        invariant
            j <= out.len(),
            xc@ == x@,
            forall|k: int| 0 <= k < j ==> lex_lt(#[trigger] out@[k]@, x@),
        decreases out.len() - j,
    {
        j = j + 1;
    }
    let ghost old_v = string_views(out@);
    if j < out.len() {
        let cj = chars_of(out[j].as_str());
        if chars_equal(&cj, &xc) {
            proof {
                assert(old_v[j as int] == x@);
                assert(old_v.to_set().insert(x@) =~= old_v.to_set());
            }
            return;
        }
    }
    proof {
        if j < out.len() {
            assert(!lex_lt(old_v[j as int], x@));
            assert(old_v[j as int] != x@);
            lemma_lex_total(old_v[j as int], x@);
            assert(lex_lt(x@, old_v[j as int]));
        }
    }
    let owned = x.to_owned();
    out.insert(j, owned);
    proof {
        let nv = string_views(out@);
        assert(nv =~= old_v.insert(j as int, x@));
        assert forall|p: int, q: int| 0 <= p < q < nv.len() implies lex_lt(
            #[trigger] nv[p],
            #[trigger] nv[q],
        ) by {
            if q == j {
                assert(nv[p] == old_v[p]);
            } else if p == j {
                assert(nv[q] == old_v[q - 1]);
                if q - 1 > j {
                    assert(lex_lt(old_v[j as int], old_v[q - 1]));
                    lemma_lex_transitive(x@, old_v[j as int], old_v[q - 1]);
                }
            } else {
                let pp = if p < j { p } else { p - 1 };
                let qq = if q < j { q } else { q - 1 };
                assert(nv[p] == old_v[pp]);
                assert(nv[q] == old_v[qq]);
            }
        }
        assert forall|y: Seq<char>| nv.to_set().contains(y) <==> old_v.to_set().insert(x@).contains(
            y,
        ) by {
            if nv.to_set().contains(y) {
                let k = choose|k: int| 0 <= k < nv.len() && nv[k] == y;
                if k != j {
                    let kk = if k < j { k } else { k - 1 };
                    assert(old_v[kk] == y);
                }
            }
            if old_v.to_set().contains(y) {
                let k = choose|k: int| 0 <= k < old_v.len() && old_v[k] == y;
                let kk = if k < j { k } else { k + 1 };
                assert(nv[kk] == y);
            }
            if y == x@ {
                assert(nv[j as int] == y);
            }
        }
        assert(nv.to_set() =~= old_v.to_set().insert(x@));
    }
}

} // verus!
