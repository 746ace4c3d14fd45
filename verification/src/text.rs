//! Character-level text helpers.
//!
//! Strings are viewed as sequences of Unicode scalar values. Every function
//! here states its result over that view.

use vstd::prelude::*;

verus! {

/// Outcome of comparing two texts.
#[derive(Clone, Copy, Debug, PartialEq, Eq, Structural)]
pub enum Rank {
    Before,
    Same,
    After,
}

/// `needle` occurs in `hay` starting at index `at`.
pub open spec fn occurs_at(hay: Seq<char>, needle: Seq<char>, at: int) -> bool {
    &&& 0 <= at
    &&& at + needle.len() <= hay.len()
    &&& hay.subrange(at, at + needle.len()) == needle
}

/// `needle` occurs somewhere in `hay`.
pub open spec fn has_substring(hay: Seq<char>, needle: Seq<char>) -> bool {
    exists|at: int| occurs_at(hay, needle, at)
}

/// The characters with the Unicode `White_Space` property.
pub open spec fn is_space(c: char) -> bool {
    let n = c as u32;
    ||| 0x09 <= n <= 0x0d
    ||| n == 0x20
    ||| n == 0x85
    ||| n == 0xa0
    ||| n == 0x1680
    ||| 0x2000 <= n <= 0x200a
    ||| n == 0x2028
    ||| n == 0x2029
    ||| n == 0x202f
    ||| n == 0x205f
    ||| n == 0x3000
}

/// A lower-case hexadecimal digit.
pub open spec fn is_lower_hex(c: char) -> bool {
    ('0' <= c && c <= '9') || ('a' <= c && c <= 'f')
}

/// A text made of white space only (the empty text included).
pub open spec fn is_blank_text(s: Seq<char>) -> bool {
    forall|i: int| 0 <= i < s.len() ==> is_space(#[trigger] s[i])
}

/// `s` without its longest suffix made of the character `c`.
pub open spec fn without_trailing(s: Seq<char>, c: char) -> Seq<char>
    decreases s.len(),
{
    if s.len() > 0 && s.last() == c {
        without_trailing(s.drop_last(), c)
    } else {
        s
    }
}

/// The character of a decimal digit `d` in `0..10`.
pub open spec fn digit_char(d: nat) -> char {
    (0x30 + d) as char
}

/// The decimal rendering of `n`, without sign or leading zeros.
pub open spec fn decimal(n: nat) -> Seq<char>
    decreases n,
{
    if n < 10 {
        seq![digit_char(n)]
    } else {
        decimal(n / 10).push(digit_char(n % 10))
    }
}

/// Lexicographic order by scalar value: `a` sorts strictly before `b`.
pub open spec fn lex_lt(a: Seq<char>, b: Seq<char>) -> bool
    decreases a.len(),
{
    if b.len() == 0 {
        false
    } else if a.len() == 0 {
        true
    } else if a[0] != b[0] {
        (a[0] as u32) < (b[0] as u32)
    } else {
        lex_lt(a.drop_first(), b.drop_first())
    }
}

/// The views of a sequence of strings.
pub open spec fn texts(v: Seq<String>) -> Seq<Seq<char>> {
    Seq::new(v.len(), |i: int| v[i]@)
}

/// The view of an optional string.
pub open spec fn opt_text(s: Option<String>) -> Option<Seq<char>> {
    match s {
        Some(t) => Some(t@),
        None => None,
    }
}

/// The views of a list of pairs of strings.
pub open spec fn pairs_model(pairs: Seq<(String, String)>) -> Seq<(Seq<char>, Seq<char>)> {
    Seq::new(pairs.len(), |i: int| (pairs[i].0@, pairs[i].1@))
}

/// A decimal digit.
pub open spec fn is_digit(c: char) -> bool {
    '0' <= c && c <= '9'
}

/// The lower-case form of an ASCII letter; any other character itself.
pub open spec fn lowered_char(c: char) -> char {
    if 'A' <= c && c <= 'Z' {
        ((c as u32) + 32) as char
    } else {
        c
    }
}

/// `s` with its ASCII letters in lower case.
pub open spec fn lowered_text(s: Seq<char>) -> Seq<char> {
    Seq::new(s.len(), |i: int| lowered_char(s[i]))
}

/// `needle` occurs in `hay`, whatever the case of the ASCII letters of
/// either.
pub open spec fn has_substring_ignoring_case(hay: Seq<char>, needle: Seq<char>) -> bool {
    has_substring(lowered_text(hay), lowered_text(needle))
}

/// Each text sorts strictly before the next.
pub open spec fn strictly_sorted(v: Seq<Seq<char>>) -> bool {
    forall|i: int, j: int| 0 <= i < j < v.len() ==> lex_lt(#[trigger] v[i], #[trigger] v[j])
}

/// The two sequences hold the same texts, whatever their order and number.
pub open spec fn same_members(a: Seq<Seq<char>>, b: Seq<Seq<char>>) -> bool {
    forall|s: Seq<char>| #![trigger a.contains(s)] #![trigger b.contains(s)] a.contains(s) <==> b.contains(s)
}

/// Distinct characters have distinct scalar values.
pub proof fn lemma_char_code(a: char, b: char)
    ensures
        (a as u32 == b as u32) ==> a == b,
{
}

/// No text sorts before itself.
pub proof fn lemma_lex_irreflexive(a: Seq<char>)
    ensures
        !lex_lt(a, a),
    decreases a.len(),
{
    if a.len() > 0 {
        lemma_lex_irreflexive(a.drop_first());
    }
}

/// What sorts before a text sorts before everything that the text sorts
/// before.
pub proof fn lemma_lex_transitive(a: Seq<char>, b: Seq<char>, c: Seq<char>)
    requires
        lex_lt(a, b),
        lex_lt(b, c),
    ensures
        lex_lt(a, c),
    decreases a.len(),
{
    if a.len() > 0 && a[0] == b[0] && b[0] == c[0] {
        lemma_lex_transitive(a.drop_first(), b.drop_first(), c.drop_first());
    }
}

/// Two different texts are ordered one way or the other.
pub proof fn lemma_lex_total(a: Seq<char>, b: Seq<char>)
    ensures
        a == b || lex_lt(a, b) || lex_lt(b, a),
    decreases a.len(),
{
    if a.len() > 0 && b.len() > 0 {
        lemma_char_code(a[0], b[0]);
    }
    if a.len() > 0 && b.len() > 0 && a[0] == b[0] {
        lemma_lex_total(a.drop_first(), b.drop_first());
        if a.drop_first() == b.drop_first() {
            assert(a =~= seq![a[0]] + a.drop_first());
            assert(b =~= seq![b[0]] + b.drop_first());
        }
    } else if a.len() == 0 && b.len() == 0 {
        assert(a =~= b);
    }
}

/// Lower case goes through a concatenation.
pub proof fn lemma_lowered_concat(a: Seq<char>, b: Seq<char>)
    ensures
        lowered_text(a + b) == lowered_text(a) + lowered_text(b),
{
    assert(lowered_text(a + b) =~= lowered_text(a) + lowered_text(b));
}

/// What a text holds, it holds whatever the case.
pub proof fn lemma_held_in_any_case(hay: Seq<char>, needle: Seq<char>)
    requires
        has_substring(hay, needle),
    ensures
        has_substring_ignoring_case(hay, needle),
{
    let at = choose|at: int| occurs_at(hay, needle, at);
    let low = lowered_text(hay);
    let part = hay.subrange(at, at + needle.len());
    assert(low.subrange(at, at + needle.len()) =~= lowered_text(part));
    assert(occurs_at(low, lowered_text(needle), at));
}

/// What a text holds, it still holds after another text is put before it.
pub proof fn lemma_held_after(before: Seq<char>, text: Seq<char>, needle: Seq<char>)
    requires
        has_substring(text, needle),
    ensures
        has_substring(before + text, needle),
{
    let at = choose|at: int| occurs_at(text, needle, at);
    let whole = before + text;
    assert(whole.subrange(before.len() + at, before.len() + at + needle.len()) =~= text.subrange(
        at,
        at + needle.len(),
    ));
    assert(occurs_at(whole, needle, before.len() + at));
}

/// The characters of `s`, for constant-time indexing.
pub fn chars_of(s: &str) -> (v: Vec<char>)
    ensures
        v@ == s@,
{
    let mut v: Vec<char> = Vec::new();
    for c in it: s.chars()
        invariant
            it.seq() == s@,
            v@ == it.seq().take(it.index() as int),
    {
        v.push(c);
    }
    assert(v@ =~= s@);
    v
}

/// Whether `c` is white space.
pub fn is_whitespace(c: char) -> (r: bool)
    ensures
        r == is_space(c),
{
    let n: u32 = c as u32;
    (0x09 <= n && n <= 0x0d) || n == 0x20 || n == 0x85 || n == 0xa0 || n == 0x1680 || (0x2000 <= n
        && n <= 0x200a) || n == 0x2028 || n == 0x2029 || n == 0x202f || n == 0x205f || n == 0x3000
}

/// Whether `s` holds nothing but white space.
pub fn is_blank(s: &str) -> (r: bool)
    ensures
        r == is_blank_text(s@),
{
    let v = chars_of(s);
    let mut i: usize = 0;
    while i < v.len()
        invariant
            i <= v.len(),
            v@ == s@,
            forall|k: int| 0 <= k < i ==> is_space(#[trigger] v@[k]),
        decreases v.len() - i,
    {
        if !is_whitespace(v[i]) {
            return false;
        }
        i += 1;
    }
    true
}

fn matches_at(hay: &Vec<char>, needle: &Vec<char>, at: usize) -> (r: bool)
    requires
        at + needle.len() <= hay.len(),
    ensures
        r == occurs_at(hay@, needle@, at as int),
{
    let mut j: usize = 0;
    while j < needle.len()
        invariant
            j <= needle.len(),
            at + needle.len() <= hay.len(),
            forall|k: int| 0 <= k < j ==> hay@[at + k] == needle@[k],
        decreases needle.len() - j,
    {
        if hay[at + j] != needle[j] {
            assert(hay@.subrange(at as int, at + needle@.len())[j as int] != needle@[j as int]);
            return false;
        }
        j += 1;
    }
    assert(hay@.subrange(at as int, at + needle@.len()) =~= needle@);
    true
}

/// Whether `s` begins with `prefix`.
pub fn starts_with(s: &str, prefix: &str) -> (r: bool)
    ensures
        r == prefix@.is_prefix_of(s@),
{
    let h = chars_of(s);
    let p = chars_of(prefix);
    if p.len() > h.len() {
        return false;
    }
    let r = matches_at(&h, &p, 0);
    proof {
        if r {
            assert(p@ =~= h@.subrange(0, p@.len() as int));
        }
    }
    r
}

fn holds(h: &Vec<char>, n: &Vec<char>) -> (r: bool)
    ensures
        r == has_substring(h@, n@),
{
    if n.len() > h.len() {
        return false;
    }
    let last: usize = h.len() - n.len();
    let mut at: usize = 0;
    loop
        invariant
            at <= last,
            last == h.len() - n.len(),
            n.len() <= h.len(),
            forall|k: int| 0 <= k < at ==> !occurs_at(h@, n@, k),
        decreases last - at,
    {
        if matches_at(h, n, at) {
            return true;
        }
        if at == last {
            return false;
        }
        at += 1;
    }
}

/// Whether `needle` occurs in `hay`.
pub fn contains(hay: &str, needle: &str) -> (r: bool)
    ensures
        r == has_substring(hay@, needle@),
{
    let h = chars_of(hay);
    let n = chars_of(needle);
    holds(&h, &n)
}

/// The lower-case form of an ASCII letter; any other character itself.
pub fn lower(c: char) -> (r: char)
    ensures
        r == lowered_char(c),
{
    if 'A' <= c && c <= 'Z' {
        let n: u8 = c as u8;
        let m: u8 = n + 32;
        m as char
    } else {
        c
    }
}

/// The characters of `s`, with its ASCII letters in lower case.
pub fn lowered_chars(s: &str) -> (v: Vec<char>)
    ensures
        v@ == lowered_text(s@),
{
    let mut v = chars_of(s);
    let mut i: usize = 0;
    while i < v.len()
        invariant
            i <= v.len(),
            v.len() == s@.len(),
            forall|k: int| 0 <= k < i ==> (#[trigger] v@[k]) == lowered_char(s@[k]),
            forall|k: int| i <= k < v.len() ==> (#[trigger] v@[k]) == s@[k],
        decreases v.len() - i,
    {
        let c = lower(v[i]);
        v.set(i, c);
        i += 1;
    }
    assert(v@ =~= lowered_text(s@));
    v
}

/// Whether `needle` occurs in `hay`, whatever the case of the ASCII
/// letters of either.
pub fn contains_ignoring_case(hay: &str, needle: &str) -> (r: bool)
    ensures
        r == has_substring_ignoring_case(hay@, needle@),
{
    let h = lowered_chars(hay);
    let n = lowered_chars(needle);
    holds(&h, &n)
}

/// Whether two texts hold the same characters.
pub fn same_text(a: &str, b: &str) -> (r: bool)
    ensures
        r == (a@ == b@),
{
    let x = chars_of(a);
    let y = chars_of(b);
    if x.len() != y.len() {
        return false;
    }
    let r = matches_at(&x, &y, 0);
    proof {
        assert(x@.subrange(0, x@.len() as int) =~= x@);
    }
    r
}

/// `s` without its trailing run of the character `c`.
pub fn trim_end_char(s: &str, c: char) -> (r: &str)
    ensures
        r@ == without_trailing(s@, c),
{
    let v = chars_of(s);
    let mut end: usize = v.len();
    proof {
        assert(s@.subrange(0, s@.len() as int) =~= s@);
    }
    while end > 0 && v[end - 1] == c
        invariant
            end <= v.len(),
            v@ == s@,
            without_trailing(s@, c) == without_trailing(s@.subrange(0, end as int), c),
        decreases end,
    {
        proof {
            let cur = s@.subrange(0, end as int);
            assert(cur.last() == c);
            assert(cur.drop_last() =~= s@.subrange(0, end - 1));
        }
        end -= 1;
    }
    s.substring_char(0, end)
}

/// Orders two texts lexicographically by scalar value.
pub fn compare(a: &str, b: &str) -> (r: Rank)
    ensures
        r == Rank::Before <==> lex_lt(a@, b@),
        r == Rank::Same <==> a@ == b@,
        r == Rank::After <==> lex_lt(b@, a@),
{
    let x = chars_of(a);
    let y = chars_of(b);
    let mut i: usize = 0;
    proof {
        assert(x@.subrange(0, x@.len() as int) =~= x@);
        assert(y@.subrange(0, y@.len() as int) =~= y@);
        assert(x@.subrange(0, 0) =~= y@.subrange(0, 0));
    }
    while i < x.len() && i < y.len()
        invariant
            i <= x.len(),
            i <= y.len(),
            x@ == a@,
            y@ == b@,
            x@.subrange(0, i as int) == y@.subrange(0, i as int),
            lex_lt(x@, y@) == lex_lt(x@.subrange(i as int, x@.len() as int), y@.subrange(i as int, y@.len() as int)),
            lex_lt(y@, x@) == lex_lt(y@.subrange(i as int, y@.len() as int), x@.subrange(i as int, x@.len() as int)),
        decreases x.len() - i,
    {
        let ghost xs = x@.subrange(i as int, x@.len() as int);
        let ghost ys = y@.subrange(i as int, y@.len() as int);
        proof {
            assert(xs[0] == x@[i as int]);
            assert(ys[0] == y@[i as int]);
            assert(xs.drop_first() =~= x@.subrange(i + 1, x@.len() as int));
            assert(ys.drop_first() =~= y@.subrange(i + 1, y@.len() as int));
        }
        let xc: char = x[i];
        let yc: char = y[i];
        let cx: u32 = xc as u32;
        let cy: u32 = yc as u32;
        proof {
            lemma_char_code(xc, yc);
        }
        if cx < cy {
            proof {
                assert(x@[i as int] != y@[i as int]);
                lemma_lex_irreflexive(a@);
                assert(a@ != b@) by {
                    if a@ == b@ {
                        assert(x@[i as int] == y@[i as int]);
                    }
                }
            }
            return Rank::Before;
        }
        if cx > cy {
            proof {
                assert(x@[i as int] != y@[i as int]);
                assert(a@ != b@) by {
                    if a@ == b@ {
                        assert(x@[i as int] == y@[i as int]);
                    }
                }
            }
            return Rank::After;
        }
        proof {
            assert(x@[i as int] == y@[i as int]);
            assert(x@.subrange(0, i + 1) =~= x@.subrange(0, i as int).push(x@[i as int]));
            assert(y@.subrange(0, i + 1) =~= y@.subrange(0, i as int).push(y@[i as int]));
        }
        i += 1;
    }
    let ghost xs = x@.subrange(i as int, x@.len() as int);
    let ghost ys = y@.subrange(i as int, y@.len() as int);
    if i < y.len() {
        proof {
            assert(xs.len() == 0);
            assert(a@.len() != b@.len());
        }
        Rank::Before
    } else if i < x.len() {
        proof {
            assert(ys.len() == 0);
            assert(a@.len() != b@.len());
        }
        Rank::After
    } else {
        proof {
            assert(x@ =~= x@.subrange(0, i as int));
            assert(y@ =~= y@.subrange(0, i as int));
            lemma_lex_irreflexive(a@);
        }
        Rank::Same
    }
}

/// Appends the decimal rendering of `n` to `out`.
pub fn push_decimal(out: &mut String, n: u64)
    ensures
        final(out)@ == old(out)@ + decimal(n as nat),
    decreases n,
{
    if n >= 10 {
        push_decimal(out, n / 10);
    }
    let d: usize = (n % 10) as usize;
    let digits = "0123456789";
    proof {
        reveal_strlit("0123456789");
    }
    let one = digits.substring_char(d, d + 1);
    proof {
        assert(one@ =~= seq![digit_char(d as nat)]);
        if n >= 10 {
            assert(old(out)@ + decimal((n / 10) as nat) + one@ =~= old(out)@ + decimal(
                n as nat,
            ));
        }
    }
    out.append(one);
}

/// The decimal rendering of `n`.
pub fn to_decimal(n: u64) -> (r: String)
    ensures
        r@ == decimal(n as nat),
{
    let mut out = String::new();
    push_decimal(&mut out, n);
    assert(Seq::<char>::empty() + decimal(n as nat) =~= decimal(n as nat));
    out
}

/// Putting a text between its smaller and its larger neighbours keeps a
/// sequence strictly sorted.
pub proof fn lemma_insert_sorted(v: Seq<Seq<char>>, at: int, x: Seq<char>)
    requires
        strictly_sorted(v),
        0 <= at <= v.len(),
        forall|i: int| 0 <= i < at ==> lex_lt(#[trigger] v[i], x),
        at < v.len() ==> lex_lt(x, v[at]),
    ensures
        strictly_sorted(v.insert(at, x)),
{
    let w = v.insert(at, x);
    assert forall|i: int, j: int| 0 <= i < j < w.len() implies lex_lt(
        #[trigger] w[i],
        #[trigger] w[j],
    ) by {
        if j < at {
            assert(w[i] == v[i] && w[j] == v[j]);
        } else if j == at {
            assert(w[i] == v[i]);
        } else if i == at {
            assert(w[j] == v[j - 1]);
            if j - 1 > at {
                assert(lex_lt(v[at], v[j - 1]));
                lemma_lex_transitive(x, v[at], v[j - 1]);
            }
        } else if i < at {
            assert(w[i] == v[i] && w[j] == v[j - 1]);
        } else {
            assert(w[i] == v[i - 1] && w[j] == v[j - 1]);
        }
    }
}

/// Two strictly sorted sequences with the same members are equal.
pub proof fn lemma_sorted_unique(a: Seq<Seq<char>>, b: Seq<Seq<char>>)
    requires
        strictly_sorted(a),
        strictly_sorted(b),
        same_members(a, b),
    ensures
        a == b,
    decreases a.len(),
{
    if a.len() == 0 {
        if b.len() > 0 {
            assert(b.contains(b[0]));
            assert(a.contains(b[0]));
        }
        assert(a =~= b);
    } else {
        assert(a.contains(a[0]));
        assert(b.contains(a[0]));
        let kb = choose|k: int| 0 <= k < b.len() && b[k] == a[0];
        assert(b.contains(b[0]));
        assert(a.contains(b[0]));
        let ka = choose|k: int| 0 <= k < a.len() && a[k] == b[0];
        if kb > 0 {
            assert(lex_lt(b[0], b[kb]));
            if ka > 0 {
                assert(lex_lt(a[0], a[ka]));
                lemma_lex_transitive(a[0], b[0], a[0]);
            }
            lemma_lex_irreflexive(a[0]);
            assert(false);
        }
        let ra = a.drop_first();
        let rb = b.drop_first();
        assert forall|i: int, j: int| 0 <= i < j < ra.len() implies lex_lt(
            #[trigger] ra[i],
            #[trigger] ra[j],
        ) by {
            assert(ra[i] == a[i + 1] && ra[j] == a[j + 1]);
        }
        assert forall|i: int, j: int| 0 <= i < j < rb.len() implies lex_lt(
            #[trigger] rb[i],
            #[trigger] rb[j],
        ) by {
            assert(rb[i] == b[i + 1] && rb[j] == b[j + 1]);
        }
        assert forall|s: Seq<char>| ra.contains(s) <==> rb.contains(s) by {
            if ra.contains(s) {
                let k = choose|k: int| 0 <= k < ra.len() && ra[k] == s;
                assert(a[k + 1] == s);
                assert(a.contains(s));
                assert(b.contains(s));
                let m = choose|m: int| 0 <= m < b.len() && b[m] == s;
                if m == 0 {
                    assert(lex_lt(a[0], a[k + 1]));
                    lemma_lex_irreflexive(s);
                }
                assert(rb[m - 1] == s);
            }
            if rb.contains(s) {
                let k = choose|k: int| 0 <= k < rb.len() && rb[k] == s;
                assert(b[k + 1] == s);
                assert(b.contains(s));
                assert(a.contains(s));
                let m = choose|m: int| 0 <= m < a.len() && a[m] == s;
                if m == 0 {
                    assert(lex_lt(b[0], b[k + 1]));
                    lemma_lex_irreflexive(s);
                }
                assert(ra[m - 1] == s);
            }
        }
        lemma_sorted_unique(ra, rb);
        assert(a =~= seq![a[0]] + ra);
        assert(b =~= seq![b[0]] + rb);
    }
}

/// A sequence with `x` put in holds `x` and what it held before.
pub proof fn lemma_insert_members(v: Seq<Seq<char>>, at: int, x: Seq<char>)
    requires
        0 <= at <= v.len(),
    ensures
        forall|s: Seq<char>|
            #![trigger v.insert(at, x).contains(s)]
            v.insert(at, x).contains(s) <==> (v.contains(s) || s == x),
{
    let w = v.insert(at, x);
    assert forall|s: Seq<char>| #![trigger w.contains(s)] w.contains(s) <==> (v.contains(s) || s
        == x) by {
        if w.contains(s) {
            let k = choose|k: int| 0 <= k < w.len() && w[k] == s;
            if k < at {
                assert(v[k] == s);
            } else if k > at {
                assert(v[k - 1] == s);
            }
        }
        if v.contains(s) {
            let k = choose|k: int| 0 <= k < v.len() && v[k] == s;
            if k < at {
                assert(w[k] == s);
            } else {
                assert(w[k + 1] == s);
            }
        }
        if s == x {
            assert(w[at] == s);
        }
    }
}

/// Puts `item` at its place in the strictly sorted `out`, unless `out` holds
/// it already.
pub fn insert_unique(out: &mut Vec<String>, item: &str)
    requires
        strictly_sorted(texts(old(out)@)),
    ensures
        strictly_sorted(texts(final(out)@)),
        forall|s: Seq<char>|
            #![trigger texts(final(out)@).contains(s)]
            texts(final(out)@).contains(s) <==> (texts(old(out)@).contains(s) || s == item@),
{
    let ghost before = texts(out@);
    let mut at: usize = 0;
    let mut present = false;
    while at < out.len()
        invariant_except_break
            !present,
        invariant
            at <= out.len(),
            before == texts(out@),
            forall|k: int| 0 <= k < at ==> lex_lt(#[trigger] before[k], item@),
        ensures
            present ==> at < out.len() && before[at as int] == item@,
            !present && at < out.len() ==> lex_lt(item@, before[at as int]),
        decreases out.len() - at,
    {
        let r = compare(out[at].as_str(), item);
        assert(before[at as int] == out@[at as int]@);
        match r {
            Rank::Before => {
                at += 1;
            },
            Rank::Same => {
                present = true;
                break ;
            },
            Rank::After => {
                break ;
            },
        }
    }
    if present {
        proof {
            assert(before[at as int] == item@);
            assert(before.contains(item@));
            assert(texts(out@) == before);
            assert forall|s: Seq<char>|
                #![trigger texts(out@).contains(s)]
                texts(out@).contains(s) <==> (before.contains(s) || s == item@) by {
                if s == item@ {
                    assert(before.contains(s));
                }
            }
        }
    } else {
        out.insert(at, String::from_str(item));
        proof {
            let after = texts(out@);
            assert(after =~= before.insert(at as int, item@));
            lemma_insert_sorted(before, at as int, item@);
            lemma_insert_members(before, at as int, item@);
            assert forall|s: Seq<char>|
                #![trigger after.contains(s)]
                after.contains(s) <==> (before.contains(s) || s == item@) by {
                assert(before.insert(at as int, item@).contains(s) <==> (before.contains(s) || s
                    == item@));
            }
        }
    }
}

/// The texts of `items` in strictly ascending order, each once.
pub fn sorted_unique(items: &Vec<String>) -> (out: Vec<String>)
    ensures
        strictly_sorted(texts(out@)),
        same_members(texts(out@), texts(items@)),
{
    let mut out: Vec<String> = Vec::new();
    let mut i: usize = 0;
    while i < items.len()
        invariant
            i <= items.len(),
            strictly_sorted(texts(out@)),
            same_members(texts(out@), texts(items@).take(i as int)),
        decreases items.len() - i,
    {
        let ghost before = texts(out@);
        let ghost seen = texts(items@).take(i as int);
        insert_unique(&mut out, items[i].as_str());
        proof {
            let next = texts(items@).take(i + 1);
            let x = items@[i as int]@;
            assert(next =~= seen.push(x));
            assert forall|s: Seq<char>| texts(out@).contains(s) <==> next.contains(s) by {
                if next.contains(s) {
                    let k = choose|k: int| 0 <= k < next.len() && next[k] == s;
                    if k < i {
                        assert(seen[k] == s);
                        assert(seen.contains(s));
                    }
                }
                if seen.contains(s) {
                    let k = choose|k: int| 0 <= k < seen.len() && seen[k] == s;
                    assert(next[k] == s);
                }
                if s == x {
                    assert(next[i as int] == s);
                }
            }
        }
        i += 1;
    }
    proof {
        assert(texts(items@).take(items@.len() as int) =~= texts(items@));
    }
    out
}

/// Whether `items` holds the text `s`.
pub fn contains_text(items: &Vec<String>, s: &str) -> (r: bool)
    ensures
        r == texts(items@).contains(s@),
{
    let mut i: usize = 0;
    while i < items.len()
        invariant
            i <= items.len(),
            forall|k: int| 0 <= k < i ==> (#[trigger] texts(items@)[k]) != s@,
        decreases items.len() - i,
    {
        if same_text(items[i].as_str(), s) {
            assert(texts(items@)[i as int] == s@);
            return true;
        }
        i += 1;
    }
    false
}

/// The two texts joined.
pub fn joined(a: &str, b: &str) -> (r: String)
    ensures
        r@ == a@ + b@,
{
    let mut out = String::from_str(a);
    out.append(b);
    out
}

} // verus!
