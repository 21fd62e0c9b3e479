//! The operations on text that names, tags and settings go through.

use vstd::prelude::*;
use vstd::string::*;

verus! {

/// The characters with the Unicode property White_Space.
pub open spec fn white_space(c: char) -> bool {
    ||| '\u{9}' <= c <= '\u{d}'
    ||| c == ' '
    ||| c == '\u{85}'
    ||| c == '\u{a0}'
    ||| c == '\u{1680}'
    ||| '\u{2000}' <= c <= '\u{200a}'
    ||| c == '\u{2028}'
    ||| c == '\u{2029}'
    ||| c == '\u{202f}'
    ||| c == '\u{205f}'
    ||| c == '\u{3000}'
}

/// Whether a character is white space, as `char::is_whitespace` says.
pub fn is_whitespace(c: char) -> (r: bool)
    ensures
        r == white_space(c),
{
    ('\u{9}' <= c && c <= '\u{d}') || c == ' ' || c == '\u{85}' || c == '\u{a0}' || c
        == '\u{1680}' || ('\u{2000}' <= c && c <= '\u{200a}') || c == '\u{2028}' || c
        == '\u{2029}' || c == '\u{202f}' || c == '\u{205f}' || c == '\u{3000}'
}

/// How many characters at the front of `s` are white space.
pub open spec fn leading_white(s: Seq<char>) -> nat
    decreases s.len(),
{
    if s.len() > 0 && white_space(s.first()) {
        1 + leading_white(s.drop_first())
    } else {
        0
    }
}

/// How many characters at the back of `s` are white space.
pub open spec fn trailing_white(s: Seq<char>) -> nat
    decreases s.len(),
{
    if s.len() > 0 && white_space(s.last()) {
        1 + trailing_white(s.drop_last())
    } else {
        0
    }
}

/// `s` without the white space at either end.
pub open spec fn trimmed(s: Seq<char>) -> Seq<char> {
    let front = s.skip(leading_white(s) as int);
    front.take(front.len() - trailing_white(front))
}

/// The characters of a string slice, in order.
fn chars_of(s: &str) -> (r: Vec<char>)
    ensures
        r@ == s@,
{
    let mut r: Vec<char> = Vec::new();
    for c in it: s.chars()
        invariant
            it.seq() == s@,
            r@ == s@.take(it.index() as int),
    {
        r.push(c);
        assert(s@.take(it.index() + 1) =~= s@.take(it.index() as int).push(c));
    }
    assert(s@.take(s@.len() as int) =~= s@);
    r
}

proof fn lemma_leading_white_bound(s: Seq<char>)
    ensures
        leading_white(s) <= s.len(),
    decreases s.len(),
{
    if s.len() > 0 && white_space(s.first()) {
        lemma_leading_white_bound(s.drop_first());
    }
}

proof fn lemma_trailing_white_bound(s: Seq<char>)
    ensures
        trailing_white(s) <= s.len(),
    decreases s.len(),
{
    if s.len() > 0 && white_space(s.last()) {
        lemma_trailing_white_bound(s.drop_last());
    }
}

/// `s` without the white space at either end, as `str::trim` gives it.
pub fn trim(s: &str) -> (r: &str)
    ensures
        r@ == trimmed(s@),
{
    let cs = chars_of(s);
    let n: usize = cs.len();
    let mut start: usize = 0;
    assert(s@.skip(0) =~= s@);
    while start < n && is_whitespace(cs[start])
        invariant
            start <= n == cs@.len(),
            cs@ == s@,
            leading_white(s@) == start + leading_white(s@.skip(start as int)),
        ensures
            start <= n,
            start == n || !white_space(s@[start as int]),
            leading_white(s@) == start + leading_white(s@.skip(start as int)),
        decreases n - start,
    {
        assert(s@.skip(start as int).drop_first() =~= s@.skip(start + 1));
        start = start + 1;
    }
    let ghost front = s@.skip(start as int);
    proof {
        lemma_leading_white_bound(s@.skip(start as int));
        lemma_trailing_white_bound(front);
        assert(leading_white(front) == 0);
        assert(front == s@.skip(leading_white(s@) as int));
    }
    let mut end: usize = n;
    assert(front.take(end - start) =~= front);
    while end > start && is_whitespace(cs[end - 1])
        invariant
            start <= end <= n == cs@.len(),
            cs@ == s@,
            front == s@.skip(start as int),
            trailing_white(front) == (n - end) + trailing_white(front.take(end - start)),
        ensures
            start <= end <= n,
            end == start || !white_space(s@[end - 1]),
            trailing_white(front) == (n - end) + trailing_white(front.take(end - start)),
        decreases end,
    {
        assert(front.take(end - start).last() == s@[end - 1]);
        assert(front.take(end - start).drop_last() =~= front.take(end - 1 - start));
        end = end - 1;
    }
    assert(trailing_white(front.take(end - start)) == 0) by {
        if end > start {
            assert(front.take(end - start).last() == s@[end - 1]);
        }
    }
    assert(s@.subrange(start as int, end as int) =~= trimmed(s@));
    s.substring_char(start, end)
}

/// How often `c` stands at the front of `s` before anything else.
pub open spec fn leading_count(s: Seq<char>, c: char) -> nat
    decreases s.len(),
{
    if s.len() > 0 && s.first() == c {
        1 + leading_count(s.drop_first(), c)
    } else {
        0
    }
}

/// `s` without the run of `c` at its front, as `str::trim_start_matches` gives it.
pub fn trim_start_matches(s: &str, c: char) -> (r: &str)
    ensures
        r@ == s@.skip(leading_count(s@, c) as int),
{
    let cs = chars_of(s);
    let n: usize = cs.len();
    let mut start: usize = 0;
    assert(s@.skip(0) =~= s@);
    while start < n && cs[start] == c
        invariant
            start <= n == cs@.len(),
            cs@ == s@,
            leading_count(s@, c) == start + leading_count(s@.skip(start as int), c),
        ensures
            start <= n,
            start == n || s@[start as int] != c,
            leading_count(s@, c) == start + leading_count(s@.skip(start as int), c),
        decreases n - start,
    {
        assert(s@.skip(start as int).drop_first() =~= s@.skip(start + 1));
        start = start + 1;
    }
    assert(leading_count(s@.skip(start as int), c) == 0);
    assert(s@.subrange(start as int, n as int) =~= s@.skip(start as int));
    s.substring_char(start, n)
}

/// `part` stands in `s` from position `at` on.
pub open spec fn occurs_at(s: Seq<char>, part: Seq<char>, at: int) -> bool {
    0 <= at && at + part.len() <= s.len() && s.subrange(at, at + part.len()) == part
}

/// `part` stands somewhere in `s`.
pub open spec fn occurs(s: Seq<char>, part: Seq<char>) -> bool {
    exists|at: int| occurs_at(s, part, at)
}

/// Whether `part` stands somewhere in `s`, as `str::contains` says.
pub fn contains(s: &str, part: &str) -> (r: bool)
    ensures
        r == occurs(s@, part@),
{
    let cs = chars_of(s);
    let ps = chars_of(part);
    let n: usize = cs.len();
    let m: usize = ps.len();
    if m > n {
        return false;
    }
    let mut at: usize = 0;
    while at <= n - m
        invariant
            cs@ == s@,
            ps@ == part@,
            n == cs@.len(),
            m == ps@.len(),
            m <= n,
            at <= n - m + 1,
            forall|k: int| 0 <= k < at ==> !occurs_at(s@, part@, k),
        decreases n - at,
    {
        let mut i: usize = 0;
        while i < m && cs[at + i] == ps[i]
            invariant
                cs@ == s@,
                ps@ == part@,
                n == cs@.len(),
                m == ps@.len(),
                at + m <= n,
                i <= m,
                forall|k: int| 0 <= k < i ==> s@[at + k] == part@[k],
            ensures
                i <= m,
                forall|k: int| 0 <= k < i ==> s@[at + k] == part@[k],
                i < m ==> s@[at + i] != part@[i as int],
            decreases m - i,
        {
            i = i + 1;
        }
        if i == m {
            assert(s@.subrange(at as int, at + m) =~= part@);
            assert(occurs_at(s@, part@, at as int));
            return true;
        }
        assert(!occurs_at(s@, part@, at as int)) by {
            if occurs_at(s@, part@, at as int) {
                assert(s@.subrange(at as int, at + m)[i as int] == s@[at + i]);
            }
        }
        at = at + 1;
    }
    assert forall|k: int| !occurs_at(s@, part@, k) by {}
    false
}

/// A character with the ASCII capitals lowered.
pub open spec fn ascii_lower(c: char) -> char {
    if 'A' <= c <= 'Z' {
        (c as u8 + 32) as char
    } else {
        c
    }
}

/// `a` and `b` differ at most in the case of ASCII letters.
pub open spec fn same_ignoring_ascii_case(a: Seq<char>, b: Seq<char>) -> bool {
    a.map_values(|c: char| ascii_lower(c)) == b.map_values(|c: char| ascii_lower(c))
}

fn to_ascii_lowercase(c: char) -> (r: char)
    ensures
        r == ascii_lower(c),
{
    if 'A' <= c && c <= 'Z' {
        (c as u8 + 32) as char
    } else {
        c
    }
}

/// Whether `a` and `b` differ at most in the case of ASCII letters, as
/// `str::eq_ignore_ascii_case` says.
pub fn eq_ignore_ascii_case(a: &str, b: &str) -> (r: bool)
    ensures
        r == same_ignoring_ascii_case(a@, b@),
{
    let xs = chars_of(a);
    let ys = chars_of(b);
    let n: usize = xs.len();
    let ghost la = a@.map_values(|c: char| ascii_lower(c));
    let ghost lb = b@.map_values(|c: char| ascii_lower(c));
    if ys.len() != n {
        assert(la.len() != lb.len());
        return false;
    }
    let mut i: usize = 0;
    while i < n
        invariant
            xs@ == a@,
            ys@ == b@,
            n == xs@.len() == ys@.len(),
            i <= n,
            la == a@.map_values(|c: char| ascii_lower(c)),
            lb == b@.map_values(|c: char| ascii_lower(c)),
            forall|k: int| 0 <= k < i ==> la[k] == lb[k],
        decreases n - i,
    {
        if to_ascii_lowercase(xs[i]) != to_ascii_lowercase(ys[i]) {
            assert(la[i as int] != lb[i as int]);
            return false;
        }
        i = i + 1;
    }
    assert(la =~= lb);
    true
}

/// Whether two string slices hold the same text.
pub fn same_text(a: &str, b: &str) -> (r: bool)
    ensures
        r == (a@ == b@),
{
    a.to_owned() == b.to_owned()
}

proof fn lemma_leading_white_run(front: Seq<char>, rest: Seq<char>)
    requires
        forall|i: int| 0 <= i < front.len() ==> white_space(#[trigger] front[i]),
        rest.len() > 0 ==> !white_space(rest[0]),
    ensures
        leading_white(front + rest) == front.len(),
    decreases front.len(),
{
    let s = front + rest;
    if front.len() > 0 {
        assert(s[0] == front[0]);
        assert(s.drop_first() =~= front.drop_first() + rest);
        lemma_leading_white_run(front.drop_first(), rest);
    } else {
        assert(s =~= rest);
    }
}

proof fn lemma_trailing_white_run(rest: Seq<char>, back: Seq<char>)
    requires
        forall|i: int| 0 <= i < back.len() ==> white_space(#[trigger] back[i]),
        rest.len() > 0 ==> !white_space(rest.last()),
    ensures
        trailing_white(rest + back) == back.len(),
    decreases back.len(),
{
    let s = rest + back;
    if back.len() > 0 {
        assert(s.last() == back[back.len() - 1]);
        assert(s.drop_last() =~= rest + back.drop_last());
        lemma_trailing_white_run(rest, back.drop_last());
    } else {
        assert(s =~= rest);
    }
}

/// What stands between white space, and neither begins nor ends with any, is what trimming
/// leaves.
pub proof fn trimming_leaves_what_stands_between(front: Seq<char>, text: Seq<char>, back: Seq<char>)
    requires
        forall|i: int| 0 <= i < front.len() ==> white_space(#[trigger] front[i]),
        forall|i: int| 0 <= i < back.len() ==> white_space(#[trigger] back[i]),
        text.len() > 0 ==> !white_space(text[0]) && !white_space(text.last()),
    ensures
        trimmed(front + text + back) == text,
{
    let s = front + text + back;
    if text.len() == 0 {
        let white = front + back;
        assert(s =~= white + Seq::<char>::empty());
        assert forall|i: int| 0 <= i < white.len() implies white_space(#[trigger] white[i]) by {
            if i < front.len() {
                assert(white[i] == front[i]);
            } else {
                assert(white[i] == back[i - front.len()]);
            }
        }
        lemma_leading_white_run(white, Seq::empty());
        assert(s.skip(s.len() as int) =~= Seq::empty());
        assert(trimmed(s) =~= text);
    } else {
        let rest = text + back;
        assert(rest[0] == text[0]);
        assert(s =~= front + rest);
        lemma_leading_white_run(front, rest);
        assert(s.skip(front.len() as int) =~= rest);
        lemma_trailing_white_run(text, back);
        assert(trimmed(s) =~= text);
    }
}

/// A run of one character is as long as it is, up to the first other character.
pub proof fn runs_are_counted_whole(n: nat, c: char, rest: Seq<char>)
    requires
        rest.len() > 0 ==> rest[0] != c,
    ensures
        leading_count(Seq::new(n, |i: int| c) + rest, c) == n,
    decreases n,
{
    let run = Seq::new(n, |i: int| c);
    let s = run + rest;
    if n > 0 {
        let fewer = Seq::new((n - 1) as nat, |i: int| c);
        assert(s[0] == c);
        assert(s.drop_first() =~= fewer + rest);
        runs_are_counted_whole((n - 1) as nat, c, rest);
    } else {
        assert(s =~= rest);
    }
}

/// A part is found wherever it stands, whatever is before and behind it.
pub proof fn parts_are_found(front: Seq<char>, part: Seq<char>, back: Seq<char>)
    ensures
        occurs(front + part + back, part),
{
    let s = front + part + back;
    let at = front.len() as int;
    assert(s.subrange(at, at + part.len()) =~= part);
    assert(occurs_at(s, part, at));
}

/// What is found stands there.
pub proof fn what_is_found_stands_there(s: Seq<char>, part: Seq<char>) -> (r: (
    Seq<char>,
    Seq<char>,
))
    requires
        occurs(s, part),
    ensures
        s == r.0 + part + r.1,
{
    let at = choose|at: int| occurs_at(s, part, at);
    let front = s.take(at);
    let back = s.skip(at + part.len());
    assert(s =~= front + s.subrange(at, at + part.len()) + back);
    (front, back)
}

/// Case is ignored of the letters A to Z, and of nothing else: each character is the same, or
/// one is a capital and the other stands 32 places behind it.
pub proof fn case_is_ignored_of_ascii_letters_only(a: Seq<char>, b: Seq<char>)
    ensures
        same_ignoring_ascii_case(a, b) <==> a.len() == b.len() && forall|i: int|
            #![trigger a[i]]
            #![trigger b[i]]
            0 <= i < a.len() ==> a[i] == b[i] || ('A' <= a[i] <= 'Z' && b[i] as int == a[i] as int
                + 32) || ('A' <= b[i] <= 'Z' && a[i] as int == b[i] as int + 32),
{
    let la = a.map_values(|c: char| ascii_lower(c));
    let lb = b.map_values(|c: char| ascii_lower(c));
    if same_ignoring_ascii_case(a, b) {
        assert(la.len() == lb.len());
        assert forall|i: int|
            #![trigger a[i]]
            #![trigger b[i]]
            0 <= i < a.len() implies a[i] == b[i] || ('A' <= a[i] <= 'Z' && b[i] as int
            == a[i] as int + 32) || ('A' <= b[i] <= 'Z' && a[i] as int == b[i] as int + 32) by {
            assert(la[i] == lb[i]);
            assert(la[i] == ascii_lower(a[i]));
            assert(lb[i] == ascii_lower(b[i]));
        }
    }
    if a.len() == b.len() && forall|i: int|
        #![trigger a[i]]
        #![trigger b[i]]
        0 <= i < a.len() ==> a[i] == b[i] || ('A' <= a[i] <= 'Z' && b[i] as int == a[i] as int + 32)
            || ('A' <= b[i] <= 'Z' && a[i] as int == b[i] as int + 32) {
        assert forall|i: int| 0 <= i < la.len() implies la[i] == lb[i] by {
            assert(la[i] == ascii_lower(a[i]));
            assert(lb[i] == ascii_lower(b[i]));
        }
        assert(la =~= lb);
    }
}

} // verus!
