//! Character-level text operations, stated over `Seq<char>`.
use vstd::prelude::*;

verus! {

broadcast use vstd::string::group_string_axioms;

/// The characters of `s`, in order.
pub fn chars_of(s: &str) -> (r: Vec<char>)
    ensures
        r@ == s@,
{
    let mut r: Vec<char> = Vec::new();
    for c in it: s.chars()
        invariant
            r@ == it.seq().take(it.index() as int),
            it.seq() == s@,
    {
        r.push(c);
    }
    r
}

/// Appends `c` to `s` (std's `String::push`): the text afterwards is the old text
/// followed by `c`.
#[verifier::external_body]
fn push_char(s: &mut String, c: char)
    ensures
        final(s)@ == old(s)@.push(c),
{
    s.push(c);
}

/// A `String` holding exactly the characters of `v`.
pub fn string_from_chars(v: &Vec<char>) -> (r: String)
    ensures
        r@ == v@,
{
    let mut r = String::new();
    let mut i: usize = 0;
    while i < v.len()
        invariant
            i <= v.len(),
            r@ == v@.take(i as int),
        decreases v.len() - i,
    {
        push_char(&mut r, v[i]);
        assert(v@.take(i as int).push(v@[i as int]) =~= v@.take(i + 1));
        i += 1;
    }
    assert(v@.take(v.len() as int) =~= v@);
    r
}

/// Appends all of `src` to `dst`.
pub fn extend_chars(dst: &mut Vec<char>, src: &Vec<char>)
    ensures
        final(dst)@ == old(dst)@ + src@,
{
    let mut i: usize = 0;
    while i < src.len()
        invariant
            i <= src.len(),
            dst@ == old(dst)@ + src@.take(i as int),
        decreases src.len() - i,
    {
        dst.push(src[i]);
        assert(src@.take(i as int).push(src@[i as int]) =~= src@.take(i + 1));
        i += 1;
    }
    assert(src@.take(src.len() as int) =~= src@);
}

/// `p` occurs in `s` starting at position `i`.
pub open spec fn occurs_at(s: Seq<char>, i: int, p: Seq<char>) -> bool {
    0 <= i && i + p.len() <= s.len() && s.subrange(i, i + p.len()) == p
}

/// `s` begins with `p`.
pub open spec fn starts_with(s: Seq<char>, p: Seq<char>) -> bool {
    occurs_at(s, 0, p)
}

/// `s` ends with `p`.
pub open spec fn ends_with(s: Seq<char>, p: Seq<char>) -> bool {
    occurs_at(s, s.len() - p.len(), p)
}

/// `p` occurs somewhere in `s` (the empty pattern occurs in every text).
pub open spec fn contains(s: Seq<char>, p: Seq<char>) -> bool {
    exists|i: int| occurs_at(s, i, p)
}

/// Whether `p` occurs in `s` at position `i`.
pub fn occurs_at_exec(s: &Vec<char>, i: usize, p: &Vec<char>) -> (r: bool)
    ensures
        r == occurs_at(s@, i as int, p@),
{
    if i > s.len() || p.len() > s.len() - i {
        return false;
    }
    let mut k: usize = 0;
    while k < p.len()
        invariant
            i + p.len() <= s.len(),
            k <= p.len(),
            forall|j: int| 0 <= j < k ==> s@[i + j] == p@[j],
        decreases p.len() - k,
    {
        if s[i + k] != p[k] {
            assert(s@.subrange(i as int, i + p.len())[k as int] != p@[k as int]);
            return false;
        }
        k += 1;
    }
    assert(s@.subrange(i as int, i + p.len()) =~= p@);
    true
}

/// Whether `s` begins with `p` (std's `str::starts_with` with a text pattern).
pub fn str_starts_with(s: &str, p: &str) -> (r: bool)
    ensures
        r == starts_with(s@, p@),
{
    let sv = chars_of(s);
    let pv = chars_of(p);
    occurs_at_exec(&sv, 0, &pv)
}

/// Whether `s` ends with `p` (std's `str::ends_with` with a text pattern).
pub fn str_ends_with(s: &str, p: &str) -> (r: bool)
    ensures
        r == ends_with(s@, p@),
{
    let sv = chars_of(s);
    let pv = chars_of(p);
    if pv.len() > sv.len() {
        return false;
    }
    occurs_at_exec(&sv, sv.len() - pv.len(), &pv)
}

/// Whether `p` occurs somewhere in `s`.
pub fn chars_contain(s: &Vec<char>, p: &Vec<char>) -> (r: bool)
    ensures
        r == contains(s@, p@),
{
    if p.len() > s.len() {
        assert forall|i: int| !occurs_at(s@, i, p@) by {}
        return false;
    }
    let last = s.len() - p.len();
    let mut i: usize = 0;
    loop
        invariant
            p.len() <= s.len(),
            last == s.len() - p.len(),
            i <= last,
            forall|j: int| 0 <= j < i ==> !occurs_at(s@, j, p@),
        ensures
            forall|j: int| 0 <= j <= last ==> !occurs_at(s@, j, p@),
        decreases last - i,
    {
        if occurs_at_exec(s, i, p) {
            return true;
        }
        if i == last {
            break;
        }
        i += 1;
    }
    assert forall|j: int| !occurs_at(s@, j, p@) by {
        if 0 <= j <= last {
        }
    }
    false
}

/// Whether `p` occurs somewhere in `s` (std's `str::contains` with a text pattern).
pub fn str_contains(s: &str, p: &str) -> (r: bool)
    ensures
        r == contains(s@, p@),
{
    let sv = chars_of(s);
    let pv = chars_of(p);
    chars_contain(&sv, &pv)
}

/// What std's `str::replace(s, p, r)` yields: every non-overlapping occurrence of
/// `p`, found from left to right, is replaced by `r`. The empty pattern matches
/// before every character and at the end.
pub open spec fn replace_spec(s: Seq<char>, p: Seq<char>, r: Seq<char>) -> Seq<char>
    decreases s.len(),
{
    if p.len() == 0 {
        if s.len() == 0 {
            r
        } else {
            r + seq![s[0]] + replace_spec(s.drop_first(), p, r)
        }
    } else if s.len() < p.len() {
        s
    } else if s.take(p.len() as int) == p {
        r + replace_spec(s.skip(p.len() as int), p, r)
    } else {
        seq![s[0]] + replace_spec(s.drop_first(), p, r)
    }
}

/// A text in which a non-empty pattern does not occur is left unchanged by
/// replacing that pattern.
pub proof fn lemma_replace_absent(s: Seq<char>, p: Seq<char>, r: Seq<char>)
    requires
        p.len() > 0,
        !contains(s, p),
    ensures
        replace_spec(s, p, r) == s,
    decreases s.len(),
{
    if s.len() < p.len() {
    } else {
        assert(!occurs_at(s, 0, p));
        assert(s.take(p.len() as int) =~= s.subrange(0, p.len() as int));
        let t = s.drop_first();
        assert forall|i: int| !occurs_at(t, i, p) by {
            if occurs_at(t, i, p) {
                assert(t.subrange(i, i + p.len()) =~= s.subrange(i + 1, i + 1 + p.len()));
                assert(occurs_at(s, i + 1, p));
            }
        }
        lemma_replace_absent(t, p, r);
        assert(seq![s[0]] + t =~= s);
    }
}

/// Replaces, in `s`, every non-overlapping occurrence of `p` (from left to right)
/// by `r`.
pub fn replace_chars(s: &Vec<char>, p: &Vec<char>, r: &Vec<char>) -> (res: Vec<char>)
    ensures
        res@ == replace_spec(s@, p@, r@),
{
    let mut acc: Vec<char> = Vec::new();
    let mut i: usize = 0;
    assert(s@.skip(0) =~= s@);
    if p.len() == 0 {
        while i < s.len()
            invariant
                p@.len() == 0,
                i <= s.len(),
                acc@ + replace_spec(s@.skip(i as int), p@, r@) == replace_spec(s@, p@, r@),
            decreases s.len() - i,
        {
            proof {
                assert(s@.skip(i as int).drop_first() =~= s@.skip(i + 1));
                assert(s@.skip(i as int)[0] == s@[i as int]);
            }
            extend_chars(&mut acc, r);
            acc.push(s[i]);
            proof {
                assert(acc@ + replace_spec(s@.skip(i + 1), p@, r@) =~= acc@.drop_last()
                    + seq![s@[i as int]] + replace_spec(s@.skip(i + 1), p@, r@));
            }
            i += 1;
        }
        assert(s@.skip(i as int).len() == 0);
        extend_chars(&mut acc, r);
        return acc;
    }
    assert(s@.skip(0) =~= s@);
    while i < s.len()
        invariant
            p@.len() > 0,
            i <= s.len(),
            acc@ + replace_spec(s@.skip(i as int), p@, r@) == replace_spec(s@, p@, r@),
        decreases s.len() - i,
    {
        let ghost rest = s@.skip(i as int);
        if occurs_at_exec(s, i, p) {
            proof {
                assert(rest.take(p.len() as int) =~= s@.subrange(i as int, i + p.len()));
                assert(rest.skip(p.len() as int) =~= s@.skip(i + p.len()));
            }
            extend_chars(&mut acc, r);
            i += p.len();
        } else {
            proof {
                assert(rest.drop_first() =~= s@.skip(i + 1));
                assert(rest[0] == s@[i as int]);
                if rest.len() >= p.len() {
                    assert(rest.take(p.len() as int) =~= s@.subrange(i as int, i + p.len()));
                } else {
                    assert(rest.drop_first().len() < p.len());
                    assert(seq![rest[0]] + rest.drop_first() =~= rest);
                }
            }
            acc.push(s[i]);
            proof {
                assert(acc@ + replace_spec(s@.skip(i + 1), p@, r@) =~= acc@.drop_last()
                    + (seq![s@[i as int]] + replace_spec(s@.skip(i + 1), p@, r@)));
            }
            i += 1;
        }
    }
    assert(s@.skip(i as int).len() == 0);
    assert(acc@ + s@.skip(i as int) =~= acc@);
    acc
}

/// std's `str::replace` with a text pattern.
pub fn str_replace(s: &str, p: &str, r: &str) -> (res: String)
    ensures
        res@ == replace_spec(s@, p@, r@),
{
    let sv = chars_of(s);
    let pv = chars_of(p);
    let rv = chars_of(r);
    let out = replace_chars(&sv, &pv, &rv);
    string_from_chars(&out)
}

/// Position of the first `c` in `s`, or `s.len()` where there is none.
pub open spec fn find_char(s: Seq<char>, c: char) -> nat
    decreases s.len(),
{
    if s.len() == 0 {
        0
    } else if s[0] == c {
        0
    } else {
        1 + find_char(s.drop_first(), c)
    }
}

/// `find_char` is the first position that holds `c`.
pub proof fn lemma_find_char(s: Seq<char>, c: char, k: int)
    requires
        0 <= k <= s.len(),
        forall|j: int| 0 <= j < k ==> s[j] != c,
        k == s.len() || s[k] == c,
    ensures
        find_char(s, c) == k,
    decreases s.len(),
{
    if s.len() > 0 && k > 0 {
        let t = s.drop_first();
        assert forall|j: int| 0 <= j < k - 1 implies t[j] != c by {
            assert(t[j] == s[j + 1]);
        }
        lemma_find_char(t, c, k - 1);
    }
}

/// What std's `str::split(c)` yields for a single-character separator: the pieces
/// between the separators, including empty ones at either end.
pub open spec fn split_spec(s: Seq<char>, c: char) -> Seq<Seq<char>>
    decreases s.len(),
{
    let k = find_char(s, c);
    if k >= s.len() {
        seq![s]
    } else {
        seq![s.take(k as int)] + split_spec(s.skip((k + 1) as int), c)
    }
}

/// Splits `s` at every `c`.
pub fn split_chars(s: &Vec<char>, c: char) -> (r: Vec<Vec<char>>)
    ensures
        r@.map_values(|v: Vec<char>| v@) == split_spec(s@, c),
{
    let mut r: Vec<Vec<char>> = Vec::new();
    let mut cur: Vec<char> = Vec::new();
    let mut start: usize = 0;
    let mut i: usize = 0;
    assert(s@.skip(0) =~= s@);
    while i < s.len()
        invariant
            start <= i <= s.len(),
            cur@ == s@.subrange(start as int, i as int),
            forall|j: int| start <= j < i ==> s@[j] != c,
            r@.map_values(|v: Vec<char>| v@) + split_spec(s@.skip(start as int), c) == split_spec(s@, c),
        decreases s.len() - i,
    {
        if s[i] == c {
            let ghost rest = s@.skip(start as int);
            proof {
                assert forall|j: int| 0 <= j < i - start implies rest[j] != c by {}
                lemma_find_char(rest, c, i - start);
                assert(rest.take(i - start) =~= cur@);
                assert(rest.skip(i - start + 1) =~= s@.skip(i + 1));
            }
            let ghost old_r = r@.map_values(|v: Vec<char>| v@);
            r.push(cur);
            proof {
                assert(r@.map_values(|v: Vec<char>| v@) =~= old_r.push(s@.subrange(start as int, i as int)));
                assert(old_r.push(s@.subrange(start as int, i as int)) + split_spec(s@.skip(i + 1), c)
                    =~= old_r + (seq![s@.subrange(start as int, i as int)] + split_spec(s@.skip(i + 1), c)));
            }
            cur = Vec::new();
            i += 1;
            start = i;
        } else {
            cur.push(s[i]);
            assert(cur@ =~= s@.subrange(start as int, i + 1));
            i += 1;
        }
    }
    let ghost rest = s@.skip(start as int);
    proof {
        assert forall|j: int| 0 <= j < rest.len() implies rest[j] != c by {}
        lemma_find_char(rest, c, rest.len() as int);
        assert(rest =~= cur@);
    }
    let ghost old_r = r@.map_values(|v: Vec<char>| v@);
    r.push(cur);
    assert(r@.map_values(|v: Vec<char>| v@) =~= old_r.push(rest));
    assert(old_r.push(rest) =~= old_r + seq![rest]);
    r
}

/// `s` without a final `'\r'`.
pub open spec fn strip_cr(s: Seq<char>) -> Seq<char> {
    if s.len() > 0 && s.last() == '\r' {
        s.drop_last()
    } else {
        s
    }
}

/// What std's `str::lines` yields: the text split at `'\n'`, each line without a
/// `'\r'` just before its `'\n'`, and no empty line after a final `'\n'`.
pub open spec fn lines_spec(s: Seq<char>) -> Seq<Seq<char>>
    decreases s.len(),
{
    if s.len() == 0 {
        seq![]
    } else {
        let k = find_char(s, '\n');
        if k >= s.len() {
            seq![s]
        } else {
            seq![strip_cr(s.take(k as int))] + lines_spec(s.skip((k + 1) as int))
        }
    }
}

/// The lines of `s`, as std's `str::lines` gives them.
pub fn lines_of(s: &Vec<char>) -> (r: Vec<Vec<char>>)
    ensures
        r@.map_values(|v: Vec<char>| v@) == lines_spec(s@),
{
    let mut r: Vec<Vec<char>> = Vec::new();
    let mut cur: Vec<char> = Vec::new();
    let mut start: usize = 0;
    let mut i: usize = 0;
    assert(s@.skip(0) =~= s@);
    while i < s.len()
        invariant
            start <= i <= s.len(),
            cur@ == s@.subrange(start as int, i as int),
            forall|j: int| start <= j < i ==> s@[j] != '\n',
            r@.map_values(|v: Vec<char>| v@) + lines_spec(s@.skip(start as int)) == lines_spec(s@),
        decreases s.len() - i,
    {
        if s[i] == '\n' {
            let ghost rest = s@.skip(start as int);
            proof {
                assert forall|j: int| 0 <= j < i - start implies rest[j] != '\n' by {}
                lemma_find_char(rest, '\n', i - start);
                assert(rest.take(i - start) =~= cur@);
                assert(rest.skip(i - start + 1) =~= s@.skip(i + 1));
            }
            let ghost old_r = r@.map_values(|v: Vec<char>| v@);
            if cur.len() > 0 && cur[cur.len() - 1] == '\r' {
                cur.pop();
            }
            assert(cur@ == strip_cr(s@.subrange(start as int, i as int)));
            r.push(cur);
            proof {
                let line = strip_cr(s@.subrange(start as int, i as int));
                assert(r@.map_values(|v: Vec<char>| v@) =~= old_r.push(line));
                assert(old_r.push(line) + lines_spec(s@.skip(i + 1)) =~= old_r + (seq![line]
                    + lines_spec(s@.skip(i + 1))));
            }
            cur = Vec::new();
            i += 1;
            start = i;
        } else {
            cur.push(s[i]);
            assert(cur@ =~= s@.subrange(start as int, i + 1));
            i += 1;
        }
    }
    let ghost rest = s@.skip(start as int);
    proof {
        assert forall|j: int| 0 <= j < rest.len() implies rest[j] != '\n' by {}
        lemma_find_char(rest, '\n', rest.len() as int);
        assert(rest =~= cur@);
    }
    if cur.len() > 0 {
        let ghost old_r = r@.map_values(|v: Vec<char>| v@);
        r.push(cur);
        assert(r@.map_values(|v: Vec<char>| v@) =~= old_r.push(rest));
        assert(old_r.push(rest) =~= old_r + seq![rest]);
    } else {
        assert(r@.map_values(|v: Vec<char>| v@) + lines_spec(rest) =~= r@.map_values(|v: Vec<char>| v@));
    }
    r
}

/// Whether `c` has Unicode's White_Space property (std's `char::is_whitespace`):
/// the control characters tab to carriage return, space, next line, no-break
/// space, ogham space mark, the spaces from en quad to hair space, line and
/// paragraph separators, narrow no-break space, medium mathematical space and
/// ideographic space.
pub open spec fn is_whitespace_char(c: char) -> bool {
    let n = c as u32;
    ||| 0x09 <= n <= 0x0D
    ||| n == 0x20
    ||| n == 0x85
    ||| n == 0xA0
    ||| n == 0x1680
    ||| 0x2000 <= n <= 0x200A
    ||| n == 0x2028
    ||| n == 0x2029
    ||| n == 0x202F
    ||| n == 0x205F
    ||| n == 0x3000
}

/// std's `char::is_whitespace`: its result is `is_whitespace_char(c)`.
#[verifier::external_body]
fn char_is_whitespace(c: char) -> (b: bool)
    ensures
        b == is_whitespace_char(c),
{
    c.is_whitespace()
}

/// `s` without the leading characters that satisfy `f`.
pub open spec fn trim_start_by(s: Seq<char>, f: spec_fn(char) -> bool) -> Seq<char>
    decreases s.len(),
{
    if s.len() > 0 && f(s[0]) {
        trim_start_by(s.drop_first(), f)
    } else {
        s
    }
}

/// `s` without the trailing characters that satisfy `f`.
pub open spec fn trim_end_by(s: Seq<char>, f: spec_fn(char) -> bool) -> Seq<char>
    decreases s.len(),
{
    if s.len() > 0 && f(s.last()) {
        trim_end_by(s.drop_last(), f)
    } else {
        s
    }
}

/// `s` without the characters that satisfy `f` at either end.
pub open spec fn trim_by(s: Seq<char>, f: spec_fn(char) -> bool) -> Seq<char> {
    trim_end_by(trim_start_by(s, f), f)
}

/// The whitespace test as a predicate.
pub open spec fn whitespace_pred() -> spec_fn(char) -> bool {
    |c: char| is_whitespace_char(c)
}

/// Whether `c` is numeric in Unicode's sense, as std's `char::is_numeric` reports it.
pub uninterp spec fn is_numeric_char(c: char) -> bool;

/// std's `char::is_numeric`: its result is `is_numeric_char(c)`.
#[verifier::external_body]
fn char_is_numeric(c: char) -> (b: bool)
    ensures
        b == is_numeric_char(c),
{
    c.is_numeric()
}

/// The test for a character that is not numeric, as a predicate.
pub open spec fn non_numeric_pred() -> spec_fn(char) -> bool {
    |c: char| !is_numeric_char(c)
}

/// The test for one character as a predicate.
pub open spec fn char_pred(c: char) -> spec_fn(char) -> bool {
    |x: char| x == c
}

/// What std's `str::trim` yields.
pub open spec fn trim_spec(s: Seq<char>) -> Seq<char> {
    trim_by(s, whitespace_pred())
}

/// What std's `str::trim_matches(c)` yields for a single character `c`.
pub open spec fn trim_char_spec(s: Seq<char>, c: char) -> Seq<char> {
    trim_by(s, char_pred(c))
}

proof fn lemma_trim_start_step(s: Seq<char>, i: int, f: spec_fn(char) -> bool)
    requires
        0 <= i < s.len(),
        f(s[i]),
    ensures
        trim_start_by(s.skip(i), f) == trim_start_by(s.skip(i + 1), f),
{
    assert(s.skip(i).drop_first() =~= s.skip(i + 1));
}

proof fn lemma_trim_end_step(s: Seq<char>, j: int, f: spec_fn(char) -> bool)
    requires
        0 < j <= s.len(),
        f(s[j - 1]),
    ensures
        trim_end_by(s.take(j), f) == trim_end_by(s.take(j - 1), f),
{
    assert(s.take(j).drop_last() =~= s.take(j - 1));
}

/// Which characters a trim removes.
pub enum TrimSet {
    Whitespace,
    Char(char),
    NonNumeric,
}

/// The predicate that a `TrimSet` stands for.
pub open spec fn trim_set_pred(m: TrimSet) -> spec_fn(char) -> bool {
    match m {
        TrimSet::Whitespace => whitespace_pred(),
        TrimSet::Char(c) => char_pred(c),
        TrimSet::NonNumeric => non_numeric_pred(),
    }
}

fn in_trim_set(m: &TrimSet, c: char) -> (b: bool)
    ensures
        b == trim_set_pred(*m)(c),
{
    match m {
        TrimSet::Whitespace => char_is_whitespace(c),
        TrimSet::Char(x) => c == *x,
        TrimSet::NonNumeric => !char_is_numeric(c),
    }
}

/// The bounds `(a, b)` such that `s[a..b]` is `s` trimmed of the characters of `m`.
fn trim_bounds(s: &Vec<char>, m: &TrimSet) -> (r: (usize, usize))
    ensures
        r.0 <= r.1 <= s.len(),
        s@.subrange(r.0 as int, r.1 as int) == trim_by(s@, trim_set_pred(*m)),
{
    let ghost f = trim_set_pred(*m);
    let mut a: usize = 0;
    assert(s@.skip(0) =~= s@);
    while a < s.len()
        invariant
            a <= s.len(),
            f == trim_set_pred(*m),
            trim_start_by(s@.skip(a as int), f) == trim_start_by(s@, f),
        ensures
            a <= s.len(),
            trim_start_by(s@.skip(a as int), f) == trim_start_by(s@, f),
            a == s.len() || !f(s@[a as int]),
        decreases s.len() - a,
    {
        if !in_trim_set(m, s[a]) {
            break;
        }
        proof { lemma_trim_start_step(s@, a as int, f); }
        a += 1;
    }
    let ghost rest = s@.skip(a as int);
    assert(rest.len() == 0 || !f(rest[0]));
    assert(trim_start_by(rest, f) == rest);
    let mut b: usize = s.len();
    assert(rest.take(rest.len() as int) =~= rest);
    while b > a
        invariant
            a <= b <= s.len(),
            rest == s@.skip(a as int),
            f == trim_set_pred(*m),
            trim_end_by(rest.take(b - a), f) == trim_end_by(rest, f),
        ensures
            a <= b <= s.len(),
            trim_end_by(rest.take(b - a), f) == trim_end_by(rest, f),
            b == a || !f(s@[b - 1]),
        decreases b - a,
    {
        if !in_trim_set(m, s[b - 1]) {
            break;
        }
        proof {
            assert(rest[b - a - 1] == s@[b - 1]);
            lemma_trim_end_step(rest, b - a, f);
        }
        b -= 1;
    }
    let ghost fin = rest.take(b - a);
    assert(fin.len() == 0 || !f(fin.last())) by {
        if fin.len() > 0 {
            assert(fin.last() == s@[b - 1]);
        }
    }
    assert(trim_end_by(fin, f) == fin);
    assert(fin =~= s@.subrange(a as int, b as int));
    (a, b)
}

/// The characters `s[a..b]`.
pub fn sub_chars(s: &Vec<char>, a: usize, b: usize) -> (r: Vec<char>)
    requires
        a <= b <= s.len(),
    ensures
        r@ == s@.subrange(a as int, b as int),
{
    let mut r: Vec<char> = Vec::new();
    let mut i = a;
    while i < b
        invariant
            a <= i <= b <= s.len(),
            r@ == s@.subrange(a as int, i as int),
        decreases b - i,
    {
        r.push(s[i]);
        assert(r@ =~= s@.subrange(a as int, i + 1));
        i += 1;
    }
    r
}

/// `s` without whitespace at either end (std's `str::trim`).
pub fn trim_chars(s: &Vec<char>) -> (r: Vec<char>)
    ensures
        r@ == trim_spec(s@),
{
    let (a, b) = trim_bounds(s, &TrimSet::Whitespace);
    sub_chars(s, a, b)
}

/// `s` without `c` at either end (std's `str::trim_matches(c)`).
pub fn trim_char_chars(s: &Vec<char>, c: char) -> (r: Vec<char>)
    ensures
        r@ == trim_char_spec(s@, c),
{
    let (a, b) = trim_bounds(s, &TrimSet::Char(c));
    sub_chars(s, a, b)
}

/// The lowercase form of a text, as std's `str::to_lowercase` computes it.
pub uninterp spec fn lowercase(s: Seq<char>) -> Seq<char>;

/// std's `str::to_lowercase`: its result is `lowercase(s@)`.
#[verifier::external_body]
pub(crate) fn to_lowercase(s: &str) -> (r: String)
    ensures
        r@ == lowercase(s@),
{
    s.to_lowercase()
}

/// The ASCII digit for `d < 10`.
pub open spec fn digit_char(d: nat) -> char {
    (48 + d) as char
}

/// The decimal digits of `n`, most significant first, without leading zeros.
pub open spec fn decimal(n: nat) -> Seq<char>
    decreases n,
{
    if n < 10 {
        seq![digit_char(n)]
    } else {
        decimal(n / 10) + seq![digit_char(n % 10)]
    }
}

/// How std's `Display` writes an integer: a `'-'` before the digits of a
/// negative number.
pub open spec fn decimal_int(n: int) -> Seq<char> {
    if n < 0 {
        seq!['-'] + decimal((-n) as nat)
    } else {
        decimal(n as nat)
    }
}

fn digit_of(d: u64) -> (c: char)
    requires
        d < 10,
    ensures
        c == digit_char(d as nat),
{
    if d == 0 { '0' } else if d == 1 { '1' } else if d == 2 { '2' } else if d == 3 { '3' }
    else if d == 4 { '4' } else if d == 5 { '5' } else if d == 6 { '6' } else if d == 7 { '7' }
    else if d == 8 { '8' } else { '9' }
}

/// The decimal digits of `n`.
pub fn decimal_chars(n: u64) -> (r: Vec<char>)
    ensures
        r@ == decimal(n as nat),
    decreases n,
{
    if n < 10 {
        let mut r: Vec<char> = Vec::new();
        r.push(digit_of(n));
        r
    } else {
        let mut r = decimal_chars(n / 10);
        r.push(digit_of(n % 10));
        r
    }
}

/// `n` written in decimal (what `format!("{}", n)` writes for an `i64`).
pub fn int_to_chars(n: i64) -> (r: Vec<char>)
    ensures
        r@ == decimal_int(n as int),
{
    if n < 0 {
        let m: u64 = if n == i64::MIN { 9223372036854775808u64 } else { (-n) as u64 };
        let mut r: Vec<char> = Vec::new();
        r.push('-');
        let d = decimal_chars(m);
        extend_chars(&mut r, &d);
        r
    } else {
        decimal_chars(n as u64)
    }
}

/// `n` written in decimal, as a `String`.
pub fn int_to_string(n: i64) -> (r: String)
    ensures
        r@ == decimal_int(n as int),
{
    let v = int_to_chars(n);
    string_from_chars(&v)
}

/// Whether `c` is one of `'0'..='9'`.
pub open spec fn is_ascii_digit(c: char) -> bool {
    '0' <= c <= '9'
}

/// The value of a string of ASCII digits.
pub open spec fn digits_value(s: Seq<char>) -> nat
    decreases s.len(),
{
    if s.len() == 0 {
        0
    } else {
        digits_value(s.drop_last()) * 10 + ((s.last() as nat) - 48) as nat
    }
}

/// `s` without one leading `'+'`.
pub open spec fn sign_stripped(s: Seq<char>) -> Seq<char> {
    if s.len() > 0 && s[0] == '+' {
        s.drop_first()
    } else {
        s
    }
}

/// Every character of `d` is an ASCII digit.
pub open spec fn all_digits(d: Seq<char>) -> bool {
    forall|i: int| 0 <= i < d.len() ==> is_ascii_digit(#[trigger] d[i])
}

/// What std's `u32::from_str` accepts and yields: an optional `'+'`, then one or
/// more ASCII digits whose value fits in a `u32`.
pub open spec fn parse_u32_spec(s: Seq<char>) -> Option<u32> {
    let d = sign_stripped(s);
    if d.len() > 0 && all_digits(d) && digits_value(d) <= u32::MAX {
        Some(digits_value(d) as u32)
    } else {
        None
    }
}

proof fn lemma_digits_value_monotone(s: Seq<char>, i: int)
    requires
        0 <= i <= s.len(),
        forall|j: int| 0 <= j < s.len() ==> is_ascii_digit(#[trigger] s[j]),
    ensures
        digits_value(s.take(i)) <= digits_value(s),
    decreases s.len() - i,
{
    if i < s.len() {
        lemma_digits_value_monotone(s, i + 1);
        assert(s.take(i + 1).drop_last() =~= s.take(i));
    } else {
        assert(s.take(i) =~= s);
    }
}

/// `s` without non-numeric characters at either end (std's
/// `str::trim_matches(|c| !c.is_numeric())`).
pub fn trim_non_numeric_chars(s: &Vec<char>) -> (r: Vec<char>)
    ensures
        r@ == trim_by(s@, non_numeric_pred()),
{
    let (a, b) = trim_bounds(s, &TrimSet::NonNumeric);
    sub_chars(s, a, b)
}

/// Parses `s` as std's `u32::from_str` does.
pub fn parse_u32(s: &Vec<char>) -> (r: Option<u32>)
    ensures
        r == parse_u32_spec(s@),
{
    let start: usize = if s.len() > 0 && s[0] == '+' { 1 } else { 0 };
    let ghost d = sign_stripped(s@);
    assert(d =~= s@.skip(start as int));
    if start >= s.len() {
        return None;
    }
    let mut value: u64 = 0;
    let mut i = start;
    while i < s.len()
        invariant
            start <= i <= s.len(),
            start < s.len(),
            d =~= s@.skip(start as int),
            d == sign_stripped(s@),
            value == digits_value(d.take(i - start)),
            value <= u32::MAX,
            forall|j: int| 0 <= j < i - start ==> is_ascii_digit(#[trigger] d[j]),
        decreases s.len() - i,
    {
        let c = s[i];
        if !('0' <= c && c <= '9') {
            assert(d[i - start] == c);
            assert(!is_ascii_digit(d[i - start]));
            assert(!all_digits(d));
            return None;
        }
        let dv = (c as u64) - 48;
        let next = value * 10 + dv;
        proof {
            assert(d.take(i - start + 1).drop_last() =~= d.take(i - start));
            assert(d.take(i - start + 1).last() == c);
        }
        if next > 4294967295u64 {
            proof {
                if all_digits(d) {
                    lemma_digits_value_monotone(d, i - start + 1);
                }
            }
            return None;
        }
        value = next;
        i += 1;
    }
    assert(d.take(i - start) =~= d);
    Some(value as u32)
}

/// Joins `parts` with `sep` between neighbours.
pub open spec fn join_spec(parts: Seq<Seq<char>>, sep: Seq<char>) -> Seq<char>
    decreases parts.len(),
{
    if parts.len() == 0 {
        seq![]
    } else if parts.len() == 1 {
        parts[0]
    } else {
        join_spec(parts.drop_last(), sep) + sep + parts.last()
    }
}

/// The texts of a vector of strings.
pub open spec fn texts(v: Seq<String>) -> Seq<Seq<char>> {
    v.map_values(|s: String| s@)
}

/// itertools' `join`: the items written one after another with `sep` between
/// neighbours, which for strings is `join_spec` of their texts.
#[verifier::external_body]
pub(crate) fn join_strings(parts: &Vec<String>, sep: &str) -> (r: String)
    ensures
        r@ == join_spec(texts(parts@), sep@),
{
    itertools::join(parts, sep)
}

/// The bounds `(0, b)` such that `s[0..b]` is `s` without trailing whitespace
/// (std's `str::trim_end`).
pub fn trim_end_bounds(s: &Vec<char>) -> (r: (usize, usize))
    ensures
        r.0 == 0,
        r.1 <= s.len(),
        s@.subrange(0, r.1 as int) == trim_end_by(s@, whitespace_pred()),
{
    let ghost f = whitespace_pred();
    let mut b: usize = s.len();
    assert(s@.take(s@.len() as int) =~= s@);
    while b > 0
        invariant
            b <= s.len(),
            f == whitespace_pred(),
            trim_end_by(s@.take(b as int), f) == trim_end_by(s@, f),
        ensures
            b <= s.len(),
            trim_end_by(s@.take(b as int), f) == trim_end_by(s@, f),
            b == 0 || !f(s@[b - 1]),
        decreases b,
    {
        if !char_is_whitespace(s[b - 1]) {
            break;
        }
        proof { lemma_trim_end_step(s@, b as int, f); }
        b -= 1;
    }
    let ghost fin = s@.take(b as int);
    assert(fin.len() == 0 || !f(fin.last())) by {
        if fin.len() > 0 {
            assert(fin.last() == s@[b - 1]);
        }
    }
    assert(trim_end_by(fin, f) == fin);
    assert(fin =~= s@.subrange(0, b as int));
    (0, b)
}


/// `c` occurs nowhere in `s`.
pub open spec fn no_char(s: Seq<char>, c: char) -> bool {
    forall|i: int| 0 <= i < s.len() ==> s[i] != c
}

/// Replacing a pattern that does not hold `c` acts on either side of a `c`
/// separately: no occurrence can span it.
pub proof fn lemma_replace_around(a: Seq<char>, c: char, b: Seq<char>, p: Seq<char>, r: Seq<char>)
    requires
        p.len() > 0,
        no_char(p, c),
    ensures
        replace_spec(a + seq![c] + b, p, r) == replace_spec(a, p, r) + seq![c] + replace_spec(b, p, r),
    decreases a.len(),
{
    let s = a + seq![c] + b;
    if s.len() < p.len() {
        lemma_replace_short(a, p, r);
        lemma_replace_short(b, p, r);
    } else if s.take(p.len() as int) == p {
        if p.len() > a.len() {
            assert(s.take(p.len() as int)[a.len() as int] == c);
            assert(p[a.len() as int] == c);
        }
        assert(a.take(p.len() as int) =~= s.take(p.len() as int));
        assert(s.skip(p.len() as int) =~= a.skip(p.len() as int) + seq![c] + b);
        lemma_replace_around(a.skip(p.len() as int), c, b, p, r);
        assert(replace_spec(a, p, r) == r + replace_spec(a.skip(p.len() as int), p, r));
        assert(r + (replace_spec(a.skip(p.len() as int), p, r) + seq![c] + replace_spec(b, p, r))
            =~= (r + replace_spec(a.skip(p.len() as int), p, r)) + seq![c] + replace_spec(b, p, r));
    } else if a.len() == 0 {
        assert(s =~= seq![c] + b);
        assert(s.drop_first() =~= b);
        assert(replace_spec(a, p, r) == a);
        assert(seq![s[0]] + replace_spec(b, p, r) =~= a + seq![c] + replace_spec(b, p, r));
    } else {
        assert(s.drop_first() =~= a.drop_first() + seq![c] + b);
        lemma_replace_around(a.drop_first(), c, b, p, r);
        if a.len() < p.len() {
            lemma_replace_short(a, p, r);
            lemma_replace_short(a.drop_first(), p, r);
            assert(seq![a[0]] + a.drop_first() =~= a);
        } else {
            assert(a.take(p.len() as int) =~= s.take(p.len() as int));
        }
        assert(seq![s[0]] + (replace_spec(a.drop_first(), p, r) + seq![c] + replace_spec(b, p, r))
            =~= (seq![a[0]] + replace_spec(a.drop_first(), p, r)) + seq![c] + replace_spec(b, p, r));
    }
}

/// A text shorter than a non-empty pattern is left as it is.
pub proof fn lemma_replace_short(s: Seq<char>, p: Seq<char>, r: Seq<char>)
    requires
        p.len() > 0,
        s.len() < p.len(),
    ensures
        replace_spec(s, p, r) == s,
{
}

/// The pieces of `s` split at `c` hold no `c`, and each is a run of `s`: what holds
/// of every run of `s` of some kinds holds of each piece.
pub proof fn lemma_split_pieces(s: Seq<char>, c: char, k: int)
    requires
        0 <= k < split_spec(s, c).len(),
    ensures
        no_char(split_spec(s, c)[k], c),
        exists|a: int| 0 <= a && a + split_spec(s, c)[k].len() <= s.len()
            && #[trigger] s.subrange(a, a + split_spec(s, c)[k].len()) == split_spec(s, c)[k],
    decreases s.len(),
{
    let f = find_char(s, c);
    lemma_find_char_first(s, c);
    if f >= s.len() {
        assert(s.subrange(0, s.len() as int) =~= s);
        assert(split_spec(s, c)[k] == s);
        assert(s.subrange(0, 0int + split_spec(s, c)[k].len()) == split_spec(s, c)[k]);
    } else {
        let rest = s.skip((f + 1) as int);
        if k == 0 {
            assert(s.subrange(0, f as int) =~= s.take(f as int));
            assert(split_spec(s, c)[k] == s.take(f as int));
            assert(s.subrange(0, 0int + split_spec(s, c)[k].len()) == split_spec(s, c)[k]);
        } else {
            lemma_split_pieces(rest, c, k - 1);
            let piece = split_spec(rest, c)[k - 1];
            assert(split_spec(s, c)[k] == piece);
            let a = choose|a: int| 0 <= a && a + piece.len() <= rest.len() && #[trigger] rest.subrange(a, a + piece.len()) == piece;
            assert(s.subrange(a + f + 1, a + f + 1 + piece.len()) =~= rest.subrange(a, a + piece.len()));
            assert(s.subrange(a + f + 1, a + f + 1 + split_spec(s, c)[k].len()) == split_spec(s, c)[k]);
        }
    }
}

/// `find_char` finds the first `c`, or none.
pub proof fn lemma_find_char_first(s: Seq<char>, c: char)
    ensures
        find_char(s, c) <= s.len(),
        forall|j: int| 0 <= j < find_char(s, c) ==> s[j] != c,
        find_char(s, c) < s.len() ==> s[find_char(s, c) as int] == c,
    decreases s.len(),
{
    if s.len() > 0 && s[0] != c {
        lemma_find_char_first(s.drop_first(), c);
        assert forall|j: int| 0 <= j < find_char(s, c) implies s[j] != c by {
            if j > 0 {
                assert(s[j] == s.drop_first()[j - 1]);
            }
        }
    }
}

/// Splitting after a last separator adds the last part as a piece.
pub proof fn lemma_split_around(a: Seq<char>, c: char, b: Seq<char>)
    requires
        no_char(b, c),
    ensures
        split_spec(a + seq![c] + b, c) == split_spec(a, c) + seq![b],
    decreases a.len(),
{
    let s = a + seq![c] + b;
    lemma_find_char_first(a, c);
    lemma_find_char_first(s, c);
    let fa = find_char(a, c);
    if fa < a.len() {
        lemma_find_char(s, c, fa as int);
        assert(s.take(fa as int) =~= a.take(fa as int));
        assert(s.skip((fa + 1) as int) =~= a.skip((fa + 1) as int) + seq![c] + b);
        lemma_split_around(a.skip((fa + 1) as int), c, b);
        assert(split_spec(s, c) =~= split_spec(a, c) + seq![b]);
    } else {
        assert forall|j: int| 0 <= j < a.len() implies s[j] != c by {
            assert(s[j] == a[j]);
        }
        lemma_find_char(s, c, a.len() as int);
        assert(s.take(a.len() as int) =~= a);
        assert(s.skip((a.len() + 1) as int) =~= b);
        lemma_find_char(b, c, b.len() as int);
        assert(find_char(s, c) == a.len());
        assert(split_spec(b, c) == seq![b]);
        assert(split_spec(a, c) == seq![a]);
        assert(split_spec(s, c) == seq![s.take(a.len() as int)] + split_spec(s.skip((a.len() + 1) as int), c));
        assert(split_spec(s, c) =~= split_spec(a, c) + seq![b]);
    }
}

/// Splitting what was joined with `c` gives back the parts, where no part holds `c`.
pub proof fn lemma_split_join(xs: Seq<Seq<char>>, c: char)
    requires
        xs.len() > 0,
        forall|i: int| 0 <= i < xs.len() ==> no_char(#[trigger] xs[i], c),
    ensures
        split_spec(join_spec(xs, seq![c]), c) == xs,
    decreases xs.len(),
{
    if xs.len() == 1 {
        lemma_find_char(xs[0], c, xs[0].len() as int);
        assert(split_spec(xs[0], c) =~= xs);
    } else {
        lemma_split_join(xs.drop_last(), c);
        lemma_split_around(join_spec(xs.drop_last(), seq![c]), c, xs.last());
        assert(xs.drop_last() + seq![xs.last()] =~= xs);
    }
}

/// Replacing a pattern without `c` in parts joined with `c`, where the pattern
/// occurs in no part, changes nothing.
pub proof fn lemma_replace_join(xs: Seq<Seq<char>>, c: char, p: Seq<char>, r: Seq<char>)
    requires
        p.len() > 0,
        no_char(p, c),
        forall|i: int| 0 <= i < xs.len() ==> !contains(#[trigger] xs[i], p),
    ensures
        replace_spec(join_spec(xs, seq![c]), p, r) == join_spec(xs, seq![c]),
    decreases xs.len(),
{
    if xs.len() == 0 {
    } else if xs.len() == 1 {
        lemma_replace_absent(xs[0], p, r);
    } else {
        lemma_replace_join(xs.drop_last(), c, p, r);
        lemma_replace_around(join_spec(xs.drop_last(), seq![c]), c, xs.last(), p, r);
        lemma_replace_absent(xs.last(), p, r);
    }
}


/// A single occurrence of `p`, preceded by text that never holds the first
/// character of `p` and followed by text without `p`, is replaced by `r`, and the
/// rest is left as it is.
pub proof fn lemma_replace_single(a: Seq<char>, p: Seq<char>, b: Seq<char>, r: Seq<char>)
    requires
        p.len() > 0,
        no_char(a, p[0]),
        !contains(b, p),
    ensures
        replace_spec(a + p + b, p, r) == a + r + b,
    decreases a.len(),
{
    let s = a + p + b;
    if a.len() == 0 {
        assert(s =~= p + b);
        assert(s.take(p.len() as int) =~= p);
        assert(s.skip(p.len() as int) =~= b);
        lemma_replace_absent(b, p, r);
        assert(a + r + b =~= r + b);
    } else {
        assert(s.take(p.len() as int)[0] == a[0]);
        assert(s.take(p.len() as int) != p);
        let a1 = a.drop_first();
        assert(s.drop_first() =~= a1 + p + b);
        lemma_replace_single(a1, p, b, r);
        assert(a + r + b =~= seq![a[0]] + (a1 + r + b));
    }
}

} // verus!
