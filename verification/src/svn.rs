//! The decisions of the Subversion checkout of test cases: path arithmetic on svn
//! paths and urls, and the reading of svn's answers.
use vstd::prelude::*;
use crate::text::{
    chars_of, ends_with, extend_chars, join_spec, join_strings, lines_of, lines_spec, parse_u32,
    parse_u32_spec, replace_spec, split_chars, split_spec, starts_with, str_replace,
    str_starts_with, string_from_chars, sub_chars, texts, trim_by, trim_non_numeric_chars,
    non_numeric_pred, decimal, decimal_chars, contains, occurs_at, no_char, lemma_replace_absent,
    lemma_replace_join, lemma_split_join, lemma_split_pieces,
};

verus! {

/// The separators of `path` made `'/'` and `"%20"` made a space.
pub open spec fn normalized_path(path: Seq<char>) -> Seq<char> {
    replace_spec(replace_spec(path, "\\"@, "/"@), "%20"@, " "@)
}

/// `pieces` without the `"."` pieces.
pub open spec fn without_dots(pieces: Seq<Seq<char>>) -> Seq<Seq<char>>
    decreases pieces.len(),
{
    if pieces.len() == 0 {
        seq![]
    } else if pieces.last() == "."@ {
        without_dots(pieces.drop_last())
    } else {
        without_dots(pieces.drop_last()).push(pieces.last())
    }
}

/// The components of an svn path: the normalized path split at `'/'`, without
/// `"."` components and without an empty last component.
pub open spec fn path_list_spec(path: Seq<char>) -> Seq<Seq<char>> {
    let kept = without_dots(split_spec(normalized_path(path), '/'));
    if kept.len() > 0 && kept.last().len() == 0 {
        kept.drop_last()
    } else {
        kept
    }
}

/// The components of `path` (see `path_list_spec`).
pub fn path_to_list(path: &str) -> (r: Vec<String>)
    ensures
        texts(r@) == path_list_spec(path@),
{
    let a = str_replace(path, "\\", "/");
    let b = str_replace(a.as_str(), "%20", " ");
    let bv = chars_of(b.as_str());
    let pieces = split_chars(&bv, '/');
    let ghost ps = pieces@.map_values(|v: Vec<char>| v@);
    let dot = chars_of(".");
    let mut list: Vec<String> = Vec::new();
    let mut i: usize = 0;
    while i < pieces.len()
        invariant
            i <= pieces.len(),
            dot@ == "."@,
            ps == pieces@.map_values(|v: Vec<char>| v@),
            texts(list@) == without_dots(ps.take(i as int)),
        decreases pieces.len() - i,
    {
        assert(ps.take(i + 1).drop_last() =~= ps.take(i as int));
        assert(ps.take(i + 1).last() == pieces@[i as int]@);
        if !eq_chars(&pieces[i], &dot) {
            let s = string_from_chars(&pieces[i]);
            let ghost before = list@;
            list.push(s);
            assert(texts(list@) =~= texts(before).push(s@));
        }
        i += 1;
    }
    assert(ps.take(pieces.len() as int) =~= ps);
    if list.len() > 0 && list[list.len() - 1].as_str().is_empty() {
        let ghost before = list@;
        list.pop();
        assert(texts(list@) =~= texts(before).drop_last());
        assert(before.last()@.len() == 0) by {
            assert(texts(before).last() == before.last()@);
        }
    } else {
        proof {
            if list@.len() > 0 {
                assert(texts(list@).last() == list@.last()@);
            }
        }
    }
    list
}

/// Whether two character sequences are equal.
pub fn eq_chars(a: &Vec<char>, b: &Vec<char>) -> (r: bool)
    ensures
        r == (a@ == b@),
{
    if a.len() != b.len() {
        return false;
    }
    let mut i: usize = 0;
    while i < a.len()
        invariant
            i <= a.len() == b.len(),
            forall|j: int| 0 <= j < i ==> a@[j] == b@[j],
        decreases a.len() - i,
    {
        if a[i] != b[i] {
            return false;
        }
        i += 1;
    }
    assert(a@ =~= b@);
    true
}

/// `e` is a final part of `p`, component by component.
pub open spec fn ends_with_components(p: Seq<Seq<char>>, e: Seq<Seq<char>>) -> bool {
    e.len() <= p.len() && p.subrange(p.len() - e.len(), p.len() as int) == e
}

/// Whether the components of `path` end with those of `endpath`.
pub fn path_endswith(path: &str, endpath: &str) -> (r: bool)
    ensures
        r == ends_with_components(path_list_spec(path@), path_list_spec(endpath@)),
{
    let p = path_to_list(path);
    let e = path_to_list(endpath);
    let ghost pv = texts(p@);
    let ghost ev = texts(e@);
    if e.len() == 0 {
        assert(pv.subrange(pv.len() - 0, pv.len() as int) =~= ev);
        return true;
    }
    if p.len() < e.len() {
        return false;
    }
    let off = p.len() - e.len();
    let mut k: usize = 0;
    while k < e.len()
        invariant
            k <= e.len(),
            off + e.len() == p.len(),
            pv == texts(p@),
            ev == texts(e@),
            pv == path_list_spec(path@),
            ev == path_list_spec(endpath@),
            forall|j: int| 0 <= j < k ==> pv[off + j] == ev[j],
        decreases e.len() - k,
    {
        let same = p[off + k] == e[k];
        assert(same == (p@[off + k]@ == e@[k as int]@));
        if !same {
            assert(pv[off + k] == p@[off + k]@);
            assert(ev[k as int] == e@[k as int]@);
            assert(pv.subrange(off as int, p.len() as int)[k as int] != ev[k as int]);
            return false;
        }
        assert(pv[off + k] == p@[off + k]@);
        assert(ev[k as int] == e@[k as int]@);
        k += 1;
    }
    assert(pv.subrange(off as int, p.len() as int) =~= ev);
    true
}

/// The components `list` after walking the components `steps`: `".."` goes up
/// one, `"."` stays, any other descends; `None` where `".."` would go above the
/// first component.
pub open spec fn resolve_steps(list: Seq<Seq<char>>, steps: Seq<Seq<char>>) -> Option<Seq<Seq<char>>>
    decreases steps.len(),
{
    if steps.len() == 0 {
        Some(list)
    } else if steps[0] == "."@ {
        resolve_steps(list, steps.drop_first())
    } else if steps[0] == ".."@ {
        if list.len() == 0 {
            None
        } else {
            resolve_steps(list.drop_last(), steps.drop_first())
        }
    } else {
        resolve_steps(list.push(steps[0]), steps.drop_first())
    }
}

/// The url `url` followed by the relative path `relpath`, or `None` where the
/// path climbs above the url's root.
pub open spec fn resolve_relpath_spec(url: Seq<char>, relpath: Seq<char>) -> Option<Seq<char>> {
    match resolve_steps(path_list_spec(url), path_list_spec(relpath)) {
        Some(l) => Some(join_spec(l, "/"@)),
        None => None,
    }
}

/// Walks `relpath` from `url`; `None` where it climbs above the url's root.
fn resolve_list(url: &str, relpath: &str) -> (r: Option<Vec<String>>)
    ensures
        r is Some <==> resolve_steps(path_list_spec(url@), path_list_spec(relpath@)) is Some,
        r matches Some(l) ==> Some(texts(l@)) == resolve_steps(path_list_spec(url@), path_list_spec(relpath@)),
{
    let mut list = path_to_list(url);
    let steps = path_to_list(relpath);
    let ghost sv = texts(steps@);
    let dot = ".".to_owned();
    let dotdot = "..".to_owned();
    let mut i: usize = 0;
    assert(sv.skip(0) =~= sv);
    while i < steps.len()
        invariant
            i <= steps.len(),
            sv == texts(steps@),
            sv == path_list_spec(relpath@),
            dot@ == "."@,
            dotdot@ == ".."@,
            resolve_steps(texts(list@), sv.skip(i as int)) == resolve_steps(path_list_spec(url@), sv),
        decreases steps.len() - i,
    {
        let ghost rest = sv.skip(i as int);
        assert(rest.drop_first() =~= sv.skip(i + 1));
        assert(rest[0] == steps@[i as int]@);
        if steps[i] == dot {
        } else if steps[i] == dotdot {
            if list.len() == 0 {
                return None;
            }
            let ghost before = list@;
            list.pop();
            assert(texts(list@) =~= texts(before).drop_last());
        } else {
            let ghost before = list@;
            list.push(steps[i].clone());
            assert(texts(list@) =~= texts(before).push(steps@[i as int]@));
        }
        i += 1;
    }
    Some(list)
}

/// Whether `relpath` can be walked from `url` without climbing above its root.
pub fn can_resolve_relpath(url: &str, relpath: &str) -> (r: bool)
    ensures
        r == (resolve_relpath_spec(url@, relpath@) is Some),
{
    resolve_list(url, relpath).is_some()
}

/// The url `url` followed by the relative path `relpath`, e.g. `/A/B/C` and
/// `../../D` give `/A/D`.
pub fn svn_resolve_relpath(url: &str, relpath: &str) -> (r: String)
    requires
        resolve_relpath_spec(url@, relpath@) is Some,
    ensures
        r@ == resolve_relpath_spec(url@, relpath@)->Some_0,
{
    match resolve_list(url, relpath) {
        Some(l) => join_strings(&l, "/"),
        None => String::new(),
    }
}

/// The relative path from `from` to `to`, as relative-path's
/// `RelativePath::relative` computes it.
pub uninterp spec fn relative_of(from: Seq<char>, to: Seq<char>) -> Seq<char>;

/// relative-path's `RelativePath::new(from).relative(RelativePath::new(to))`, as
/// text: its result is `relative_of(from@, to@)`.
#[verifier::external_body]
fn relative_path(from: &str, to: &str) -> (r: String)
    ensures
        r@ == relative_of(from@, to@),
{
    relative_path::RelativePath::new(from).relative(relative_path::RelativePath::new(to)).into_string()
}

/// `subpath` lies inside `path` (or is `path`): the way from `path` to it is `"."`
/// or does not begin with `".."`.
pub open spec fn subpath_of_spec(subpath: Seq<char>, path: Seq<char>) -> bool {
    let rel = relative_of(path, subpath);
    rel == "."@ || !starts_with(rel, ".."@)
}

/// Whether `subpath` lies inside `path`.
pub fn subpath_of(subpath: &str, path: &str) -> (r: bool)
    ensures
        r == subpath_of_spec(subpath@, path@),
{
    let rel = relative_path(path, subpath);
    let dot = ".".to_owned();
    rel == dot || !str_starts_with(rel.as_str(), "..")
}

/// The relative path from the svn path `from` to the svn path `to` (both with
/// `'\\'` read as `'/'`).
pub fn svn_relpath(to: &str, from: &str) -> (r: String)
    ensures
        r@ == relative_of(replace_spec(from@, "\\"@, "/"@), replace_spec(to@, "\\"@, "/"@)),
{
    let f = str_replace(from, "\\", "/");
    let t = str_replace(to, "\\", "/");
    relative_path(f.as_str(), t.as_str())
}

/// Some line of svn's output reports a conflict (begins with `"C "`).
pub open spec fn had_conflicts_spec(output: Seq<char>) -> bool {
    exists|i: int| 0 <= i < lines_spec(output).len() && starts_with(#[trigger] lines_spec(output)[i], "C "@)
}

/// Whether svn's output reports a conflict.
pub fn svn_had_conflicts(svn_output: &str) -> (r: bool)
    ensures
        r == had_conflicts_spec(svn_output@),
{
    let v = chars_of(svn_output);
    let lines = lines_of(&v);
    let ghost ls = lines@.map_values(|x: Vec<char>| x@);
    let prefix = chars_of("C ");
    let mut i: usize = 0;
    while i < lines.len()
        invariant
            i <= lines.len(),
            ls == lines@.map_values(|x: Vec<char>| x@),
            ls == lines_spec(svn_output@),
            prefix@ == "C "@,
            forall|j: int| 0 <= j < i ==> !starts_with(#[trigger] ls[j], "C "@),
        decreases lines.len() - i,
    {
        if crate::text::occurs_at_exec(&lines[i], 0, &prefix) {
            assert(starts_with(ls[i as int], "C "@));
            return true;
        }
        i += 1;
    }
    false
}

/// An svn path as it is shown: without a leading `"./"` and a trailing `'/'`.
pub open spec fn display_path_spec(path: Seq<char>) -> Seq<char> {
    let p = if starts_with(path, "./"@) { path.skip(2) } else { path };
    if ends_with(p, "/"@) { p.drop_last() } else { p }
}

/// The svn path as it is shown.
pub fn display_svn_path(path: &str) -> (r: String)
    ensures
        r@ == display_path_spec(path@),
{
    proof { reveal_strlit("./"); reveal_strlit("/"); assert("/"@ =~= seq!['/']); }
    let v = chars_of(path);
    let start: usize = if str_starts_with(path, "./") { 2 } else { 0 };
    let p = sub_chars(&v, start, v.len());
    assert(p@ =~= (if starts_with(path@, "./"@) { path@.skip(2) } else { path@ }));
    let end_slash = p.len() > 0 && p[p.len() - 1] == '/';
    proof {
        if p@.len() > 0 {
            assert(ends_with(p@, seq!['/']) <==> p@.last() == '/') by {
                assert(p@.subrange(p@.len() - 1, p@.len() as int) =~= seq![p@.last()]);
                if ends_with(p@, seq!['/']) {
                    assert(p@.subrange(p@.len() - 1, p@.len() as int)[0] == '/');
                }
            }
        }
    }
    let q = if end_slash { sub_chars(&p, 0, p.len() - 1) } else { sub_chars(&p, 0, p.len()) };
    assert(p@.subrange(0, p@.len() as int) =~= p@);
    assert(p@.len() > 0 ==> p@.subrange(0, p@.len() - 1) =~= p@.drop_last());
    string_from_chars(&q)
}

/// An svn revision: the newest, or a number.
#[derive(PartialEq, Eq, Structural, Clone, Copy, Debug)]
pub enum Revision {
    Head,
    Revision(u32),
}

/// How a revision is written on svn's command line.
pub open spec fn revision_text(r: Revision) -> Seq<char> {
    match r {
        Revision::Head => "HEAD"@,
        Revision::Revision(n) => decimal(n as nat),
    }
}

impl Revision {
    /// The revision as svn's command line takes it: `HEAD` or its number.
    pub fn to_text(&self) -> (r: String)
        ensures
            r@ == revision_text(*self),
    {
        match self {
            Revision::Head => "HEAD".to_owned(),
            Revision::Revision(n) => {
                let d = decimal_chars(*n as u64);
                string_from_chars(&d)
            }
        }
    }
}

/// A revision given on the command line: `HEAD`, or a number as
/// `u32::from_str` reads it; `None` for anything else.
pub open spec fn parse_revision_spec(s: Seq<char>) -> Option<Revision> {
    if s == "HEAD"@ {
        Some(Revision::Head)
    } else {
        match parse_u32_spec(s) {
            Some(n) => Some(Revision::Revision(n)),
            None => None,
        }
    }
}

/// Reads a revision given on the command line.
pub fn parse_revision(s: &str) -> (r: Option<Revision>)
    ensures
        r == parse_revision_spec(s@),
{
    let head = "HEAD".to_owned();
    let owned = s.to_owned();
    if owned == head {
        return Some(Revision::Head);
    }
    let v = chars_of(s);
    match parse_u32(&v) {
        Some(n) => Some(Revision::Revision(n)),
        None => None,
    }
}

/// What went wrong in the Subversion steps.
#[derive(PartialEq, Eq, Structural, Clone, Copy, Debug)]
pub enum SvnError {
    /// The dev working copy's url does not end in `/dev`.
    InvalidDevUrl,
    /// The output of `svnversion` could not be read.
    SvnVersionOutput,
    /// A path still has no depth after it was updated: svn does not know it.
    PathNotInSvn,
    /// The testcases directory holds checkouts and no conversion was asked for.
    NestedCheckouts,
}

/// The number of bytes of `c` in UTF-8.
pub open spec fn utf8_len(c: char) -> nat {
    let n = c as u32;
    if n < 0x80 { 1 } else if n < 0x800 { 2 } else if n < 0x10000 { 3 } else { 4 }
}

/// `s` without its last `n` bytes (in UTF-8); `None` where `s` is shorter or the
/// cut falls inside a character.
pub open spec fn without_last_bytes_spec(s: Seq<char>, n: nat) -> Option<Seq<char>>
    decreases s.len(),
{
    if n == 0 {
        Some(s)
    } else if s.len() == 0 {
        None
    } else if utf8_len(s.last()) <= n {
        without_last_bytes_spec(s.drop_last(), (n - utf8_len(s.last())) as nat)
    } else {
        None
    }
}

/// `s` without its last `n` bytes (see `without_last_bytes_spec`).
pub fn without_last_bytes(s: &str, n: usize) -> (r: Option<String>)
    ensures
        crate::config::opt_text(r) == without_last_bytes_spec(s@, n as nat),
{
    let v = chars_of(s);
    let mut k: usize = v.len();
    let mut rem: usize = n;
    assert(v@.take(k as int) =~= v@);
    while rem > 0
        invariant
            k <= v@.len(),
            v@ == s@,
            without_last_bytes_spec(s@, n as nat) == without_last_bytes_spec(v@.take(k as int), rem as nat),
        decreases rem,
    {
        if k == 0 {
            return None;
        }
        let c = v[k - 1];
        let code = c as u32;
        let l: usize = if code < 0x80 { 1 } else if code < 0x800 { 2 } else if code < 0x10000 { 3 } else { 4 };
        assert(v@.take(k as int).last() == c);
        assert(l == utf8_len(c));
        if l > rem {
            return None;
        }
        assert(v@.take(k as int).drop_last() =~= v@.take(k - 1));
        rem = rem - l;
        k = k - 1;
    }
    let b = sub_chars(&v, 0, k);
    assert(b@ =~= v@.take(k as int));
    Some(string_from_chars(&b))
}

/// The branch url of a dev working copy with url `url` and relative url
/// `relative_url`: `url` without its last four bytes (`/dev`); fails where the
/// relative url does not end in `/dev`.
pub open spec fn dev_branch_spec(url: Seq<char>, relative_url: Seq<char>) -> Result<Seq<char>, SvnError> {
    if ends_with(relative_url, "/dev"@) {
        Ok(without_last_bytes_spec(url, 4)->Some_0)
    } else {
        Err(SvnError::InvalidDevUrl)
    }
}

/// The branch url of the dev working copy (see `dev_branch_spec`).
pub fn dev_branch_url(url: &str, relative_url: &str) -> (r: Result<String, SvnError>)
    requires
        ends_with(relative_url@, "/dev"@) ==> without_last_bytes_spec(url@, 4) is Some,
    ensures
        r matches Ok(b) ==> dev_branch_spec(url@, relative_url@) == Ok::<Seq<char>, SvnError>(b@),
        r matches Err(e) ==> dev_branch_spec(url@, relative_url@) == Err::<Seq<char>, SvnError>(e),
{
    if !crate::text::str_ends_with(relative_url, "/dev") {
        return Err(SvnError::InvalidDevUrl);
    }
    match without_last_bytes(url, 4) {
        Some(b) => Ok(b),
        None => Err(SvnError::InvalidDevUrl),
    }
}

/// The smallest of a non-empty sequence of revisions.
pub open spec fn min_revision(revs: Seq<u32>) -> u32
    recommends
        revs.len() > 0,
    decreases revs.len(),
{
    if revs.len() <= 1 {
        revs[0]
    } else {
        let m = min_revision(revs.drop_last());
        if revs.last() < m { revs.last() } else { m }
    }
}

/// The next dev revision: the oldest of the dev commits after the working copy's
/// revision, or `HEAD` where there is none.
pub open spec fn next_revision_spec(revs: Seq<u32>) -> Revision {
    if revs.len() == 0 {
        Revision::Head
    } else {
        Revision::Revision(min_revision(revs))
    }
}

/// The next dev revision from the revisions of the later dev commits.
pub fn next_revision(revs: &Vec<u32>) -> (r: Revision)
    ensures
        r == next_revision_spec(revs@),
{
    if revs.len() == 0 {
        return Revision::Head;
    }
    let mut m = revs[0];
    let mut i: usize = 1;
    assert(revs@.take(1).len() == 1);
    while i < revs.len()
        invariant
            1 <= i <= revs.len(),
            m == min_revision(revs@.take(i as int)),
        decreases revs.len() - i,
    {
        assert(revs@.take(i + 1).drop_last() =~= revs@.take(i as int));
        if revs[i] < m {
            m = revs[i];
        }
        i += 1;
    }
    assert(revs@.take(revs.len() as int) =~= revs@);
    Revision::Revision(m)
}

/// The smallest revision is one of them and no larger than any.
pub proof fn law_min_revision_is_least(revs: Seq<u32>)
    requires
        revs.len() > 0,
    ensures
        revs.contains(min_revision(revs)),
        forall|i: int| 0 <= i < revs.len() ==> min_revision(revs) <= #[trigger] revs[i],
    decreases revs.len(),
{
    if revs.len() > 1 {
        law_min_revision_is_least(revs.drop_last());
        let m = min_revision(revs.drop_last());
        assert(revs.drop_last().contains(m));
        let k = choose|k: int| 0 <= k < revs.drop_last().len() && revs.drop_last()[k] == m;
        assert(revs[k] == m);
        assert forall|i: int| 0 <= i < revs.len() implies min_revision(revs) <= #[trigger] revs[i] by {
            if i < revs.len() - 1 {
                assert(revs[i] == revs.drop_last()[i]);
            }
        }
        if revs.last() < m {
            assert(revs[revs.len() - 1] == revs.last());
        }
    } else {
        assert(revs[0] == revs[0]);
    }
}

/// The testcases revision to use: `HEAD`, unless the dev working copy is not at
/// the newest revision and testcases were committed after its next revision; then
/// the revision just before that next one.
pub open spec fn testcases_revision_spec(next_dev: Revision, later_testcase_commits: bool) -> Revision {
    match next_dev {
        Revision::Revision(r) => if later_testcase_commits { Revision::Revision((r - 1) as u32) } else { Revision::Head },
        Revision::Head => Revision::Head,
    }
}

/// The testcases revision to use (see `testcases_revision_spec`).
pub fn testcases_revision(next_dev: Revision, later_testcase_commits: bool) -> (r: Revision)
    requires
        later_testcase_commits ==> next_dev != Revision::Revision(0),
    ensures
        r == testcases_revision_spec(next_dev, later_testcase_commits),
{
    match next_dev {
        Revision::Revision(n) => if later_testcase_commits { Revision::Revision(n - 1) } else { Revision::Head },
        Revision::Head => Revision::Head,
    }
}

/// svn's checkout depths, from shallow to deep.
pub open spec fn depth_order() -> Seq<Seq<char>> {
    seq!["exclude"@, "empty"@, "files"@, "immediates"@, "infinity"@]
}

/// The position of `d` among the depths, if it is one.
pub open spec fn depth_rank_spec(d: Seq<char>) -> Option<int> {
    if d == "exclude"@ { Some(0) }
    else if d == "empty"@ { Some(1) }
    else if d == "files"@ { Some(2) }
    else if d == "immediates"@ { Some(3) }
    else if d == "infinity"@ { Some(4) }
    else { None }
}

/// The position of `d` among the depths, if it is one.
pub fn depth_rank(d: &str) -> (r: Option<usize>)
    ensures
        r matches Some(k) ==> depth_rank_spec(d@) == Some(k as int),
        r is None ==> depth_rank_spec(d@) is None,
{
    let s = d.to_owned();
    if s == "exclude".to_owned() { Some(0) }
    else if s == "empty".to_owned() { Some(1) }
    else if s == "files".to_owned() { Some(2) }
    else if s == "immediates".to_owned() { Some(3) }
    else if s == "infinity".to_owned() { Some(4) }
    else { None }
}

/// A path must be updated to `needed` where it is not checked out, or checked out
/// shallower than `needed` (never made shallower).
pub open spec fn needs_depth_update_spec(current: Option<Seq<char>>, needed: Seq<char>) -> bool {
    match current {
        None => true,
        Some(c) => depth_rank_spec(c)->Some_0 < depth_rank_spec(needed)->Some_0,
    }
}

/// Whether a path checked out at `current` must be updated to `needed`.
pub fn needs_depth_update(current: &Option<String>, needed: &str) -> (r: bool)
    requires
        depth_rank_spec(needed@) is Some,
        current matches Some(c) ==> depth_rank_spec(c@) is Some,
    ensures
        r == needs_depth_update_spec(crate::config::opt_text(*current), needed@),
{
    match current {
        None => true,
        Some(c) => {
            let a = depth_rank(c.as_str());
            let b = depth_rank(needed);
            match (a, b) {
                (Some(x), Some(y)) => x < y,
                _ => false,
            }
        }
    }
}

/// The steps of making `path` available in a sparse checkout: each leading part of
/// its components, joined with `'/'`, with depth "empty" for all but the last,
/// which gets "infinity".
pub open spec fn sparse_steps_spec(path: Seq<char>) -> Seq<(Seq<char>, Seq<char>)> {
    let l = path_list_spec(path);
    Seq::new(l.len(), |i: int| (join_spec(l.take(i + 1), "/"@), if i + 1 < l.len() { "empty"@ } else { "infinity"@ }))
}

/// The steps of making `path` available in a sparse checkout.
pub fn sparse_steps(path: &str) -> (r: Vec<(String, String)>)
    ensures
        r@.len() == sparse_steps_spec(path@).len(),
        forall|i: int| 0 <= i < r@.len() ==> (#[trigger] r@[i]).0@ == sparse_steps_spec(path@)[i].0
            && r@[i].1@ == sparse_steps_spec(path@)[i].1,
{
    let list = path_to_list(path);
    let ghost l = texts(list@);
    let mut r: Vec<(String, String)> = Vec::new();
    let mut prefix: Vec<String> = Vec::new();
    let mut i: usize = 0;
    while i < list.len()
        invariant
            i <= list.len(),
            l == texts(list@),
            l == path_list_spec(path@),
            texts(prefix@) == l.take(i as int),
            r@.len() == i,
            forall|k: int| 0 <= k < i ==> (#[trigger] r@[k]).0@ == sparse_steps_spec(path@)[k].0
                && r@[k].1@ == sparse_steps_spec(path@)[k].1,
        decreases list.len() - i,
    {
        let ghost before = prefix@;
        let item = list[i].clone();
        prefix.push(item);
        proof {
            crate::config::lemma_texts_push(before, item);
            assert(l[i as int] == list@[i as int]@);
        }
        assert(texts(prefix@) =~= l.take(i + 1));
        let sub = join_strings(&prefix, "/");
        let depth = if i + 1 < list.len() { "empty".to_owned() } else { "infinity".to_owned() };
        r.push((sub, depth));
        i += 1;
    }
    r
}

/// The revisions that `svnversion` prints, as std's `u32::from_str` reads them:
/// its output without non-numeric characters at either end, split at `':'`; one
/// or two numbers; `None` where they cannot be read.
pub open spec fn svnversion_spec(output: Seq<char>) -> Option<Seq<u32>> {
    let parts = split_spec(trim_by(output, non_numeric_pred()), ':');
    match parse_u32_spec(parts[0]) {
        None => None,
        Some(r1) => if parts.len() == 1 {
            Some(seq![r1])
        } else {
            match parse_u32_spec(parts[1]) {
                Some(r2) => Some(seq![r1, r2]),
                None => None,
            }
        },
    }
}

/// `split_spec` always yields at least one piece.
pub proof fn lemma_split_nonempty(s: Seq<char>, c: char)
    ensures
        split_spec(s, c).len() >= 1,
    decreases s.len(),
{
    let k = crate::text::find_char(s, c);
    if k < s.len() {
        lemma_split_nonempty(s.skip((k + 1) as int), c);
    }
}

/// The revisions that `svnversion` printed (see `svnversion_spec`).
pub fn parse_svnversion(output: &str) -> (r: Result<Vec<u32>, SvnError>)
    ensures
        r matches Ok(v) ==> svnversion_spec(output@) == Some(v@),
        r is Err ==> svnversion_spec(output@) is None && r->Err_0 == SvnError::SvnVersionOutput,
{
    let v = chars_of(output);
    let t = trim_non_numeric_chars(&v);
    let parts = split_chars(&t, ':');
    let ghost ps = parts@.map_values(|x: Vec<char>| x@);
    proof { lemma_split_nonempty(t@, ':'); }
    assert(ps[0] == parts@[0]@);
    match parse_u32(&parts[0]) {
        None => Err(SvnError::SvnVersionOutput),
        Some(r1) => {
            if parts.len() == 1 {
                let mut out: Vec<u32> = Vec::new();
                out.push(r1);
                assert(out@ =~= seq![r1]);
                Ok(out)
            } else {
                assert(ps[1] == parts@[1]@);
                match parse_u32(&parts[1]) {
                    Some(r2) => {
                        let mut out: Vec<u32> = Vec::new();
                        out.push(r1);
                        out.push(r2);
                        assert(out@ =~= seq![r1, r2]);
                        Ok(out)
                    }
                    None => Err(SvnError::SvnVersionOutput),
                }
            }
        }
    }
}

/// The working copy's revision: the last one `svnversion` printed.
pub fn svn_revision_of(output: &str) -> (r: Result<u32, SvnError>)
    ensures
        r matches Ok(n) ==> svnversion_spec(output@) matches Some(revs) && n == revs.last(),
        r is Err ==> svnversion_spec(output@) is None,
{
    let revs = parse_svnversion(output)?;
    Ok(revs[revs.len() - 1])
}

/// The entry of `svn info` for a working copy.
pub struct WcInfo {
    pub wc_root_path: String,
    pub depth: String,
}

/// What `svn info` says of a path that is under version control.
pub struct InfoEntry {
    pub url: String,
    pub relative_url: String,
    pub wc_info: WcInfo,
}

/// What `svn info` says of a path; no entry where it is no working copy.
pub struct Info {
    pub entry: Option<InfoEntry>,
}

/// The checkout depth that `svn info` reports, if the path is a working copy.
pub fn svn_depth(info: &Info) -> (r: Option<String>)
    ensures
        r == (match info.entry {
            Some(e) => Some(e.wc_info.depth),
            None => None::<String>,
        }),
{
    match &info.entry {
        Some(e) => Some(e.wc_info.depth.clone()),
        None => None,
    }
}

/// The states of `svn status` that stop a conversion.
pub open spec fn blocking_status(item: Seq<char>) -> bool {
    item == "conflicted"@ || item == "unversioned"@ || item == "added"@ || item == "deleted"@ || item == "replaced"@
}

/// Whether some of the `svn status` items stops a conversion.
pub fn has_blocking_status(items: &Vec<String>) -> (r: bool)
    ensures
        r == exists|i: int| 0 <= i < items@.len() && blocking_status(#[trigger] items@[i]@),
{
    let mut i: usize = 0;
    while i < items.len()
        invariant
            i <= items.len(),
            forall|j: int| 0 <= j < i ==> !blocking_status(#[trigger] items@[j]@),
        decreases items.len() - i,
    {
        let it = &items[i];
        if *it == "conflicted".to_owned() || *it == "unversioned".to_owned() || *it == "added".to_owned()
            || *it == "deleted".to_owned() || *it == "replaced".to_owned() {
            assert(blocking_status(items@[i as int]@));
            return true;
        }
        i += 1;
    }
    false
}

/// What to do with a path of the testcases checkout when removing what is not
/// needed.
#[derive(PartialEq, Eq, Structural, Clone, Copy, Debug)]
pub enum PathAction {
    /// Leave it: it does not exist or is svn's own directory.
    Skip,
    /// No needed path lies inside it: remove it.
    Remove,
    /// It holds needed paths and is not inside one: look at its entries.
    Descend,
    /// Keep it as it is.
    Keep,
}

/// Some of `needed` lies inside `path`.
pub open spec fn holds_needed(path: Seq<char>, needed: Seq<String>) -> bool {
    exists|i: int| 0 <= i < needed.len() && subpath_of_spec(#[trigger] needed[i]@, path)
}

/// `path` lies inside some of `needed`.
pub open spec fn inside_needed(path: Seq<char>, needed: Seq<String>) -> bool {
    exists|i: int| 0 <= i < needed.len() && subpath_of_spec(path, #[trigger] needed[i]@)
}

/// What to do with `path`, given whether it exists, whether it is named `.svn`,
/// and whether it is a directory.
pub open spec fn path_action_spec(path: Seq<char>, needed: Seq<String>, present: bool, is_svn_dir: bool, is_dir: bool) -> PathAction {
    if !present || is_svn_dir {
        PathAction::Skip
    } else if !holds_needed(path, needed) {
        PathAction::Remove
    } else if !inside_needed(path, needed) && is_dir {
        PathAction::Descend
    } else {
        PathAction::Keep
    }
}

/// What to do with `path` when removing unneeded testcases.
pub fn path_action(path: &str, needed: &Vec<String>, present: bool, is_svn_dir: bool, is_dir: bool) -> (r: PathAction)
    ensures
        r == path_action_spec(path@, needed@, present, is_svn_dir, is_dir),
{
    if !present || is_svn_dir {
        return PathAction::Skip;
    }
    let mut holds = false;
    let mut i: usize = 0;
    while i < needed.len()
        invariant
            i <= needed.len(),
            holds == exists|j: int| 0 <= j < i && subpath_of_spec(#[trigger] needed@[j]@, path@),
        decreases needed.len() - i,
    {
        if subpath_of(needed[i].as_str(), path) {
            holds = true;
        }
        i += 1;
    }
    if !holds {
        return PathAction::Remove;
    }
    let mut inside = false;
    let mut k: usize = 0;
    while k < needed.len()
        invariant
            k <= needed.len(),
            inside == exists|j: int| 0 <= j < k && subpath_of_spec(path@, #[trigger] needed@[j]@),
        decreases needed.len() - k,
    {
        if subpath_of(path, needed[k].as_str()) {
            inside = true;
        }
        k += 1;
    }
    if !inside && is_dir { PathAction::Descend } else { PathAction::Keep }
}

/// What regex's `captures` finds of `version (\d+)\.(\d+)` in `output`: the
/// texts of its two groups, or `None` where it does not match.
pub uninterp spec fn version_captures_of(output: Seq<char>) -> Option<(Seq<char>, Seq<char>)>;

/// regex's `Regex::new(r"version (\d+)\.(\d+)")` then `captures(output)` and its
/// two groups: its result is `version_captures_of(output@)`.
#[verifier::external_body]
fn version_captures(output: &str) -> (r: Option<(String, String)>)
    ensures
        r matches Some((a, b)) ==> version_captures_of(output@) == Some((a@, b@)),
        r is None ==> version_captures_of(output@) is None,
{
    let re = regex::Regex::new(r"version (\d+)\.(\d+)").unwrap();
    match re.captures(output) {
        Some(c) => Some((c[1].to_string(), c[2].to_string())),
        None => None,
    }
}

/// What the version of the svn client says.
#[derive(PartialEq, Eq, Structural, Clone, Copy, Debug)]
pub enum SvnVersionCheck {
    /// Version 1.6 or later.
    Supported,
    /// Older than 1.6.
    TooOld(u32, u32),
    /// No version could be found.
    Unknown,
}

/// Version `major.minor` is at least 1.6.
pub open spec fn version_supported(major: u32, minor: u32) -> bool {
    major > 1 || (major == 1 && minor >= 6)
}

/// What `svn --version` printing `output` says of the client. `None` where the
/// version numbers found cannot be read as `u32` (where reading them would fail).
pub open spec fn svn_version_check_spec(output: Seq<char>) -> Option<SvnVersionCheck> {
    match version_captures_of(output) {
        None => Some(SvnVersionCheck::Unknown),
        Some((a, b)) => match (parse_u32_spec(a), parse_u32_spec(b)) {
            (Some(major), Some(minor)) => Some(if version_supported(major, minor) {
                SvnVersionCheck::Supported
            } else {
                SvnVersionCheck::TooOld(major, minor)
            }),
            _ => None,
        },
    }
}

/// Checks the svn client's version from the output of `svn --version`.
pub fn check_svn_version(output: &str) -> (r: Option<SvnVersionCheck>)
    ensures
        r == svn_version_check_spec(output@),
{
    match version_captures(output) {
        None => Some(SvnVersionCheck::Unknown),
        Some((a, b)) => {
            let av = chars_of(a.as_str());
            let bv = chars_of(b.as_str());
            match (parse_u32(&av), parse_u32(&bv)) {
                (Some(major), Some(minor)) => Some(if major > 1 || (major == 1 && minor >= 6) {
                    SvnVersionCheck::Supported
                } else {
                    SvnVersionCheck::TooOld(major, minor)
                }),
                _ => None,
            }
        }
    }
}


/// A step of making the testcases checkout match the dev revision.
#[derive(PartialEq, Eq, Structural, Clone, Copy, Debug)]
pub enum CheckoutStep {
    /// Create the sparse checkout (converting nested checkouts).
    CreateCheckout,
    /// Remove the checked-out paths that no test needs.
    RemoveUnneeded,
    /// Switch the existing checkout to the branch and revision.
    SwitchRoot,
}

/// The steps of a checkout: without a checkout, create it, then remove what is
/// not needed where a minimal checkout is asked for; with one, first remove what
/// is not needed (to avoid large switches), then switch it.
pub open spec fn checkout_steps_spec(has_checkout: bool, minimal: bool) -> Seq<CheckoutStep> {
    if !has_checkout {
        seq![CheckoutStep::CreateCheckout] + (if minimal { seq![CheckoutStep::RemoveUnneeded] } else { seq![] })
    } else {
        (if minimal { seq![CheckoutStep::RemoveUnneeded] } else { seq![] }) + seq![CheckoutStep::SwitchRoot]
    }
}

/// The steps of a checkout (see `checkout_steps_spec`).
pub fn checkout_steps(has_checkout: bool, minimal: bool) -> (r: Vec<CheckoutStep>)
    ensures
        r@ == checkout_steps_spec(has_checkout, minimal),
{
    let mut r: Vec<CheckoutStep> = Vec::new();
    if !has_checkout {
        r.push(CheckoutStep::CreateCheckout);
        if minimal {
            r.push(CheckoutStep::RemoveUnneeded);
        }
    } else {
        if minimal {
            r.push(CheckoutStep::RemoveUnneeded);
        }
        r.push(CheckoutStep::SwitchRoot);
    }
    assert(r@ =~= checkout_steps_spec(has_checkout, minimal));
    r
}

/// Whether the test cases still have to be fetched one by one: the checkout's
/// root has depth "empty".
pub fn needs_missing_testcases(root_depth: &Option<String>) -> (r: bool)
    ensures
        r == (crate::config::opt_text(*root_depth) == Some("empty"@)),
{
    match root_depth {
        Some(d) => *d == "empty".to_owned(),
        None => false,
    }
}

/// Whether a needed test case path is missing: it is not checked out fully
/// (depth "infinity").
pub fn testcase_missing(depth: &Option<String>) -> (r: bool)
    ensures
        r == (crate::config::opt_text(*depth) != Some("infinity"@)),
{
    match depth {
        Some(d) => !(*d == "infinity".to_owned()),
        None => true,
    }
}

/// The url a working copy at `wc_relpath` (relative to the testcases root) is
/// switched to: that path under the branch's testcases; `None` where the path
/// climbs above the url's root.
pub fn switch_target(branch_url: &str, wc_relpath: &str) -> (r: Option<String>)
    ensures
        r matches Some(u) ==> Some(u@) == resolve_relpath_spec(branch_url@ + "/testcases"@, wc_relpath@),
        r is None ==> resolve_relpath_spec(branch_url@ + "/testcases"@, wc_relpath@) is None,
{
    let mut v = chars_of(branch_url);
    let t = chars_of("/testcases");
    extend_chars(&mut v, &t);
    let base = string_from_chars(&v);
    if can_resolve_relpath(base.as_str(), wc_relpath) {
        Some(svn_resolve_relpath(base.as_str(), wc_relpath))
    } else {
        None
    }
}


/// The depth a sparse checkout leaves at a prefix: the needed depth where it
/// updates, else the current one.
pub open spec fn depth_after_step(current: Option<Seq<char>>, needed: Seq<char>) -> Option<Seq<char>> {
    if needs_depth_update_spec(current, needed) { Some(needed) } else { current }
}

/// Sparse depths never decrease: at each prefix a sparse checkout either keeps a
/// depth at least as deep as the needed one, or updates to the needed depth,
/// which is deeper than the current one (or the prefix had none).
pub proof fn law_sparse_depth_never_decreases(current: Option<Seq<char>>, needed: Seq<char>)
    requires
        depth_rank_spec(needed) is Some,
        current matches Some(c) ==> depth_rank_spec(c) is Some,
    ensures
        depth_after_step(current, needed) is Some,
        current matches Some(c) ==> depth_rank_spec(c)->Some_0 <= depth_rank_spec(depth_after_step(current, needed)->Some_0)->Some_0,
        depth_rank_spec(needed)->Some_0 <= depth_rank_spec(depth_after_step(current, needed)->Some_0)->Some_0,
{
}

/// After a prefix was updated, it must have a depth: svn silently does nothing
/// for a url that does not exist.
pub fn check_updated_depth(depth_after: &Option<String>) -> (r: Result<(), SvnError>)
    ensures
        r is Ok <==> depth_after is Some,
        r is Err ==> r->Err_0 == SvnError::PathNotInSvn,
{
    match depth_after {
        Some(_) => Ok(()),
        None => Err(SvnError::PathNotInSvn),
    }
}

/// Whether nested checkouts found in the testcases directory may be converted:
/// with none there is nothing to convert; with some, only where conversion is
/// forced.
pub fn nested_checkouts_check(n_nested: usize, force_conversion: bool) -> (r: Result<bool, SvnError>)
    ensures
        n_nested == 0 ==> r == Ok::<bool, SvnError>(false),
        n_nested > 0 && force_conversion ==> r == Ok::<bool, SvnError>(true),
        n_nested > 0 && !force_conversion ==> r == Err::<bool, SvnError>(SvnError::NestedCheckouts),
{
    if n_nested == 0 {
        Ok(false)
    } else if force_conversion {
        Ok(true)
    } else {
        Err(SvnError::NestedCheckouts)
    }
}


/// A component that an svn path keeps as it is: no separator of either kind, no
/// encoded space, and not `"."`.
pub open spec fn plain_component(e: Seq<char>) -> bool {
    &&& no_char(e, '/')
    &&& no_char(e, '\\')
    &&& !contains(e, "%20"@)
    &&& e != "."@
}

/// A text without `c` holds no one-character pattern `c`.
proof fn lemma_no_char_not_contains(e: Seq<char>, c: char)
    requires
        no_char(e, c),
    ensures
        !contains(e, seq![c]),
{
    assert forall|i: int| !occurs_at(e, i, seq![c]) by {
        if occurs_at(e, i, seq![c]) {
            assert(e.subrange(i, i + 1)[0] == e[i]);
        }
    }
}

/// Replacing each backslash by a slash leaves no backslash.
proof fn lemma_backslashes_gone(x: Seq<char>)
    ensures
        no_char(replace_spec(x, seq!['\\'], seq!['/']), '\\'),
    decreases x.len(),
{
    let p = seq!['\\'];
    if x.len() >= 1 {
        lemma_backslashes_gone(x.drop_first());
        let rest = replace_spec(x.drop_first(), p, seq!['/']);
        if x.take(1) == p {
            assert(x.skip(1) =~= x.drop_first());
            assert forall|i: int| 0 <= i < (seq!['/'] + rest).len() implies (seq!['/'] + rest)[i] != '\\' by {
                if i > 0 {
                    assert((seq!['/'] + rest)[i] == rest[i - 1]);
                }
            }
        } else {
            assert(x.take(1) =~= seq![x[0]]);
            assert forall|i: int| 0 <= i < (seq![x[0]] + rest).len() implies (seq![x[0]] + rest)[i] != '\\' by {
                if i > 0 {
                    assert((seq![x[0]] + rest)[i] == rest[i - 1]);
                }
            }
        }
    }
}

/// Decoding `"%20"` as a space adds no character but spaces.
proof fn lemma_space_decoding_keeps(y: Seq<char>, c: char)
    requires
        no_char(y, c),
        c != ' ',
    ensures
        no_char(replace_spec(y, seq!['%', '2', '0'], seq![' ']), c),
    decreases y.len(),
{
    let p = seq!['%', '2', '0'];
    if y.len() >= 3 {
        if y.take(3) == p {
            lemma_space_decoding_keeps(y.skip(3), c);
            let rest = replace_spec(y.skip(3), p, seq![' ']);
            assert forall|i: int| 0 <= i < (seq![' '] + rest).len() implies (seq![' '] + rest)[i] != c by {
                if i > 0 {
                    assert((seq![' '] + rest)[i] == rest[i - 1]);
                }
            }
        } else {
            lemma_space_decoding_keeps(y.drop_first(), c);
            let rest = replace_spec(y.drop_first(), p, seq![' ']);
            assert forall|i: int| 0 <= i < (seq![y[0]] + rest).len() implies (seq![y[0]] + rest)[i] != c by {
                if i > 0 {
                    assert((seq![y[0]] + rest)[i] == rest[i - 1]);
                }
            }
        }
    }
}

/// The first two characters of a decoded text come from the text where they are
/// digits.
proof fn lemma_space_decoding_head(y: Seq<char>)
    ensures
        ({
            let z = replace_spec(y, seq!['%', '2', '0'], seq![' ']);
            &&& z.len() >= 1 ==> y.len() >= 1
            &&& z.len() >= 1 && z[0] == '0' ==> y.len() >= 1 && y[0] == '0'
            &&& z.len() >= 2 && z[0] == '2' && z[1] == '0' ==> y.len() >= 2 && y[0] == '2' && y[1] == '0'
        }),
    decreases y.len(),
{
    let p = seq!['%', '2', '0'];
    if y.len() >= 3 && y.take(3) != p {
        lemma_space_decoding_head(y.drop_first());
        let rest = replace_spec(y.drop_first(), p, seq![' ']);
        let z = replace_spec(y, p, seq![' ']);
        assert(z == seq![y[0]] + rest);
        if z.len() >= 2 {
            assert(z[1] == rest[0]);
            assert(y.drop_first()[0] == y[1]);
        }
    }
}

/// Decoding `"%20"` as a space leaves no `"%20"`.
proof fn lemma_space_decoding_clean(y: Seq<char>)
    ensures
        !contains(replace_spec(y, seq!['%', '2', '0'], seq![' ']), seq!['%', '2', '0']),
    decreases y.len(),
{
    let p = seq!['%', '2', '0'];
    let z = replace_spec(y, p, seq![' ']);
    if y.len() < 3 {
        assert forall|i: int| !occurs_at(z, i, p) by {}
    } else if y.take(3) == p {
        lemma_space_decoding_clean(y.skip(3));
        let rest = replace_spec(y.skip(3), p, seq![' ']);
        assert(z == seq![' '] + rest);
        assert forall|i: int| !occurs_at(z, i, p) by {
            if occurs_at(z, i, p) {
                if i == 0 {
                    assert(z.subrange(0, 3)[0] == z[0]);
                } else {
                    assert(z.subrange(i, i + 3) =~= rest.subrange(i - 1, i + 2));
                    assert(occurs_at(rest, i - 1, p));
                }
            }
        }
    } else {
        lemma_space_decoding_clean(y.drop_first());
        lemma_space_decoding_head(y.drop_first());
        let rest = replace_spec(y.drop_first(), p, seq![' ']);
        assert(z == seq![y[0]] + rest);
        assert forall|i: int| !occurs_at(z, i, p) by {
            if occurs_at(z, i, p) {
                if i == 0 {
                    assert(z.subrange(0, 3) =~= p);
                    assert(z[0] == '%' && z[1] == '2' && z[2] == '0');
                    assert(rest[0] == '2' && rest[1] == '0');
                    assert(y[1] == '2' && y[2] == '0');
                    assert(y.take(3) =~= p);
                } else {
                    assert(z.subrange(i, i + 3) =~= rest.subrange(i - 1, i + 2));
                    assert(occurs_at(rest, i - 1, p));
                }
            }
        }
    }
}

/// A normalized path has no backslash and no `"%20"`.
proof fn lemma_normalized_clean(u: Seq<char>)
    ensures
        no_char(normalized_path(u), '\\'),
        !contains(normalized_path(u), "%20"@),
{
    reveal_strlit("\\");
    reveal_strlit("/");
    reveal_strlit("%20");
    reveal_strlit(" ");
    assert("\\"@ =~= seq!['\\']);
    assert("/"@ =~= seq!['/']);
    assert("%20"@ =~= seq!['%', '2', '0']);
    assert(" "@ =~= seq![' ']);
    let g = replace_spec(u, seq!['\\'], seq!['/']);
    lemma_backslashes_gone(u);
    lemma_space_decoding_keeps(g, '\\');
    lemma_space_decoding_clean(g);
}

/// The pieces of `without_dots(ps)` are pieces of `ps`, none of them `"."`.
proof fn lemma_without_dots_elems(ps: Seq<Seq<char>>)
    ensures
        forall|k: int| 0 <= k < without_dots(ps).len() ==> (#[trigger] without_dots(ps)[k]) != "."@
            && exists|j: int| 0 <= j < ps.len() && ps[j] == without_dots(ps)[k],
    decreases ps.len(),
{
    if ps.len() > 0 {
        lemma_without_dots_elems(ps.drop_last());
        let w = without_dots(ps.drop_last());
        assert forall|k: int| 0 <= k < without_dots(ps).len() implies (#[trigger] without_dots(ps)[k]) != "."@
            && exists|j: int| 0 <= j < ps.len() && ps[j] == without_dots(ps)[k] by {
            if k < w.len() {
                assert(without_dots(ps)[k] == w[k]);
                let j = choose|j: int| 0 <= j < ps.drop_last().len() && ps.drop_last()[j] == w[k];
                assert(ps[j] == ps.drop_last()[j]);
            } else {
                assert(without_dots(ps)[k] == ps.last());
                assert(ps[ps.len() - 1] == ps.last());
            }
        }
    }
}

/// Without `"."` pieces, `without_dots` changes nothing.
proof fn lemma_without_dots_id(xs: Seq<Seq<char>>)
    requires
        forall|i: int| 0 <= i < xs.len() ==> #[trigger] xs[i] != "."@,
    ensures
        without_dots(xs) == xs,
    decreases xs.len(),
{
    if xs.len() > 0 {
        lemma_without_dots_id(xs.drop_last());
        assert(xs[xs.len() - 1] != "."@);
        assert(xs.drop_last().push(xs.last()) =~= xs);
    }
}

/// Every component of an svn path is plain.
proof fn lemma_path_list_plain(u: Seq<char>)
    ensures
        forall|k: int| 0 <= k < path_list_spec(u).len() ==> plain_component(#[trigger] path_list_spec(u)[k]),
{
    let n = normalized_path(u);
    lemma_normalized_clean(u);
    let ps = split_spec(n, '/');
    lemma_without_dots_elems(ps);
    let kept = without_dots(ps);
    assert forall|k: int| 0 <= k < kept.len() implies plain_component(#[trigger] kept[k]) by {
        let j = choose|j: int| 0 <= j < ps.len() && ps[j] == kept[k];
        lemma_split_pieces(n, '/', j);
        let e = ps[j];
        let a = choose|a: int| 0 <= a && a + e.len() <= n.len() && #[trigger] n.subrange(a, a + e.len()) == e;
        assert forall|i: int| 0 <= i < e.len() implies e[i] != '\\' by {
            assert(e[i] == n[a + i]);
        }
        assert forall|i: int| !occurs_at(e, i, "%20"@) by {
            if occurs_at(e, i, "%20"@) {
                assert(e.subrange(i, i + "%20"@.len()) =~= n.subrange(a + i, a + i + "%20"@.len()));
                assert(occurs_at(n, a + i, "%20"@));
            }
        }
    }
    assert forall|k: int| 0 <= k < path_list_spec(u).len() implies plain_component(#[trigger] path_list_spec(u)[k]) by {
        assert(path_list_spec(u)[k] == kept[k]);
    }
}

/// The components of plain components joined with `'/'` are those components,
/// where the last one is not empty.
proof fn lemma_path_list_of_join(m: Seq<Seq<char>>)
    requires
        m.len() > 0,
        m.last().len() > 0,
        forall|k: int| 0 <= k < m.len() ==> plain_component(#[trigger] m[k]),
    ensures
        path_list_spec(join_spec(m, "/"@)) == m,
{
    reveal_strlit("\\");
    reveal_strlit("/");
    reveal_strlit("%20");
    reveal_strlit(" ");
    assert("\\"@ =~= seq!['\\']);
    assert("/"@ =~= seq!['/']);
    assert("%20"@ =~= seq!['%', '2', '0']);
    let j = join_spec(m, seq!['/']);
    assert forall|k: int| 0 <= k < m.len() implies !contains(#[trigger] m[k], seq!['\\']) by {
        lemma_no_char_not_contains(m[k], '\\');
    }
    lemma_replace_join(m, '/', seq!['\\'], "/"@);
    lemma_replace_join(m, '/', seq!['%', '2', '0'], " "@);
    assert(replace_spec(j, "\\"@, "/"@) == j);
    assert(replace_spec(j, "%20"@, " "@) == j);
    assert(normalized_path(j) == j);
    lemma_split_join(m, '/');
    lemma_without_dots_id(m);
    assert(m[m.len() - 1] == m.last());
}

/// Resolving a plain segment and then `".."` from a url gives what resolving
/// `"."` gives: the url's components joined with `'/'`.
pub proof fn law_resolve_segment_then_up(u: Seq<char>, d: Seq<char>)
    requires
        d.len() > 0,
        plain_component(d),
        d != ".."@,
    ensures
        resolve_relpath_spec(u, d) is Some,
        resolve_relpath_spec(resolve_relpath_spec(u, d)->Some_0, ".."@) == resolve_relpath_spec(u, "."@),
        resolve_relpath_spec(u, "."@) == Some(join_spec(path_list_spec(u), "/"@)),
{
    reveal_strlit(".");
    reveal_strlit("..");
    reveal_strlit("/");
    reveal_strlit("\\");
    reveal_strlit("%20");
    let l = path_list_spec(u);
    lemma_path_list_plain(u);
    // `d` is one component
    assert(join_spec(seq![d], "/"@) == d);
    lemma_path_list_of_join(seq![d]);
    assert(path_list_spec(d) == seq![d]);
    assert(resolve_steps(l.push(d), seq![d].drop_first()) == Some(l.push(d)));
    assert(resolve_steps(l, seq![d]) == Some(l.push(d)));
    let m = l.push(d);
    assert forall|k: int| 0 <= k < m.len() implies plain_component(#[trigger] m[k]) by {
        if k < l.len() {
            assert(m[k] == l[k]);
        }
    }
    lemma_path_list_of_join(m);
    // `".."` is one component
    let dd = ".."@;
    assert(dd =~= seq!['.', '.']);
    assert(no_char(dd, '/') && no_char(dd, '\\'));
    assert(!contains(dd, "%20"@)) by {
        assert forall|i: int| !occurs_at(dd, i, "%20"@) by {}
    }
    assert(dd != "."@) by {
        assert(dd.len() != "."@.len());
    }
    assert(join_spec(seq![dd], "/"@) == dd);
    lemma_path_list_of_join(seq![dd]);
    assert(m.drop_last() =~= l);
    assert(seq![dd][0] == ".."@);
    assert(resolve_steps(m, seq![dd]) == resolve_steps(l, seq![dd].drop_first()));
    assert(resolve_steps(l, seq![dd].drop_first()) == Some(l));
    // `"."` has no component
    lemma_path_list_dot();
}

/// `"."` names no component.
proof fn lemma_path_list_dot()
    ensures
        path_list_spec("."@) == Seq::<Seq<char>>::empty(),
{
    reveal_strlit(".");
    reveal_strlit("/");
    reveal_strlit("\\");
    reveal_strlit("%20");
    let dot = "."@;
    assert(dot =~= seq!['.']);
    assert(no_char(dot, '/') && no_char(dot, '\\'));
    assert forall|i: int| !occurs_at(dot, i, "%20"@) by {}
    assert("\\"@ =~= seq!['\\']);
    assert("%20"@ =~= seq!['%', '2', '0']);
    lemma_no_char_not_contains(dot, '\\');
    lemma_replace_absent(dot, "\\"@, "/"@);
    lemma_replace_absent(dot, "%20"@, " "@);
    assert(normalized_path(dot) == dot);
    lemma_split_join(seq![dot], '/');
    assert(join_spec(seq![dot], seq!['/']) == dot);
    assert(split_spec(dot, '/') == seq![dot]);
    assert(without_dots(seq![dot]) == without_dots(seq![dot].drop_last()));
    assert(without_dots(seq![dot]) =~= Seq::<Seq<char>>::empty());
}

/// Every path ends with itself, and with `"."`, component by component.
pub proof fn law_path_ends_with_itself_and_dot(p: Seq<char>)
    ensures
        ends_with_components(path_list_spec(p), path_list_spec(p)),
        ends_with_components(path_list_spec(p), path_list_spec("."@)),
{
    let l = path_list_spec(p);
    assert(l.subrange(0, l.len() as int) =~= l);
    lemma_path_list_dot();
    assert(l.subrange(l.len() as int, l.len() as int) =~= Seq::<Seq<char>>::empty());
}

/// The depths that the prefixes of `path` have after a sparse checkout, where
/// they had the depths `current` before it.
pub open spec fn sparse_depths_after(path: Seq<char>, current: Seq<Option<Seq<char>>>) -> Seq<Option<Seq<char>>> {
    Seq::new(current.len(), |i: int| depth_after_step(current[i], sparse_steps_spec(path)[i].1))
}

/// A sparse checkout of a path lowers the depth of none of its prefixes: each
/// ends at least as deep as it was and as its needed depth ("empty" for the
/// leading prefixes), and the path itself ends fully checked out ("infinity").
pub proof fn law_sparse_checkout_never_lowers(path: Seq<char>, current: Seq<Option<Seq<char>>>)
    requires
        current.len() == sparse_steps_spec(path).len(),
        forall|i: int| 0 <= i < current.len() ==> (#[trigger] current[i] matches Some(c) ==> depth_rank_spec(c) is Some),
    ensures
        forall|i: int| 0 <= i < current.len() ==> {
            let after = #[trigger] sparse_depths_after(path, current)[i];
            &&& after is Some
            &&& depth_rank_spec(after->Some_0) is Some
            &&& (current[i] matches Some(c) ==> depth_rank_spec(c)->Some_0 <= depth_rank_spec(after->Some_0)->Some_0)
            &&& depth_rank_spec(sparse_steps_spec(path)[i].1)->Some_0 <= depth_rank_spec(after->Some_0)->Some_0
        },
        forall|i: int| 0 <= i < current.len() - 1 ==> depth_rank_spec("empty"@)->Some_0
            <= depth_rank_spec((#[trigger] sparse_depths_after(path, current)[i])->Some_0)->Some_0,
        current.len() > 0 ==> sparse_depths_after(path, current)[current.len() - 1] == Some("infinity"@),
{
    reveal_strlit("exclude");
    reveal_strlit("empty");
    reveal_strlit("files");
    reveal_strlit("immediates");
    reveal_strlit("infinity");
    let steps = sparse_steps_spec(path);
    assert forall|i: int| 0 <= i < current.len() implies {
        let after = #[trigger] sparse_depths_after(path, current)[i];
        &&& after is Some
        &&& depth_rank_spec(after->Some_0) is Some
        &&& (current[i] matches Some(c) ==> depth_rank_spec(c)->Some_0 <= depth_rank_spec(after->Some_0)->Some_0)
        &&& depth_rank_spec(steps[i].1)->Some_0 <= depth_rank_spec(after->Some_0)->Some_0
    } by {
        assert(steps[i].1 == "empty"@ || steps[i].1 == "infinity"@);
        assert(depth_rank_spec(steps[i].1) is Some);
        law_sparse_depth_never_decreases(current[i], steps[i].1);
    }
    assert forall|i: int| 0 <= i < current.len() - 1 implies depth_rank_spec("empty"@)->Some_0
        <= depth_rank_spec((#[trigger] sparse_depths_after(path, current)[i])->Some_0)->Some_0 by {
        assert(steps[i].1 == "empty"@);
        assert(depth_rank_spec(steps[i].1)->Some_0 <= depth_rank_spec(sparse_depths_after(path, current)[i]->Some_0)->Some_0);
    }
    if current.len() > 0 {
        let k = current.len() - 1;
        assert(steps[k].1 == "infinity"@);
        law_sparse_depth_never_decreases(current[k], steps[k].1);
        let after = sparse_depths_after(path, current)[k];
        assert(depth_rank_spec(after->Some_0) == Some(4int));
    }
}


/// A step of turning the testcases directory into one sparse checkout.
#[derive(PartialEq, Eq, Structural, Clone, Copy, Debug)]
pub enum ConversionStep {
    /// Switch the nested checkouts to the branch and revision.
    SwitchNested,
    /// Refuse to go on where a nested checkout holds changes.
    CheckNestedStatus,
    /// Create the empty sparse checkout at the root.
    CreateSparseRoot,
    /// Turn each nested checkout into a part of the sparse one.
    ConvertNested,
}

/// The steps of creating the sparse checkout, in order: with nested checkouts to
/// convert, switch them, check them, create the root, then convert them; else
/// only create the root.
pub open spec fn conversion_steps_spec(convert: bool) -> Seq<ConversionStep> {
    if convert {
        seq![ConversionStep::SwitchNested, ConversionStep::CheckNestedStatus, ConversionStep::CreateSparseRoot,
            ConversionStep::ConvertNested]
    } else {
        seq![ConversionStep::CreateSparseRoot]
    }
}

/// The steps of creating the sparse checkout (see `conversion_steps_spec`).
pub fn conversion_steps(convert: bool) -> (r: Vec<ConversionStep>)
    ensures
        r@ == conversion_steps_spec(convert),
{
    let mut r: Vec<ConversionStep> = Vec::new();
    if convert {
        r.push(ConversionStep::SwitchNested);
        r.push(ConversionStep::CheckNestedStatus);
    }
    r.push(ConversionStep::CreateSparseRoot);
    if convert {
        r.push(ConversionStep::ConvertNested);
    }
    assert(r@ =~= conversion_steps_spec(convert));
    r
}


/// A needed path is never removed: where one of the needed paths lies inside
/// `path` (or is `path`), the action is not `Remove`. A present path that is not
/// svn's own is removed exactly when none of the needed paths lies inside it.
pub proof fn law_needed_paths_never_removed(path: Seq<char>, needed: Seq<String>, present: bool, is_svn_dir: bool, is_dir: bool)
    ensures
        (exists|i: int| 0 <= i < needed.len() && subpath_of_spec(#[trigger] needed[i]@, path))
            ==> path_action_spec(path, needed, present, is_svn_dir, is_dir) != PathAction::Remove,
        (path_action_spec(path, needed, present, is_svn_dir, is_dir) == PathAction::Remove) <==> (present && !is_svn_dir
            && forall|i: int| 0 <= i < needed.len() ==> !subpath_of_spec(#[trigger] needed[i]@, path)),
        present && !is_svn_dir
            && (exists|i: int| 0 <= i < needed.len() && subpath_of_spec(#[trigger] needed[i]@, path))
            && (exists|i: int| 0 <= i < needed.len() && subpath_of_spec(path, #[trigger] needed[i]@))
            ==> path_action_spec(path, needed, present, is_svn_dir, is_dir) == PathAction::Keep,
{
}

} // verus!
