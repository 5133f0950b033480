//! The decisions of the command line: which test ids are selected, which test
//! case paths a checkout needs, and which projects a build needs.
use vstd::prelude::*;
use crate::config::{App, Apps};
use crate::runnable::TestId;
use crate::text::{
    chars_of, chars_contain, contains, extend_chars, lines_of, lines_spec, lowercase, occurs_at,
    occurs_at_exec, replace_spec, str_replace, string_from_chars, sub_chars, texts, to_lowercase,
    trim_chars, trim_char_chars, trim_char_spec, trim_spec,
};

verus! {

/// An id as it is compared: lowercase, with `'\\'` read as `'/'`.
pub open spec fn normalize_spec(s: Seq<char>) -> Seq<char> {
    replace_spec(lowercase(s), "\\"@, "/"@)
}

/// An id as it is compared.
pub fn normalize(s: &str) -> (r: String)
    ensures
        r@ == normalize_spec(s@),
{
    let l = to_lowercase(s);
    str_replace(l.as_str(), "\\", "/")
}

/// The first position at or after `from` where `p` occurs in `s`.
pub open spec fn first_occurrence(s: Seq<char>, p: Seq<char>, from: int) -> Option<int>
    decreases s.len() + 1 - from,
{
    if from < 0 || from + p.len() > s.len() {
        None
    } else if occurs_at(s, from, p) {
        Some(from)
    } else {
        first_occurrence(s, p, from + 1)
    }
}

/// The first position at or after `from` where `p` occurs in `s`.
pub fn find_from(s: &Vec<char>, p: &Vec<char>, from: usize) -> (r: Option<usize>)
    ensures
        r matches Some(i) ==> first_occurrence(s@, p@, from as int) == Some(i as int),
        r is None ==> first_occurrence(s@, p@, from as int) is None,
    decreases s.len() + 1 - from,
{
    if from > s.len() || p.len() > s.len() - from {
        return None;
    }
    if p.len() == 0 {
        assert(s@.subrange(from as int, from as int) =~= p@);
        return Some(from);
    }
    if occurs_at_exec(s, from, p) {
        Some(from)
    } else {
        find_from(s, p, from + 1)
    }
}

/// What `first_occurrence` finds is an occurrence.
pub proof fn lemma_first_occurrence_occurs(s: Seq<char>, p: Seq<char>, from: int)
    ensures
        first_occurrence(s, p, from) matches Some(i) ==> occurs_at(s, i, p) && from <= i,
    decreases s.len() + 1 - from,
{
    if from < 0 || from + p.len() > s.len() {
    } else if occurs_at(s, from, p) {
    } else {
        lemma_first_occurrence_occurs(s, p, from + 1);
    }
}

/// The second piece of `line` split at `sep` (std's `split(sep).nth(1)`): the
/// text after the first `sep` up to the next one, if `sep` occurs.
pub open spec fn second_piece(line: Seq<char>, sep: Seq<char>) -> Option<Seq<char>> {
    match first_occurrence(line, sep, 0) {
        None => None,
        Some(k) => {
            let rest = line.skip(k + sep.len());
            match first_occurrence(rest, sep, 0) {
                Some(j) => Some(rest.take(j)),
                None => Some(rest),
            }
        }
    }
}

/// A comment line of an exclusion file: it begins with `'#'`.
pub open spec fn comment_line(line: Seq<char>) -> bool {
    line.len() > 0 && line[0] == '#'
}

/// The ids that an exclusion file names: of each line of the form
/// `app --id id` that is no comment line, the id between the first and a
/// second ` --id `, trimmed of whitespace and then of `'"'`.
pub open spec fn excluded_ids_spec(lines: Seq<Seq<char>>) -> Seq<Seq<char>>
    decreases lines.len(),
{
    if lines.len() == 0 {
        seq![]
    } else {
        let rest = excluded_ids_spec(lines.drop_last());
        if comment_line(lines.last()) {
            rest
        } else {
            match second_piece(lines.last(), " --id "@) {
                Some(id) => rest.push(trim_char_spec(trim_spec(id), '"')),
                None => rest,
            }
        }
    }
}

/// The ids that the exclusion file `content` names.
pub fn parse_exclusion_ids(content: &str) -> (r: Vec<String>)
    ensures
        texts(r@) == excluded_ids_spec(lines_spec(content@)),
{
    proof { reveal_strlit(" --id "); }
    let v = chars_of(content);
    let lines = lines_of(&v);
    let ghost ls = lines@.map_values(|x: Vec<char>| x@);
    let sep = chars_of(" --id ");
    let mut r: Vec<String> = Vec::new();
    let mut i: usize = 0;
    while i < lines.len()
        invariant
            i <= lines.len(),
            ls == lines@.map_values(|x: Vec<char>| x@),
            ls == lines_spec(content@),
            sep@ == " --id "@,
            sep@.len() == 6,
            texts(r@) == excluded_ids_spec(ls.take(i as int)),
        decreases lines.len() - i,
    {
        assert(ls.take(i + 1).drop_last() =~= ls.take(i as int));
        assert(ls.take(i + 1).last() == lines@[i as int]@);
        let line = &lines[i];
        let line_len = line.len();
        if line_len > 0 && line[0] == '#' {
            i += 1;
            continue;
        }
        match find_from(line, &sep, 0) {
            None => {}
            Some(k) => {
                proof { lemma_first_occurrence_occurs(line@, sep@, 0); }
                assert(occurs_at(line@, k as int, sep@));
                let rest = sub_chars(line, k + sep.len(), line_len);
                assert(rest@ =~= line@.skip(k + sep@.len()));
                let id = match find_from(&rest, &sep, 0) {
                    Some(j) => {
                        proof { lemma_first_occurrence_occurs(rest@, sep@, 0); }
                        assert(rest@.subrange(0, j as int) =~= rest@.take(j as int));
                        sub_chars(&rest, 0, j)
                    }
                    None => {
                        assert(rest@.subrange(0, rest@.len() as int) =~= rest@);
                        sub_chars(&rest, 0, rest.len())
                    }
                };
                let t = trim_chars(&id);
                let t2 = trim_char_chars(&t, '"');
                let s = string_from_chars(&t2);
                let ghost before = r@;
                r.push(s);
                proof { crate::config::lemma_texts_push(before, s); }
            }
        }
        i += 1;
    }
    assert(ls.take(lines.len() as int) =~= ls);
    r
}

/// The choice of tests to run or list: ids that contain one of `filter`, or
/// ids equal to one of `ids`, never those of `excluded`.
pub struct IdFilter {
    pub filter: Vec<String>,
    pub ids: Vec<String>,
    pub excluded: Vec<String>,
}

/// The test id `input` is chosen: its normalized form is not excluded, and it
/// contains one of the normalized filters (where filters are given), or equals
/// one of the normalized ids (where ids are given).
pub open spec fn id_accepted(f: IdFilter, input: Seq<char>) -> bool {
    let n = normalize_spec(input);
    &&& !(exists|k: int| 0 <= k < f.excluded@.len() && #[trigger] f.excluded@[k]@ == n)
    &&& if f.filter@.len() > 0 {
        exists|k: int| 0 <= k < f.filter@.len() && contains(n, normalize_spec(#[trigger] f.filter@[k]@))
    } else if f.ids@.len() > 0 {
        exists|k: int| 0 <= k < f.ids@.len() && normalize_spec(#[trigger] f.ids@[k]@) == n
    } else {
        true
    }
}

impl IdFilter {
    /// Whether the test id `input` is chosen.
    pub fn accepts(&self, input: &str) -> (r: bool)
        ensures
            r == id_accepted(*self, input@),
    {
        let n = normalize(input);
        let mut k: usize = 0;
        while k < self.excluded.len()
            invariant
                k <= self.excluded@.len(),
                n@ == normalize_spec(input@),
                forall|j: int| 0 <= j < k ==> #[trigger] self.excluded@[j]@ != n@,
            decreases self.excluded@.len() - k,
        {
            if self.excluded[k] == n {
                return false;
            }
            k += 1;
        }
        if self.filter.len() > 0 {
            let nv = chars_of(n.as_str());
            let mut i: usize = 0;
            while i < self.filter.len()
                invariant
                    i <= self.filter@.len(),
                    nv@ == normalize_spec(input@),
                    forall|j: int| 0 <= j < self.excluded@.len() ==> #[trigger] self.excluded@[j]@ != nv@,
                    forall|j: int| 0 <= j < i ==> !contains(nv@, normalize_spec(#[trigger] self.filter@[j]@)),
                decreases self.filter@.len() - i,
            {
                let f = normalize(self.filter[i].as_str());
                let fv = chars_of(f.as_str());
                if chars_contain(&nv, &fv) {
                    return true;
                }
                i += 1;
            }
            false
        } else if self.ids.len() > 0 {
            let mut i: usize = 0;
            while i < self.ids.len()
                invariant
                    i <= self.ids@.len(),
                    n@ == normalize_spec(input@),
                    self.filter@.len() == 0,
                    forall|j: int| 0 <= j < self.excluded@.len() ==> #[trigger] self.excluded@[j]@ != n@,
                    forall|j: int| 0 <= j < i ==> normalize_spec(#[trigger] self.ids@[j]@) != n@,
                decreases self.ids@.len() - i,
            {
                let f = normalize(self.ids[i].as_str());
                if f == n {
                    assert(normalize_spec(self.ids@[i as int]@) == n@);
                    return true;
                }
                i += 1;
            }
            false
        } else {
            true
        }
    }
}

/// A test whose id (normalized) is excluded is never chosen, whatever the
/// filters and ids.
pub proof fn law_excluded_never_chosen(f: IdFilter, input: Seq<char>, k: int)
    requires
        0 <= k < f.excluded@.len(),
        f.excluded@[k]@ == normalize_spec(input),
    ensures
        !id_accepted(f, input),
{
}

/// A test that no filter or id restricts, and that is not excluded, is chosen.
pub proof fn law_unrestricted_ids_are_chosen(f: IdFilter, input: Seq<char>)
    requires
        f.filter@.len() == 0,
        f.ids@.len() == 0,
        forall|k: int| 0 <= k < f.excluded@.len() ==> (#[trigger] f.excluded@[k])@ != normalize_spec(input),
    ensures
        id_accepted(f, input),
{
}

/// A glob expression up to its first `'*'` (the directory a checkout needs).
pub open spec fn glob_prefix_spec(expr: Seq<char>) -> Seq<char> {
    crate::text::split_spec(expr, '*')[0]
}

/// A glob expression up to its first `'*'`.
pub fn glob_prefix(expr: &str) -> (r: String)
    ensures
        r@ == glob_prefix_spec(expr@),
{
    let v = chars_of(expr);
    let pieces = crate::text::split_chars(&v, '*');
    proof { crate::svn::lemma_split_nonempty(v@, '*'); }
    assert(pieces@.map_values(|x: Vec<char>| x@)[0] == pieces@[0]@);
    string_from_chars(&pieces[0])
}

/// The test case paths that updating the checkout of `apps` needs, app after app:
/// of every group, the directory of its glob (where it has one), then its
/// testcases dependencies.
pub open spec fn update_paths_spec(apps: Seq<(String, App)>) -> Seq<Seq<char>>
    decreases apps.len(),
{
    if apps.len() == 0 {
        seq![]
    } else {
        update_paths_spec(apps.drop_last()) + app_update_paths(apps.last().1)
    }
}

/// The paths that updating the checkout of one app needs, preset after preset.
pub open spec fn app_update_paths(app: App) -> Seq<Seq<char>> {
    presets_update_paths(app.tests@)
}

/// The paths of a list of presets, in order.
pub open spec fn presets_update_paths(ps: Seq<crate::config::TestPreset>) -> Seq<Seq<char>>
    decreases ps.len(),
{
    if ps.len() == 0 {
        seq![]
    } else {
        presets_update_paths(ps.drop_last()) + groups_update_paths(ps.last().groups@)
    }
}

/// The paths of a list of groups, in order.
pub open spec fn groups_update_paths(gs: Seq<crate::config::TestGroup>) -> Seq<Seq<char>>
    decreases gs.len(),
{
    if gs.len() == 0 {
        seq![]
    } else {
        let g = gs.last();
        groups_update_paths(gs.drop_last())
            + (match g.find_glob { Some(e) => seq![glob_prefix_spec(e@)], None => seq![] })
            + texts(g.testcases_dependencies@)
    }
}

/// Appends the texts of `src` to `dst`.
fn append_strings(dst: &mut Vec<String>, src: &Vec<String>)
    ensures
        texts(final(dst)@) == texts(old(dst)@) + texts(src@),
{
    let mut i: usize = 0;
    while i < src.len()
        invariant
            i <= src@.len(),
            texts(dst@) == texts(old(dst)@) + texts(src@.take(i as int)),
        decreases src@.len() - i,
    {
        let ghost before = dst@;
        let s = src[i].clone();
        dst.push(s);
        proof {
            crate::config::lemma_texts_push(before, s);
            assert(texts(src@.take(i + 1)) =~= texts(src@.take(i as int)).push(src@[i as int]@));
        }
        i += 1;
    }
    assert(src@.take(src@.len() as int) =~= src@);
}

/// The test case paths that updating the checkout of `apps` needs.
pub fn update_paths(apps: &Apps) -> (r: Vec<String>)
    ensures
        texts(r@) == update_paths_spec(apps.0@),
{
    let mut r: Vec<String> = Vec::new();
    let mut a: usize = 0;
    while a < apps.0.len()
        invariant
            a <= apps.0@.len(),
            texts(r@) == update_paths_spec(apps.0@.take(a as int)),
        decreases apps.0@.len() - a,
    {
        assert(apps.0@.take(a + 1).drop_last() =~= apps.0@.take(a as int));
        let app = &apps.0[a].1;
        let mut p: usize = 0;
        let ghost base = texts(r@);
        while p < app.tests.len()
            invariant
                p <= app.tests@.len(),
                texts(r@) == base + presets_update_paths(app.tests@.take(p as int)),
            decreases app.tests@.len() - p,
        {
            assert(app.tests@.take(p + 1).drop_last() =~= app.tests@.take(p as int));
            let groups = &app.tests[p].groups;
            let ghost base2 = texts(r@);
            let mut g: usize = 0;
            while g < groups.len()
                invariant
                    g <= groups@.len(),
                    texts(r@) == base2 + groups_update_paths(groups@.take(g as int)),
                decreases groups@.len() - g,
            {
                assert(groups@.take(g + 1).drop_last() =~= groups@.take(g as int));
                let grp = &groups[g];
                let ghost b3 = r@;
                match &grp.find_glob {
                    Some(e) => {
                        let s = glob_prefix(e.as_str());
                        r.push(s);
                        proof { crate::config::lemma_texts_push(b3, s); }
                    }
                    None => {}
                }
                append_strings(&mut r, &grp.testcases_dependencies);
                g += 1;
            }
            assert(groups@.take(groups@.len() as int) =~= groups@);
            p += 1;
        }
        assert(app.tests@.take(app.tests@.len() as int) =~= app.tests@);
        a += 1;
    }
    assert(apps.0@.take(apps.0@.len() as int) =~= apps.0@);
    r
}

/// The parent of a relative path, as relative-path's `RelativePath::parent` gives
/// it (written as text); `None` where the path has none.
pub uninterp spec fn relative_parent_of(path: Seq<char>) -> Option<Seq<char>>;

/// relative-path's `RelativePath::new(path).parent()`, as text: its result is
/// `relative_parent_of(path@)`.
#[verifier::external_body]
fn relative_parent(path: &str) -> (r: Option<String>)
    ensures
        r matches Some(p) ==> relative_parent_of(path@) == Some(p@),
        r is None ==> relative_parent_of(path@) is None,
{
    match relative_path::RelativePath::new(path).parent() {
        Some(p) => Some(p.to_string()),
        None => None,
    }
}

/// Both parts, one after the other; `None` where either is `None`.
pub open spec fn opt_concat(a: Option<Seq<Seq<char>>>, b: Option<Seq<Seq<char>>>) -> Option<Seq<Seq<char>>> {
    match (a, b) {
        (Some(x), Some(y)) => Some(x + y),
        _ => None,
    }
}

/// The path of the test case of `id`: the id pattern with `(.*)` replaced by the
/// id, or the id itself where there is no pattern; its parent where the app
/// checks out parents (`None` where it has none).
pub open spec fn id_path_spec(id: Seq<char>, id_pattern: Option<String>, parent: bool) -> Option<Seq<char>> {
    let p = match id_pattern {
        Some(pat) => replace_spec(pat@, "(.*)"@, id),
        None => id,
    };
    if parent { relative_parent_of(p) } else { Some(p) }
}

/// The paths of the test cases of `ids`, in order.
pub open spec fn id_paths_spec(ids: Seq<String>, id_pattern: Option<String>, parent: bool) -> Option<Seq<Seq<char>>>
    decreases ids.len(),
{
    if ids.len() == 0 {
        Some(seq![])
    } else {
        opt_concat(
            id_paths_spec(ids.drop_last(), id_pattern, parent),
            match id_path_spec(ids.last()@, id_pattern, parent) {
                Some(p) => Some(seq![p]),
                None => None,
            },
        )
    }
}

/// The paths a checkout needs for one group: for a glob group, the glob's
/// directory where no ids are given, else the paths of the given ids; then the
/// group's testcases dependencies.
pub open spec fn group_checkout_spec(g: crate::config::TestGroup, id_pattern: Option<String>, ids: Seq<String>, parent: bool) -> Option<Seq<Seq<char>>> {
    let globbed = match g.find_glob {
        None => Some(seq![]),
        Some(e) => if ids.len() == 0 { Some(seq![glob_prefix_spec(e@)]) } else { id_paths_spec(ids, id_pattern, parent) },
    };
    opt_concat(globbed, Some(texts(g.testcases_dependencies@)))
}

/// The paths of a preset's groups, in order.
pub open spec fn preset_checkout_spec(gs: Seq<crate::config::TestGroup>, id_pattern: Option<String>, ids: Seq<String>, parent: bool) -> Option<Seq<Seq<char>>>
    decreases gs.len(),
{
    if gs.len() == 0 {
        Some(seq![])
    } else {
        opt_concat(preset_checkout_spec(gs.drop_last(), id_pattern, ids, parent), group_checkout_spec(gs.last(), id_pattern, ids, parent))
    }
}

/// The paths of an app's presets, in order.
pub open spec fn app_checkout_spec(ps: Seq<crate::config::TestPreset>, ids: Seq<String>, parent: bool) -> Option<Seq<Seq<char>>>
    decreases ps.len(),
{
    if ps.len() == 0 {
        Some(seq![])
    } else {
        opt_concat(app_checkout_spec(ps.drop_last(), ids, parent), preset_checkout_spec(ps.last().groups@, ps.last().id_pattern, ids, parent))
    }
}

/// The test case paths a checkout of `apps` needs, app after app; `None` where
/// the parent of a path is needed and it has none.
pub open spec fn checkout_paths_spec(apps: Seq<(String, App)>, ids: Seq<String>) -> Option<Seq<Seq<char>>>
    decreases apps.len(),
{
    if apps.len() == 0 {
        Some(seq![])
    } else {
        opt_concat(checkout_paths_spec(apps.drop_last(), ids), app_checkout_spec(apps.last().1.tests@, ids, apps.last().1.checkout_parent))
    }
}

proof fn lemma_opt_concat_assoc(a: Option<Seq<Seq<char>>>, b: Option<Seq<Seq<char>>>, c: Option<Seq<Seq<char>>>)
    ensures
        opt_concat(opt_concat(a, b), c) == opt_concat(a, opt_concat(b, c)),
{
    if a is Some && b is Some && c is Some {
        assert(a->Some_0 + b->Some_0 + c->Some_0 =~= a->Some_0 + (b->Some_0 + c->Some_0));
    }
}

/// Appends `Some(x)` to an accumulator of paths, or fails.
fn push_path(acc: &mut Vec<String>, p: Option<String>) -> (ok: bool)
    ensures
        ok == p is Some,
        ok ==> texts(final(acc)@) == texts(old(acc)@).push(p->Some_0@),
        !ok ==> final(acc)@ == old(acc)@,
{
    match p {
        Some(s) => {
            let ghost before = acc@;
            acc.push(s);
            proof { crate::config::lemma_texts_push(before, s); }
            true
        }
        None => false,
    }
}

/// The paths of the test cases of `ids` for one group.
fn id_paths(ids: &Vec<String>, id_pattern: &Option<String>, parent: bool) -> (r: Option<Vec<String>>)
    ensures
        r matches Some(v) ==> id_paths_spec(ids@, *id_pattern, parent) == Some(texts(v@)),
        r is None ==> id_paths_spec(ids@, *id_pattern, parent) is None,
{
    let mut out: Vec<String> = Vec::new();
    let mut i: usize = 0;
    while i < ids.len()
        invariant
            i <= ids@.len(),
            id_paths_spec(ids@.take(i as int), *id_pattern, parent) == Some(texts(out@)),
        decreases ids@.len() - i,
    {
        assert(ids@.take(i + 1).drop_last() =~= ids@.take(i as int));
        let path = match id_pattern {
            Some(p) => str_replace(p.as_str(), "(.*)", ids[i].as_str()),
            None => ids[i].clone(),
        };
        let item = if parent { relative_parent(path.as_str()) } else { Some(path) };
        if !push_path(&mut out, item) {
            proof { lemma_id_paths_none(ids@, *id_pattern, parent, i as int); }
            return None;
        }
        i += 1;
    }
    assert(ids@.take(ids@.len() as int) =~= ids@);
    Some(out)
}

proof fn lemma_id_paths_none(ids: Seq<String>, id_pattern: Option<String>, parent: bool, i: int)
    requires
        0 <= i < ids.len(),
        id_path_spec(ids[i]@, id_pattern, parent) is None,
    ensures
        id_paths_spec(ids, id_pattern, parent) is None,
    decreases ids.len(),
{
    if i < ids.len() - 1 {
        assert(ids.drop_last()[i] == ids[i]);
        lemma_id_paths_none(ids.drop_last(), id_pattern, parent, i);
    }
}

/// Appends `more` where both are there.
fn concat_paths(acc: &mut Vec<String>, more: Option<Vec<String>>) -> (ok: bool)
    ensures
        ok == more is Some,
        ok ==> texts(final(acc)@) == texts(old(acc)@) + texts(more->Some_0@),
{
    match more {
        Some(v) => {
            append_strings(acc, &v);
            true
        }
        None => false,
    }
}

/// The test case paths a checkout of `apps` needs for the given test ids (all
/// test cases where `ids` is empty); `None` where a path's parent is needed and
/// it has none.
pub fn checkout_paths(apps: &Apps, ids: &Vec<String>) -> (r: Option<Vec<String>>)
    ensures
        r matches Some(v) ==> checkout_paths_spec(apps.0@, ids@) == Some(texts(v@)),
        r is None ==> checkout_paths_spec(apps.0@, ids@) is None,
{
    let mut r: Vec<String> = Vec::new();
    let mut a: usize = 0;
    while a < apps.0.len()
        invariant
            a <= apps.0@.len(),
            checkout_paths_spec(apps.0@.take(a as int), ids@) == Some(texts(r@)),
        decreases apps.0@.len() - a,
    {
        assert(apps.0@.take(a + 1).drop_last() =~= apps.0@.take(a as int));
        let app = &apps.0[a].1;
        let ghost base = texts(r@);
        let mut p: usize = 0;
        while p < app.tests.len()
            invariant
                p <= app.tests@.len(),
                a < apps.0@.len(),
                *app == apps.0@[a as int].1,
                opt_concat(Some(base), app_checkout_spec(app.tests@.take(p as int), ids@, app.checkout_parent)) == Some(texts(r@)),
            decreases app.tests@.len() - p,
        {
            assert(app.tests@.take(p + 1).drop_last() =~= app.tests@.take(p as int));
            let preset = &app.tests[p];
            let groups = &preset.groups;
            let ghost base2 = texts(r@);
            let mut g: usize = 0;
            while g < groups.len()
                invariant
                    g <= groups@.len(),
                    a < apps.0@.len(),
                    *app == apps.0@[a as int].1,
                    p < app.tests@.len(),
                    *preset == app.tests@[p as int],
                    *groups == preset.groups,
                    opt_concat(Some(base2), preset_checkout_spec(groups@.take(g as int), preset.id_pattern, ids@, app.checkout_parent)) == Some(texts(r@)),
                decreases groups@.len() - g,
            {
                assert(groups@.take(g + 1).drop_last() =~= groups@.take(g as int));
                let grp = &groups[g];
                let ghost before = texts(r@);
                let globbed: Option<Vec<String>> = match &grp.find_glob {
                    None => Some(Vec::new()),
                    Some(e) => if ids.len() == 0 {
                        let mut v: Vec<String> = Vec::new();
                        let s = glob_prefix(e.as_str());
                        v.push(s);
                        assert(texts(v@) =~= seq![s@]);
                        Some(v)
                    } else {
                        id_paths(ids, &preset.id_pattern, app.checkout_parent)
                    },
                };
                proof {
                    if globbed is Some {
                        assert(texts(globbed->Some_0@) =~= (match grp.find_glob {
                            None => seq![],
                            Some(e) => if ids@.len() == 0 { seq![glob_prefix_spec(e@)] } else { id_paths_spec(ids@, preset.id_pattern, app.checkout_parent)->Some_0 },
                        }));
                    }
                }
                if !concat_paths(&mut r, globbed) {
                    proof {
                        lemma_opt_concat_assoc(Some(base2), preset_checkout_spec(groups@.take(g as int), preset.id_pattern, ids@, app.checkout_parent),
                            group_checkout_spec(*grp, preset.id_pattern, ids@, app.checkout_parent));
                        lemma_none_propagates_preset(groups@, preset.id_pattern, ids@, app.checkout_parent, g as int);
                        lemma_none_propagates_app(app.tests@, ids@, app.checkout_parent, p as int);
                        lemma_none_propagates_apps(apps.0@, ids@, a as int);
                    }
                    return None;
                }
                append_strings(&mut r, &grp.testcases_dependencies);
                proof {
                    lemma_opt_concat_assoc(Some(base2), preset_checkout_spec(groups@.take(g as int), preset.id_pattern, ids@, app.checkout_parent),
                        group_checkout_spec(*grp, preset.id_pattern, ids@, app.checkout_parent));
                    assert(texts(r@) =~= before + (texts(r@).skip(before.len() as int)));
                }
                g += 1;
            }
            assert(groups@.take(groups@.len() as int) =~= groups@);
            proof {
                lemma_opt_concat_assoc(Some(base), app_checkout_spec(app.tests@.take(p as int), ids@, app.checkout_parent),
                    preset_checkout_spec(groups@, preset.id_pattern, ids@, app.checkout_parent));
            }
            p += 1;
        }
        assert(app.tests@.take(app.tests@.len() as int) =~= app.tests@);
        a += 1;
    }
    assert(apps.0@.take(apps.0@.len() as int) =~= apps.0@);
    Some(r)
}

proof fn lemma_none_propagates_preset(gs: Seq<crate::config::TestGroup>, id_pattern: Option<String>, ids: Seq<String>, parent: bool, g: int)
    requires
        0 <= g < gs.len(),
        group_checkout_spec(gs[g], id_pattern, ids, parent) is None,
    ensures
        preset_checkout_spec(gs, id_pattern, ids, parent) is None,
    decreases gs.len(),
{
    if g < gs.len() - 1 {
        assert(gs.drop_last()[g] == gs[g]);
        lemma_none_propagates_preset(gs.drop_last(), id_pattern, ids, parent, g);
    }
}

proof fn lemma_none_propagates_app(ps: Seq<crate::config::TestPreset>, ids: Seq<String>, parent: bool, p: int)
    requires
        0 <= p < ps.len(),
        preset_checkout_spec(ps[p].groups@, ps[p].id_pattern, ids, parent) is None,
    ensures
        app_checkout_spec(ps, ids, parent) is None,
    decreases ps.len(),
{
    if p < ps.len() - 1 {
        assert(ps.drop_last()[p] == ps[p]);
        lemma_none_propagates_app(ps.drop_last(), ids, parent, p);
    }
}

proof fn lemma_none_propagates_apps(apps: Seq<(String, App)>, ids: Seq<String>, a: int)
    requires
        0 <= a < apps.len(),
        app_checkout_spec(apps[a].1.tests@, ids, apps[a].1.checkout_parent) is None,
    ensures
        checkout_paths_spec(apps, ids) is None,
    decreases apps.len(),
{
    if a < apps.len() - 1 {
        assert(apps.drop_last()[a] == apps[a]);
        lemma_none_propagates_apps(apps.drop_last(), ids, a);
    }
}

/// Adds `project` to the projects of `solution`, or a new entry for it at the end.
pub open spec fn plan_add(plan: Seq<(Seq<char>, Seq<Seq<char>>)>, solution: Seq<char>, project: Seq<char>) -> Seq<(Seq<char>, Seq<Seq<char>>)> {
    if exists|i: int| 0 <= i < plan.len() && (#[trigger] plan[i]).0 == solution {
        let i = choose|i: int| 0 <= i < plan.len() && (#[trigger] plan[i]).0 == solution;
        plan.update(i, (solution, plan[i].1.push(project)))
    } else {
        plan.push((solution, seq![project]))
    }
}

/// What building `apps` needs: the projects of each solution (the build's
/// solution, or `default_solution`), solutions in the order they first appear;
/// fails with the name of the first app whose build names no project.
pub open spec fn build_plan_spec(apps: Seq<(String, App)>, default_solution: Seq<char>) -> Result<Seq<(Seq<char>, Seq<Seq<char>>)>, Seq<char>>
    decreases apps.len(),
{
    if apps.len() == 0 {
        Ok(seq![])
    } else {
        match build_plan_spec(apps.drop_last(), default_solution) {
            Err(e) => Err(e),
            Ok(plan) => {
                let b = apps.last().1.build;
                let solution = match b.solution { Some(s) => s@, None => default_solution };
                match b.project {
                    None => Err(apps.last().0@),
                    Some(p) => Ok(plan_add(plan, solution, p@)),
                }
            }
        }
    }
}

/// The view of a build plan.
pub open spec fn plan_view(plan: Seq<(String, Vec<String>)>) -> Seq<(Seq<char>, Seq<Seq<char>>)> {
    plan.map_values(|e: (String, Vec<String>)| (e.0@, texts(e.1@)))
}

/// The build plan of `apps` (see `build_plan_spec`).
pub fn build_plan(apps: &Apps, default_solution: &str) -> (r: Result<Vec<(String, Vec<String>)>, String>)
    ensures
        r matches Ok(plan) ==> build_plan_spec(apps.0@, default_solution@) == Ok::<Seq<(Seq<char>, Seq<Seq<char>>)>, Seq<char>>(plan_view(plan@)),
        r matches Err(name) ==> build_plan_spec(apps.0@, default_solution@) == Err::<Seq<(Seq<char>, Seq<Seq<char>>)>, Seq<char>>(name@),
{
    let mut plan: Vec<(String, Vec<String>)> = Vec::new();
    let mut a: usize = 0;
    assert(plan_view(plan@) =~= seq![]);
    while a < apps.0.len()
        invariant
            a <= apps.0@.len(),
            build_plan_spec(apps.0@.take(a as int), default_solution@) == Ok::<Seq<(Seq<char>, Seq<Seq<char>>)>, Seq<char>>(plan_view(plan@)),
            forall|i: int, j: int| 0 <= i < j < plan@.len() ==> (#[trigger] plan@[i]).0@ != (#[trigger] plan@[j]).0@,
        decreases apps.0@.len() - a,
    {
        assert(apps.0@.take(a + 1).drop_last() =~= apps.0@.take(a as int));
        let (name, app) = (&apps.0[a].0, &apps.0[a].1);
        let solution = match &app.build.solution {
            Some(s) => s.clone(),
            None => default_solution.to_owned(),
        };
        let project = match &app.build.project {
            Some(p) => p.clone(),
            None => {
                proof { lemma_plan_err_extends(apps.0@, default_solution@, a + 1); }
                return Err(name.clone());
            }
        };
        let ghost old_plan = plan@;
        let mut k: usize = 0;
        while k < plan.len()
            invariant
                k <= plan@.len(),
                plan@ == old_plan,
                forall|j: int| 0 <= j < k ==> (#[trigger] plan@[j]).0@ != solution@,
            ensures
                k <= plan@.len(),
                plan@ == old_plan,
                forall|j: int| 0 <= j < k ==> (#[trigger] plan@[j]).0@ != solution@,
                k < plan@.len() ==> plan@[k as int].0@ == solution@,
            decreases plan@.len() - k,
        {
            if plan[k].0 == solution {
                break;
            }
            k += 1;
        }
        if k < plan.len() {
            let (s, mut projects) = plan.remove(k);
            let ghost old_projects = projects@;
            projects.push(project);
            plan.insert(k, (s, projects));
            proof {
                let pv = plan_view(old_plan);
                assert(pv[k as int].0 == solution@);
                assert(exists|i: int| 0 <= i < pv.len() && (#[trigger] pv[i]).0 == solution@);
                let i = choose|i: int| 0 <= i < pv.len() && (#[trigger] pv[i]).0 == solution@;
                if i != k {
                    if i < k {
                        assert(pv[i].0 == old_plan[i].0@);
                    } else {
                        assert(old_plan[k as int].0@ != old_plan[i].0@);
                    }
                }
                crate::config::lemma_texts_push(old_projects, project);
                assert(plan_view(plan@) =~= pv.update(k as int, (solution@, pv[k as int].1.push(project@))));
                assert forall|x: int, y: int| 0 <= x < y < plan@.len() implies (#[trigger] plan@[x]).0@ != (#[trigger] plan@[y]).0@ by {
                    assert(plan@[x].0@ == old_plan[x].0@);
                    assert(plan@[y].0@ == old_plan[y].0@);
                }
            }
        } else {
            let mut projects: Vec<String> = Vec::new();
            projects.push(project);
            let ghost sol = solution@;
            plan.push((solution, projects));
            proof {
                let pv = plan_view(old_plan);
                assert forall|i: int| 0 <= i < pv.len() implies (#[trigger] pv[i]).0 != sol by {
                    assert(pv[i].0 == old_plan[i].0@);
                }
                assert(texts(projects@) =~= seq![project@]);
                assert(plan_view(plan@) =~= pv.push((sol, seq![project@])));
            }
        }
        a += 1;
    }
    assert(apps.0@.take(apps.0@.len() as int) =~= apps.0@);
    Ok(plan)
}

proof fn lemma_plan_err_extends(apps: Seq<(String, App)>, d: Seq<char>, n: int)
    requires
        0 <= n <= apps.len(),
        build_plan_spec(apps.take(n), d) is Err,
    ensures
        build_plan_spec(apps, d) == build_plan_spec(apps.take(n), d),
    decreases apps.len() - n,
{
    if n < apps.len() {
        assert(apps.take(n + 1).drop_last() =~= apps.take(n));
        lemma_plan_err_extends(apps, d, n + 1);
    } else {
        assert(apps.take(n) =~= apps);
    }
}

/// The strings of `parts` with `sep` between neighbours (std's `join`).
pub fn join_with(parts: &Vec<String>, sep: &str) -> (r: String)
    ensures
        r@ == crate::text::join_spec(texts(parts@), sep@),
{
    let mut v: Vec<char> = Vec::new();
    let sv = chars_of(sep);
    let mut i: usize = 0;
    while i < parts.len()
        invariant
            i <= parts@.len(),
            sv@ == sep@,
            v@ == crate::text::join_spec(texts(parts@.take(i as int)), sep@),
        decreases parts@.len() - i,
    {
        let ghost prev = texts(parts@.take(i as int));
        assert(texts(parts@.take(i + 1)) =~= prev.push(parts@[i as int]@));
        assert(texts(parts@.take(i + 1)).drop_last() =~= prev);
        if i > 0 {
            extend_chars(&mut v, &sv);
        }
        let pc = chars_of(parts[i].as_str());
        extend_chars(&mut v, &pc);
        proof {
            if i == 0 {
                assert(prev.len() == 0);
                assert(v@ =~= parts@[0]@);
            }
        }
        i += 1;
    }
    assert(parts@.take(parts@.len() as int) =~= parts@);
    string_from_chars(&v)
}


/// The predicate of the tests that `filter` chooses.
pub open spec fn chosen_by(filter: IdFilter) -> spec_fn(TestId) -> bool {
    |t: TestId| id_accepted(filter, t.id@)
}

/// The tests of `ids` that `filter` chooses, in order.
pub fn filter_ids(filter: &IdFilter, ids: &Vec<TestId>) -> (r: Vec<TestId>)
    ensures
        r@ == ids@.filter(chosen_by(*filter)),
{
    let mut r: Vec<TestId> = Vec::new();
    let mut i: usize = 0;
    while i < ids.len()
        invariant
            i <= ids@.len(),
            r@ == ids@.take(i as int).filter(chosen_by(*filter)),
        decreases ids@.len() - i,
    {
        let ghost before = ids@.take(i as int);
        proof {
            reveal(Seq::filter);
            assert(ids@.take(i + 1).drop_last() =~= before);
            assert(ids@.take(i + 1).last() == ids@[i as int]);
        }
        if filter.accepts(ids[i].id.as_str()) {
            r.push(ids[i].copy());
        }
        i += 1;
    }
    assert(ids@.take(ids@.len() as int) =~= ids@);
    r
}

/// A group's gtests may be run as one batch of the gtest executable: no filter,
/// no ids, no parallel or remote run, and no repeat after a failure.
pub fn raw_gtest_allowed(filter_empty: bool, ids_empty: bool, parallel_given: bool, xge: bool, repeat_if_failed: usize) -> (r: bool)
    ensures
        r == (filter_empty && ids_empty && !parallel_given && !xge && repeat_if_failed == 0),
{
    filter_empty && ids_empty && !parallel_given && !xge && repeat_if_failed == 0
}


/// `a` followed by `b`, as a `String`.
fn concat_text(a: &str, b: &str) -> (r: String)
    ensures
        r@ == a@ + b@,
{
    let mut v = chars_of(a);
    let w = chars_of(b);
    extend_chars(&mut v, &w);
    string_from_chars(&v)
}

/// Pushes `s` and states what the texts become.
fn push_string(v: &mut Vec<String>, s: String)
    ensures
        texts(final(v)@) == texts(old(v)@).push(s@),
{
    let ghost before = v@;
    v.push(s);
    proof { crate::config::lemma_texts_push(before, s); }
}

/// The arguments of buildConsole that build `projects` (joined with `','`) of
/// `solution` in configuration `build_config`: the solution, `/build`, `/silent`,
/// `/cfg=<config>|x64`, `/prj=<projects>`, and `/openmonitor` unless the monitor
/// is off.
pub open spec fn build_console_args_spec(solution: Seq<char>, projects: Seq<char>, build_config: Seq<char>, no_monitor: bool) -> Seq<Seq<char>> {
    seq![solution, "/build"@, "/silent"@, "/cfg="@ + build_config + "|x64"@, "/prj="@ + projects]
        + (if no_monitor { seq![] } else { seq!["/openmonitor"@] })
}

/// The arguments of buildConsole (see `build_console_args_spec`).
pub fn build_console_args(solution: &str, projects: &str, build_config: &str, no_monitor: bool) -> (r: Vec<String>)
    ensures
        texts(r@) == build_console_args_spec(solution@, projects@, build_config@, no_monitor),
{
    let mut r: Vec<String> = Vec::new();
    push_string(&mut r, solution.to_string());
    push_string(&mut r, "/build".to_string());
    push_string(&mut r, "/silent".to_string());
    let cfg = concat_text("/cfg=", build_config);
    push_string(&mut r, concat_text(cfg.as_str(), "|x64"));
    push_string(&mut r, concat_text("/prj=", projects));
    if !no_monitor {
        push_string(&mut r, "/openmonitor".to_string());
    }
    assert(texts(r@) =~= build_console_args_spec(solution@, projects@, build_config@, no_monitor));
    r
}

/// The arguments of cmake that build the targets `projects` in `build_dir` in
/// configuration `build_config`.
pub fn cmake_build_args(build_dir: &str, build_config: &str, projects: &str) -> (r: Vec<String>)
    ensures
        texts(r@) == seq!["--build"@, build_dir@, "--config"@, build_config@, "--target"@, projects@],
{
    let mut r: Vec<String> = Vec::new();
    push_string(&mut r, "--build".to_string());
    push_string(&mut r, build_dir.to_string());
    push_string(&mut r, "--config".to_string());
    push_string(&mut r, build_config.to_string());
    push_string(&mut r, "--target".to_string());
    push_string(&mut r, projects.to_string());
    assert(texts(r@) =~= seq!["--build"@, build_dir@, "--config"@, build_config@, "--target"@, projects@]);
    r
}

/// The arguments of xgConsole that open the launcher: its profile, `/openmonitor`
/// where the monitor is shown, and the command that starts the launcher's client
/// against the local port `port`.
pub open spec fn xg_console_args_spec(profile: Seq<char>, xge_exe: Seq<char>, port: u16, show_monitor: bool) -> Seq<Seq<char>> {
    seq!["/profile="@ + profile]
        + (if show_monitor { seq!["/openmonitor"@] } else { seq![] })
        + seq!["/command="@ + xge_exe + " client 127.0.0.1:"@ + crate::text::decimal(port as nat)]
}

/// The arguments of xgConsole (see `xg_console_args_spec`).
pub fn xg_console_args(profile: &str, xge_exe: &str, port: u16, show_monitor: bool) -> (r: Vec<String>)
    ensures
        texts(r@) == xg_console_args_spec(profile@, xge_exe@, port, show_monitor),
{
    let mut r: Vec<String> = Vec::new();
    push_string(&mut r, concat_text("/profile=", profile));
    if show_monitor {
        push_string(&mut r, "/openmonitor".to_string());
    }
    let c1 = concat_text("/command=", xge_exe);
    let c2 = concat_text(c1.as_str(), " client 127.0.0.1:");
    let pd = crate::text::decimal_chars(port as u64);
    let ps = string_from_chars(&pd);
    push_string(&mut r, concat_text(c2.as_str(), ps.as_str()));
    assert(texts(r@) =~= xg_console_args_spec(profile@, xge_exe@, port, show_monitor));
    r
}


/// The key of the source directory in a CMake cache.
pub open spec fn cmake_source_key() -> Seq<char> {
    "mwBuildAll_SOURCE_DIR:STATIC="@
}

/// The source directory a CMake cache names: on the first line holding the key,
/// the text after it (up to a second key), trimmed; `None` where no line holds it.
pub open spec fn cmake_source_dir_spec(lines: Seq<Seq<char>>) -> Option<Seq<char>>
    decreases lines.len(),
{
    if lines.len() == 0 {
        None
    } else {
        match second_piece(lines[0], cmake_source_key()) {
            Some(v) => Some(trim_spec(v)),
            None => cmake_source_dir_spec(lines.drop_first()),
        }
    }
}

/// The source directory that the CMake cache `cache` names.
pub fn cmake_source_dir(cache: &str) -> (r: Option<String>)
    ensures
        crate::config::opt_text(r) == cmake_source_dir_spec(lines_spec(cache@)),
{
    let v = chars_of(cache);
    let lines = lines_of(&v);
    let ghost ls = lines@.map_values(|x: Vec<char>| x@);
    let key = chars_of("mwBuildAll_SOURCE_DIR:STATIC=");
    let mut i: usize = 0;
    assert(ls.skip(0) =~= ls);
    while i < lines.len()
        invariant
            i <= lines.len(),
            ls == lines@.map_values(|x: Vec<char>| x@),
            ls == lines_spec(cache@),
            key@ == cmake_source_key(),
            cmake_source_dir_spec(ls.skip(i as int)) == cmake_source_dir_spec(ls),
        decreases lines.len() - i,
    {
        let ghost rest = ls.skip(i as int);
        assert(rest[0] == lines@[i as int]@);
        assert(rest.drop_first() =~= ls.skip(i + 1));
        let line = &lines[i];
        let line_len = line.len();
        match find_from(line, &key, 0) {
            None => {}
            Some(k) => {
                proof { lemma_first_occurrence_occurs(line@, key@, 0); }
                let after = sub_chars(line, k + key.len(), line_len);
                assert(after@ =~= line@.skip(k + key@.len()));
                let piece = match find_from(&after, &key, 0) {
                    Some(j) => {
                        proof { lemma_first_occurrence_occurs(after@, key@, 0); }
                        assert(after@.subrange(0, j as int) =~= after@.take(j as int));
                        sub_chars(&after, 0, j)
                    }
                    None => {
                        assert(after@.subrange(0, after@.len() as int) =~= after@);
                        sub_chars(&after, 0, after.len())
                    }
                };
                let t = trim_chars(&piece);
                return Some(string_from_chars(&t));
            }
        }
        i += 1;
    }
    None
}


/// Each `--filter` selects on its own: an id that no exclusion names is chosen as
/// soon as one of the filters occurs in it (both compared normalized), however
/// many other filters are given.
pub proof fn law_filter_selects_by_any(f: IdFilter, input: Seq<char>, k: int)
    requires
        0 <= k < f.filter@.len(),
        forall|j: int| 0 <= j < f.excluded@.len() ==> #[trigger] f.excluded@[j]@ != normalize_spec(input),
        contains(normalize_spec(input), normalize_spec(f.filter@[k]@)),
    ensures
        id_accepted(f, input),
{
    assert(0 <= k < f.filter@.len() && contains(normalize_spec(input), normalize_spec(f.filter@[k]@)));
}

/// With filters given, an id is chosen only where one of them occurs in it, and an
/// id that the exclusion list names (normalized) is never chosen.
pub proof fn law_filter_needs_a_match_and_no_exclusion(f: IdFilter, input: Seq<char>)
    requires
        id_accepted(f, input),
    ensures
        f.filter@.len() > 0 ==> exists|k: int| 0 <= k < f.filter@.len()
            && contains(normalize_spec(input), normalize_spec(#[trigger] f.filter@[k]@)),
        forall|j: int| 0 <= j < f.excluded@.len() ==> #[trigger] f.excluded@[j]@ != normalize_spec(input),
{
}


/// Without filters, an id that no exclusion names is chosen when it equals one of
/// the `--id`s (both normalized), and, without `--id`s either, whatever it is.
pub proof fn law_ids_select_equal_ids(f: IdFilter, input: Seq<char>)
    requires
        f.filter@.len() == 0,
        forall|j: int| 0 <= j < f.excluded@.len() ==> #[trigger] f.excluded@[j]@ != normalize_spec(input),
    ensures
        (exists|k: int| 0 <= k < f.ids@.len() && normalize_spec(#[trigger] f.ids@[k]@) == normalize_spec(input))
            ==> id_accepted(f, input),
        f.ids@.len() == 0 ==> id_accepted(f, input),
{
}
} // verus!
