//! Finding the tests of a group: ids from test case paths, and from the test
//! list of a gtest executable.
use vstd::prelude::*;
use crate::runnable::TestId;
use crate::text::{
    chars_of, chars_contain, contains, extend_chars, lines_of, lines_spec, replace_spec, split_chars,
    split_spec, starts_with, str_replace, string_from_chars, trim_chars, trim_spec,
};

verus! {

/// The pattern compiles as a regular expression of the regex crate.
pub uninterp spec fn valid_regex(pattern: Seq<char>) -> bool;

/// What regex's `captures` finds of `pattern` in `text`: `None` where the pattern
/// does not match; else the first group, `None` where that group took no part in
/// the match.
pub uninterp spec fn regex_group1(pattern: Seq<char>, text: Seq<char>) -> Option<Option<Seq<char>>>;

/// The id that `pattern` finds in `text`: its first group, the empty text where
/// the group took no part in the match; `None` where the pattern does not match.
pub open spec fn captured_id(pattern: Seq<char>, text: Seq<char>) -> Option<Seq<char>> {
    match regex_group1(pattern, text) {
        None => None,
        Some(None) => Some(Seq::<char>::empty()),
        Some(Some(g)) => Some(g),
    }
}

/// regex's `Regex::new(pattern).is_ok()`: its result is `valid_regex(pattern@)`.
#[verifier::external_body]
fn regex_is_valid(pattern: &str) -> (r: bool)
    ensures
        r == valid_regex(pattern@),
{
    regex::Regex::new(pattern).is_ok()
}

/// regex's `Regex::new(pattern)` then `captures(text)` and the first group
/// (`get(1)`), as text: its result is `regex_group1(pattern@, text@)`.
#[verifier::external_body]
fn regex_capture_group1(pattern: &str, text: &str) -> (r: Option<Option<String>>)
    requires
        valid_regex(pattern@),
    ensures
        r is None ==> regex_group1(pattern@, text@) is None,
        r matches Some(None) ==> regex_group1(pattern@, text@) == Some(None::<Seq<char>>),
        r matches Some(Some(g)) ==> regex_group1(pattern@, text@) == Some(Some(g@)),
{
    let re = regex::Regex::new(pattern).unwrap();
    match re.captures(text) {
        Some(c) => Some(c.get(1).map(|m| m.as_str().to_string())),
        None => None,
    }
}

/// The id pattern of a preset where it names none.
pub open spec fn default_id_pattern() -> Seq<char> {
    "(.*)"@
}

/// The test of the test case at `rel_path`: its id is the first group of
/// `id_pattern` in the path; `None` where the pattern does not match.
pub fn test_id_for_path(rel_path: &str, id_pattern: &str) -> (r: Option<TestId>)
    requires
        valid_regex(id_pattern@),
    ensures
        r is Some <==> captured_id(id_pattern@, rel_path@) is Some,
        r matches Some(t) ==> Some(t.id@) == captured_id(id_pattern@, rel_path@)
            && (t.rel_path matches Some(p) && p@ == rel_path@),
{
    match regex_capture_group1(id_pattern, rel_path) {
        Some(group) => {
            let id = match group {
                Some(g) => g,
                None => String::new(),
            };
            Some(TestId { id, rel_path: Some(rel_path.to_owned()) })
        }
        None => None,
    }
}

/// Why the tests of a group could not be found from its test case paths.
#[derive(PartialEq, Eq, Debug)]
pub enum PathIdError {
    /// The id pattern does not match the test case at this path.
    NoMatch(String),
}

/// `p` with every backslash turned into a forward slash.
pub open spec fn forward_slashes(p: Seq<char>) -> Seq<char> {
    replace_spec(p, "\\"@, "/"@)
}

/// The tests of the test cases at `rel_paths`, in order, each path written
/// with forward slashes and its id found by `id_pattern`. `None` where the
/// pattern is no valid regular expression; otherwise fails with the first
/// path the pattern does not match.
pub fn test_ids_for_paths(rel_paths: &Vec<String>, id_pattern: &str) -> (r: Option<Result<Vec<TestId>, PathIdError>>)
    ensures
        r is None <==> !valid_regex(id_pattern@),
        r matches Some(Ok(ids)) ==> {
            &&& ids@.len() == rel_paths@.len()
            &&& forall|i: int| 0 <= i < ids@.len() ==> Some((#[trigger] ids@[i]).id@) == captured_id(id_pattern@, forward_slashes(rel_paths@[i]@))
                && (ids@[i].rel_path matches Some(p) && p@ == forward_slashes(rel_paths@[i]@))
        },
        r matches Some(Ok(_)) ==> forall|i: int| 0 <= i < rel_paths@.len() ==> captured_id(id_pattern@, forward_slashes(#[trigger] rel_paths@[i]@)) is Some,
        r matches Some(Err(PathIdError::NoMatch(p))) ==> exists|i: int| 0 <= i < rel_paths@.len()
            && p@ == forward_slashes(rel_paths@[i]@)
            && captured_id(id_pattern@, forward_slashes(rel_paths@[i]@)) is None
            && forall|j: int| 0 <= j < i ==> captured_id(id_pattern@, forward_slashes(#[trigger] rel_paths@[j]@)) is Some,
{
    if !regex_is_valid(id_pattern) {
        return None;
    }
    let mut ids: Vec<TestId> = Vec::new();
    let mut i: usize = 0;
    while i < rel_paths.len()
        invariant
            i <= rel_paths.len(),
            valid_regex(id_pattern@),
            ids@.len() == i,
            forall|k: int| 0 <= k < i ==> Some((#[trigger] ids@[k]).id@) == captured_id(id_pattern@, forward_slashes(rel_paths@[k]@))
                && (ids@[k].rel_path matches Some(p) && p@ == forward_slashes(rel_paths@[k]@)),
            forall|k: int| 0 <= k < i ==> captured_id(id_pattern@, forward_slashes(#[trigger] rel_paths@[k]@)) is Some,
        decreases rel_paths.len() - i,
    {
        let path = str_replace(rel_paths[i].as_str(), "\\", "/");
        match test_id_for_path(path.as_str(), id_pattern) {
            Some(t) => ids.push(t),
            None => {
                return Some(Err(PathIdError::NoMatch(path)));
            }
        }
        i += 1;
    }
    Some(Ok(ids))
}

/// The tests that a gtest executable lists, read from the lines `lines` of its
/// `--gtest_list_tests` output under the current suite name `suite`: lines that
/// mention "DISABLED" are skipped; a line (up to its first `'#'`) that does not
/// begin with a space names a suite (trimmed); any other names a test of the
/// current suite, whose id is the suite name followed by the trimmed line.
pub open spec fn gtest_ids_spec(lines: Seq<Seq<char>>, suite: Seq<char>) -> Seq<Seq<char>>
    decreases lines.len(),
{
    if lines.len() == 0 {
        seq![]
    } else {
        let l = lines[0];
        if contains(l, "DISABLED"@) {
            gtest_ids_spec(lines.drop_first(), suite)
        } else {
            let head = split_spec(l, '#')[0];
            if !starts_with(head, " "@) {
                gtest_ids_spec(lines.drop_first(), trim_spec(head))
            } else {
                seq![suite + trim_spec(head)] + gtest_ids_spec(lines.drop_first(), suite)
            }
        }
    }
}

/// The tests listed in the `--gtest_list_tests` output `output`.
pub fn parse_gtest_list(output: &str) -> (r: Vec<TestId>)
    ensures
        r@.map_values(|t: TestId| t.id@) == gtest_ids_spec(lines_spec(output@), seq![]),
        forall|i: int| 0 <= i < r@.len() ==> (#[trigger] r@[i]).rel_path is None,
{
    proof { reveal_strlit(" "); }
    let v = chars_of(output);
    let lines = lines_of(&v);
    let ghost ls = lines@.map_values(|x: Vec<char>| x@);
    let disabled = chars_of("DISABLED");
    let mut suite: Vec<char> = Vec::new();
    let mut r: Vec<TestId> = Vec::new();
    let mut i: usize = 0;
    assert(ls.skip(0) =~= ls);
    while i < lines.len()
        invariant
            i <= lines.len(),
            ls == lines@.map_values(|x: Vec<char>| x@),
            ls == lines_spec(output@),
            disabled@ == "DISABLED"@,
            r@.map_values(|t: TestId| t.id@) + gtest_ids_spec(ls.skip(i as int), suite@) == gtest_ids_spec(ls, seq![]),
            forall|k: int| 0 <= k < r@.len() ==> (#[trigger] r@[k]).rel_path is None,
        decreases lines.len() - i,
    {
        let ghost rest = ls.skip(i as int);
        assert(rest.drop_first() =~= ls.skip(i + 1));
        assert(rest[0] == lines@[i as int]@);
        let line = &lines[i];
        if !chars_contain(line, &disabled) {
            let pieces = split_chars(line, '#');
            proof { crate::svn::lemma_split_nonempty(line@, '#'); }
            assert(pieces@.map_values(|x: Vec<char>| x@)[0] == pieces@[0]@);
            let head = &pieces[0];
            let begins_with_space = head.len() > 0 && head[0] == ' ';
            assert(begins_with_space == starts_with(head@, " "@)) by {
                reveal_strlit(" ");
                assert(" "@ =~= seq![' ']);
                if head@.len() > 0 && head@[0] == ' ' {
                    assert(head@.subrange(0, 1) =~= seq![' ']);
                } else if head@.len() > 0 {
                    assert(head@.subrange(0, 1)[0] != ' ');
                }
            }
            if !begins_with_space {
                suite = trim_chars(head);
            } else {
                let mut id = Vec::new();
                extend_chars(&mut id, &suite);
                let t = trim_chars(head);
                extend_chars(&mut id, &t);
                let ghost before = r@;
                r.push(TestId { id: string_from_chars(&id), rel_path: None });
                assert(r@.map_values(|t: TestId| t.id@) =~= before.map_values(|t: TestId| t.id@).push(id@));
                assert(r@.map_values(|t: TestId| t.id@) + gtest_ids_spec(ls.skip(i + 1), suite@)
                    =~= before.map_values(|t: TestId| t.id@) + (seq![id@] + gtest_ids_spec(ls.skip(i + 1), suite@)));
            }
        }
        i += 1;
    }
    assert(r@.map_values(|t: TestId| t.id@) + gtest_ids_spec(ls.skip(i as int), suite@) =~= r@.map_values(|t: TestId| t.id@));
    r
}

} // verus!
