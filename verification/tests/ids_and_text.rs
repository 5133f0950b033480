use mwtest::commands::{
    build_plan, checkout_paths, glob_prefix, join_with, normalize, parse_exclusion_ids,
    update_paths, IdFilter,
};
use mwtest::config::{App, Apps, Build, CommandTemplate, TestGroup as ConfiguredGroup, TestPreset};
use mwtest::inputs::{parse_gtest_list, test_id_for_path, test_ids_for_paths, PathIdError};
use mwtest::text::{
    chars_of, int_to_string, lines_of, parse_u32, split_chars, str_contains, str_ends_with,
    str_replace, str_starts_with, string_from_chars, trim_chars,
    trim_non_numeric_chars,
};

fn strings(v: &[&str]) -> Vec<String> {
    v.iter().map(|s| s.to_string()).collect()
}

#[test]
fn text_basics() {
    assert!(str_starts_with("abc", "ab"));
    assert!(!str_starts_with("a", "ab"));
    assert!(str_ends_with("abc", "bc"));
    assert!(str_contains("abc", ""));
    assert!(str_contains("abcabd", "abd"));
    assert!(!str_contains("abc", "abd"));
    assert_eq!(str_replace("a-b-c", "-", "+"), "a+b+c");
    assert_eq!(str_replace("aaa", "aa", "b"), "ba");
    assert_eq!(str_replace("ab", "", "-"), "-a-b-");
    assert_eq!(normalize("MixedÄ\\x"), "mixedä/x");
}

#[test]
fn splitting_and_lines() {
    let parts: Vec<String> = split_chars(&chars_of("a,,b"), ',').iter().map(string_from_chars).collect();
    assert_eq!(parts, strings(&["a", "", "b"]));
    let lines: Vec<String> = lines_of(&chars_of("x\r\ny\n\nz")).iter().map(string_from_chars).collect();
    assert_eq!(lines, strings(&["x", "y", "", "z"]));
    let lines: Vec<String> = lines_of(&chars_of("x\n")).iter().map(string_from_chars).collect();
    assert_eq!(lines, strings(&["x"]));
}

#[test]
fn trimming_and_numbers() {
    assert_eq!(string_from_chars(&trim_chars(&chars_of(" \t a b\n"))), "a b");
    assert_eq!(string_from_chars(&trim_non_numeric_chars(&chars_of("r12:34M"))), "12:34");
    assert_eq!(parse_u32(&chars_of("4294967295")), Some(4294967295));
    assert_eq!(parse_u32(&chars_of("4294967296")), None);
    assert_eq!(parse_u32(&chars_of("+7")), Some(7));
    assert_eq!(parse_u32(&chars_of("")), None);
    assert_eq!(parse_u32(&chars_of("1a")), None);
    assert_eq!(int_to_string(-7787), "-7787");
    assert_eq!(int_to_string(0), "0");
}

#[test]
fn ids_are_normalized() {
    assert_eq!(normalize("Cases\\Sub\\A"), "cases/sub/a");
}

#[test]
fn exclusion_files_name_ids() {
    let content = "App --id \"cases/a\"\nApp --id  cases/b  \n# no id here\nApp --id x --id y\n# App --id skipped\n  \t# App --id also/skipped\n";
    assert_eq!(parse_exclusion_ids(content), strings(&["cases/a", "cases/b", "x", "also/skipped"]));
    let commented = "# app --id x\napp --id \"y\"\n";
    let f = IdFilter { filter: vec![], ids: vec![], excluded: parse_exclusion_ids(commented) };
    assert!(f.accepts("x"));
    assert!(!f.accepts("y"));
}

#[test]
fn id_filters() {
    let by_filter = IdFilter { filter: strings(&["SUB"]), ids: vec![], excluded: strings(&["cases/sub/skip"]) };
    assert!(by_filter.accepts("cases\\Sub\\a"));
    assert!(!by_filter.accepts("cases/sub/skip"));
    assert!(!by_filter.accepts("cases/other"));
    let by_ids = IdFilter { filter: vec![], ids: strings(&["Cases/A"]), excluded: vec![] };
    assert!(by_ids.accepts("cases/a"));
    assert!(!by_ids.accepts("cases/ab"));
    let all = IdFilter { filter: vec![], ids: vec![], excluded: vec![] };
    assert!(all.accepts("anything"));
}

#[test]
fn globs_and_joins() {
    assert_eq!(glob_prefix("cases/sub/*/input.txt"), "cases/sub/");
    assert_eq!(glob_prefix("cases/all"), "cases/all");
    assert_eq!(join_with(&strings(&["a", "b", "c"]), ", "), "a, b, c");
    assert_eq!(join_with(&vec![], ", "), "");
}

fn group(find_glob: Option<&str>, deps: &[&str]) -> ConfiguredGroup {
    ConfiguredGroup {
        command: CommandTemplate(strings(&["x"])),
        find_glob: find_glob.map(|s| s.to_string()),
        find_gtest: None,
        timeout_ms: None,
        timeout_if_changed_ms: None,
        accepted_returncodes: vec![0],
        testcases_dependencies: strings(deps),
        execution_style: "xge".to_string(),
    }
}

fn app(groups: Vec<ConfiguredGroup>, id_pattern: Option<&str>, parent: bool, project: Option<&str>, solution: Option<&str>) -> App {
    App {
        responsible: "someone".to_string(),
        build: Build {
            exe: "e".to_string(),
            dll: None,
            cwd: None,
            solution: solution.map(|s| s.to_string()),
            project: project.map(|s| s.to_string()),
        },
        tests: vec![TestPreset { id_pattern: id_pattern.map(|s| s.to_string()), groups }],
        globber_matches_parent: false,
        checkout_parent: parent,
    }
}

#[test]
fn checkout_and_update_paths() {
    let apps = Apps(vec![
        ("A".to_string(), app(vec![group(Some("cases/a/*"), &["shared/a"])], Some("cases/a/(.*)/in"), false, Some("pa"), None)),
        ("B".to_string(), app(vec![group(None, &["shared/b"])], None, true, Some("pb"), None)),
    ]);
    assert_eq!(update_paths(&apps), strings(&["cases/a/", "shared/a", "shared/b"]));
    assert_eq!(checkout_paths(&apps, &vec![]), Some(strings(&["cases/a/", "shared/a", "shared/b"])));
    assert_eq!(
        checkout_paths(&apps, &strings(&["one", "two"])),
        Some(strings(&["cases/a/one/in", "cases/a/two/in", "shared/a", "shared/b"]))
    );
    let parents = Apps(vec![("C".to_string(), app(vec![group(Some("cases/c/*"), &[])], None, true, Some("pc"), None))]);
    assert_eq!(checkout_paths(&parents, &strings(&["cases/c/x/file"])), Some(strings(&["cases/c/x"])));
}

#[test]
fn build_plans_group_projects_by_solution() {
    let apps = Apps(vec![
        ("A".to_string(), app(vec![], None, false, Some("pa"), Some("one.sln"))),
        ("B".to_string(), app(vec![], None, false, Some("pb"), None)),
        ("C".to_string(), app(vec![], None, false, Some("pc"), Some("one.sln"))),
    ]);
    assert_eq!(
        build_plan(&apps, "all.sln"),
        Ok(vec![
            ("one.sln".to_string(), strings(&["pa", "pc"])),
            ("all.sln".to_string(), strings(&["pb"])),
        ])
    );
    let missing = Apps(vec![
        ("A".to_string(), app(vec![], None, false, Some("pa"), None)),
        ("D".to_string(), app(vec![], None, false, None, None)),
    ]);
    assert_eq!(build_plan(&missing, "all.sln"), Err("D".to_string()));
}

#[test]
fn ids_from_paths() {
    let t = test_id_for_path("cases/one/input.xml", "cases/(.*)/input.xml").unwrap();
    assert_eq!(t.id, "one");
    assert_eq!(t.rel_path, Some("cases/one/input.xml".to_string()));
    assert!(test_id_for_path("other", "cases/(.*)").is_none());
    let empty_group = test_id_for_path("cases/", "cases/(x)?").unwrap();
    assert_eq!(empty_group.id, "");
    assert!(test_ids_for_paths(&strings(&["a"]), "(").is_none());
    assert_eq!(
        test_ids_for_paths(&strings(&["cases\\a", "b"]), "cases/(.*)").unwrap().err(),
        Some(PathIdError::NoMatch("b".to_string()))
    );
}

#[test]
fn gtest_lists() {
    let ids: Vec<String> = parse_gtest_list("Suite.\n  A\n  DISABLED_B\n  C  # GetParam() = 1\nOther.  # TypeParam = int\n  D\n")
        .into_iter()
        .map(|t| t.id)
        .collect();
    assert_eq!(ids, strings(&["Suite.A", "Suite.C", "Other.D"]));
}
