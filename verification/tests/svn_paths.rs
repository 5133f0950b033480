use mwtest::svn::{
    can_resolve_relpath, check_svn_version, depth_rank, dev_branch_url, display_svn_path,
    has_blocking_status, needs_depth_update, next_revision, parse_revision, parse_svnversion,
    path_action, sparse_steps, svn_depth, svn_had_conflicts, svn_relpath, svn_revision_of,
    testcases_revision, Info, InfoEntry, PathAction, Revision, SvnError, SvnVersionCheck, WcInfo,
};

#[test]
fn path_to_list() {
    assert_eq!(mwtest::svn::path_to_list("/A/B"), vec!["", "A", "B"]);
}

#[test]
fn path_endswith() {
    assert!(mwtest::svn::path_endswith("/A/B/C", "B/C"));
    assert!(!mwtest::svn::path_endswith("/A/B/C", "D/E"));
    assert!(!mwtest::svn::path_endswith("/A/B/C", "A/B"));
}

#[test]
fn svn_resolve_relpath() {
    assert_eq!(mwtest::svn::svn_resolve_relpath("/A/B/C", "../../D"), "/A/D");
}

#[test]
fn subpath_of() {
    assert!(mwtest::svn::subpath_of("A", "A"));
    assert!(mwtest::svn::subpath_of("A/B", "A"));
    assert!(!mwtest::svn::subpath_of("A", "B"));
    assert!(!mwtest::svn::subpath_of("A/B", "A/C"));

    assert!(!mwtest::svn::subpath_of(".", "A"));
    assert!(mwtest::svn::subpath_of("A", "."));
    assert!(mwtest::svn::subpath_of(".", "."));
    assert!(mwtest::svn::subpath_of("./A", "A"));
}

#[test]
fn path_list_normalizes_separators_and_dots() {
    assert_eq!(mwtest::svn::path_to_list("A\\B/./C/"), vec!["A", "B", "C"]);
    assert_eq!(mwtest::svn::path_to_list("my%20dir/x"), vec!["my dir", "x"]);
    assert_eq!(mwtest::svn::path_to_list(""), Vec::<String>::new());
}

#[test]
fn path_endswith_empty_end() {
    assert!(mwtest::svn::path_endswith("/A/B", ""));
    assert!(!mwtest::svn::path_endswith("B", "A/B"));
}

#[test]
fn resolve_relpath_above_root_is_refused() {
    assert!(!can_resolve_relpath("A", "../../B"));
    assert!(can_resolve_relpath("/A/B", "../C"));
    assert_eq!(mwtest::svn::svn_resolve_relpath("https://host/repo/dev", "../testcases"), "https://host/repo/testcases");
}

#[test]
fn relpath_between_svn_paths() {
    assert_eq!(svn_relpath("A/B/C", "A"), "B/C");
    assert_eq!(svn_relpath("A\\D", "A\\B"), "../D");
}

#[test]
fn conflicts_are_found_on_any_line() {
    assert!(svn_had_conflicts("U  a.txt\nC  b.txt\n"));
    assert!(!svn_had_conflicts("U  a.txt\n A c.txt\n"));
    assert!(!svn_had_conflicts(""));
}

#[test]
fn svn_paths_are_shown_without_dot_and_slash() {
    assert_eq!(display_svn_path("./A/B/"), "A/B");
    assert_eq!(display_svn_path("A"), "A");
    assert_eq!(display_svn_path("./"), "");
}

#[test]
fn revisions_read_and_written() {
    assert_eq!(parse_revision("HEAD"), Some(Revision::Head));
    assert_eq!(parse_revision("819769"), Some(Revision::Revision(819769)));
    assert_eq!(parse_revision("abc"), None);
    assert_eq!(parse_revision("-1"), None);
    assert_eq!(Revision::Revision(42).to_text(), "42");
    assert_eq!(Revision::Head.to_text(), "HEAD");
}

#[test]
fn dev_branch_url_strips_dev() {
    assert_eq!(
        dev_branch_url("https://host/repo/trunk/dev", "^/trunk/dev"),
        Ok("https://host/repo/trunk".to_string())
    );
    assert_eq!(dev_branch_url("https://host/repo/trunk/src", "^/trunk/src"), Err(SvnError::InvalidDevUrl));
}

#[test]
fn next_revision_is_the_oldest_later_commit() {
    assert_eq!(next_revision(&vec![819769, 819767, 819770]), Revision::Revision(819767));
    assert_eq!(next_revision(&vec![]), Revision::Head);
}

#[test]
fn testcases_revision_is_before_the_next_dev_revision() {
    assert_eq!(testcases_revision(Revision::Revision(819767), true), Revision::Revision(819766));
    assert_eq!(testcases_revision(Revision::Revision(819767), false), Revision::Head);
    assert_eq!(testcases_revision(Revision::Head, true), Revision::Head);
}

#[test]
fn depths_are_ordered() {
    assert_eq!(depth_rank("exclude"), Some(0));
    assert_eq!(depth_rank("empty"), Some(1));
    assert_eq!(depth_rank("infinity"), Some(4));
    assert_eq!(depth_rank("deep"), None);
    assert!(needs_depth_update(&None, "empty"));
    assert!(needs_depth_update(&Some("empty".to_string()), "infinity"));
    assert!(!needs_depth_update(&Some("infinity".to_string()), "empty"));
    assert!(!needs_depth_update(&Some("files".to_string()), "files"));
}

#[test]
fn sparse_steps_open_each_parent() {
    let steps = sparse_steps("asdasd/asdasd/x");
    assert_eq!(
        steps,
        vec![
            ("asdasd".to_string(), "empty".to_string()),
            ("asdasd/asdasd".to_string(), "empty".to_string()),
            ("asdasd/asdasd/x".to_string(), "infinity".to_string()),
        ]
    );
}

#[test]
fn svnversion_output_is_read() {
    assert_eq!(parse_svnversion("819769\n"), Ok(vec![819769]));
    assert_eq!(parse_svnversion("819767:819769M\n"), Ok(vec![819767, 819769]));
    assert_eq!(parse_svnversion("exported"), Err(SvnError::SvnVersionOutput));
    assert_eq!(svn_revision_of("819767:819769M"), Ok(819769));
    assert_eq!(svn_revision_of("Unversioned directory"), Err(SvnError::SvnVersionOutput));
}

#[test]
fn depth_of_info() {
    let info = Info {
        entry: Some(InfoEntry {
            url: "https://host/repo/testcases".to_string(),
            relative_url: "^/testcases".to_string(),
            wc_info: WcInfo { wc_root_path: "/wc".to_string(), depth: "empty".to_string() },
        }),
    };
    assert_eq!(svn_depth(&info), Some("empty".to_string()));
    assert_eq!(svn_depth(&Info { entry: None }), None);
}

#[test]
fn blocking_statuses() {
    assert!(has_blocking_status(&vec!["normal".to_string(), "unversioned".to_string()]));
    assert!(!has_blocking_status(&vec!["normal".to_string(), "modified".to_string()]));
}

#[test]
fn actions_on_testcase_paths() {
    let needed = vec!["A/B".to_string()];
    assert_eq!(path_action("A", &needed, true, false, true), PathAction::Descend);
    assert_eq!(path_action("A/B", &needed, true, false, true), PathAction::Keep);
    assert_eq!(path_action("C", &needed, true, false, true), PathAction::Remove);
    assert_eq!(path_action("A/.svn", &needed, true, true, true), PathAction::Skip);
    assert_eq!(path_action("A", &needed, false, false, true), PathAction::Skip);
}

#[test]
fn svn_client_versions() {
    assert_eq!(check_svn_version("svn, version 1.14.1 (r1886195)"), Some(SvnVersionCheck::Supported));
    assert_eq!(check_svn_version("svn, version 1.5.9 (r1)"), Some(SvnVersionCheck::TooOld(1, 5)));
    assert_eq!(check_svn_version("no such program"), Some(SvnVersionCheck::Unknown));
    assert_eq!(check_svn_version("version 99999999999.1"), None);
}

#[test]
fn resolving_a_segment_then_up_returns() {
    for u in ["/A/B", "https://h/r%2520x/dev", "a//b/", "./c\\d"] {
        let there = mwtest::svn::svn_resolve_relpath(u, "seg");
        assert_eq!(mwtest::svn::svn_resolve_relpath(&there, ".."), mwtest::svn::svn_resolve_relpath(u, "."));
    }
    assert_eq!(mwtest::svn::svn_resolve_relpath("a//b/", "."), "a//b");
}

#[test]
fn sparse_depths_only_rise() {
    for current in [None, Some("exclude"), Some("empty"), Some("files"), Some("immediates"), Some("infinity")] {
        for needed in ["empty", "infinity"] {
            let cur = current.map(|c| c.to_string());
            if needs_depth_update(&cur, needed) {
                assert!(current.map(|c| depth_rank(c).unwrap() < depth_rank(needed).unwrap()).unwrap_or(true));
            } else {
                assert!(depth_rank(current.unwrap()).unwrap() >= depth_rank(needed).unwrap());
            }
        }
    }
}

#[test]
fn branch_urls_drop_four_bytes() {
    assert_eq!(mwtest::svn::without_last_bytes("abcdef", 4), Some("ab".to_string()));
    assert_eq!(mwtest::svn::without_last_bytes("aé/x", 4), Some("a".to_string()));
    assert_eq!(mwtest::svn::without_last_bytes("aéx", 2), None);
    assert_eq!(mwtest::svn::without_last_bytes("ab", 4), None);
    assert_eq!(dev_branch_url("https://h/ü/dev", "^/ü/dev"), Ok("https://h/ü".to_string()));
}
