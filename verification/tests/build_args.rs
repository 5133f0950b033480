use mwtest::commands::{build_console_args, cmake_build_args, cmake_source_dir, xg_console_args};
use mwtest::svn::{conversion_steps, needs_depth_update, path_endswith, sparse_steps, ConversionStep};

#[test]
fn build_console_args_with_monitor() {
    let args = build_console_args("C:/b/mwBuildAll.sln", "a,b", "Release", false);
    assert_eq!(
        args,
        vec!["C:/b/mwBuildAll.sln", "/build", "/silent", "/cfg=Release|x64", "/prj=a,b", "/openmonitor"]
    );
}

#[test]
fn build_console_args_without_monitor() {
    let args = build_console_args("s.sln", "p", "Debug", true);
    assert_eq!(args, vec!["s.sln", "/build", "/silent", "/cfg=Debug|x64", "/prj=p"]);
}

#[test]
fn cmake_build_args_name_dir_config_and_targets() {
    let args = cmake_build_args("/build", "Release", "x,y");
    assert_eq!(args, vec!["--build", "/build", "--config", "Release", "--target", "x,y"]);
}

#[test]
fn xg_console_args_carry_port_and_monitor() {
    let args = xg_console_args("/opt/profile.xml", "/opt/xge.exe", 4711, true);
    assert_eq!(
        args,
        vec!["/profile=/opt/profile.xml", "/openmonitor", "/command=/opt/xge.exe client 127.0.0.1:4711"]
    );
    let quiet = xg_console_args("p.xml", "x.exe", 0, false);
    assert_eq!(quiet, vec!["/profile=p.xml", "/command=x.exe client 127.0.0.1:0"]);
}

#[test]
fn cmake_source_dir_from_cache() {
    let cache = "# comment\nCMAKE_BUILD_TYPE:STRING=Release\nmwBuildAll_SOURCE_DIR:STATIC=/src/dev  \r\nother=1\n";
    assert_eq!(cmake_source_dir(cache), Some("/src/dev".to_string()));
}

#[test]
fn cmake_source_dir_takes_first_line_with_key() {
    let cache = "mwBuildAll_SOURCE_DIR:STATIC= /one\nmwBuildAll_SOURCE_DIR:STATIC=/two\n";
    assert_eq!(cmake_source_dir(cache), Some("/one".to_string()));
}

#[test]
fn cmake_source_dir_absent() {
    assert_eq!(cmake_source_dir("CMAKE_BUILD_TYPE:STRING=Release\n"), None);
    assert_eq!(cmake_source_dir(""), None);
}

#[test]
fn conversion_steps_with_and_without_nested_checkouts() {
    assert_eq!(
        conversion_steps(true),
        vec![
            ConversionStep::SwitchNested,
            ConversionStep::CheckNestedStatus,
            ConversionStep::CreateSparseRoot,
            ConversionStep::ConvertNested
        ]
    );
    assert_eq!(conversion_steps(false), vec![ConversionStep::CreateSparseRoot]);
}

#[test]
fn path_ends_with_itself_and_dot() {
    for p in ["/A/B/C", "A", "", "./x/../y", "/"] {
        assert!(path_endswith(p, p));
        assert!(path_endswith(p, "."));
    }
}

#[test]
fn sparse_checkout_of_a_whole_path_never_lowers_a_depth() {
    let steps = sparse_steps("a/b/c");
    let current = [Some("infinity".to_string()), None, Some("files".to_string())];
    let updated: Vec<bool> =
        steps.iter().zip(current.iter()).map(|((_, needed), cur)| needs_depth_update(cur, needed)).collect();
    // "a" already holds everything, "a/b" has no depth yet, "a/b/c" is raised to infinity.
    assert_eq!(updated, vec![false, true, true]);
    assert_eq!(steps.last().unwrap().1, "infinity");
}
