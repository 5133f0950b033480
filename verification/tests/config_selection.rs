use mwtest::config::{
    default_retcodes, has_distinct_keys, select_presets, value_xge, AppConfig, AppsConfig, Build, BuildConfig,
    BuildType, CommandTemplate, ConfigError, InputPaths, InputPathsError, TestGroupConfig,
    TestGroup as ConfiguredGroup, TestListing, TestPresetConfig,
};
use mwtest::inputs::PathIdError;

fn strings(v: &[&str]) -> Vec<String> {
    v.iter().map(|s| s.to_string()).collect()
}

fn input_paths(dev_dir: Option<&str>, build_type: Option<&str>, preset: &str) -> InputPaths {
    InputPaths {
        dev_dir: dev_dir.map(|s| s.to_string()),
        build_dir: "/b".to_string(),
        testcases_dir: "/t".to_string(),
        build_type: build_type.map(|s| s.to_string()),
        preset: preset.to_string(),
        build_config: "RelWithDebInfoUnicode".to_string(),
    }
}

fn group_config(command: Option<Vec<&str>>, find_glob: Option<&str>) -> TestGroupConfig {
    TestGroupConfig {
        command: command.map(|c| CommandTemplate(strings(&c))),
        find_glob: find_glob.map(|s| s.to_string()),
        find_gtest: None,
        timeout_ms: Some(1500),
        timeout_if_changed_ms: None,
        testcases_dependencies: strings(&["shared"]),
        execution_style: "xge".to_string(),
    }
}

fn build_config(exe: Option<&str>, dll: Option<&str>, disabled: bool) -> BuildConfig {
    BuildConfig {
        exe: exe.map(|s| s.to_string()),
        dll: dll.map(|s| s.to_string()),
        cwd: Some("{{build_dir}}/work".to_string()),
        solution: None,
        project: Some("app".to_string()),
        disabled,
    }
}

fn app_config(command: Vec<&str>, build: BuildConfig, groups: Vec<TestGroupConfig>) -> AppConfig {
    AppConfig {
        command: CommandTemplate(strings(&command)),
        responsible: "someone".to_string(),
        alias: strings(&["ap"]),
        tags: strings(&["nightly"]),
        accepted_returncodes: vec![0, 3],
        disabled: false,
        builds: vec![("cmake-windows".to_string(), build)],
        tests: vec![
            (
                "ci".to_string(),
                TestPresetConfig { command: None, id_pattern: Some("cases/(.*)".to_string()), groups },
            ),
            ("full".to_string(), TestPresetConfig { command: None, id_pattern: None, groups: vec![] }),
        ],
        globber_matches_parent: false,
        checkout_parent: false,
    }
}

#[test]
fn templates_are_applied_token_by_token() {
    let t = CommandTemplate(strings(&["{{exe}}", "--in={{input}}", "x"]));
    assert!(t.has_pattern("{{input}}"));
    assert!(!t.has_pattern("{{dll}}"));
    assert_eq!(t.apply("{{input}}", "a/b").0, strings(&["{{exe}}", "--in=a/b", "x"]));
    assert_eq!(t.apply("{{dll}}", "lib.dll").0, t.0);
}

#[test]
fn input_paths_fill_placeholders() {
    let ip = input_paths(Some("/d"), Some("cmake-windows"), "ci");
    let t = CommandTemplate(strings(&[
        "{{dev_dir}}/x",
        "{{build_dir}}",
        "{{testcases_dir}}",
        "{{build_config}}",
        "{{build_config_skipunicode}}",
    ]));
    assert_eq!(
        t.apply_input_paths(&ip).unwrap().0,
        strings(&["/d/x", "/b", "/t", "RelWithDebInfoUnicode", "RelWithDebInfo"])
    );
    let no_dev = input_paths(None, Some("cmake-windows"), "ci");
    assert_eq!(t.apply_input_paths(&no_dev).err(), Some(ConfigError::MissingDevDir));
    assert_eq!(no_dev.apply_to("{{build_dir}}/y").unwrap(), "/b/y");
}

#[test]
fn builds_fill_their_paths() {
    let ip = input_paths(None, Some("cmake-windows"), "ci");
    let b = Build::from(&build_config(Some("{{build_dir}}/app.exe"), None, false), &ip).unwrap();
    assert_eq!(b.exe, "/b/app.exe");
    assert_eq!(b.dll, None);
    assert_eq!(b.cwd, Some("/b/work".to_string()));
    assert_eq!(b.project, Some("app".to_string()));
    assert_eq!(Build::apply_config_string(&None, &ip), Ok(None));
}

#[test]
fn defaults() {
    assert_eq!(default_retcodes(), vec![0]);
    assert_eq!(value_xge(), "xge");
}

#[test]
fn presets_are_selected_by_plus_separated_names() {
    let cfg = app_config(vec!["x"], build_config(Some("e"), None, false), vec![]);
    assert_eq!(select_presets(&cfg.tests, "ci"), vec![0]);
    assert_eq!(select_presets(&cfg.tests, "full+ci"), vec![1, 0]);
    assert_eq!(select_presets(&cfg.tests, "nothing"), Vec::<usize>::new());
}

#[test]
fn app_selection_instantiates_commands() {
    let ip = input_paths(None, Some("cmake-windows"), "ci");
    let cfg = app_config(
        vec!["{{exe}}", "{{input}}", "{{testcases_dir}}"],
        build_config(Some("{{build_dir}}/app.exe"), None, false),
        vec![group_config(None, Some("cases/*"))],
    );
    assert!(cfg.build_has_exe(&ip));
    let app = cfg.select_build_and_preset(&"App".to_string(), &ip).unwrap().unwrap();
    assert_eq!(app.responsible, "someone");
    assert_eq!(app.build.exe, "/b/app.exe");
    assert_eq!(app.tests.len(), 1);
    let g = &app.tests[0].groups[0];
    assert_eq!(g.command.0, strings(&["/b/app.exe", "{{input}}", "/t"]));
    assert_eq!(g.accepted_returncodes, vec![0, 3]);
    assert_eq!(g.timeout_ms, Some(1500));
    assert_eq!(app.tests[0].id_pattern, Some("cases/(.*)".to_string()));
}

#[test]
fn app_selection_errors() {
    let cfg = app_config(
        vec!["{{exe}}", "{{dll}}"],
        build_config(Some("e"), None, false),
        vec![group_config(None, Some("cases/*"))],
    );
    let no_type = input_paths(None, None, "ci");
    assert_eq!(cfg.select_build_and_preset(&"App".to_string(), &no_type).err(), Some(ConfigError::MissingBuildType));
    let other_type = input_paths(None, Some("quickstart"), "ci");
    assert_eq!(
        cfg.select_build_and_preset(&"App".to_string(), &other_type).err(),
        Some(ConfigError::BuildNotFound { build: "quickstart".to_string(), app: "App".to_string() })
    );
    let ip = input_paths(None, Some("cmake-windows"), "ci");
    assert_eq!(cfg.select_build_and_preset(&"App".to_string(), &ip).err(), Some(ConfigError::MissingDll));
    let dev = app_config(
        vec!["{{dev_dir}}/tool"],
        build_config(Some("e"), None, false),
        vec![group_config(None, Some("cases/*"))],
    );
    assert_eq!(dev.select_build_and_preset(&"App".to_string(), &ip).err(), Some(ConfigError::MissingDevDir));
}

#[test]
fn disabled_build_leaves_app_out() {
    let ip = input_paths(None, Some("cmake-windows"), "ci");
    let cfg = app_config(vec!["x"], build_config(None, None, true), vec![]);
    assert!(cfg.build_has_exe(&ip));
    assert!(cfg.select_build_and_preset(&"App".to_string(), &ip).unwrap().is_none());
    let missing = app_config(vec!["x"], build_config(None, None, false), vec![]);
    assert!(!missing.build_has_exe(&ip));
}

#[test]
fn apps_are_selected_by_name_alias_tag_or_all() {
    let ip = input_paths(None, Some("cmake-windows"), "ci");
    let a = app_config(vec!["{{exe}}"], build_config(Some("a.exe"), None, false), vec![]);
    let mut b = app_config(vec!["{{exe}}"], build_config(Some("b.exe"), None, false), vec![]);
    b.alias = vec![];
    b.tags = vec![];
    let apps = AppsConfig(vec![("Alpha".to_string(), a), ("Beta".to_string(), b)]);
    let by_alias = apps.select_build_and_preset(&strings(&["AP"]), &ip).unwrap();
    assert_eq!(by_alias.0.len(), 1);
    assert_eq!(by_alias.0[0].0, "Alpha");
    let by_tag = apps.select_build_and_preset(&strings(&["nightly"]), &ip).unwrap();
    assert_eq!(by_tag.0.len(), 1);
    let all = apps.select_build_and_preset(&strings(&["all"]), &ip).unwrap();
    assert_eq!(all.0.iter().map(|e| e.0.clone()).collect::<Vec<_>>(), strings(&["Alpha", "Beta"]));
    assert_eq!(all.0[1].1.build.exe, "b.exe");
    assert!(apps.selected_builds_have_exe(&strings(&["all"]), &ip));
    assert_eq!(apps.app_names(), strings(&["Alpha", "Beta"]));
}

#[test]
fn app_names_are_sorted() {
    let c = app_config(vec!["x"], build_config(Some("e"), None, false), vec![]);
    let apps = AppsConfig(vec![
        ("zeta".to_string(), c),
        ("Alpha".to_string(), app_config(vec!["x"], build_config(Some("e"), None, false), vec![])),
        ("beta".to_string(), app_config(vec!["x"], build_config(Some("e"), None, false), vec![])),
    ]);
    assert_eq!(apps.app_names(), strings(&["Alpha", "beta", "zeta"]));
    assert!(apps.is_wf());
}

#[test]
fn duplicate_names_are_not_well_formed() {
    let c = || app_config(vec!["x"], build_config(Some("e"), None, false), vec![]);
    let twice = AppsConfig(vec![("a".to_string(), c()), ("a".to_string(), c())]);
    assert!(!twice.is_wf());
    let mut builds_twice = c();
    builds_twice.builds.push(("cmake-windows".to_string(), build_config(Some("f"), None, false)));
    assert!(!AppsConfig(vec![("a".to_string(), builds_twice)]).is_wf());
    assert!(has_distinct_keys(&vec![("a".to_string(), 1), ("b".to_string(), 2)]));
    assert!(!has_distinct_keys(&vec![("a".to_string(), 1), ("a".to_string(), 2)]));
}

#[test]
fn input_paths_from_given_and_guessed() {
    let ip = InputPaths::from(
        None,
        None,
        None,
        None,
        None,
        None,
        BuildType::CMake("/build".to_string(), "/src".to_string()),
        Some("/testcases".to_string()),
    )
    .unwrap();
    assert_eq!(ip.dev_dir, Some("/src".to_string()));
    assert_eq!(ip.build_dir, "/build");
    assert_eq!(ip.testcases_dir, "/testcases");
    assert_eq!(ip.build_type, Some("cmake-windows".to_string()));
    assert_eq!(ip.preset, "ci");
    assert_eq!(ip.build_config, "RelWithDebInfo");

    let given = InputPaths::from(
        Some("/d".to_string()),
        Some("/b".to_string()),
        Some("/t".to_string()),
        Some("custom".to_string()),
        Some("full".to_string()),
        Some("Debug".to_string()),
        BuildType::Quickstart("/q".to_string()),
        None,
    )
    .unwrap();
    assert_eq!(given.build_dir, "/b");
    assert_eq!(given.dev_dir, Some("/d".to_string()));
    assert_eq!(given.build_type, Some("custom".to_string()));
    assert_eq!(given.preset, "full");
    assert_eq!(given.build_config, "Debug");

    let quick = InputPaths::from(None, None, Some("/t".to_string()), None, None, None, BuildType::Quickstart("/q".to_string()), None).unwrap();
    assert_eq!(quick.build_type, Some("quickstart".to_string()));
    assert_eq!(quick.dev_dir, None);
    assert_eq!(quick.build_dir, "/q");
}

#[test]
fn input_paths_errors() {
    assert_eq!(
        InputPaths::from(None, None, None, None, None, None, BuildType::Unknown, Some("/t".to_string())).err(),
        Some(InputPathsError::NoBuildDir)
    );
    assert_eq!(
        InputPaths::from(None, Some("/b".to_string()), None, None, None, None, BuildType::Unknown, None).err(),
        Some(InputPathsError::NoTestcasesDir)
    );
    assert_eq!(InputPaths::pick_build_dir(&None, &BuildType::Quickstart("/q".to_string())), Some("/q".to_string()));
    assert_eq!(InputPaths::pick_build_dir(&None, &BuildType::Unknown), None);
}

#[test]
fn test_inputs_from_paths_and_gtest_lists() {
    let ip = input_paths(None, Some("cmake-windows"), "ci");
    let cfg = app_config(
        vec!["{{exe}}", "--gtest_filter={{input}}"],
        build_config(Some("app.exe"), None, false),
        vec![group_config(None, Some("cases/*"))],
    );
    let app = cfg.select_build_and_preset(&"App".to_string(), &ip).unwrap().unwrap();
    let preset = &app.tests[0];
    let group = &preset.groups[0];
    let listing = TestListing::Paths(strings(&["cases/one", "cases\\two"]));
    let ids = group.generate_test_inputs(preset, &listing).unwrap().unwrap();
    assert_eq!(ids.iter().map(|t| t.id.clone()).collect::<Vec<_>>(), strings(&["one", "two"]));
    assert_eq!(ids[1].rel_path, Some("cases/two".to_string()));
    let bad = TestListing::Paths(strings(&["other/three"]));
    assert_eq!(
        group.generate_test_inputs(preset, &bad).unwrap().err(),
        Some(PathIdError::NoMatch("other/three".to_string()))
    );

    let gtest_group = ConfiguredGroup {
        command: CommandTemplate(strings(&["app.exe", "--gtest_filter={{input}}"])),
        find_glob: None,
        find_gtest: Some("Suite.*".to_string()),
        timeout_ms: None,
        timeout_if_changed_ms: None,
        accepted_returncodes: vec![0],
        testcases_dependencies: vec![],
        execution_style: "xge".to_string(),
    };
    let out = TestListing::GtestOutput("Suite.\n  A\n  DISABLED_B\n  C  # param\nOther.\n  D\n".to_string());
    let ids = gtest_group.generate_test_inputs(preset, &out).unwrap().unwrap();
    assert_eq!(ids.iter().map(|t| t.id.clone()).collect::<Vec<_>>(), strings(&["Suite.A", "Suite.C", "Other.D"]));
    assert_eq!(
        gtest_group.gtest_list_args(),
        strings(&["--gtest_list_tests", "--gtest_filter=Suite.*"])
    );
}
