use mwtest::config::{App, Build, CommandTemplate, TestGroup as ConfiguredGroup};
use mwtest::report::{
    progress_line, shows_output, sort_strings, summary_line, xml_head, xml_suite_head,
    xml_testcase, Report, RunCount, RunCounts,
};
use mwtest::runnable::{
    create_run_commands, gtest_command_generator, groups_ready, join_path, parse_execution_style,
    test_command_generator, test_id_to_input, AppWithTests, CommandGenerator, ExecutionStyle,
    GroupWithTests, OutputKind, OutputPaths, TestCommand, TestCommandResult, TestId, TestInstance,
    TestInstanceCreator, TestPath,
};

fn strings(v: &[&str]) -> Vec<String> {
    v.iter().map(|s| s.to_string()).collect()
}

fn instance(id: &str) -> TestInstance {
    TestInstance {
        test_id: TestId { id: id.to_string(), rel_path: None },
        command: TestCommand { command: strings(&["x"]), cwd: ".".to_string(), tmp_path: None },
    }
}

fn result(exit_code: i32, stdout: &str) -> TestCommandResult {
    TestCommandResult { exit_code, stdout: stdout.to_string() }
}

#[test]
fn progress_lines() {
    assert_eq!(progress_line(3, 10, "App", "case/1", 0), "[3/10] Ok: App --id \"case/1\"");
    assert_eq!(progress_line(4, 10, "App", "case/2", 7), "[4/10] Failed: App --id \"case/2\"");
    assert!(shows_output(1, false));
    assert!(shows_output(0, true));
    assert!(!shows_output(0, false));
}

#[test]
fn summary_lines() {
    let once = RunCount { name: "App".to_string(), id: "a".to_string(), n_runs: 1, n_successes: 0 };
    assert_eq!(summary_line(&once), "  App --id \"a\"");
    let more = RunCount { name: "App".to_string(), id: "b".to_string(), n_runs: 3, n_successes: 2 };
    assert_eq!(summary_line(&more), "  App --id \"b\" (succeeded 2 out of 3 runs)");
}

#[test]
fn run_counts_summarize_failed_and_instable_tests() {
    let mut counts = RunCounts::new();
    counts.add("App", "stable", 0);
    counts.add("App", "stable", 0);
    counts.add("App", "flaky", 1);
    counts.add("App", "flaky", 0);
    counts.add("App", "broken", 2);
    counts.add("Zed", "broken", 2);
    let s = counts.summary();
    assert_eq!(s.failed, strings(&["  App --id \"broken\"", "  Zed --id \"broken\""]));
    assert_eq!(s.instable, strings(&["  App --id \"flaky\" (succeeded 1 out of 2 runs)"]));
    assert!(!s.all_succeeded);

    let mut fine = RunCounts::new();
    fine.add("App", "a", 0);
    let s = fine.summary();
    assert!(s.all_succeeded);
    assert!(s.failed.is_empty() && s.instable.is_empty());
}

#[test]
fn strings_are_sorted_by_characters() {
    assert_eq!(sort_strings(strings(&["b", "a", "B", "ab", ""])), strings(&["", "B", "a", "ab", "b"]));
}

#[test]
fn report_groups_results_by_app() {
    let mut report = Report::new("/out", "/t", false);
    let (line, show) = report.add(1, 3, "App", instance("a"), &result(0, "fine"));
    assert_eq!(line, "[1/3] Ok: App --id \"a\"");
    assert!(!show);
    let (line, show) = report.add(2, 3, "Other", instance("b"), &result(1, "bad"));
    assert_eq!(line, "[2/3] Failed: Other --id \"b\"");
    assert!(show);
    report.add(3, 3, "App", instance("c"), &result(0, ""));
    let suites = report.suite_list();
    assert_eq!(suites.len(), 2);
    assert_eq!(suites[0].name, "App");
    assert_eq!(suites[0].cases.iter().map(|c| c.0.test_id.id.clone()).collect::<Vec<_>>(), strings(&["a", "c"]));
    assert_eq!(suites[1].name, "Other");
    assert_eq!(suites[1].cases[0].1.stdout, "bad");
    let s = report.summary();
    assert_eq!(s.failed, strings(&["  Other --id \"b\""]));
    assert!(!report.verbose());
    assert_eq!(report.artifacts_dir(), "/out");
    assert_eq!(report.testcases_dir(), "/t");
}

#[test]
fn xml_results_are_escaped() {
    assert_eq!(
        xml_head("/t"),
        "<?xml version=\"1.0\" encoding=\"UTF-8\"?><mwtest><config><reference_root>/t</reference_root></config><testsuites>"
    );
    assert_eq!(xml_suite_head("App", 2), "<testsuite name=\"App\" test=\"2\">");
    assert_eq!(
        xml_testcase("a b", -3, "x<y & \"z\"", &vec![("ref/1".to_string(), "different/1".to_string())]),
        "<testcase name=\"a&#x20;b\"><exit_code>-3</exit_code><failure /><system_out>x&lt;y &amp; &quot;z&quot;</system_out><artifact reference=\"ref&#x2F;1\" location=\"different&#x2F;1\" /></testcase>"
    );
    assert_eq!(
        xml_testcase("ok", 0, "", &vec![]),
        "<testcase name=\"ok\"><exit_code>0</exit_code><system_out></system_out></testcase>"
    );
}

#[test]
fn paths_are_joined_with_one_slash() {
    assert_eq!(join_path("/tmp", "x"), "/tmp/x");
    assert_eq!(join_path("/tmp/", "x"), "/tmp/x");
    assert_eq!(join_path("", "x"), "x");
}

#[test]
fn runs_get_their_output_paths() {
    let dir = TestInstanceCreator {
        test_id: TestId { id: "t".to_string(), rel_path: Some("cases/t".to_string()) },
        command_generator: CommandGenerator {
            command: CommandTemplate(strings(&["tool", "--out={{generate_output_dir}}"])),
            cwd: "/w".to_string(),
            output: OutputKind::Dir,
            tmp_root: "/tmp".to_string(),
        },
        is_g_multitest: false,
    };
    let i = dir.instantiate_with("abc");
    assert_eq!(i.command.command, strings(&["tool", "--out=/tmp/abc"]));
    assert_eq!(i.command.tmp_path, Some("/tmp/abc".to_string()));
    assert_eq!(i.command.cwd, "/w");
    assert_eq!(i.test_id.rel_path, Some("cases/t".to_string()));

    let first = dir.instantiate();
    let second = dir.instantiate();
    assert!(first.command.tmp_path.as_ref().unwrap().starts_with("/tmp/"));
    assert_ne!(first.command.tmp_path, second.command.tmp_path);
    assert_ne!(first.command.tmp_path, Some("/tmp/".to_string()));

    let plain = TestInstanceCreator {
        test_id: TestId { id: "p".to_string(), rel_path: None },
        command_generator: CommandGenerator {
            command: CommandTemplate(strings(&["tool"])),
            cwd: ".".to_string(),
            output: OutputKind::NoOutput,
            tmp_root: "/tmp".to_string(),
        },
        is_g_multitest: false,
    };
    assert_eq!(plain.instantiate().command.tmp_path, None);
}

#[test]
fn generators_fill_input_and_choose_output() {
    let t = CommandTemplate(strings(&["tool", "{{input}}", "{{generate_output_file}}"]));
    let g = test_command_generator(&t, "/t/case", "/w".to_string(), "/tmp".to_string());
    assert_eq!(g.command.0, strings(&["tool", "/t/case", "{{generate_output_file}}"]));
    assert_eq!(g.output, OutputKind::File);
    let g = gtest_command_generator(&t, "Suite.*", "/b".to_string());
    assert_eq!(g.command.0, strings(&["tool", "Suite.*", "{{generate_output_file}}"]));
    assert_eq!(g.output, OutputKind::NoOutput);
    assert_eq!(parse_execution_style(&"singlethreaded".to_string()), Some(ExecutionStyle::Single));
    assert_eq!(parse_execution_style(&"parallel".to_string()), Some(ExecutionStyle::Parallel));
    assert_eq!(parse_execution_style(&"xge".to_string()), Some(ExecutionStyle::XGE));
    assert_eq!(parse_execution_style(&"fast".to_string()), None);
}

fn app(cwd: Option<&str>) -> App {
    App {
        responsible: "someone".to_string(),
        build: Build {
            exe: "/b/app".to_string(),
            dll: None,
            cwd: cwd.map(|s| s.to_string()),
            solution: None,
            project: None,
        },
        tests: vec![],
        globber_matches_parent: false,
        checkout_parent: false,
    }
}

#[test]
fn inputs_and_working_directories() {
    let case = TestId { id: "c".to_string(), rel_path: Some("cases/c".to_string()) };
    let file = Some(TestPath { full_path: "/t/cases/c".to_string(), is_dir: false, parent: Some("/t/cases".to_string()) });
    let dir = Some(TestPath { full_path: "/t/cases/c".to_string(), is_dir: true, parent: Some("/t/cases".to_string()) });
    assert_eq!(test_id_to_input(&case, &app(None), &file), ("/t/cases/c".to_string(), "/t/cases".to_string()));
    assert_eq!(test_id_to_input(&case, &app(None), &dir), ("/t/cases/c".to_string(), "/t/cases/c".to_string()));
    assert_eq!(test_id_to_input(&case, &app(Some("/b")), &file), ("/t/cases/c".to_string(), "/b".to_string()));
    let gtest = TestId { id: "Suite.A".to_string(), rel_path: None };
    assert_eq!(test_id_to_input(&gtest, &app(Some("/b")), &None), ("Suite.A".to_string(), "/b".to_string()));
}

fn configured(style: &str) -> ConfiguredGroup {
    ConfiguredGroup {
        command: CommandTemplate(strings(&["/b/app", "{{input}}"])),
        find_glob: Some("cases/*".to_string()),
        find_gtest: None,
        timeout_ms: Some(2500),
        timeout_if_changed_ms: None,
        accepted_returncodes: vec![0, 4],
        testcases_dependencies: vec![],
        execution_style: style.to_string(),
    }
}

#[test]
fn run_commands_for_every_group() {
    let gw = GroupWithTests {
        test_group: configured("parallel"),
        command: CommandTemplate(strings(&["/b/app", "{{input}}"])),
        test_ids: vec![TestId { id: "c".to_string(), rel_path: Some("cases/c".to_string()) }],
        test_paths: vec![Some(TestPath { full_path: "/t/cases/c".to_string(), is_dir: true, parent: None })],
        test_filter: None,
    };
    let apps = vec![AppWithTests { name: "App".to_string(), app: app(None), tests: vec![gw] }];
    let out = OutputPaths { out_dir: "/out".to_string(), tmp_dir: "/tmp".to_string() };
    assert!(groups_ready(&apps));
    let groups = create_run_commands(&apps, &out, false);
    assert_eq!(groups.len(), 1);
    let g = &groups[0];
    assert_eq!(g.app_name, "App");
    assert_eq!(g.execution_style, ExecutionStyle::Parallel);
    assert_eq!(g.get_timeout_duration(), Some(2500));
    assert_eq!(g.accepted_returncodes, vec![0, 4]);
    assert!(g.gtest_generator.is_none());
    let run = g.tests[0].instantiate();
    assert_eq!(run.command.command, strings(&["/b/app", "/t/cases/c"]));
    assert_eq!(run.command.cwd, "/t/cases/c");
    let no_timeout = create_run_commands(&apps, &out, true);
    assert_eq!(no_timeout[0].get_timeout_duration(), None);
}

#[test]
fn groups_with_unknown_style_are_not_ready() {
    let gw = GroupWithTests {
        test_group: configured("fast"),
        command: CommandTemplate(strings(&["x"])),
        test_ids: vec![],
        test_paths: vec![],
        test_filter: None,
    };
    let apps = vec![AppWithTests { name: "App".to_string(), app: app(None), tests: vec![gw] }];
    assert!(!groups_ready(&apps));
    let gtest = GroupWithTests {
        test_group: configured("xge"),
        command: CommandTemplate(strings(&["x", "{{input}}"])),
        test_ids: vec![],
        test_paths: vec![],
        test_filter: Some("Suite.*".to_string()),
    };
    let without_cwd = vec![AppWithTests { name: "App".to_string(), app: app(None), tests: vec![gtest] }];
    assert!(!groups_ready(&without_cwd));
}
