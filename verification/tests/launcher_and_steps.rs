use mwtest::commands::{filter_ids, raw_gtest_allowed, IdFilter};
use mwtest::config::CommandTemplate;
use mwtest::report::{artifact_subdir, distinct_sorted, Report, RunCounts};
use mwtest::text::{chars_of, string_from_chars, trim_chars};
use mwtest::runnable::{
    finished_result, output_dir_action, start_failure, timeout_note, CommandGenerator, ExecutionStyle,
    OutputDirAction, OutputKind, TestCommand, TestCommandResult, TestGroup, TestId, TestInstance,
    TestInstanceCreator,
};
use mwtest::scheduler::TestQueue;
use mwtest::svn::{check_updated_depth, nested_checkouts_check, SvnError, checkout_steps, needs_missing_testcases, switch_target, testcase_missing, CheckoutStep};
use mwtest::xge::{submit_arguments, wrapped_result, StreamRequest};

fn strings(v: &[&str]) -> Vec<String> {
    v.iter().map(|s| s.to_string()).collect()
}

#[test]
fn submit_arguments_of_requests() {
    let request = StreamRequest {
        id: 12,
        title: "a test id".to_string(),
        cwd: "/w".to_string(),
        command: strings(&["tool", "arg"]),
        local: true,
        single: false,
    };
    assert_eq!(
        submit_arguments(&request, "/bin/xge"),
        strings(&["/caption=a_test_id", "/allowremote=off", "/command", "/bin/xge", "w", "12", "tool", "arg"])
    );
    let remote = StreamRequest { local: false, command: vec![], ..request };
    assert_eq!(submit_arguments(&remote, "x"), strings(&["/caption=a_test_id", "/command", "x", "w", "12"]));
}

#[test]
fn wrapped_results() {
    let r = wrapped_result(3, Some(2), "out\n", "err\n");
    assert_eq!(r.id, 3);
    assert_eq!(r.exit_code, 2);
    assert_eq!(r.stdout, "err\nout\n");
    assert_eq!(wrapped_result(4, None, "", "").exit_code, -7787);
}

#[test]
fn run_results() {
    assert_eq!(finished_result(None, "x".to_string()).exit_code, -7787);
    assert_eq!(finished_result(Some(0), "x".to_string()).stdout, "x");
    let f = start_failure("no such file");
    assert_eq!(f.exit_code, 1);
    assert_eq!(f.stdout, "[mwtest] error while trying to start test: no such file");
    assert_eq!(timeout_note(60), "[mwtest] terminated because 60 second timeout was reached!");
}

#[test]
fn output_directory_decisions() {
    assert_eq!(output_dir_action(false, false), OutputDirAction::Create);
    assert_eq!(output_dir_action(true, true), OutputDirAction::Reset);
    assert_eq!(output_dir_action(true, false), OutputDirAction::Refuse);
}

#[test]
fn ids_are_filtered_in_order() {
    let ids = vec![
        TestId { id: "Cases/A".to_string(), rel_path: None },
        TestId { id: "cases/b".to_string(), rel_path: None },
        TestId { id: "other/a".to_string(), rel_path: None },
    ];
    let f = IdFilter { filter: strings(&["cases"]), ids: vec![], excluded: strings(&["cases/b"]) };
    let kept: Vec<String> = filter_ids(&f, &ids).into_iter().map(|t| t.id).collect();
    assert_eq!(kept, strings(&["Cases/A"]));
}

#[test]
fn raw_gtest_batches() {
    assert!(raw_gtest_allowed(true, true, false, false, 0));
    assert!(!raw_gtest_allowed(true, true, false, false, 1));
    assert!(!raw_gtest_allowed(false, true, false, false, 0));
    assert!(!raw_gtest_allowed(true, true, true, false, 0));
    assert!(!raw_gtest_allowed(true, true, false, true, 0));
}

#[test]
fn checkout_step_order() {
    assert_eq!(checkout_steps(false, false), vec![CheckoutStep::CreateCheckout]);
    assert_eq!(checkout_steps(false, true), vec![CheckoutStep::CreateCheckout, CheckoutStep::RemoveUnneeded]);
    assert_eq!(checkout_steps(true, true), vec![CheckoutStep::RemoveUnneeded, CheckoutStep::SwitchRoot]);
    assert_eq!(checkout_steps(true, false), vec![CheckoutStep::SwitchRoot]);
    assert!(needs_missing_testcases(&Some("empty".to_string())));
    assert!(!needs_missing_testcases(&Some("infinity".to_string())));
    assert!(!needs_missing_testcases(&None));
    assert!(testcase_missing(&None));
    assert!(testcase_missing(&Some("empty".to_string())));
    assert!(!testcase_missing(&Some("infinity".to_string())));
}

#[test]
fn switch_targets() {
    assert_eq!(switch_target("https://h/r/trunk", "."), Some("https://h/r/trunk/testcases".to_string()));
    assert_eq!(switch_target("https://h/r/trunk", "a/b"), Some("https://h/r/trunk/testcases/a/b".to_string()));
    assert_eq!(switch_target("x", "../../../.."), None);
}

#[test]
fn run_counts_are_read_back() {
    let mut counts = RunCounts::new();
    counts.add("App", "a", 0);
    counts.add("App", "a", 1);
    assert_eq!(counts.runs("App", "a"), 2);
    assert_eq!(counts.runs("App", "b"), 0);
    let mut report = Report::new("/out", "/t", true);
    let instance = TestInstance {
        test_id: TestId { id: "a".to_string(), rel_path: None },
        command: TestCommand { command: vec![], cwd: String::new(), tmp_path: None },
    };
    let (_, show) = report.add(1, 1, "App", instance, &TestCommandResult { exit_code: 0, stdout: String::new() });
    assert!(show);
    assert_eq!(report.runs_of_test("App", "a"), 1);
}

#[test]
fn queue_names_output_directories_to_create() {
    let creator = |output: OutputKind, command: &str| TestInstanceCreator {
        test_id: TestId { id: "t".to_string(), rel_path: None },
        command_generator: CommandGenerator {
            command: CommandTemplate(strings(&["tool", command])),
            cwd: ".".to_string(),
            output,
            tmp_root: "/tmp".to_string(),
        },
        is_g_multitest: false,
    };
    let group = TestGroup {
        app_name: "App".to_string(),
        gtest_generator: None,
        execution_style: ExecutionStyle::XGE,
        timeout_ms: None,
        accepted_returncodes: vec![0],
        tests: vec![creator(OutputKind::Dir, "{{generate_output_dir}}"), creator(OutputKind::File, "{{generate_output_file}}")],
    };
    let mut q = TestQueue::new(vec![group], 1);
    assert_eq!(q.output_dir_of_last(0), None);
    let first = q.next_request().unwrap();
    assert_eq!(first.id, 0);
    let dir = q.output_dir_of_last(0).unwrap();
    assert!(dir.starts_with("/tmp/"));
    assert_eq!(first.command[1], dir);
    q.next_request();
    assert_eq!(q.output_dir_of_last(1), None);
    assert_eq!(q.output_dir_of_last(7), None);
}

#[test]
fn working_copies_are_sorted_once() {
    assert_eq!(distinct_sorted(strings(&["b", "a", "b", "c", "a"])), strings(&["a", "b", "c"]));
    assert_eq!(distinct_sorted(vec![]), Vec::<String>::new());
}

#[test]
fn sparse_steps_fail_without_depth() {
    assert_eq!(check_updated_depth(&Some("empty".to_string())), Ok(()));
    assert_eq!(check_updated_depth(&None), Err(SvnError::PathNotInSvn));
    assert_eq!(nested_checkouts_check(0, false), Ok(false));
    assert_eq!(nested_checkouts_check(2, true), Ok(true));
    assert_eq!(nested_checkouts_check(2, false), Err(SvnError::NestedCheckouts));
}

#[test]
fn artifact_folders() {
    assert_eq!(artifact_subdir(0), "success");
    assert_eq!(artifact_subdir(3), "different");
}

#[test]
fn unicode_whitespace_is_trimmed() {
    assert_eq!(string_from_chars(&trim_chars(&chars_of("\u{3000}\u{a0}x y\u{2029}\u{85}"))), "x y");
    assert_eq!(string_from_chars(&trim_chars(&chars_of("\u{200b}x"))), "\u{200b}x");
}
