use mwtest::config::CommandTemplate;
use mwtest::runnable::{
    finished_result, timeout_note, CommandGenerator, ExecutionStyle, OutputKind, TestGroup, TestId,
    TestInstanceCreator,
};
use mwtest::scheduler::{
    classify_xge_line, local_schedule, run_verdict, worker_count, worker_count_with, GtestParser,
    LocalProgress, RunVerdict, TestQueue, XgeLine, XgeRun,
};
use mwtest::xge::StreamResult;

fn creator(id: &str, command: Vec<&str>, multitest: bool) -> TestInstanceCreator {
    TestInstanceCreator {
        test_id: TestId { id: id.to_string(), rel_path: None },
        command_generator: CommandGenerator {
            command: CommandTemplate(command.into_iter().map(|s| s.to_string()).collect()),
            cwd: ".".to_string(),
            output: OutputKind::NoOutput,
            tmp_root: String::new(),
        },
        is_g_multitest: multitest,
    }
}

fn group(tests: Vec<TestInstanceCreator>, style: ExecutionStyle) -> TestGroup {
    TestGroup {
        app_name: "test".to_string(),
        gtest_generator: None,
        execution_style: style,
        timeout_ms: None,
        accepted_returncodes: vec![0],
        tests,
    }
}

fn make_whoami_instance() -> Vec<TestGroup> {
    vec![group(vec![creator("test_id", vec!["whoami"], false)], ExecutionStyle::Parallel)]
}

fn make_failing_ls_instance() -> Vec<TestGroup> {
    vec![group(
        vec![creator("test_id", vec!["ls", "/nonexistent-file"], false)],
        ExecutionStyle::Parallel,
    )]
}

/// Runs the local schedule of `groups`, where every run of a test exits with
/// `exit_code`; returns the overall success and the number of results reported.
fn count_results_local(groups: &Vec<TestGroup>, repeat: usize, repeat_if_failed: usize, exit_code: i32) -> (bool, usize) {
    let schedule = local_schedule(groups, repeat);
    let mut progress = LocalProgress::new();
    let mut count = 0;
    for (g, t) in schedule {
        assert!(t.is_some());
        let mut attempt = 0;
        let success = loop {
            count += 1;
            match run_verdict(attempt, repeat_if_failed, &groups[g].accepted_returncodes, exit_code) {
                RunVerdict::Passed => break true,
                RunVerdict::Failed => break false,
                RunVerdict::Retry => attempt += 1,
            }
        };
        if progress.record(success, false) {
            break;
        }
    }
    (progress.overall_success, count)
}

/// Runs `groups` through the remote queue, where every run exits with
/// `exit_code`; returns the overall success and the number of results reported.
fn count_results_xge(groups: Vec<TestGroup>, repeat: usize, repeat_if_failed: usize, exit_code: i32) -> (bool, usize) {
    let mut run = XgeRun::new(groups, repeat);
    let mut count = 0;
    while !run.done {
        let mut sent = Vec::new();
        while let Some(req) = run.queue.next_request() {
            sent.push(req);
        }
        assert!(!sent.is_empty());
        for req in sent {
            assert!(run.queue.can_accept_response(req.id));
            let result = StreamResult { id: req.id, exit_code, stdout: String::new() };
            let (_, instance, reported) = run.handle_result(&result, repeat_if_failed, false);
            assert_eq!(instance.test_id.id, "test_id");
            assert_eq!(reported.exit_code, exit_code);
            count += 1;
        }
    }
    (run.overall_success, count)
}

#[test]
fn test_run_local_once() {
    let (success, count) = count_results_local(&make_whoami_instance(), 1, 0, 0);
    assert_eq!(success, true);
    assert_eq!(count, 1);
}

#[test]
fn test_run_repeat() {
    let (success, count) = count_results_local(&make_whoami_instance(), 10, 0, 0);
    assert_eq!(success, true);
    assert_eq!(count, 10);
}

#[test]
fn test_run_repeat_if_failed() {
    let (success, count) = count_results_local(&make_failing_ls_instance(), 1, 5, 2);
    assert_eq!(success, false);
    assert_eq!(count, 6);
}

#[test]
fn test_run_local_once_xge() {
    let (success, count) = count_results_xge(make_whoami_instance(), 1, 0, 0);
    assert_eq!(success, true);
    assert_eq!(count, 1);
}

#[test]
fn test_run_repeat_xge() {
    let (success, count) = count_results_xge(make_whoami_instance(), 10, 0, 0);
    assert_eq!(success, true);
    assert_eq!(count, 10);
}

#[test]
fn test_run_repeat_if_failed_xge() {
    let (success, count) = count_results_xge(make_failing_ls_instance(), 1, 5, 2);
    assert_eq!(success, false);
    assert_eq!(count, 6);
}

/// Reads the output of a gtest batch; returns the ids reported and whether the
/// batch succeeded.
fn read_gtest_batch(output: &str) -> (Vec<String>, bool) {
    let mut parser = GtestParser::new();
    let mut ids: Vec<String> = Vec::new();
    for line in output.split_inclusive('\n') {
        assert!(parser.accepts_line(line, false));
        let step = parser.feed_line(line, false);
        assert!(!step.stop);
        if let Some(report) = step.report {
            ids.push(report.test_id);
        }
    }
    (ids, parser.succeeded())
}

#[test]
fn test_run_gtest() {
    let output = "\nSome prefix\n[ RUN      ] Sample.Succeed\n[       OK ] Sample.Succeed\n[ RUN      ] Sample.Failed\n[  FAILED  ] Sample.Failed\n";
    let (ids, success) = read_gtest_batch(output);
    assert_eq!(success, false);
    assert_eq!(ids, ["Sample.Succeed", "Sample.Failed"]);
}

#[test]
fn passing_gtest_batch_succeeds() {
    let (ids, success) = read_gtest_batch("[ RUN      ] Sample.Succeed\n[       OK ] Sample.Succeed\n");
    assert!(success);
    assert_eq!(ids, ["Sample.Succeed"]);
}

#[test]
fn test_run_local_timeout_triggers() {
    let groups = vec![group(vec![creator("Some(0.001)", vec!["sleep", "1"], false)], ExecutionStyle::Parallel)];
    let schedule = local_schedule(&groups, 10);
    let mut progress = LocalProgress::new();
    let mut count = 0;
    for (g, _) in schedule {
        let killed = finished_result(None, timeout_note(0));
        count += 1;
        let success = run_verdict(0, 0, &groups[g].accepted_returncodes, killed.exit_code) == RunVerdict::Passed;
        progress.record(success, false);
    }
    assert_eq!(progress.overall_success, false);
    assert_eq!(count, 10);
}

#[test]
fn gtest_reports_carry_exit_code_and_output() {
    let mut parser = GtestParser::new();
    assert!(parser.feed_line("[ RUN      ] Suite.A\n", false).report.is_none());
    assert_eq!(parser.current_test, Some("Suite.A".to_string()));
    assert!(parser.feed_line("some output\n", false).report.is_none());
    let step = parser.feed_line("[  FAILED  ] Suite.A (0 ms)\n", false);
    let report = step.report.unwrap();
    assert_eq!(report.test_id, "Suite.A");
    assert_eq!(report.exit_code, 1);
    assert_eq!(report.output, "[ RUN      ] Suite.A\nsome output\n[  FAILED  ] Suite.A (0 ms)\n");
    assert!(!parser.succeeded());
}

#[test]
fn gtest_fail_fast_stops_before_reporting() {
    let mut parser = GtestParser::new();
    parser.feed_line("[ RUN      ] Suite.A\n", true);
    let step = parser.feed_line("[  FAILED  ] Suite.A\n", true);
    assert!(step.stop);
    assert!(step.report.is_none());
}

#[test]
fn gtest_result_without_run_line_is_refused() {
    let parser = GtestParser::new();
    assert!(!parser.accepts_line("[       OK ] Suite.A\n", false));
    assert!(!parser.accepts_line("[ RUN      ]", false));
    assert!(parser.accepts_line("plain text\n", false));
}

#[test]
fn verdicts_of_attempts() {
    let accepted = vec![0, 3];
    assert_eq!(run_verdict(0, 2, &accepted, 3), RunVerdict::Passed);
    assert_eq!(run_verdict(1, 2, &accepted, 1), RunVerdict::Retry);
    assert_eq!(run_verdict(2, 2, &accepted, 1), RunVerdict::Failed);
}

#[test]
fn local_schedule_repeats_each_unit_in_a_row() {
    let mut groups = vec![group(
        vec![creator("a", vec!["x"], false), creator("b", vec!["y"], false)],
        ExecutionStyle::Parallel,
    )];
    let mut gtest = group(vec![], ExecutionStyle::Parallel);
    gtest.gtest_generator = Some(creator("g", vec!["gtest"], true));
    groups.push(gtest);
    let schedule = local_schedule(&groups, 2);
    assert_eq!(
        schedule,
        vec![(0, Some(0)), (0, Some(0)), (0, Some(1)), (0, Some(1)), (1, None), (1, None)]
    );
}

#[test]
fn queue_sends_each_test_repeat_times_in_order() {
    let groups = vec![group(
        vec![creator("a", vec!["x"], false), creator("b", vec!["y"], false)],
        ExecutionStyle::Single,
    )];
    let mut q = TestQueue::new(groups, 2);
    let mut ids = Vec::new();
    while let Some(req) = q.next_request() {
        assert!(req.single);
        assert!(!req.local);
        ids.push((req.id, req.title));
    }
    assert_eq!(
        ids,
        vec![(0, "a".to_string()), (0, "a".to_string()), (1, "b".to_string()), (1, "b".to_string())]
    );
    assert!(!q.is_done());
    let (g, instance, done) = q.return_response(1, true, 0);
    assert_eq!(g, 0);
    assert_eq!(instance.test_id.id, "b");
    assert!(!done);
}

#[test]
fn queue_refuses_unknown_answers() {
    let mut q = TestQueue::new(make_whoami_instance(), 1);
    assert!(!q.can_accept_response(0));
    q.next_request();
    assert!(q.can_accept_response(0));
    assert!(!q.can_accept_response(1));
}

#[test]
fn launcher_lines() {
    assert_eq!(classify_xge_line("mwt done"), XgeLine::Done);
    assert_eq!(classify_xge_line("mwt {\"id\":1}"), XgeLine::Result("{\"id\":1}".to_string()));
    assert_eq!(classify_xge_line("building..."), XgeLine::Other);
}

#[test]
fn worker_counts() {
    assert_eq!(worker_count_with(Some(None), 8), 8);
    assert_eq!(worker_count_with(Some(Some(3)), 8), 3);
    assert_eq!(worker_count_with(None, 8), 1);
    assert!(worker_count(Some(None)) >= 1);
    assert_eq!(worker_count(Some(Some(5))), 5);
}
