//! Tests ready to run: their ids, the commands that run them, and the groups they
//! are scheduled in.
use vstd::prelude::*;
use crate::config::{apply_spec, has_pattern_spec, clone_opt, clone_strings, copy_vec, CommandTemplate};
use crate::text::{chars_of, decimal, decimal_chars, ends_with, extend_chars, string_from_chars};

verus! {

/// A test: its id and, for tests that are files or directories, its path relative
/// to the testcases directory.
pub struct TestId {
    pub id: String,
    pub rel_path: Option<String>,
}

impl TestId {
    /// A copy of this id.
    pub fn copy(&self) -> (r: TestId)
        ensures
            r == *self,
    {
        TestId { id: self.id.clone(), rel_path: clone_opt(&self.rel_path) }
    }
}

/// A command line, the directory it runs in, and the temporary output path it
/// was given, if any.
pub struct TestCommand {
    pub command: Vec<String>,
    pub cwd: String,
    pub tmp_path: Option<String>,
}

/// One run of a test.
pub struct TestInstance {
    pub test_id: TestId,
    pub command: TestCommand,
}

/// Two instances agree in every field.
pub open spec fn same_instance(a: TestInstance, b: TestInstance) -> bool {
    &&& a.test_id == b.test_id
    &&& a.command.command@ == b.command.command@
    &&& a.command.cwd == b.command.cwd
    &&& a.command.tmp_path == b.command.tmp_path
}

impl TestInstance {
    /// A copy of this instance.
    pub fn copy(&self) -> (r: TestInstance)
        ensures
            same_instance(r, *self),
    {
        TestInstance {
            test_id: self.test_id.copy(),
            command: TestCommand {
                command: clone_strings(&self.command.command),
                cwd: self.command.cwd.clone(),
                tmp_path: clone_opt(&self.command.tmp_path),
            },
        }
    }
}

/// What a test run reports: its exit code and its output.
pub struct TestCommandResult {
    pub exit_code: i32,
    pub stdout: String,
}

/// Where a group's tests may run.
#[derive(PartialEq, Eq, Structural, Clone, Copy, Debug)]
pub enum ExecutionStyle {
    Single,
    Parallel,
    XGE,
}

/// Whether each run of a command gets a fresh temporary output path, and how.
#[derive(PartialEq, Eq, Structural, Clone, Copy, Debug)]
pub enum OutputKind {
    /// No temporary output.
    NoOutput,
    /// A fresh directory fills `{{generate_output_dir}}`; the runner creates it.
    Dir,
    /// A fresh file path fills `{{generate_output_file}}`.
    File,
}

/// How to make the command of each run of a test.
pub struct CommandGenerator {
    pub command: CommandTemplate,
    pub cwd: String,
    pub output: OutputKind,
    pub tmp_root: String,
}

pub open spec fn pat_output_dir() -> Seq<char> {
    "{{generate_output_dir}}"@
}

pub open spec fn pat_output_file() -> Seq<char> {
    "{{generate_output_file}}"@
}

/// `name` inside the directory `root`: joined with one `'/'` unless `root` is
/// empty or already ends with `'/'`.
pub open spec fn join_path_spec(root: Seq<char>, name: Seq<char>) -> Seq<char> {
    if root.len() == 0 {
        name
    } else if ends_with(root, seq!['/']) {
        root + name
    } else {
        root + seq!['/'] + name
    }
}

/// `name` inside the directory `root`.
pub fn join_path(root: &str, name: &str) -> (r: String)
    ensures
        r@ == join_path_spec(root@, name@),
{
    let mut v = chars_of(root);
    let n = chars_of(name);
    if v.len() > 0 && v[v.len() - 1] != '/' {
        v.push('/');
    }
    proof {
        if root@.len() > 0 {
            assert(ends_with(root@, seq!['/']) <==> root@.last() == '/') by {
                assert(root@.subrange(root@.len() - 1, root@.len() as int) =~= seq![root@.last()]);
                if ends_with(root@, seq!['/']) {
                    assert(root@.subrange(root@.len() - 1, root@.len() as int)[0] == '/');
                }
            }
        }
    }
    extend_chars(&mut v, &n);
    string_from_chars(&v)
}

/// The command of a run of `g` whose fresh output path is named `uuid`.
pub open spec fn generated_command(g: CommandGenerator, uuid: Seq<char>) -> (Seq<Seq<char>>, Option<Seq<char>>) {
    let tmp = join_path_spec(g.tmp_root@, uuid);
    match g.output {
        OutputKind::NoOutput => (g.command@, None),
        OutputKind::Dir => (apply_spec(g.command@, pat_output_dir(), tmp), Some(tmp)),
        OutputKind::File => (apply_spec(g.command@, pat_output_file(), tmp), Some(tmp)),
    }
}

/// `i` is a run of `c` whose fresh output path (where there is one) is named `uuid`.
pub open spec fn instance_is(i: TestInstance, c: TestInstanceCreator, uuid: Seq<char>) -> bool {
    let (cmd, tmp) = generated_command(c.command_generator, uuid);
    &&& i.test_id == c.test_id
    &&& i.command.command@.map_values(|s: String| s@) == cmd
    &&& i.command.cwd == c.command_generator.cwd
    &&& opt_view(i.command.tmp_path) == tmp
}

/// The text of an optional string.
pub open spec fn opt_view(o: Option<String>) -> Option<Seq<char>> {
    match o {
        Some(s) => Some(s@),
        None => None,
    }
}

/// A fresh, random name for a temporary path (uuid's `Uuid::new_v4`, written as
/// text). Nothing is stated of the name: it is random.
#[verifier::external_body]
fn fresh_name() -> (r: String) {
    uuid::Uuid::new_v4().to_string()
}

/// Makes the runs of one test.
pub struct TestInstanceCreator {
    pub test_id: TestId,
    pub command_generator: CommandGenerator,
    pub is_g_multitest: bool,
}

impl TestInstanceCreator {
    /// A run of this test whose fresh output path, if it needs one, is named `uuid`.
    pub fn instantiate_with(&self, uuid: &str) -> (r: TestInstance)
        ensures
            instance_is(r, *self, uuid@),
    {
        let g = &self.command_generator;
        let (command, tmp_path) = match g.output {
            OutputKind::NoOutput => (clone_strings(&g.command.0), None),
            OutputKind::Dir => {
                let tmp = join_path(g.tmp_root.as_str(), uuid);
                let c = g.command.apply("{{generate_output_dir}}", tmp.as_str());
                (c.0, Some(tmp))
            }
            OutputKind::File => {
                let tmp = join_path(g.tmp_root.as_str(), uuid);
                let c = g.command.apply("{{generate_output_file}}", tmp.as_str());
                (c.0, Some(tmp))
            }
        };
        TestInstance {
            test_id: self.test_id.copy(),
            command: TestCommand { command, cwd: g.cwd.clone(), tmp_path },
        }
    }

    /// A run of this test; where the command needs a temporary output path, a
    /// fresh random name is made for it. For `OutputKind::Dir`, the caller creates
    /// that directory before running the command.
    pub fn instantiate(&self) -> (r: TestInstance)
        ensures
            self.command_generator.output == OutputKind::NoOutput ==> instance_is(r, *self, seq![]),
            exists|u: Seq<char>| instance_is(r, *self, u),
    {
        match self.command_generator.output {
            OutputKind::NoOutput => self.instantiate_with(""),
            _ => {
                let name = fresh_name();
                self.instantiate_with(name.as_str())
            }
        }
    }
}

/// The tests of one configured group, ready to run.
pub struct TestGroup {
    pub app_name: String,
    pub gtest_generator: Option<TestInstanceCreator>,
    pub execution_style: ExecutionStyle,
    pub timeout_ms: Option<u64>,
    pub accepted_returncodes: Vec<i32>,
    pub tests: Vec<TestInstanceCreator>,
}

impl TestGroup {
    /// The group's timeout in milliseconds, if it has one.
    pub fn get_timeout_duration(&self) -> (r: Option<u64>)
        ensures
            r == self.timeout_ms,
    {
        self.timeout_ms
    }
}

/// What the file system says of the path of a test case: its full path, whether
/// it is a directory, and its parent directory.
pub struct TestPath {
    pub full_path: String,
    pub is_dir: bool,
    pub parent: Option<String>,
}

/// A configured group with the tests found for it.
pub struct GroupWithTests {
    pub test_group: crate::config::TestGroup,
    pub command: CommandTemplate,
    pub test_ids: Vec<TestId>,
    /// Where a test id names a test case path, what the file system says of it
    /// (one entry per test id).
    pub test_paths: Vec<Option<TestPath>>,
    pub test_filter: Option<String>,
}

/// An app with its groups of tests.
pub struct AppWithTests {
    pub name: String,
    pub app: crate::config::App,
    pub tests: Vec<GroupWithTests>,
}

/// Where test artifacts and temporary files go.
pub struct OutputPaths {
    pub out_dir: String,
    pub tmp_dir: String,
}

/// The input of a test and the directory it runs in: for a test case path, the
/// full path, run in the build's directory where it names one, else in the path
/// itself where it is a directory, else in its parent; for a gtest, the id, run
/// in the build's directory.
pub open spec fn test_input_spec(test_id: TestId, app: crate::config::App, path: Option<TestPath>) -> (Seq<char>, Seq<char>) {
    if test_id.rel_path is Some {
        let p = path->Some_0;
        if app.build.cwd is Some {
            (p.full_path@, app.build.cwd->Some_0@)
        } else if p.is_dir {
            (p.full_path@, p.full_path@)
        } else {
            (p.full_path@, p.parent->Some_0@)
        }
    } else {
        (test_id.id@, app.build.cwd->Some_0@)
    }
}

/// The input can be found: a test case path has its file system facts (and a
/// parent where it is needed); a gtest has a build directory.
pub open spec fn test_input_ok(test_id: TestId, app: crate::config::App, path: Option<TestPath>) -> bool {
    if test_id.rel_path is Some {
        &&& path is Some
        &&& (app.build.cwd is None && !path->Some_0.is_dir) ==> path->Some_0.parent is Some
    } else {
        app.build.cwd is Some
    }
}

/// The input of a test and the directory it runs in (see `test_input_spec`).
pub fn test_id_to_input(test_id: &TestId, app: &crate::config::App, path: &Option<TestPath>) -> (r: (String, String))
    requires
        test_input_ok(*test_id, *app, *path),
    ensures
        (r.0@, r.1@) == test_input_spec(*test_id, *app, *path),
{
    match &test_id.rel_path {
        Some(_) => {
            let p = path.as_ref().unwrap();
            match &app.build.cwd {
                Some(cwd) => (p.full_path.clone(), cwd.clone()),
                None => if p.is_dir {
                    (p.full_path.clone(), p.full_path.clone())
                } else {
                    (p.full_path.clone(), p.parent.as_ref().unwrap().clone())
                },
            }
        }
        None => (test_id.id.clone(), app.build.cwd.as_ref().unwrap().clone()),
    }
}

pub open spec fn pat_input() -> Seq<char> {
    "{{input}}"@
}

/// The kind of temporary output that a command asks for.
pub open spec fn output_kind_spec(cmd: Seq<Seq<char>>) -> OutputKind {
    if has_pattern_spec(cmd, pat_output_dir()) {
        OutputKind::Dir
    } else if has_pattern_spec(cmd, pat_output_file()) {
        OutputKind::File
    } else {
        OutputKind::NoOutput
    }
}

/// `g` makes the commands of the template `template` for the input `input`, run
/// in `cwd`, with temporary outputs under `tmp_root`.
pub open spec fn generator_is(g: CommandGenerator, template: Seq<Seq<char>>, input: Seq<char>, cwd: Seq<char>, tmp_root: Seq<char>) -> bool {
    &&& g.command@ == apply_spec(template, pat_input(), input)
    &&& g.cwd@ == cwd
    &&& g.tmp_root@ == tmp_root
    &&& g.output == output_kind_spec(apply_spec(template, pat_input(), input))
}

/// How to make the commands of a test with input `input`.
pub fn test_command_generator(command_template: &CommandTemplate, input: &str, cwd: String, tmp_root: String) -> (r: CommandGenerator)
    ensures
        generator_is(r, command_template@, input@, cwd@, tmp_root@),
{
    let command = command_template.apply("{{input}}", input);
    let output = if command.has_pattern("{{generate_output_dir}}") {
        OutputKind::Dir
    } else if command.has_pattern("{{generate_output_file}}") {
        OutputKind::File
    } else {
        OutputKind::NoOutput
    };
    CommandGenerator { command, cwd, output, tmp_root }
}

/// How to make the command of a batch of gtests selected by `input`: no
/// temporary output.
pub fn gtest_command_generator(command_template: &CommandTemplate, input: &str, cwd: String) -> (r: CommandGenerator)
    ensures
        r.command@ == apply_spec(command_template@, pat_input(), input@),
        r.cwd == cwd,
        r.output == OutputKind::NoOutput,
        r.tmp_root@ == Seq::<char>::empty(),
{
    let command = command_template.apply("{{input}}", input);
    CommandGenerator { command, cwd, output: OutputKind::NoOutput, tmp_root: String::new() }
}

/// The execution style a configuration names: "singlethreaded", "parallel" or
/// "xge".
pub open spec fn execution_style_spec(s: Seq<char>) -> Option<ExecutionStyle> {
    if s == "singlethreaded"@ {
        Some(ExecutionStyle::Single)
    } else if s == "parallel"@ {
        Some(ExecutionStyle::Parallel)
    } else if s == "xge"@ {
        Some(ExecutionStyle::XGE)
    } else {
        None
    }
}

/// The execution style a configuration names, if it is one.
pub fn parse_execution_style(s: &String) -> (r: Option<ExecutionStyle>)
    ensures
        r == execution_style_spec(s@),
{
    if *s == "singlethreaded".to_owned() {
        Some(ExecutionStyle::Single)
    } else if *s == "parallel".to_owned() {
        Some(ExecutionStyle::Parallel)
    } else if *s == "xge".to_owned() {
        Some(ExecutionStyle::XGE)
    } else {
        None
    }
}

/// The positions `(app, group)` of all groups, app after app.
pub open spec fn group_positions(apps: Seq<AppWithTests>) -> Seq<(int, int)>
    decreases apps.len(),
{
    if apps.len() == 0 {
        seq![]
    } else {
        group_positions(apps.drop_last()) + Seq::new(apps.last().tests@.len(), |g: int| (apps.len() - 1, g))
    }
}

/// Every group can be turned into runs: it names a known execution style, its
/// gtest filter (if any) comes with a build directory, and its tests' inputs can
/// be found.
pub open spec fn groups_ok(apps: Seq<AppWithTests>) -> bool {
    forall|a: int, g: int| 0 <= a < apps.len() && 0 <= g < apps[a].tests@.len() ==> {
        let gw = #[trigger] apps[a].tests@[g];
        &&& execution_style_spec(gw.test_group.execution_style@) is Some
        &&& gw.test_filter is Some ==> apps[a].app.build.cwd is Some
        &&& gw.test_paths@.len() == gw.test_ids@.len()
        &&& forall|t: int| 0 <= t < gw.test_ids@.len() ==> test_input_ok(#[trigger] gw.test_ids@[t], apps[a].app, gw.test_paths@[t])
    }
}

/// `r` holds the runs of the group `gw` of the app `aw`.
pub open spec fn run_group_is(r: TestGroup, aw: AppWithTests, gw: GroupWithTests, tmp_dir: Seq<char>, no_timeout: bool) -> bool {
    &&& r.app_name == aw.name
    &&& Some(r.execution_style) == execution_style_spec(gw.test_group.execution_style@)
    &&& r.timeout_ms == (if no_timeout { None } else { gw.test_group.timeout_ms })
    &&& r.accepted_returncodes@ == gw.test_group.accepted_returncodes@
    &&& r.tests@.len() == gw.test_ids@.len()
    &&& forall|t: int| 0 <= t < r.tests@.len() ==> {
        let c = #[trigger] r.tests@[t];
        let (input, cwd) = test_input_spec(gw.test_ids@[t], aw.app, gw.test_paths@[t]);
        &&& c.test_id == gw.test_ids@[t]
        &&& !c.is_g_multitest
        &&& generator_is(c.command_generator, gw.command@, input, cwd, tmp_dir)
    }
    &&& (r.gtest_generator is Some <==> gw.test_filter is Some)
    &&& r.gtest_generator matches Some(c) ==> {
        &&& c.test_id.id@ == "<generator>"@
        &&& c.test_id.rel_path is None
        &&& c.is_g_multitest
        &&& c.command_generator.command@ == apply_spec(gw.command@, pat_input(), gw.test_filter->Some_0@)
        &&& c.command_generator.cwd == aw.app.build.cwd->Some_0
        &&& c.command_generator.output == OutputKind::NoOutput
    }
}

/// The runs of one group.
fn run_group(aw: &AppWithTests, gw: &GroupWithTests, output_paths: &OutputPaths, no_timeout: bool) -> (r: TestGroup)
    requires
        execution_style_spec(gw.test_group.execution_style@) is Some,
        gw.test_filter is Some ==> aw.app.build.cwd is Some,
        gw.test_paths@.len() == gw.test_ids@.len(),
        forall|t: int| 0 <= t < gw.test_ids@.len() ==> test_input_ok(#[trigger] gw.test_ids@[t], aw.app, gw.test_paths@[t]),
    ensures
        run_group_is(r, *aw, *gw, output_paths.tmp_dir@, no_timeout),
{
    let execution_style = parse_execution_style(&gw.test_group.execution_style).unwrap();
    let timeout_ms = if no_timeout { None } else { gw.test_group.timeout_ms };
    let gtest_generator = match &gw.test_filter {
        Some(filter) => {
            let cwd = aw.app.build.cwd.as_ref().unwrap().clone();
            let g = gtest_command_generator(&gw.command, filter.as_str(), cwd);
            Some(TestInstanceCreator {
                test_id: TestId { id: "<generator>".to_owned(), rel_path: None },
                command_generator: g,
                is_g_multitest: true,
            })
        }
        None => None,
    };
    let mut tests: Vec<TestInstanceCreator> = Vec::new();
    let mut t: usize = 0;
    while t < gw.test_ids.len()
        invariant
            t <= gw.test_ids@.len(),
            gw.test_paths@.len() == gw.test_ids@.len(),
            forall|k: int| 0 <= k < gw.test_ids@.len() ==> test_input_ok(#[trigger] gw.test_ids@[k], aw.app, gw.test_paths@[k]),
            tests@.len() == t,
            forall|k: int| 0 <= k < t ==> {
                let c = #[trigger] tests@[k];
                let (input, cwd) = test_input_spec(gw.test_ids@[k], aw.app, gw.test_paths@[k]);
                &&& c.test_id == gw.test_ids@[k]
                &&& !c.is_g_multitest
                &&& generator_is(c.command_generator, gw.command@, input, cwd, output_paths.tmp_dir@)
            },
        decreases gw.test_ids@.len() - t,
    {
        let (input, cwd) = test_id_to_input(&gw.test_ids[t], &aw.app, &gw.test_paths[t]);
        let g = test_command_generator(&gw.command, input.as_str(), cwd, output_paths.tmp_dir.clone());
        tests.push(TestInstanceCreator { test_id: gw.test_ids[t].copy(), command_generator: g, is_g_multitest: false });
        t += 1;
    }
    TestGroup {
        app_name: aw.name.clone(),
        gtest_generator,
        execution_style,
        timeout_ms,
        accepted_returncodes: copy_vec(&gw.test_group.accepted_returncodes),
        tests,
    }
}

/// Whether the input of a test can be found (see `test_input_ok`).
pub fn test_input_found(test_id: &TestId, app: &crate::config::App, path: &Option<TestPath>) -> (r: bool)
    ensures
        r == test_input_ok(*test_id, *app, *path),
{
    match &test_id.rel_path {
        Some(_) => match path {
            Some(p) => !(app.build.cwd.is_none() && !p.is_dir) || p.parent.is_some(),
            None => false,
        },
        None => app.build.cwd.is_some(),
    }
}

/// Whether one group can be turned into runs (see `groups_ok`).
fn group_ready(app: &crate::config::App, gw: &GroupWithTests) -> (r: bool)
    ensures
        r == ({
            &&& execution_style_spec(gw.test_group.execution_style@) is Some
            &&& gw.test_filter is Some ==> app.build.cwd is Some
            &&& gw.test_paths@.len() == gw.test_ids@.len()
            &&& forall|t: int| 0 <= t < gw.test_ids@.len() ==> test_input_ok(#[trigger] gw.test_ids@[t], *app, gw.test_paths@[t])
        }),
{
    if parse_execution_style(&gw.test_group.execution_style).is_none() {
        return false;
    }
    if gw.test_filter.is_some() && app.build.cwd.is_none() {
        return false;
    }
    if gw.test_paths.len() != gw.test_ids.len() {
        return false;
    }
    let mut t: usize = 0;
    while t < gw.test_ids.len()
        invariant
            t <= gw.test_ids@.len(),
            gw.test_paths@.len() == gw.test_ids@.len(),
            forall|k: int| 0 <= k < t ==> test_input_ok(#[trigger] gw.test_ids@[k], *app, gw.test_paths@[k]),
        decreases gw.test_ids@.len() - t,
    {
        if !test_input_found(&gw.test_ids[t], app, &gw.test_paths[t]) {
            return false;
        }
        t += 1;
    }
    true
}

/// Whether every group of `test_apps` can be turned into runs, as
/// `create_run_commands` needs (see `groups_ok`).
pub fn groups_ready(test_apps: &Vec<AppWithTests>) -> (r: bool)
    ensures
        r == groups_ok(test_apps@),
{
    let mut a: usize = 0;
    while a < test_apps.len()
        invariant
            a <= test_apps@.len(),
            forall|x: int, g: int| 0 <= x < a && 0 <= g < test_apps@[x].tests@.len() ==> {
                let gw = #[trigger] test_apps@[x].tests@[g];
                &&& execution_style_spec(gw.test_group.execution_style@) is Some
                &&& gw.test_filter is Some ==> test_apps@[x].app.build.cwd is Some
                &&& gw.test_paths@.len() == gw.test_ids@.len()
                &&& forall|t: int| 0 <= t < gw.test_ids@.len() ==> test_input_ok(#[trigger] gw.test_ids@[t], test_apps@[x].app, gw.test_paths@[t])
            },
        decreases test_apps@.len() - a,
    {
        let aw = &test_apps[a];
        let mut g: usize = 0;
        while g < aw.tests.len()
            invariant
                a < test_apps@.len(),
                *aw == test_apps@[a as int],
                g <= aw.tests@.len(),
                forall|x: int, gg: int| 0 <= x < a && 0 <= gg < test_apps@[x].tests@.len() ==> {
                    let gw = #[trigger] test_apps@[x].tests@[gg];
                    &&& execution_style_spec(gw.test_group.execution_style@) is Some
                    &&& gw.test_filter is Some ==> test_apps@[x].app.build.cwd is Some
                    &&& gw.test_paths@.len() == gw.test_ids@.len()
                    &&& forall|t: int| 0 <= t < gw.test_ids@.len() ==> test_input_ok(#[trigger] gw.test_ids@[t], test_apps@[x].app, gw.test_paths@[t])
                },
                forall|gg: int| 0 <= gg < g ==> {
                    let gw = #[trigger] test_apps@[a as int].tests@[gg];
                    &&& execution_style_spec(gw.test_group.execution_style@) is Some
                    &&& gw.test_filter is Some ==> test_apps@[a as int].app.build.cwd is Some
                    &&& gw.test_paths@.len() == gw.test_ids@.len()
                    &&& forall|t: int| 0 <= t < gw.test_ids@.len() ==> test_input_ok(#[trigger] gw.test_ids@[t], test_apps@[a as int].app, gw.test_paths@[t])
                },
            decreases aw.tests@.len() - g,
        {
            if !group_ready(&aw.app, &aw.tests[g]) {
                return false;
            }
            g += 1;
        }
        a += 1;
    }
    true
}

/// The runs of every group of every app, app after app, group after group.
pub fn create_run_commands(test_apps: &Vec<AppWithTests>, output_paths: &OutputPaths, no_timeout: bool) -> (r: Vec<TestGroup>)
    requires
        groups_ok(test_apps@),
    ensures
        r@.len() == group_positions(test_apps@).len(),
        forall|k: int| 0 <= k < r@.len() ==> {
            let (a, g) = group_positions(test_apps@)[k];
            run_group_is(#[trigger] r@[k], test_apps@[a], test_apps@[a].tests@[g], output_paths.tmp_dir@, no_timeout)
        },
{
    let mut out: Vec<TestGroup> = Vec::new();
    let mut a: usize = 0;
    while a < test_apps.len()
        invariant
            a <= test_apps@.len(),
            groups_ok(test_apps@),
            out@.len() == group_positions(test_apps@.take(a as int)).len(),
            forall|k: int| 0 <= k < out@.len() ==> {
                let (x, g) = group_positions(test_apps@.take(a as int))[k];
                run_group_is(#[trigger] out@[k], test_apps@[x], test_apps@[x].tests@[g], output_paths.tmp_dir@, no_timeout)
            },
        decreases test_apps@.len() - a,
    {
        let aw = &test_apps[a];
        let ghost base = out@.len();
        let ghost prev = group_positions(test_apps@.take(a as int));
        assert(test_apps@.take(a + 1).drop_last() =~= test_apps@.take(a as int));
        assert(test_apps@.take(a + 1).last() == *aw);
        let mut g: usize = 0;
        while g < aw.tests.len()
            invariant
                a < test_apps@.len(),
                *aw == test_apps@[a as int],
                g <= aw.tests@.len(),
                groups_ok(test_apps@),
                base == prev.len(),
                prev == group_positions(test_apps@.take(a as int)),
                out@.len() == base + g,
                forall|k: int| 0 <= k < base ==> {
                    let (x, gg) = prev[k];
                    run_group_is(#[trigger] out@[k], test_apps@[x], test_apps@[x].tests@[gg], output_paths.tmp_dir@, no_timeout)
                },
                forall|k: int| base <= k < out@.len() ==>
                    run_group_is(#[trigger] out@[k], test_apps@[a as int], test_apps@[a as int].tests@[k - base], output_paths.tmp_dir@, no_timeout),
            decreases aw.tests@.len() - g,
        {
            let gw = &aw.tests[g];
            assert(test_apps@[a as int].tests@[g as int] == *gw);
            let r = run_group(aw, gw, output_paths, no_timeout);
            out.push(r);
            g += 1;
        }
        proof {
            let now = group_positions(test_apps@.take(a + 1));
            assert(now =~= prev + Seq::new(aw.tests@.len(), |gg: int| (a as int, gg)));
            assert forall|k: int| 0 <= k < out@.len() implies {
                let (x, gg) = now[k];
                run_group_is(#[trigger] out@[k], test_apps@[x], test_apps@[x].tests@[gg], output_paths.tmp_dir@, no_timeout)
            } by {
                if k < base {
                    assert(now[k] == prev[k]);
                } else {
                    assert(now[k] == (a as int, k - base));
                }
            }
        }
        a += 1;
    }
    assert(test_apps@.take(test_apps@.len() as int) =~= test_apps@);
    out
}


/// What to do with the output directory before a run: make it where it does not
/// exist; empty it where it holds the results file of an earlier run; refuse to
/// touch it otherwise.
#[derive(PartialEq, Eq, Structural, Clone, Copy, Debug)]
pub enum OutputDirAction {
    Create,
    Reset,
    Refuse,
}

/// What to do with the output directory (see `OutputDirAction`).
pub fn output_dir_action(exists: bool, has_results: bool) -> (r: OutputDirAction)
    ensures
        !exists ==> r == OutputDirAction::Create,
        exists && has_results ==> r == OutputDirAction::Reset,
        exists && !has_results ==> r == OutputDirAction::Refuse,
{
    if !exists {
        OutputDirAction::Create
    } else if has_results {
        OutputDirAction::Reset
    } else {
        OutputDirAction::Refuse
    }
}

/// The result of a finished run: its exit code, -7787 where the process gave
/// none (it was killed), and its output.
pub fn finished_result(exit_code: Option<i32>, output: String) -> (r: TestCommandResult)
    ensures
        r.exit_code == (match exit_code {
            Some(c) => c,
            None => -7787i32,
        }),
        r.stdout == output,
{
    let code = match exit_code {
        Some(c) => c,
        None => -7787,
    };
    TestCommandResult { exit_code: code, stdout: output }
}

/// The result of a run that could not be started: exit code 1 and the reason.
pub fn start_failure(reason: &str) -> (r: TestCommandResult)
    ensures
        r.exit_code == 1,
        r.stdout@ == "[mwtest] error while trying to start test: "@ + reason@,
{
    let mut v = chars_of("[mwtest] error while trying to start test: ");
    let rv = chars_of(reason);
    extend_chars(&mut v, &rv);
    TestCommandResult { exit_code: 1, stdout: string_from_chars(&v) }
}

/// The note that ends the output of a run stopped by its timeout.
pub fn timeout_note(seconds: u64) -> (r: String)
    ensures
        r@ == "[mwtest] terminated because "@ + decimal(seconds as nat) + " second timeout was reached!"@,
{
    let mut v = chars_of("[mwtest] terminated because ");
    let d = decimal_chars(seconds);
    extend_chars(&mut v, &d);
    let tail = chars_of(" second timeout was reached!");
    extend_chars(&mut v, &tail);
    string_from_chars(&v)
}


/// The fresh output path fills the output placeholder of a run: for a file
/// output every token `a + "{{generate_output_file}}" + b` (with no `'{'` in `a`
/// and no further placeholder in `b`) becomes `a + tmp + b`, for a directory
/// output likewise with `"{{generate_output_dir}}"`, where `tmp` is the run's
/// temporary path inside the temporary root; tokens without the placeholder are
/// left as they are, and no token is added or dropped.
pub proof fn law_output_placeholder_filled(i: TestInstance, c: TestInstanceCreator, uuid: Seq<char>, j: int, a: Seq<char>, b: Seq<char>)
    requires
        instance_is(i, c, uuid),
        !(c.command_generator.output is NoOutput),
        0 <= j < c.command_generator.command@.len(),
    ensures
        ({
            let tmp = join_path_spec(c.command_generator.tmp_root@, uuid);
            let p = if c.command_generator.output is File { "{{generate_output_file}}"@ } else { "{{generate_output_dir}}"@ };
            &&& opt_view(i.command.tmp_path) == Some(tmp)
            &&& i.command.command@.len() == c.command_generator.command@.len()
            &&& (c.command_generator.command@[j] == a + p + b && crate::text::no_char(a, '{') && !crate::text::contains(b, p)
                ==> i.command.command@[j]@ == a + tmp + b)
            &&& (!crate::text::contains(c.command_generator.command@[j], p) ==> i.command.command@[j]@ == c.command_generator.command@[j])
        }),
{
    let g = c.command_generator;
    let tmp = join_path_spec(g.tmp_root@, uuid);
    reveal_strlit("{{generate_output_file}}");
    reveal_strlit("{{generate_output_dir}}");
    let p = if g.output is File { "{{generate_output_file}}"@ } else { "{{generate_output_dir}}"@ };
    assert(p[0] == '{');
    let out = i.command.command@.map_values(|s: String| s@);
    assert(out.len() == i.command.command@.len());
    assert(out[j] == i.command.command@[j]@);
    assert(out[j] == crate::text::replace_spec(g.command@[j], p, tmp));
    if g.command@[j] == a + p + b && crate::text::no_char(a, '{') && !crate::text::contains(b, p) {
        crate::text::lemma_replace_single(a, p, b, tmp);
    }
    if !crate::text::contains(g.command@[j], p) {
        crate::text::lemma_replace_absent(g.command@[j], p, tmp);
    }
}


/// A run of a command without temporary output is the command itself, with no
/// temporary path.
pub proof fn law_no_output_keeps_command(i: TestInstance, c: TestInstanceCreator, uuid: Seq<char>)
    requires
        instance_is(i, c, uuid),
        c.command_generator.output is NoOutput,
    ensures
        i.command.tmp_path is None,
        i.command.command@.len() == c.command_generator.command@.len(),
        forall|j: int| 0 <= j < i.command.command@.len() ==> (#[trigger] i.command.command@[j])@ == c.command_generator.command@[j],
{
    let out = i.command.command@.map_values(|s: String| s@);
    assert forall|j: int| 0 <= j < i.command.command@.len() implies (#[trigger] i.command.command@[j])@ == c.command_generator.command@[j] by {
        assert(out[j] == i.command.command@[j]@);
    }
}
} // verus!
