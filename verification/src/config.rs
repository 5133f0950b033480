//! The application configuration: command templates, the paths that fill them,
//! and the selection of builds and test presets.
use vstd::prelude::*;
use crate::runnable::TestId;
use crate::inputs::{forward_slashes, gtest_ids_spec, parse_gtest_list, captured_id, test_ids_for_paths, valid_regex, PathIdError};
use crate::text::{lines_spec, split_chars, split_spec, string_from_chars, lowercase, to_lowercase, chars_of, chars_contain, contains, lemma_replace_absent, replace_spec, str_contains, str_replace, texts};

verus! {

/// The text of an optional string.
pub open spec fn opt_text(o: Option<String>) -> Option<Seq<char>> {
    match o {
        Some(s) => Some(s@),
        None => None,
    }
}

/// A command line whose tokens may hold `{{...}}` placeholders.
pub struct CommandTemplate(pub Vec<String>);

impl View for CommandTemplate {
    type V = Seq<Seq<char>>;

    open spec fn view(&self) -> Seq<Seq<char>> {
        texts(self.0@)
    }
}

/// Every token of `cmd` with `from` replaced by `to`.
pub open spec fn apply_spec(cmd: Seq<Seq<char>>, from: Seq<char>, to: Seq<char>) -> Seq<Seq<char>> {
    cmd.map_values(|t: Seq<char>| replace_spec(t, from, to))
}

/// Some token of `cmd` contains `pattern`.
pub open spec fn has_pattern_spec(cmd: Seq<Seq<char>>, pattern: Seq<char>) -> bool {
    exists|i: int| 0 <= i < cmd.len() && contains(#[trigger] cmd[i], pattern)
}

/// A template in which `from` occurs nowhere is left as it is by applying it:
/// replacing a placeholder only where `has_pattern` finds it changes nothing.
pub proof fn law_apply_without_pattern_is_identity(cmd: Seq<Seq<char>>, from: Seq<char>, to: Seq<char>)
    requires
        !has_pattern_spec(cmd, from),
    ensures
        apply_spec(cmd, from, to) == cmd,
{
    assert forall|i: int| 0 <= i < cmd.len() implies #[trigger] apply_spec(cmd, from, to)[i] == cmd[i] by {
        assert(!contains(cmd[i], from));
        if from.len() == 0 {
            assert(crate::text::occurs_at(cmd[i], 0, from)) by {
                assert(cmd[i].subrange(0, 0) =~= from);
            }
        }
        lemma_replace_absent(cmd[i], from, to);
    }
    assert(apply_spec(cmd, from, to) =~= cmd);
}

/// A copy of a vector of strings.
pub fn clone_strings(v: &Vec<String>) -> (r: Vec<String>)
    ensures
        r@ == v@,
{
    let mut r: Vec<String> = Vec::new();
    let mut i: usize = 0;
    while i < v.len()
        invariant
            i <= v.len(),
            r@ == v@.take(i as int),
        decreases v.len() - i,
    {
        r.push(v[i].clone());
        assert(r@ =~= v@.take(i + 1));
        i += 1;
    }
    assert(v@.take(v.len() as int) =~= v@);
    r
}

/// A copy of an optional string.
pub fn clone_opt(o: &Option<String>) -> (r: Option<String>)
    ensures
        r == *o,
{
    match o {
        Some(s) => Some(s.clone()),
        None => None,
    }
}

/// The texts of a vector with one more string.
pub proof fn lemma_texts_push(v: Seq<String>, s: String)
    ensures
        texts(v.push(s)) == texts(v).push(s@),
{
    assert(texts(v.push(s)) =~= texts(v).push(s@));
}

impl CommandTemplate {
    /// A copy of this template.
    pub fn copy(&self) -> (r: CommandTemplate)
        ensures
            r.0@ == self.0@,
    {
        CommandTemplate(clone_strings(&self.0))
    }

    /// This template with every occurrence of `from`, in every token, replaced by `to`.
    pub fn apply(&self, from: &str, to: &str) -> (r: CommandTemplate)
        ensures
            r@ == apply_spec(self@, from@, to@),
    {
        let mut out: Vec<String> = Vec::new();
        let mut i: usize = 0;
        while i < self.0.len()
            invariant
                i <= self.0.len(),
                texts(out@) == apply_spec(self@, from@, to@).take(i as int),
            decreases self.0.len() - i,
        {
            let t = str_replace(self.0[i].as_str(), from, to);
            let ghost old_out = out@;
            out.push(t);
            proof {
                lemma_texts_push(old_out, t);
                assert(self@[i as int] == self.0@[i as int]@);
            }
            assert(texts(out@) =~= apply_spec(self@, from@, to@).take(i + 1));
            i += 1;
        }
        assert(apply_spec(self@, from@, to@).take(self.0.len() as int) =~= apply_spec(self@, from@, to@));
        CommandTemplate(out)
    }

    /// Whether some token holds `pattern`.
    pub fn has_pattern(&self, pattern: &str) -> (r: bool)
        ensures
            r == has_pattern_spec(self@, pattern@),
    {
        let p = chars_of(pattern);
        let mut i: usize = 0;
        while i < self.0.len()
            invariant
                i <= self.0.len(),
                p@ == pattern@,
                forall|j: int| 0 <= j < i ==> !contains(#[trigger] self@[j], pattern@),
            decreases self.0.len() - i,
        {
            let t = chars_of(self.0[i].as_str());
            if chars_contain(&t, &p) {
                assert(contains(self@[i as int], pattern@));
                return true;
            }
            i += 1;
        }
        false
    }

    /// This template with the placeholders of `input_paths` filled in; fails where a
    /// token names `{{dev_dir}}` and no dev directory is known.
    pub fn apply_input_paths(&self, input_paths: &InputPaths) -> (r: Result<CommandTemplate, ConfigError>)
        ensures
            r is Err <==> (input_paths.dev_dir is None && has_pattern_spec(self@, pat_dev_dir())),
            r is Err ==> r->Err_0 == ConfigError::MissingDevDir,
            r is Ok ==> r->Ok_0@ == self@.map_values(|t: Seq<char>| apply_to_spec(*input_paths, t)->Some_0),
    {
        let mut out: Vec<String> = Vec::new();
        let mut i: usize = 0;
        while i < self.0.len()
            invariant
                i <= self.0.len(),
                texts(out@) == self@.map_values(|t: Seq<char>| apply_to_spec(*input_paths, t)->Some_0).take(i as int),
                forall|j: int| 0 <= j < i ==> apply_to_spec(*input_paths, #[trigger] self@[j]) is Some,
            decreases self.0.len() - i,
        {
            match input_paths.apply_to(self.0[i].as_str()) {
                Ok(t) => {
                    let ghost old_out = out@;
                    out.push(t);
                    proof {
                        lemma_texts_push(old_out, t);
                        assert(self@[i as int] == self.0@[i as int]@);
                    }
                    assert(texts(out@) =~= self@.map_values(|t: Seq<char>| apply_to_spec(*input_paths, t)->Some_0).take(i + 1));
                }
                Err(e) => {
                    assert(contains(self@[i as int], pat_dev_dir()));
                    return Err(e);
                }
            }
            i += 1;
        }
        proof {
            assert(self@.map_values(|t: Seq<char>| apply_to_spec(*input_paths, t)->Some_0).take(self.0.len() as int)
                =~= self@.map_values(|t: Seq<char>| apply_to_spec(*input_paths, t)->Some_0));
            if input_paths.dev_dir is None && has_pattern_spec(self@, pat_dev_dir()) {
                let j = choose|j: int| 0 <= j < self@.len() && contains(#[trigger] self@[j], pat_dev_dir());
                assert(apply_to_spec(*input_paths, self@[j]) is Some);
            }
        }
        Ok(CommandTemplate(out))
    }
}

/// What went wrong while instantiating the configuration.
#[derive(PartialEq, Eq, Debug)]
pub enum ConfigError {
    /// A template names `{{dev_dir}}` and no dev directory is known.
    MissingDevDir,
    /// No build type is known.
    MissingBuildType,
    /// A command names `{{dll}}` and the build defines no dll.
    MissingDll,
    /// The app defines no build of the selected type.
    BuildNotFound { build: String, app: String },
}

/// The directories and names that fill a template's placeholders.
pub struct InputPaths {
    pub dev_dir: Option<String>,
    pub build_dir: String,
    pub testcases_dir: String,
    pub build_type: Option<String>,
    pub preset: String,
    pub build_config: String,
}

pub open spec fn pat_dev_dir() -> Seq<char> {
    "{{dev_dir}}"@
}

pub open spec fn pat_build_dir() -> Seq<char> {
    "{{build_dir}}"@
}

pub open spec fn pat_testcases_dir() -> Seq<char> {
    "{{testcases_dir}}"@
}

pub open spec fn pat_build_config() -> Seq<char> {
    "{{build_config}}"@
}

pub open spec fn pat_build_config_skipunicode() -> Seq<char> {
    "{{build_config_skipunicode}}"@
}

/// `s` with the placeholders of `ip` filled in, in this order: `{{dev_dir}}`,
/// `{{build_dir}}`, `{{testcases_dir}}`, `{{build_config}}`, and
/// `{{build_config_skipunicode}}` (the build configuration without "Unicode");
/// `None` where `s` names `{{dev_dir}}` and `ip` has no dev directory.
pub open spec fn apply_to_spec(ip: InputPaths, s: Seq<char>) -> Option<Seq<char>> {
    if contains(s, pat_dev_dir()) && ip.dev_dir is None {
        None
    } else {
        let s1 = if contains(s, pat_dev_dir()) { replace_spec(s, pat_dev_dir(), ip.dev_dir->Some_0@) } else { s };
        let s2 = replace_spec(s1, pat_build_dir(), ip.build_dir@);
        let s3 = replace_spec(s2, pat_testcases_dir(), ip.testcases_dir@);
        let s4 = replace_spec(s3, pat_build_config(), ip.build_config@);
        Some(replace_spec(s4, pat_build_config_skipunicode(), replace_spec(ip.build_config@, "Unicode"@, seq![])))
    }
}

impl InputPaths {
    /// `string` with the placeholders filled in (see `apply_to_spec`).
    pub fn apply_to(&self, string: &str) -> (r: Result<String, ConfigError>)
        ensures
            r is Ok <==> apply_to_spec(*self, string@) is Some,
            r is Ok ==> r->Ok_0@ == apply_to_spec(*self, string@)->Some_0,
            r is Err ==> r->Err_0 == ConfigError::MissingDevDir,
    {
        let mut s = string.to_owned();
        if str_contains(s.as_str(), "{{dev_dir}}") {
            match &self.dev_dir {
                Some(d) => {
                    s = str_replace(s.as_str(), "{{dev_dir}}", d.as_str());
                }
                None => {
                    return Err(ConfigError::MissingDevDir);
                }
            }
        }
        let ghost s1 = s@;
        if str_contains(s.as_str(), "{{build_dir}}") {
            s = str_replace(s.as_str(), "{{build_dir}}", self.build_dir.as_str());
        } else {
            proof { reveal_strlit("{{build_dir}}"); lemma_replace_absent(s1, pat_build_dir(), self.build_dir@); }
        }
        let ghost s2 = s@;
        if str_contains(s.as_str(), "{{testcases_dir}}") {
            s = str_replace(s.as_str(), "{{testcases_dir}}", self.testcases_dir.as_str());
        } else {
            proof { reveal_strlit("{{testcases_dir}}"); lemma_replace_absent(s2, pat_testcases_dir(), self.testcases_dir@); }
        }
        let ghost s3 = s@;
        s = str_replace(s.as_str(), "{{build_config}}", self.build_config.as_str());
        let ghost s4 = s@;
        let skip = str_replace(self.build_config.as_str(), "Unicode", "");
        proof { reveal_strlit(""); assert(""@ =~= Seq::<char>::empty()); }
        s = str_replace(s.as_str(), "{{build_config_skipunicode}}", skip.as_str());
        proof {
            let sp = string@;
            let t1 = if contains(sp, pat_dev_dir()) { replace_spec(sp, pat_dev_dir(), self.dev_dir->Some_0@) } else { sp };
            assert(s1 == t1);
            assert(s2 == replace_spec(t1, pat_build_dir(), self.build_dir@));
            assert(s3 == replace_spec(s2, pat_testcases_dir(), self.testcases_dir@));
            assert(s4 == replace_spec(s3, pat_build_config(), self.build_config@));
        }
        Ok(s)
    }
}

/// The layout of a build found on disk: a CMake build (its build directory and
/// the source directory its cache names), a quickstart package (its directory),
/// or nothing recognised.
pub enum BuildType {
    CMake(String, String),
    Quickstart(String),
    Unknown,
}

/// Why the input paths could not be determined.
#[derive(PartialEq, Eq, Debug)]
pub enum InputPathsError {
    /// No build directory was given and none was recognised.
    NoBuildDir,
    /// No test cases directory was given and none was found beside the build.
    NoTestcasesDir,
}

/// The build directory: the given one, else the one of the recognised layout.
pub open spec fn pick_build_dir_spec(given: Option<String>, guessed: BuildType) -> Option<Seq<char>> {
    match given {
        Some(b) => Some(b@),
        None => match guessed {
            BuildType::CMake(b, _) => Some(b@),
            BuildType::Quickstart(b) => Some(b@),
            BuildType::Unknown => None,
        },
    }
}

/// The dev directory: the given one, else the source directory of a CMake build.
pub open spec fn pick_dev_dir_spec(given: Option<String>, guessed: BuildType) -> Option<Seq<char>> {
    match given {
        Some(d) => Some(d@),
        None => match guessed {
            BuildType::CMake(_, d) => Some(d@),
            _ => None,
        },
    }
}

/// The build type: the given one, else the name of the recognised layout.
pub open spec fn pick_build_type_spec(given: Option<String>, guessed: BuildType) -> Option<Seq<char>> {
    match given {
        Some(t) => Some(t@),
        None => match guessed {
            BuildType::CMake(_, _) => Some("cmake-windows"@),
            BuildType::Quickstart(_) => Some("quickstart"@),
            BuildType::Unknown => None,
        },
    }
}

/// The given value, else `default`.
pub open spec fn or_default(given: Option<String>, default: Seq<char>) -> Seq<char> {
    match given {
        Some(v) => v@,
        None => default,
    }
}

fn clone_or(given: &Option<String>, default: &str) -> (r: String)
    ensures
        r@ == or_default(*given, default@),
{
    match given {
        Some(v) => v.clone(),
        None => default.to_string(),
    }
}

impl InputPaths {
    /// The build directory that `from` picks: the given one, else the one of
    /// the recognised layout; `None` where there is neither.
    pub fn pick_build_dir(given_build_dir: &Option<String>, guessed: &BuildType) -> (r: Option<String>)
        ensures
            opt_text(r) == pick_build_dir_spec(*given_build_dir, *guessed),
    {
        match given_build_dir {
            Some(b) => Some(b.clone()),
            None => match guessed {
                BuildType::CMake(b, _) => Some(b.clone()),
                BuildType::Quickstart(b) => Some(b.clone()),
                BuildType::Unknown => None,
            },
        }
    }

    /// The input paths from what was given on the command line, the layout
    /// recognised from the given build directory (`guessed`) and the test cases
    /// directory found beside the picked build directory (`guessed_testcases_dir`).
    /// Each given value wins over a guess; the preset defaults to "ci" and the
    /// build configuration to "RelWithDebInfo". Fails where no build directory,
    /// then where no test cases directory, is known.
    pub fn from(
        given_dev_dir: Option<String>,
        given_build_dir: Option<String>,
        given_testcases_dir: Option<String>,
        given_build_type: Option<String>,
        given_preset: Option<String>,
        given_build_config: Option<String>,
        guessed: BuildType,
        guessed_testcases_dir: Option<String>,
    ) -> (r: Result<InputPaths, InputPathsError>)
        ensures
            pick_build_dir_spec(given_build_dir, guessed) is None <==> r == Err::<InputPaths, InputPathsError>(InputPathsError::NoBuildDir),
            r == Err::<InputPaths, InputPathsError>(InputPathsError::NoTestcasesDir) <==> (pick_build_dir_spec(given_build_dir, guessed) is Some
                && given_testcases_dir is None && guessed_testcases_dir is None),
            r matches Ok(ip) ==> {
                &&& opt_text(ip.dev_dir) == pick_dev_dir_spec(given_dev_dir, guessed)
                &&& Some(ip.build_dir@) == pick_build_dir_spec(given_build_dir, guessed)
                &&& ip.testcases_dir@ == (match given_testcases_dir {
                    Some(t) => t@,
                    None => guessed_testcases_dir->Some_0@,
                })
                &&& opt_text(ip.build_type) == pick_build_type_spec(given_build_type, guessed)
                &&& ip.preset@ == or_default(given_preset, "ci"@)
                &&& ip.build_config@ == or_default(given_build_config, "RelWithDebInfo"@)
            },
    {
        let build_dir = match InputPaths::pick_build_dir(&given_build_dir, &guessed) {
            Some(b) => b,
            None => {
                return Err(InputPathsError::NoBuildDir);
            }
        };
        let dev_dir = match given_dev_dir {
            Some(d) => Some(d),
            None => match &guessed {
                BuildType::CMake(_, d) => Some(d.clone()),
                _ => None,
            },
        };
        let build_type = match given_build_type {
            Some(t) => Some(t),
            None => match &guessed {
                BuildType::CMake(_, _) => Some("cmake-windows".to_string()),
                BuildType::Quickstart(_) => Some("quickstart".to_string()),
                BuildType::Unknown => None,
            },
        };
        let testcases_dir = match given_testcases_dir {
            Some(t) => t,
            None => match guessed_testcases_dir {
                Some(t) => t,
                None => {
                    return Err(InputPathsError::NoTestcasesDir);
                }
            },
        };
        let preset = clone_or(&given_preset, "ci");
        let build_config = clone_or(&given_build_config, "RelWithDebInfo");
        Ok(InputPaths { dev_dir, build_dir, testcases_dir, build_type, preset, build_config })
    }
}

/// Results of `f` on every element, or the first error among them.
pub open spec fn collect_results<A, B, E>(s: Seq<A>, f: spec_fn(A) -> Result<B, E>) -> Result<Seq<B>, E>
    decreases s.len(),
{
    if s.len() == 0 {
        Ok(seq![])
    } else {
        match f(s[0]) {
            Err(e) => Err(e),
            Ok(b) => match collect_results(s.drop_first(), f) {
                Ok(bs) => Ok(seq![b] + bs),
                Err(e) => Err(e),
            },
        }
    }
}

/// Where `f` succeeds on every element, the collected results are its values.
pub proof fn lemma_collect_all_ok<A, B, E>(s: Seq<A>, f: spec_fn(A) -> Result<B, E>, out: Seq<B>)
    requires
        out.len() == s.len(),
        forall|j: int| 0 <= j < s.len() ==> #[trigger] f(s[j]) == Ok::<B, E>(out[j]),
    ensures
        collect_results(s, f) == Ok::<Seq<B>, E>(out),
    decreases s.len(),
{
    if s.len() > 0 {
        let t = s.drop_first();
        assert forall|j: int| 0 <= j < t.len() implies #[trigger] f(t[j]) == Ok::<B, E>(out.drop_first()[j]) by {
            assert(f(s[j + 1]) == Ok::<B, E>(out[j + 1]));
        }
        lemma_collect_all_ok(t, f, out.drop_first());
        assert(f(s[0]) == Ok::<B, E>(out[0]));
        assert(seq![out[0]] + out.drop_first() =~= out);
    } else {
        assert(out =~= seq![]);
    }
}

/// Where `f` first fails at `i`, the collected result is that error.
pub proof fn lemma_collect_first_err<A, B, E>(s: Seq<A>, f: spec_fn(A) -> Result<B, E>, i: int)
    requires
        0 <= i < s.len(),
        forall|j: int| 0 <= j < i ==> #[trigger] f(s[j]) is Ok,
        f(s[i]) is Err,
    ensures
        collect_results(s, f) == Err::<Seq<B>, E>(f(s[i])->Err_0),
    decreases s.len(),
{
    if i > 0 {
        let t = s.drop_first();
        assert forall|j: int| 0 <= j < i - 1 implies #[trigger] f(t[j]) is Ok by {
            assert(f(s[j + 1]) is Ok);
        }
        assert(t[i - 1] == s[i]);
        lemma_collect_first_err(t, f, i - 1);
        assert(f(s[0]) is Ok);
    }
}

/// A copy of a vector of plain values.
pub fn copy_vec<T: Copy>(v: &Vec<T>) -> (r: Vec<T>)
    ensures
        r@ == v@,
{
    let mut r: Vec<T> = Vec::new();
    let mut i: usize = 0;
    while i < v.len()
        invariant
            i <= v.len(),
            r@ == v@.take(i as int),
        decreases v.len() - i,
    {
        r.push(v[i]);
        assert(r@ =~= v@.take(i + 1));
        i += 1;
    }
    assert(v@.take(v.len() as int) =~= v@);
    r
}

/// A build as the configuration file gives it.
pub struct BuildConfig {
    pub exe: Option<String>,
    pub dll: Option<String>,
    pub cwd: Option<String>,
    pub solution: Option<String>,
    pub project: Option<String>,
    pub disabled: bool,
}

/// A build with its paths filled in.
pub struct Build {
    pub exe: String,
    pub dll: Option<String>,
    pub cwd: Option<String>,
    pub solution: Option<String>,
    pub project: Option<String>,
}

/// An optional text with the placeholders of `ip` filled in; `None` on failure.
pub open spec fn apply_opt_spec(ip: InputPaths, o: Option<String>) -> Option<Option<Seq<char>>> {
    match o {
        None => Some(None),
        Some(s) => match apply_to_spec(ip, s@) {
            Some(t) => Some(Some(t)),
            None => None,
        },
    }
}

/// `Build::from` succeeds: every path of `b` can be filled in.
pub open spec fn build_ok(b: BuildConfig, ip: InputPaths) -> bool {
    &&& apply_opt_spec(ip, b.exe) is Some
    &&& apply_opt_spec(ip, b.dll) is Some
    &&& apply_opt_spec(ip, b.cwd) is Some
    &&& apply_opt_spec(ip, b.solution) is Some
}

/// `r` is `b` with its paths filled in (the project name is kept as it is).
pub open spec fn build_is(r: Build, b: BuildConfig, ip: InputPaths) -> bool {
    &&& Some(r.exe@) == apply_opt_spec(ip, b.exe)->Some_0
    &&& opt_text(r.dll) == apply_opt_spec(ip, b.dll)->Some_0
    &&& opt_text(r.cwd) == apply_opt_spec(ip, b.cwd)->Some_0
    &&& opt_text(r.solution) == apply_opt_spec(ip, b.solution)->Some_0
    &&& r.project == b.project
}

impl Build {
    /// `string` with the placeholders filled in, where there is one.
    pub fn apply_config_string(string: &Option<String>, input_paths: &InputPaths) -> (r: Result<Option<String>, ConfigError>)
        ensures
            r is Ok <==> apply_opt_spec(*input_paths, *string) is Some,
            r is Ok ==> opt_text(r->Ok_0) == apply_opt_spec(*input_paths, *string)->Some_0,
            r is Err ==> r->Err_0 == ConfigError::MissingDevDir,
    {
        match string {
            Some(s) => match input_paths.apply_to(s.as_str()) {
                Ok(t) => Ok(Some(t)),
                Err(e) => Err(e),
            },
            None => Ok(None),
        }
    }

    /// The build `build` with its paths filled in.
    pub fn from(build: &BuildConfig, input_paths: &InputPaths) -> (r: Result<Build, ConfigError>)
        requires
            build.exe is Some,
        ensures
            r is Ok <==> build_ok(*build, *input_paths),
            r is Ok ==> build_is(r->Ok_0, *build, *input_paths),
            r is Err ==> r->Err_0 == ConfigError::MissingDevDir,
    {
        let exe = match Build::apply_config_string(&build.exe, input_paths) {
            Ok(Some(e)) => e,
            Ok(None) => { return Err(ConfigError::MissingDevDir); }
            Err(e) => { return Err(e); }
        };
        let dll = Build::apply_config_string(&build.dll, input_paths)?;
        let cwd = Build::apply_config_string(&build.cwd, input_paths)?;
        let solution = Build::apply_config_string(&build.solution, input_paths)?;
        Ok(Build { exe, dll, cwd, solution, project: clone_opt(&build.project) })
    }
}

/// The accepted return codes where the configuration names none.
pub fn default_retcodes() -> (r: Vec<i32>)
    ensures
        r@ == seq![0i32],
{
    let mut r: Vec<i32> = Vec::new();
    r.push(0);
    r
}

/// The execution style where the configuration names none.
pub fn value_xge() -> (r: String)
    ensures
        r@ == "xge"@,
{
    "xge".to_owned()
}

/// A group of tests as the configuration file gives it. Timeouts are in
/// milliseconds.
pub struct TestGroupConfig {
    pub command: Option<CommandTemplate>,
    pub find_glob: Option<String>,
    pub find_gtest: Option<String>,
    pub timeout_ms: Option<u64>,
    pub timeout_if_changed_ms: Option<u64>,
    pub testcases_dependencies: Vec<String>,
    pub execution_style: String,
}

/// A test preset as the configuration file gives it.
pub struct TestPresetConfig {
    pub command: Option<CommandTemplate>,
    pub id_pattern: Option<String>,
    pub groups: Vec<TestGroupConfig>,
}

/// A group of tests with its command instantiated. Timeouts are in milliseconds.
pub struct TestGroup {
    pub command: CommandTemplate,
    pub find_glob: Option<String>,
    pub find_gtest: Option<String>,
    pub timeout_ms: Option<u64>,
    pub timeout_if_changed_ms: Option<u64>,
    pub accepted_returncodes: Vec<i32>,
    pub testcases_dependencies: Vec<String>,
    pub execution_style: String,
}

/// A test preset with its groups instantiated.
pub struct TestPreset {
    pub id_pattern: Option<String>,
    pub groups: Vec<TestGroup>,
}

/// An app with its build and presets selected and instantiated.
pub struct App {
    pub responsible: String,
    pub build: Build,
    pub tests: Vec<TestPreset>,
    pub globber_matches_parent: bool,
    pub checkout_parent: bool,
}

pub open spec fn pat_exe() -> Seq<char> {
    "{{exe}}"@
}

pub open spec fn pat_dll() -> Seq<char> {
    "{{dll}}"@
}

/// The command of a preset: its own, or the app's.
pub open spec fn preset_command_spec(p: TestPresetConfig, app_cmd: Seq<Seq<char>>) -> Seq<Seq<char>> {
    match p.command {
        Some(c) => c@,
        None => app_cmd,
    }
}

/// The instantiated command of a group: its own command (or the preset's) with
/// `{{exe}}` and `{{dll}}` filled in from the build and then the input paths;
/// fails where `{{dll}}` is named and the build has no dll, or where
/// `{{dev_dir}}` is named and no dev directory is known.
pub open spec fn group_command_spec(
    gc: TestGroupConfig,
    preset_cmd: Seq<Seq<char>>,
    exe: Seq<char>,
    dll: Option<Seq<char>>,
    ip: InputPaths,
) -> Result<Seq<Seq<char>>, ConfigError> {
    let c0 = match gc.command {
        Some(c) => c@,
        None => preset_cmd,
    };
    let c1 = if has_pattern_spec(c0, pat_exe()) { apply_spec(c0, pat_exe(), exe) } else { c0 };
    if has_pattern_spec(c1, pat_dll()) && dll is None {
        Err(ConfigError::MissingDll)
    } else {
        let c2 = if has_pattern_spec(c1, pat_dll()) { apply_spec(c1, pat_dll(), dll->Some_0) } else { c1 };
        if ip.dev_dir is None && has_pattern_spec(c2, pat_dev_dir()) {
            Err(ConfigError::MissingDevDir)
        } else {
            Ok(c2.map_values(|t: Seq<char>| apply_to_spec(ip, t)->Some_0))
        }
    }
}

/// The instantiated commands of a preset's groups, or the first failure.
pub open spec fn preset_commands_spec(
    p: TestPresetConfig,
    app_cmd: Seq<Seq<char>>,
    exe: Seq<char>,
    dll: Option<Seq<char>>,
    ip: InputPaths,
) -> Result<Seq<Seq<Seq<char>>>, ConfigError> {
    collect_results(
        p.groups@,
        |gc: TestGroupConfig| group_command_spec(gc, preset_command_spec(p, app_cmd), exe, dll, ip),
    )
}

/// The instantiated commands of all presets, or the first failure.
pub open spec fn presets_commands_spec(
    ps: Seq<TestPresetConfig>,
    app_cmd: Seq<Seq<char>>,
    exe: Seq<char>,
    dll: Option<Seq<char>>,
    ip: InputPaths,
) -> Result<Seq<Seq<Seq<Seq<char>>>>, ConfigError> {
    collect_results(ps, |p: TestPresetConfig| preset_commands_spec(p, app_cmd, exe, dll, ip))
}

/// `g` is the group `gc` with command `cmd` and the app's return codes.
pub open spec fn group_is(g: TestGroup, gc: TestGroupConfig, cmd: Seq<Seq<char>>, retcodes: Seq<i32>) -> bool {
    &&& g.command@ == cmd
    &&& g.find_glob == gc.find_glob
    &&& g.find_gtest == gc.find_gtest
    &&& g.timeout_ms == gc.timeout_ms
    &&& g.timeout_if_changed_ms == gc.timeout_if_changed_ms
    &&& g.accepted_returncodes@ == retcodes
    &&& g.testcases_dependencies@ == gc.testcases_dependencies@
    &&& g.execution_style == gc.execution_style
}

/// `tp` is the preset `p` with groups of commands `cmds`.
pub open spec fn preset_is(tp: TestPreset, p: TestPresetConfig, cmds: Seq<Seq<Seq<char>>>, retcodes: Seq<i32>) -> bool {
    &&& tp.id_pattern == p.id_pattern
    &&& tp.groups@.len() == p.groups@.len() == cmds.len()
    &&& forall|j: int| 0 <= j < cmds.len() ==> group_is(#[trigger] tp.groups@[j], p.groups@[j], cmds[j], retcodes)
}

impl TestGroup {
    /// The group `gc` instantiated under the preset command `preset_cmd` and `build`.
    fn from_config(
        gc: &TestGroupConfig,
        preset_cmd: &CommandTemplate,
        build: &Build,
        input_paths: &InputPaths,
        accepted_returncodes: &Vec<i32>,
    ) -> (r: Result<TestGroup, ConfigError>)
        ensures
            r is Ok <==> group_command_spec(*gc, preset_cmd@, build.exe@, opt_text(build.dll), *input_paths) is Ok,
            r is Err ==> r->Err_0 == group_command_spec(*gc, preset_cmd@, build.exe@, opt_text(build.dll), *input_paths)->Err_0,
            r is Ok ==> group_is(r->Ok_0, *gc, group_command_spec(*gc, preset_cmd@, build.exe@, opt_text(build.dll), *input_paths)->Ok_0, accepted_returncodes@),
    {
        let mut command = match &gc.command {
            Some(c) => c.copy(),
            None => preset_cmd.copy(),
        };
        if command.has_pattern("{{exe}}") {
            command = command.apply("{{exe}}", build.exe.as_str());
        }
        if command.has_pattern("{{dll}}") {
            match &build.dll {
                Some(d) => {
                    command = command.apply("{{dll}}", d.as_str());
                }
                None => {
                    return Err(ConfigError::MissingDll);
                }
            }
        }
        let command = command.apply_input_paths(input_paths)?;
        Ok(TestGroup {
            command,
            find_glob: clone_opt(&gc.find_glob),
            find_gtest: clone_opt(&gc.find_gtest),
            timeout_ms: gc.timeout_ms,
            timeout_if_changed_ms: gc.timeout_if_changed_ms,
            accepted_returncodes: copy_vec(accepted_returncodes),
            testcases_dependencies: clone_strings(&gc.testcases_dependencies),
            execution_style: gc.execution_style.clone(),
        })
    }
}

/// What was found for a group outside the library: the paths that its glob
/// matched, relative to the test cases directory (each replaced by its parent
/// where the app's glob matches parents), or what its gtest executable printed
/// when asked for its list of tests.
pub enum TestListing {
    Paths(Vec<String>),
    GtestOutput(String),
}

/// The id pattern of `preset`, `"(.*)"` where it names none.
pub open spec fn id_pattern_of(preset: TestPreset) -> Seq<char> {
    match preset.id_pattern {
        Some(p) => p@,
        None => crate::inputs::default_id_pattern(),
    }
}

impl TestGroup {
    /// The arguments that ask the group's gtest executable for its list of
    /// tests: `--gtest_list_tests`, then the group's command, with `{{input}}`
    /// replaced by the gtest filter, without its first token.
    pub fn gtest_list_args(&self) -> (r: Vec<String>)
        requires
            self.find_gtest is Some,
            self.command@.len() >= 1,
        ensures
            texts(r@) == seq!["--gtest_list_tests"@]
                + apply_spec(self.command@, "{{input}}"@, self.find_gtest->Some_0@).drop_first(),
    {
        let filter = match &self.find_gtest {
            Some(f) => f.as_str(),
            None => "",
        };
        let applied = self.command.apply("{{input}}", filter);
        let mut r: Vec<String> = Vec::new();
        r.push("--gtest_list_tests".to_string());
        let mut i: usize = 1;
        assert(applied.0@.len() == applied@.len());
        while i < applied.0.len()
            invariant
                1 <= i <= applied.0.len(),
                applied@ == apply_spec(self.command@, "{{input}}"@, filter@),
                applied@.len() == applied.0@.len(),
                texts(r@) == seq!["--gtest_list_tests"@] + applied@.subrange(1, i as int),
            decreases applied.0.len() - i,
        {
            let ghost old_r = r@;
            let t = applied.0[i].clone();
            r.push(t);
            proof {
                lemma_texts_push(old_r, t);
                assert(applied@[i as int] == applied.0@[i as int]@);
            }
            assert(texts(r@) =~= seq!["--gtest_list_tests"@] + applied@.subrange(1, i + 1));
            i += 1;
        }
        assert(applied@.subrange(1, applied@.len() as int) =~= applied@.drop_first());
        r
    }

    /// The tests of this group under `preset`, from what `listing` found: for a
    /// group with a glob, the tests of the matched paths with ids found by the
    /// preset's id pattern (`None` where that pattern is no valid regular
    /// expression); for a gtest group, the tests its executable listed.
    pub fn generate_test_inputs(&self, preset: &TestPreset, listing: &TestListing) -> (r: Option<Result<Vec<TestId>, PathIdError>>)
        requires
            (self.find_glob is Some && listing is Paths)
                || (self.find_glob is None && self.find_gtest is Some && listing is GtestOutput),
        ensures
            listing matches TestListing::Paths(ps) ==> {
                &&& (r is None <==> !valid_regex(id_pattern_of(*preset)))
                &&& r matches Some(Ok(ids)) ==> {
                    &&& ids@.len() == ps@.len()
                    &&& forall|i: int| 0 <= i < ids@.len() ==> Some((#[trigger] ids@[i]).id@)
                            == captured_id(id_pattern_of(*preset), forward_slashes(ps@[i]@))
                        && (ids@[i].rel_path matches Some(p) && p@ == forward_slashes(ps@[i]@))
                }
                &&& r matches Some(Err(PathIdError::NoMatch(p))) ==> exists|i: int| 0 <= i < ps@.len()
                    && p@ == forward_slashes(ps@[i]@)
                    && captured_id(id_pattern_of(*preset), forward_slashes(ps@[i]@)) is None
                    && forall|j: int| 0 <= j < i ==> captured_id(id_pattern_of(*preset), forward_slashes(#[trigger] ps@[j]@)) is Some
            },
            listing matches TestListing::GtestOutput(out) ==> r matches Some(Ok(ids))
                && ids@.map_values(|t: TestId| t.id@) == gtest_ids_spec(lines_spec(out@), seq![])
                && forall|i: int| 0 <= i < ids@.len() ==> (#[trigger] ids@[i]).rel_path is None,
    {
        match listing {
            TestListing::Paths(ps) => {
                match &preset.id_pattern {
                    Some(p) => test_ids_for_paths(ps, p.as_str()),
                    None => {
                        let r = test_ids_for_paths(ps, "(.*)");
                        r
                    }
                }
            }
            TestListing::GtestOutput(out) => Some(Ok(parse_gtest_list(out.as_str()))),
        }
    }
}

impl TestPreset {
    /// The preset `p` instantiated under the app command `app_cmd` and `build`.
    fn from_config(
        p: &TestPresetConfig,
        app_cmd: &CommandTemplate,
        build: &Build,
        input_paths: &InputPaths,
        accepted_returncodes: &Vec<i32>,
    ) -> (r: Result<TestPreset, ConfigError>)
        ensures
            r is Ok <==> preset_commands_spec(*p, app_cmd@, build.exe@, opt_text(build.dll), *input_paths) is Ok,
            r is Err ==> r->Err_0 == preset_commands_spec(*p, app_cmd@, build.exe@, opt_text(build.dll), *input_paths)->Err_0,
            r is Ok ==> preset_is(r->Ok_0, *p, preset_commands_spec(*p, app_cmd@, build.exe@, opt_text(build.dll), *input_paths)->Ok_0, accepted_returncodes@),
    {
        let command = match &p.command {
            Some(c) => c.copy(),
            None => app_cmd.copy(),
        };
        let ghost f = |gc: TestGroupConfig| group_command_spec(gc, preset_command_spec(*p, app_cmd@), build.exe@, opt_text(build.dll), *input_paths);
        let ghost mut cmds: Seq<Seq<Seq<char>>> = seq![];
        let mut groups: Vec<TestGroup> = Vec::new();
        let mut i: usize = 0;
        while i < p.groups.len()
            invariant
                i <= p.groups.len(),
                command@ == preset_command_spec(*p, app_cmd@),
                f == (|gc: TestGroupConfig| group_command_spec(gc, preset_command_spec(*p, app_cmd@), build.exe@, opt_text(build.dll), *input_paths)),
                groups@.len() == i,
                cmds.len() == i,
                forall|j: int| 0 <= j < i ==> #[trigger] f(p.groups@[j]) == Ok::<Seq<Seq<char>>, ConfigError>(cmds[j]),
                forall|j: int| 0 <= j < i ==> group_is(#[trigger] groups@[j], p.groups@[j], cmds[j], accepted_returncodes@),
            decreases p.groups.len() - i,
        {
            match TestGroup::from_config(&p.groups[i], &command, build, input_paths, accepted_returncodes) {
                Ok(g) => {
                    proof {
                        cmds = cmds.push(f(p.groups@[i as int])->Ok_0);
                    }
                    groups.push(g);
                }
                Err(e) => {
                    proof {
                        assert forall|j: int| 0 <= j < i implies #[trigger] f(p.groups@[j]) is Ok by {}
                        lemma_collect_first_err(p.groups@, f, i as int);
                    }
                    return Err(e);
                }
            }
            i += 1;
        }
        proof {
            lemma_collect_all_ok(p.groups@, f, cmds);
        }
        Ok(TestPreset { id_pattern: clone_opt(&p.id_pattern), groups })
    }
}

/// The presets that `selected` picks out of `presets`, in that order.
pub open spec fn picked(presets: Seq<(String, TestPresetConfig)>, selected: Seq<usize>) -> Seq<TestPresetConfig> {
    selected.map_values(|k: usize| presets[k as int].1)
}

/// `a` is the app made of the given parts, with presets `ps` instantiated
/// into the commands `cmds`.
pub open spec fn app_is(
    a: App,
    responsible: String,
    build: Build,
    ps: Seq<TestPresetConfig>,
    cmds: Seq<Seq<Seq<Seq<char>>>>,
    globber_matches_parent: bool,
    checkout_parent: bool,
    retcodes: Seq<i32>,
) -> bool {
    &&& a.responsible == responsible
    &&& a.build == build
    &&& a.globber_matches_parent == globber_matches_parent
    &&& a.checkout_parent == checkout_parent
    &&& a.tests@.len() == ps.len() == cmds.len()
    &&& forall|i: int| 0 <= i < cmds.len() ==> preset_is(#[trigger] a.tests@[i], ps[i], cmds[i], retcodes)
}

impl App {
    /// The app whose presets are those of `presets` that `selected` picks, each
    /// instantiated under `command` and `build`; fails with the first failure of a
    /// group, in order.
    pub fn from(
        input_paths: &InputPaths,
        command: CommandTemplate,
        responsible: String,
        build: Build,
        presets: &Vec<(String, TestPresetConfig)>,
        selected: &Vec<usize>,
        globber_matches_parent: bool,
        checkout_parent: bool,
        accepted_returncodes: &Vec<i32>,
    ) -> (r: Result<App, ConfigError>)
        requires
            forall|i: int| 0 <= i < selected@.len() ==> #[trigger] selected@[i] < presets@.len(),
        ensures
            ({
                let cs = presets_commands_spec(picked(presets@, selected@), command@, build.exe@, opt_text(build.dll), *input_paths);
                &&& r is Ok <==> cs is Ok
                &&& r is Err ==> r->Err_0 == cs->Err_0
                &&& r is Ok ==> app_is(r->Ok_0, responsible, build, picked(presets@, selected@), cs->Ok_0,
                    globber_matches_parent, checkout_parent, accepted_returncodes@)
            }),
    {
        let ghost ps = picked(presets@, selected@);
        let ghost f = |p: TestPresetConfig| preset_commands_spec(p, command@, build.exe@, opt_text(build.dll), *input_paths);
        let ghost mut cmds: Seq<Seq<Seq<Seq<char>>>> = seq![];
        let mut out: Vec<TestPreset> = Vec::new();
        let mut i: usize = 0;
        while i < selected.len()
            invariant
                i <= selected.len(),
                forall|k: int| 0 <= k < selected@.len() ==> #[trigger] selected@[k] < presets@.len(),
                ps == picked(presets@, selected@),
                f == (|p: TestPresetConfig| preset_commands_spec(p, command@, build.exe@, opt_text(build.dll), *input_paths)),
                out@.len() == i,
                cmds.len() == i,
                forall|j: int| 0 <= j < i ==> #[trigger] f(ps[j]) == Ok::<Seq<Seq<Seq<char>>>, ConfigError>(cmds[j]),
                forall|j: int| 0 <= j < i ==> preset_is(#[trigger] out@[j], ps[j], cmds[j], accepted_returncodes@),
            decreases selected.len() - i,
        {
            let k = selected[i];
            assert(ps[i as int] == presets@[k as int].1);
            match TestPreset::from_config(&presets[k].1, &command, &build, input_paths, accepted_returncodes) {
                Ok(tp) => {
                    proof {
                        cmds = cmds.push(f(ps[i as int])->Ok_0);
                    }
                    out.push(tp);
                }
                Err(e) => {
                    proof {
                        assert forall|j: int| 0 <= j < i implies #[trigger] f(ps[j]) is Ok by {}
                        lemma_collect_first_err(ps, f, i as int);
                    }
                    return Err(e);
                }
            }
            i += 1;
        }
        proof {
            lemma_collect_all_ok(ps, f, cmds);
        }
        Ok(App { responsible, build, tests: out, globber_matches_parent, checkout_parent })
    }
}

/// An app as the configuration file gives it.
pub struct AppConfig {
    pub command: CommandTemplate,
    pub responsible: String,
    pub alias: Vec<String>,
    pub tags: Vec<String>,
    pub accepted_returncodes: Vec<i32>,
    pub disabled: bool,
    pub builds: Vec<(String, BuildConfig)>,
    pub tests: Vec<(String, TestPresetConfig)>,
    pub globber_matches_parent: bool,
    pub checkout_parent: bool,
}

/// The position of the first entry named `key`, if any.
pub open spec fn find_key<T>(entries: Seq<(String, T)>, key: Seq<char>) -> Option<int>
    decreases entries.len(),
{
    if entries.len() == 0 {
        None
    } else if entries.last().0@ == key {
        match find_key(entries.drop_last(), key) {
            Some(j) => Some(j),
            None => Some(entries.len() - 1),
        }
    } else {
        find_key(entries.drop_last(), key)
    }
}

proof fn lemma_find_key_step<T>(entries: Seq<(String, T)>, key: Seq<char>, i: int)
    requires
        0 <= i < entries.len(),
        find_key(entries.take(i), key) is None,
    ensures
        find_key(entries.take(i + 1), key) == (if entries[i].0@ == key { Some(i) } else { None::<int> }),
{
    assert(entries.take(i + 1).drop_last() =~= entries.take(i));
}

/// The position of the first entry named `key`.
pub fn find_entry<T>(entries: &Vec<(String, T)>, key: &str) -> (r: Option<usize>)
    ensures
        r matches Some(j) ==> find_key(entries@, key@) == Some(j as int),
        r is None ==> find_key(entries@, key@) is None,
{
    let mut i: usize = 0;
    let k = key.to_owned();
    while i < entries.len()
        invariant
            i <= entries.len(),
            k@ == key@,
            find_key(entries@.take(i as int), key@) is None,
        decreases entries.len() - i,
    {
        proof { lemma_find_key_step(entries@, key@, i as int); }
        if entries[i].0 == k {
            assert(entries@.take(i + 1).drop_last() =~= entries@.take(i as int));
            proof { lemma_find_key_extend(entries@, key@, i + 1); }
            return Some(i);
        }
        i += 1;
    }
    assert(entries@.take(i as int) =~= entries@);
    None
}

proof fn lemma_find_key_extend<T>(entries: Seq<(String, T)>, key: Seq<char>, n: int)
    requires
        0 <= n <= entries.len(),
        find_key(entries.take(n), key) is Some,
    ensures
        find_key(entries, key) == find_key(entries.take(n), key),
    decreases entries.len() - n,
{
    if n < entries.len() {
        assert(entries.take(n + 1).drop_last() =~= entries.take(n));
        lemma_find_key_extend(entries, key, n + 1);
    } else {
        assert(entries.take(n) =~= entries);
    }
}

/// The positions, among `presets`, of the presets named in `names`, in the order of
/// `names`; names of no preset are skipped.
pub open spec fn preset_selection(presets: Seq<(String, TestPresetConfig)>, names: Seq<Seq<char>>) -> Seq<usize>
    decreases names.len(),
{
    if names.len() == 0 {
        seq![]
    } else {
        let rest = preset_selection(presets, names.drop_last());
        match find_key(presets, names.last()) {
            Some(j) => rest.push(j as usize),
            None => rest,
        }
    }
}

/// The positions of the presets named in `preset` (names separated by `'+'`).
pub fn select_presets(presets: &Vec<(String, TestPresetConfig)>, preset: &str) -> (r: Vec<usize>)
    ensures
        r@ == preset_selection(presets@, split_spec(preset@, '+')),
        forall|i: int| 0 <= i < r@.len() ==> #[trigger] r@[i] < presets@.len(),
{
    let chars = chars_of(preset);
    let names = split_chars(&chars, '+');
    let ghost ns = names@.map_values(|v: Vec<char>| v@);
    let mut r: Vec<usize> = Vec::new();
    let mut i: usize = 0;
    while i < names.len()
        invariant
            i <= names.len(),
            ns == names@.map_values(|v: Vec<char>| v@),
            ns == split_spec(preset@, '+'),
            r@ == preset_selection(presets@, ns.take(i as int)),
            forall|k: int| 0 <= k < r@.len() ==> #[trigger] r@[k] < presets@.len(),
        decreases names.len() - i,
    {
        let name = string_from_chars(&names[i]);
        assert(ns.take(i + 1).drop_last() =~= ns.take(i as int));
        assert(ns.take(i + 1).last() == names@[i as int]@);
        match find_entry(presets, name.as_str()) {
            Some(j) => {
                proof { lemma_find_key_bound(presets@, name@); }
                r.push(j);
            }
            None => {}
        }
        i += 1;
    }
    assert(ns.take(names.len() as int) =~= ns);
    r
}

proof fn lemma_find_key_bound<T>(entries: Seq<(String, T)>, key: Seq<char>)
    ensures
        find_key(entries, key) matches Some(j) ==> 0 <= j < entries.len(),
    decreases entries.len(),
{
    if entries.len() > 0 {
        lemma_find_key_bound(entries.drop_last(), key);
    }
}

/// Where the build of the selected type exists and is enabled, it names an exe.
pub open spec fn exe_defined(cfg: AppConfig, ip: InputPaths) -> bool {
    ip.build_type is Some ==> match find_key(cfg.builds@, ip.build_type->Some_0@) {
        Some(j) => !cfg.builds@[j].1.disabled ==> cfg.builds@[j].1.exe is Some,
        None => true,
    }
}

/// The commands of the app's selected presets under the build `b`.
pub open spec fn app_commands_spec(cfg: AppConfig, b: BuildConfig, ip: InputPaths) -> Result<Seq<Seq<Seq<Seq<char>>>>, ConfigError> {
    presets_commands_spec(
        picked(cfg.tests@, preset_selection(cfg.tests@, split_spec(ip.preset@, '+'))),
        cfg.command@,
        apply_opt_spec(ip, b.exe)->Some_0->Some_0,
        apply_opt_spec(ip, b.dll)->Some_0,
        ip,
    )
}

/// Why selecting the build and presets of the app `name` fails, if it does:
/// no build type, no build of that type, a path of the build that cannot be
/// filled in, or the first failing group.
pub open spec fn select_error(cfg: AppConfig, name: String, ip: InputPaths) -> Option<ConfigError> {
    match ip.build_type {
        None => Some(ConfigError::MissingBuildType),
        Some(bt) => match find_key(cfg.builds@, bt@) {
            None => Some(ConfigError::BuildNotFound { build: bt, app: name }),
            Some(j) => {
                let b = cfg.builds@[j].1;
                if b.disabled {
                    None
                } else if !build_ok(b, ip) {
                    Some(ConfigError::MissingDevDir)
                } else {
                    match app_commands_spec(cfg, b, ip) {
                        Err(e) => Some(e),
                        Ok(_) => None,
                    }
                }
            },
        },
    }
}

/// The selected build exists and is disabled, so the app is left out.
pub open spec fn build_disabled(cfg: AppConfig, ip: InputPaths) -> bool {
    ip.build_type is Some && match find_key(cfg.builds@, ip.build_type->Some_0@) {
        Some(j) => cfg.builds@[j].1.disabled,
        None => false,
    }
}

/// `a` is the app `cfg` with its selected build and presets instantiated.
pub open spec fn app_selected_is(a: App, cfg: AppConfig, ip: InputPaths) -> bool {
    let b = cfg.builds@[find_key(cfg.builds@, ip.build_type->Some_0@)->Some_0].1;
    &&& build_is(a.build, b, ip)
    &&& app_is(a, cfg.responsible, a.build, picked(cfg.tests@, preset_selection(cfg.tests@, split_spec(ip.preset@, '+'))),
        app_commands_spec(cfg, b, ip)->Ok_0, cfg.globber_matches_parent, cfg.checkout_parent, cfg.accepted_returncodes@)
}

impl AppConfig {
    /// Whether the build of the selected type, where it exists and is enabled,
    /// names an exe (see `exe_defined`).
    pub fn build_has_exe(&self, input_paths: &InputPaths) -> (r: bool)
        ensures
            r == exe_defined(*self, *input_paths),
    {
        match &input_paths.build_type {
            None => true,
            Some(bt) => {
                proof { lemma_find_key_bound(self.builds@, bt@); }
                match find_entry(&self.builds, bt.as_str()) {
                    None => true,
                    Some(j) => self.builds[j].1.disabled || self.builds[j].1.exe.is_some(),
                }
            },
        }
    }
}

impl AppsConfig {
    /// Whether every app that `app_names` select names an exe for its selected
    /// build, as `select_build_and_preset` needs.
    pub fn selected_builds_have_exe(&self, app_names: &Vec<String>, input_paths: &InputPaths) -> (r: bool)
        ensures
            r == forall|i: int| 0 <= i < self.0@.len() && app_matches(self.0@[i].0, self.0@[i].1, app_names@)
                ==> exe_defined(#[trigger] self.0@[i].1, *input_paths),
    {
        let mut i: usize = 0;
        while i < self.0.len()
            invariant
                i <= self.0@.len(),
                forall|k: int| 0 <= k < i && app_matches(self.0@[k].0, self.0@[k].1, app_names@)
                    ==> exe_defined(#[trigger] self.0@[k].1, *input_paths),
            decreases self.0@.len() - i,
        {
            if matches_names(&self.0[i].0, &self.0[i].1, app_names) && !self.0[i].1.build_has_exe(input_paths) {
                return false;
            }
            i += 1;
        }
        true
    }
}

impl AppConfig {
    /// The app with the build of the selected type and the selected presets;
    /// `None` where that build is disabled.
    pub fn select_build_and_preset(&self, name: &String, input_paths: &InputPaths) -> (r: Result<Option<App>, ConfigError>)
        requires
            exe_defined(*self, *input_paths),
        ensures
            r is Err <==> select_error(*self, *name, *input_paths) is Some,
            r is Err ==> r->Err_0 == select_error(*self, *name, *input_paths)->Some_0,
            r is Ok ==> (r->Ok_0 is None <==> build_disabled(*self, *input_paths)),
            r matches Ok(Some(a)) ==> app_selected_is(a, *self, *input_paths),
    {
        let build_type = match &input_paths.build_type {
            Some(b) => b,
            None => {
                return Err(ConfigError::MissingBuildType);
            }
        };
        let j = match find_entry(&self.builds, build_type.as_str()) {
            Some(j) => j,
            None => {
                return Err(ConfigError::BuildNotFound { build: build_type.clone(), app: name.clone() });
            }
        };
        proof { lemma_find_key_bound(self.builds@, build_type@); }
        let build_config = &self.builds[j].1;
        if build_config.disabled {
            return Ok(None);
        }
        let build = Build::from(build_config, input_paths)?;
        let selected = select_presets(&self.tests, input_paths.preset.as_str());
        let app = App::from(
            input_paths,
            self.command.copy(),
            self.responsible.clone(),
            build,
            &self.tests,
            &selected,
            self.globber_matches_parent,
            self.checkout_parent,
            &self.accepted_returncodes,
        )?;
        Ok(Some(app))
    }
}

/// All apps of the configuration file, each under its name.
pub struct AppsConfig(pub Vec<(String, AppConfig)>);

/// The selected apps, each under its name.
pub struct Apps(pub Vec<(String, App)>);

/// No two entries share a key.
pub open spec fn keys_distinct<T>(entries: Seq<(String, T)>) -> bool {
    forall|i: int, j: int| 0 <= i < j < entries.len() ==> (#[trigger] entries[i]).0@ != (#[trigger] entries[j]).0@
}

/// Whether no two entries share a key.
pub fn has_distinct_keys<T>(entries: &Vec<(String, T)>) -> (r: bool)
    ensures
        r == keys_distinct(entries@),
{
    let mut i: usize = 0;
    while i < entries.len()
        invariant
            i <= entries@.len(),
            forall|a: int, b: int| 0 <= a < b < entries@.len() && a < i ==> (#[trigger] entries@[a]).0@ != (#[trigger] entries@[b]).0@,
        decreases entries@.len() - i,
    {
        let mut j: usize = i + 1;
        while j < entries.len()
            invariant
                i < entries@.len(),
                i + 1 <= j <= entries@.len(),
                forall|a: int, b: int| 0 <= a < b < entries@.len() && a < i ==> (#[trigger] entries@[a]).0@ != (#[trigger] entries@[b]).0@,
                forall|b: int| i < b < j ==> entries@[i as int].0@ != (#[trigger] entries@[b]).0@,
            decreases entries@.len() - j,
        {
            if entries[i].0 == entries[j].0 {
                return false;
            }
            j += 1;
        }
        i += 1;
    }
    true
}

impl AppConfig {
    /// The builds, and the presets, each have distinct names, as keys of the
    /// configuration file's maps do.
    pub open spec fn wf(&self) -> bool {
        keys_distinct(self.builds@) && keys_distinct(self.tests@)
    }
}

impl AppsConfig {
    /// The apps have distinct names, and each app is well formed.
    pub open spec fn wf(&self) -> bool {
        &&& keys_distinct(self.0@)
        &&& forall|i: int| 0 <= i < self.0@.len() ==> (#[trigger] self.0@[i]).1.wf()
    }

    /// Whether the configuration is well formed (see `wf`).
    pub fn is_wf(&self) -> (r: bool)
        ensures
            r == self.wf(),
    {
        if !has_distinct_keys(&self.0) {
            return false;
        }
        let mut i: usize = 0;
        while i < self.0.len()
            invariant
                i <= self.0@.len(),
                forall|k: int| 0 <= k < i ==> (#[trigger] self.0@[k]).1.wf(),
            decreases self.0@.len() - i,
        {
            if !has_distinct_keys(&self.0[i].1.builds) || !has_distinct_keys(&self.0[i].1.tests) {
                return false;
            }
            i += 1;
        }
        true
    }
}

impl Apps {
    /// The apps have distinct names.
    pub open spec fn wf(&self) -> bool {
        keys_distinct(self.0@)
    }
}

/// The positions that `true_positions` picks grow strictly.
proof fn lemma_true_positions_increasing(flags: Seq<bool>)
    ensures
        forall|a: int, b: int| 0 <= a < b < true_positions(flags).len() ==> #[trigger] true_positions(flags)[a] < #[trigger] true_positions(flags)[b],
    decreases flags.len(),
{
    if flags.len() > 0 {
        lemma_true_positions_increasing(flags.drop_last());
        lemma_true_positions_bound(flags.drop_last());
        let tp = true_positions(flags.drop_last());
        assert forall|a: int, b: int| 0 <= a < b < true_positions(flags).len() implies #[trigger] true_positions(flags)[a] < #[trigger] true_positions(flags)[b] by {
            assert(true_positions(flags)[a] == tp[a]);
            if b < tp.len() {
                assert(true_positions(flags)[b] == tp[b]);
            } else {
                assert(true_positions(flags)[b] == flags.len() - 1);
            }
        }
    }
}

/// `name`, an alias or a tag of the app equals (ignoring case) one of `names`, or
/// one of `names` is "all".
pub open spec fn app_matches(name: String, cfg: AppConfig, names: Seq<String>) -> bool {
    exists|i: int| 0 <= i < names.len() && #[trigger] name_matches(name, cfg, lowercase(names[i]@))
}

/// The lowercase name `n` selects the app.
pub open spec fn name_matches(name: String, cfg: AppConfig, n: Seq<char>) -> bool {
    ||| n == lowercase(name@)
    ||| n == "all"@
    ||| exists|k: int| 0 <= k < cfg.alias@.len() && lowercase(#[trigger] cfg.alias@[k]@) == n
    ||| exists|k: int| 0 <= k < cfg.tags@.len() && lowercase(#[trigger] cfg.tags@[k]@) == n
}

/// Some of `v` equals `n` when lowercased.
fn any_lowercase_eq(v: &Vec<String>, n: &String) -> (r: bool)
    ensures
        r == exists|k: int| 0 <= k < v@.len() && lowercase(#[trigger] v@[k]@) == n@,
{
    let mut k: usize = 0;
    while k < v.len()
        invariant
            k <= v.len(),
            forall|j: int| 0 <= j < k ==> lowercase(#[trigger] v@[j]@) != n@,
        decreases v.len() - k,
    {
        let l = to_lowercase(v[k].as_str());
        if l == *n {
            return true;
        }
        k += 1;
    }
    false
}

/// Whether the app `name` is selected by `names`.
pub fn matches_names(name: &String, cfg: &AppConfig, names: &Vec<String>) -> (r: bool)
    ensures
        r == app_matches(*name, *cfg, names@),
{
    let lname = to_lowercase(name.as_str());
    let all = "all".to_owned();
    let mut i: usize = 0;
    while i < names.len()
        invariant
            i <= names.len(),
            lname@ == lowercase(name@),
            all@ == "all"@,
            forall|j: int| 0 <= j < i ==> !(#[trigger] name_matches(*name, *cfg, lowercase(names@[j]@))),
        decreases names.len() - i,
    {
        let n = to_lowercase(names[i].as_str());
        if n == lname || n == all || any_lowercase_eq(&cfg.alias, &n) || any_lowercase_eq(&cfg.tags, &n) {
            assert(name_matches(*name, *cfg, lowercase(names@[i as int]@)));
            return true;
        }
        i += 1;
    }
    false
}

/// What selection makes of one entry: left out (`false`), kept (`true`), or the
/// error it fails with.
pub open spec fn entry_outcome(e: (String, AppConfig), names: Seq<String>, ip: InputPaths) -> Result<bool, ConfigError> {
    if !app_matches(e.0, e.1, names) {
        Ok(false)
    } else {
        match select_error(e.1, e.0, ip) {
            Some(err) => Err(err),
            None => Ok(!build_disabled(e.1, ip)),
        }
    }
}

/// The positions that hold `true`, in order.
pub open spec fn true_positions(flags: Seq<bool>) -> Seq<int>
    decreases flags.len(),
{
    if flags.len() == 0 {
        seq![]
    } else if flags.last() {
        true_positions(flags.drop_last()).push(flags.len() - 1)
    } else {
        true_positions(flags.drop_last())
    }
}

proof fn lemma_true_positions_bound(flags: Seq<bool>)
    ensures
        forall|k: int| 0 <= k < true_positions(flags).len() ==> 0 <= #[trigger] true_positions(flags)[k] < flags.len(),
    decreases flags.len(),
{
    if flags.len() > 0 {
        lemma_true_positions_bound(flags.drop_last());
        let tp = true_positions(flags.drop_last());
        assert forall|k: int| 0 <= k < true_positions(flags).len() implies 0 <= #[trigger] true_positions(flags)[k] < flags.len() by {
            if k < tp.len() {
                assert(true_positions(flags)[k] == tp[k]);
            }
        }
    }
}

impl AppsConfig {
    /// The apps that `app_names` select, in the order of the file, each with its
    /// build and presets; apps whose selected build is disabled are left out.
    /// Fails with the error of the first selected app that fails.
    pub fn select_build_and_preset(&self, app_names: &Vec<String>, input_paths: &InputPaths) -> (r: Result<Apps, ConfigError>)
        requires
            forall|i: int| 0 <= i < self.0@.len() && app_matches(self.0@[i].0, self.0@[i].1, app_names@)
                ==> exe_defined(#[trigger] self.0@[i].1, *input_paths),
        ensures
            ({
                let outcomes = collect_results(self.0@, |e: (String, AppConfig)| entry_outcome(e, app_names@, *input_paths));
                &&& r is Ok <==> outcomes is Ok
                &&& r is Err ==> r->Err_0 == outcomes->Err_0
                &&& r is Ok ==> {
                    let pos = true_positions(outcomes->Ok_0);
                    let out = r->Ok_0.0@;
                    &&& out.len() == pos.len()
                    &&& forall|k: int| 0 <= k < out.len() ==> {
                        &&& (#[trigger] out[k]).0 == self.0@[pos[k]].0
                        &&& app_selected_is(out[k].1, self.0@[pos[k]].1, *input_paths)
                    }
                }
            }),
            self.wf() && r is Ok ==> r->Ok_0.wf(),
    {
        let ghost f = |e: (String, AppConfig)| entry_outcome(e, app_names@, *input_paths);
        let ghost mut flags: Seq<bool> = seq![];
        let mut out: Vec<(String, App)> = Vec::new();
        let mut i: usize = 0;
        while i < self.0.len()
            invariant
                i <= self.0.len(),
                forall|k: int| 0 <= k < self.0@.len() && app_matches(self.0@[k].0, self.0@[k].1, app_names@)
                    ==> exe_defined(#[trigger] self.0@[k].1, *input_paths),
                f == (|e: (String, AppConfig)| entry_outcome(e, app_names@, *input_paths)),
                flags.len() == i,
                forall|j: int| 0 <= j < i ==> #[trigger] f(self.0@[j]) == Ok::<bool, ConfigError>(flags[j]),
                out@.len() == true_positions(flags).len(),
                forall|k: int| 0 <= k < out@.len() ==> {
                    &&& (#[trigger] out@[k]).0 == self.0@[true_positions(flags)[k]].0
                    &&& app_selected_is(out@[k].1, self.0@[true_positions(flags)[k]].1, *input_paths)
                },
            decreases self.0.len() - i,
        {
            let entry = &self.0[i];
            proof { lemma_true_positions_bound(flags); }
            if matches_names(&entry.0, &entry.1, app_names) {
                match entry.1.select_build_and_preset(&entry.0, input_paths) {
                    Err(e) => {
                        proof {
                            assert forall|j: int| 0 <= j < i implies #[trigger] f(self.0@[j]) is Ok by {}
                            lemma_collect_first_err(self.0@, f, i as int);
                        }
                        return Err(e);
                    }
                    Ok(None) => {
                        proof {
                            assert(flags.push(false).drop_last() =~= flags);
                            flags = flags.push(false);
                        }
                    }
                    Ok(Some(a)) => {
                        proof {
                            assert(flags.push(true).drop_last() =~= flags);
                            flags = flags.push(true);
                        }
                        out.push((entry.0.clone(), a));
                    }
                }
            } else {
                proof {
                    assert(flags.push(false).drop_last() =~= flags);
                    flags = flags.push(false);
                }
            }
            i += 1;
        }
        proof {
            lemma_collect_all_ok(self.0@, f, flags);
            lemma_true_positions_increasing(flags);
            lemma_true_positions_bound(flags);
            if self.wf() {
                let tp = true_positions(flags);
                assert forall|a: int, b: int| 0 <= a < b < out@.len() implies (#[trigger] out@[a]).0@ != (#[trigger] out@[b]).0@ by {
                    assert(tp[a] < tp[b]);
                    assert(out@[a].0 == self.0@[tp[a]].0);
                    assert(out@[b].0 == self.0@[tp[b]].0);
                }
            }
        }
        Ok(Apps(out))
    }
}

impl AppsConfig {
    /// The names of all apps, in order (the order of `text_lt`).
    pub fn app_names(&self) -> (r: Vec<String>)
        ensures
            crate::report::texts_sorted(texts(r@)),
            texts(r@).to_multiset() == self.0@.map_values(|e: (String, AppConfig)| e.0@).to_multiset(),
            r@.len() == self.0@.len(),
            self.wf() ==> texts(r@).no_duplicates(),
    {
        let mut names: Vec<String> = Vec::new();
        let mut i: usize = 0;
        while i < self.0.len()
            invariant
                i <= self.0@.len(),
                texts(names@) == self.0@.take(i as int).map_values(|e: (String, AppConfig)| e.0@),
            decreases self.0@.len() - i,
        {
            let ghost before = names@;
            let n = self.0[i].0.clone();
            names.push(n);
            proof {
                lemma_texts_push(before, n);
                assert(self.0@.take(i + 1).map_values(|e: (String, AppConfig)| e.0@)
                    =~= self.0@.take(i as int).map_values(|e: (String, AppConfig)| e.0@).push(n@));
            }
            i += 1;
        }
        assert(self.0@.take(self.0@.len() as int) =~= self.0@);
        let r = crate::report::sort_strings(names);
        proof {
            let keys = self.0@.map_values(|e: (String, AppConfig)| e.0@);
            keys.to_multiset_ensures();
            texts(r@).to_multiset_ensures();
            assert(texts(r@).len() == r@.len());
            if self.wf() {
                assert(keys.no_duplicates()) by {
                    assert forall|a: int, b: int| 0 <= a < keys.len() && 0 <= b < keys.len() && a != b implies keys[a] != keys[b] by {
                        if a < b {
                            assert(self.0@[a].0@ != self.0@[b].0@);
                        } else {
                            assert(self.0@[b].0@ != self.0@[a].0@);
                        }
                    }
                }
                keys.lemma_multiset_has_no_duplicates();
                texts(r@).lemma_multiset_has_no_duplicates_conv();
            }
        }
        r
    }
}


/// An app is selected by any spelling of its name: a requested name that equals
/// the app's name once both are lowercased selects it.
pub proof fn law_app_selected_by_name_in_any_case(name: String, cfg: AppConfig, names: Seq<String>, i: int)
    requires
        0 <= i < names.len(),
        lowercase(names[i]@) == lowercase(name@),
    ensures
        app_matches(name, cfg, names),
{
    assert(name_matches(name, cfg, lowercase(names[i]@)));
}

/// Every app is selected by its own name.
pub proof fn law_app_selected_by_own_name(name: String, cfg: AppConfig, names: Seq<String>, i: int)
    requires
        0 <= i < names.len(),
        names[i]@ == name@,
    ensures
        app_matches(name, cfg, names),
{
    law_app_selected_by_name_in_any_case(name, cfg, names, i);
}

/// A requested name that lowercases to "all", or to the lowercase form of one of
/// the app's aliases or tags, selects the app.
pub proof fn law_app_selected_by_all_alias_or_tag(name: String, cfg: AppConfig, names: Seq<String>, i: int)
    requires
        0 <= i < names.len(),
        lowercase(names[i]@) == "all"@
            || (exists|k: int| 0 <= k < cfg.alias@.len() && lowercase(#[trigger] cfg.alias@[k]@) == lowercase(names[i]@))
            || (exists|k: int| 0 <= k < cfg.tags@.len() && lowercase(#[trigger] cfg.tags@[k]@) == lowercase(names[i]@)),
    ensures
        app_matches(name, cfg, names),
{
    assert(name_matches(name, cfg, lowercase(names[i]@)));
}

} // verus!
