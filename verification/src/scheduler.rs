//! Scheduling decisions: the queue of remote test runs, retries of local runs,
//! and the reading of test output.
use vstd::prelude::*;
use std::collections::VecDeque;
use crate::runnable::{instance_is, same_instance, ExecutionStyle, OutputKind, TestCommandResult, TestGroup, TestInstance, TestInstanceCreator};
use crate::xge::{StreamRequest, StreamResult};
use crate::config::{clone_opt, clone_strings};
use crate::text::{chars_of, extend_chars, starts_with, str_starts_with, string_from_chars, sub_chars, trim_end_bounds, trim_end_by, whitespace_pred};

verus! {

/// A test of the queue: the group it belongs to, how to make its runs, and the
/// runs sent so far.
pub struct QueueEntry {
    pub group: usize,
    pub creator: TestInstanceCreator,
    pub sent: Vec<TestInstance>,
}

/// The runs still to send to the remote launcher, and those sent.
pub struct TestQueue {
    indices: VecDeque<usize>,
    creators: Vec<QueueEntry>,
    groups: Vec<TestGroup>,
    repeat: usize,
    in_flight: usize,
    requests: Ghost<nat>,
    responses: Ghost<nat>,
}

/// `r` copies of each of `0..n`, in order.
pub open spec fn expanded(n: nat, r: nat) -> Seq<usize>
    decreases n,
{
    if n == 0 {
        seq![]
    } else {
        expanded((n - 1) as nat, r) + Seq::new(r, |k: int| (n - 1) as usize)
    }
}

/// The tests of `gs`, group after group, each with the position of its group.
pub open spec fn flat_tests(gs: Seq<TestGroup>) -> Seq<(usize, TestInstanceCreator)>
    decreases gs.len(),
{
    if gs.len() == 0 {
        seq![]
    } else {
        flat_tests(gs.drop_last()) + gs.last().tests@.map_values(|c: TestInstanceCreator| ((gs.len() - 1) as usize, c))
    }
}

/// `g` is `h` without its tests.
pub open spec fn group_without_tests(g: TestGroup, h: TestGroup) -> bool {
    &&& g.app_name == h.app_name
    &&& g.gtest_generator == h.gtest_generator
    &&& g.execution_style == h.execution_style
    &&& g.timeout_ms == h.timeout_ms
    &&& g.accepted_returncodes == h.accepted_returncodes
    &&& g.tests@.len() == 0
}

impl TestQueue {
    /// The runs still to send, by test position, in sending order.
    pub closed spec fn pending(&self) -> Seq<usize> {
        self.indices@
    }

    /// The number of tests in the queue.
    pub closed spec fn num_tests(&self) -> nat {
        self.creators@.len()
    }

    /// The test at position `id`.
    pub closed spec fn entry(&self, id: int) -> QueueEntry {
        self.creators@[id]
    }

    /// The groups of the tests, without their tests.
    pub closed spec fn group_list(&self) -> Seq<TestGroup> {
        self.groups@
    }

    /// How often each test is run.
    pub closed spec fn repeat_count(&self) -> nat {
        self.repeat as nat
    }

    /// Runs sent and not yet answered.
    pub closed spec fn in_flight_count(&self) -> nat {
        self.in_flight as nat
    }

    /// Requests sent so far.
    pub closed spec fn requests_sent(&self) -> nat {
        self.requests@
    }

    /// Responses received so far.
    pub closed spec fn responses_received(&self) -> nat {
        self.responses@
    }

    /// Nothing is pending and nothing is in flight.
    pub open spec fn done_spec(&self) -> bool {
        self.in_flight_count() == 0 && self.pending().len() == 0
    }

    /// The queue is consistent: pending runs name tests of the queue that are no
    /// multi-test generators, every test names one of the groups, and the runs in
    /// flight are the requests not yet answered.
    pub closed spec fn wf(&self) -> bool {
        &&& forall|k: int| 0 <= k < self.indices@.len() ==> #[trigger] self.indices@[k] < self.creators@.len()
        &&& forall|k: int| 0 <= k < self.indices@.len() ==> !(#[trigger] self.creators@[self.indices@[k] as int]).creator.is_g_multitest
        &&& forall|k: int| 0 <= k < self.creators@.len() ==> (#[trigger] self.creators@[k]).group < self.groups@.len()
        &&& forall|k: int| 0 <= k < self.creators@.len() && (#[trigger] self.creators@[k]).sent@.len() > 0
            ==> !self.creators@[k].creator.is_g_multitest
        &&& self.requests@ == self.responses@ + self.in_flight
        &&& self.in_flight + self.indices@.len() <= usize::MAX
        &&& self.creators@.len() <= usize::MAX
    }

    /// A queue that sends every test of `tests` (group after group) `repeat` times,
    /// in order: all runs of the first test, then of the second, and so on.
    pub fn new(tests: Vec<TestGroup>, repeat: usize) -> (q: TestQueue)
        requires
            repeat > 0 ==> forall|k: int| 0 <= k < flat_tests(tests@).len() ==> !(#[trigger] flat_tests(tests@)[k]).1.is_g_multitest,
        ensures
            q.wf(),
            q.num_tests() == flat_tests(tests@).len(),
            forall|k: int| 0 <= k < q.num_tests() ==> {
                &&& (#[trigger] q.entry(k)).group == flat_tests(tests@)[k].0
                &&& q.entry(k).creator == flat_tests(tests@)[k].1
                &&& q.entry(k).sent@.len() == 0
            },
            q.group_list().len() == tests@.len(),
            forall|g: int| 0 <= g < tests@.len() ==> group_without_tests(#[trigger] q.group_list()[g], tests@[g]),
            q.pending() == expanded(q.num_tests(), repeat as nat),
            q.repeat_count() == repeat,
            q.in_flight_count() == 0,
            q.requests_sent() == 0,
            q.responses_received() == 0,
    {
        let mut tests = tests;
        let ghost orig = tests@;
        let mut creators: Vec<QueueEntry> = Vec::new();
        let mut groups: Vec<TestGroup> = Vec::new();
        while tests.len() > 0
            invariant
                orig.len() == tests@.len() + groups@.len(),
                tests@ == orig.take(tests@.len() as int),
                flat_tests(orig) == flat_tests(tests@) + creators@.map_values(|e: QueueEntry| (e.group, e.creator)),
                forall|k: int| 0 <= k < creators@.len() ==> (#[trigger] creators@[k]).sent@.len() == 0,
                forall|k: int| 0 <= k < creators@.len() ==> tests@.len() <= (#[trigger] creators@[k]).group < orig.len(),
                forall|g: int| 0 <= g < groups@.len() ==> group_without_tests(#[trigger] groups@[g], orig[g + tests@.len()]),
            decreases tests@.len(),
        {
            let g = tests.pop().unwrap();
            let gi = tests.len();
            let ghost gv = g;
            assert(orig.take(gi + 1).drop_last() =~= orig.take(gi as int));
            let TestGroup { app_name, gtest_generator, execution_style, timeout_ms, accepted_returncodes, tests: group_tests } = g;
            let mut group_tests = group_tests;
            let ghost all = group_tests@;
            let ghost prev = creators@.map_values(|e: QueueEntry| (e.group, e.creator));
            while group_tests.len() > 0
                invariant
                    group_tests@.len() <= all.len(),
                    group_tests@ == all.take(group_tests@.len() as int),
                    creators@.map_values(|e: QueueEntry| (e.group, e.creator))
                        == all.skip(group_tests@.len() as int).map_values(|c: TestInstanceCreator| (gi, c)) + prev,
                    forall|k: int| 0 <= k < creators@.len() ==> (#[trigger] creators@[k]).sent@.len() == 0,
                    forall|k: int| 0 <= k < creators@.len() ==> gi <= (#[trigger] creators@[k]).group < orig.len(),
                    gi < orig.len(),
                decreases group_tests@.len(),
            {
                let c = group_tests.pop().unwrap();
                let ghost n: int = group_tests@.len() as int;
                let ghost old_creators = creators@;
                creators.insert(0, QueueEntry { group: gi, creator: c, sent: Vec::new() });
                proof {
                    assert(all.take(n + 1).drop_last() =~= all.take(n));
                    assert(all.skip(n) =~= seq![c] + all.skip(n + 1));
                    assert(creators@.map_values(|e: QueueEntry| (e.group, e.creator))
                        =~= seq![(gi, c)] + old_creators.map_values(|e: QueueEntry| (e.group, e.creator)));
                    assert(all.skip(n).map_values(|x: TestInstanceCreator| (gi, x))
                        =~= seq![(gi, c)] + all.skip(n + 1).map_values(|x: TestInstanceCreator| (gi, x)));
                }
            }
            proof {
                assert(all.skip(0) =~= all);
                assert(gv.tests@ == all);
                assert(orig[gi as int] == gv);
                assert(orig.take(gi + 1).last() == gv);
                assert(orig.take(gi + 1).drop_last() =~= orig.take(gi as int));
            }
            groups.insert(0, TestGroup { app_name, gtest_generator, execution_style, timeout_ms, accepted_returncodes, tests: Vec::new() });
        }
        assert(flat_tests(tests@) =~= seq![]);
        let ghost flat = flat_tests(orig);
        assert(creators@.map_values(|e: QueueEntry| (e.group, e.creator)) =~= flat);
        let mut indices: VecDeque<usize> = VecDeque::new();
        let mut i: usize = 0;
        while i < creators.len()
            invariant
                i <= creators@.len(),
                indices@ == expanded(i as nat, repeat as nat),
            decreases creators@.len() - i,
        {
            let ghost before = indices@;
            let mut j: usize = 0;
            while j < repeat
                invariant
                    j <= repeat,
                    indices@ == before + Seq::new(j as nat, |k: int| i),
                decreases repeat - j,
            {
                indices.push_back(i);
                assert(indices@ =~= before + Seq::new((j + 1) as nat, |k: int| i));
                j += 1;
            }
            i += 1;
        }
        proof {
            assert forall|k: int| 0 <= k < creators@.len() implies {
                &&& (#[trigger] creators@[k]).group == flat[k].0
                &&& creators@[k].creator == flat[k].1
            } by {
                assert(creators@.map_values(|e: QueueEntry| (e.group, e.creator))[k] == flat[k]);
            }
        }
        let n_pending = indices.len();
        let n_creators = creators.len();
        proof {
            lemma_expanded_bound(creators@.len(), repeat as nat);
            if repeat > 0 {
                assert forall|k: int| 0 <= k < indices@.len() implies !(#[trigger] creators@[indices@[k] as int]).creator.is_g_multitest by {
                    let id = indices@[k] as int;
                    assert(creators@[id].creator == flat[id].1);
                }
            } else {
                lemma_expanded_zero(creators@.len());
            }
        }
        let q = TestQueue {
            indices,
            creators,
            groups,
            repeat,
            in_flight: 0,
            requests: Ghost(0),
            responses: Ghost(0),
        };
        proof {
            lemma_expanded_bound(q.creators@.len(), repeat as nat);
        }
        q
    }
}

impl TestQueue {
    /// Takes the next pending run, if any: makes a run of that test, keeps it among
    /// the test's sent runs, counts it as in flight, and returns the request for it.
    pub fn next_request(&mut self) -> (r: Option<StreamRequest>)
        requires
            old(self).wf(),
        ensures
            final(self).wf(),
            final(self).num_tests() == old(self).num_tests(),
            final(self).group_list() == old(self).group_list(),
            final(self).repeat_count() == old(self).repeat_count(),
            final(self).responses_received() == old(self).responses_received(),
            old(self).pending().len() == 0 ==> {
                &&& r is None
                &&& final(self).pending() == old(self).pending()
                &&& final(self).in_flight_count() == old(self).in_flight_count()
                &&& final(self).requests_sent() == old(self).requests_sent()
                &&& forall|k: int| 0 <= k < old(self).num_tests() ==> #[trigger] final(self).entry(k) == old(self).entry(k)
            },
            old(self).pending().len() > 0 ==> {
                let id = old(self).pending()[0] as int;
                let e = final(self).entry(id);
                let s = e.sent@.last();
                &&& final(self).pending() == old(self).pending().drop_first()
                &&& final(self).in_flight_count() == old(self).in_flight_count() + 1
                &&& final(self).requests_sent() == old(self).requests_sent() + 1
                &&& forall|k: int| 0 <= k < old(self).num_tests() && k != id ==> #[trigger] final(self).entry(k) == old(self).entry(k)
                &&& e.group == old(self).entry(id).group
                &&& e.creator == old(self).entry(id).creator
                &&& e.sent@.len() == old(self).entry(id).sent@.len() + 1
                &&& e.sent@.drop_last() == old(self).entry(id).sent@
                &&& exists|u: Seq<char>| instance_is(s, e.creator, u)
                &&& r matches Some(req) && {
                    let style = old(self).group_list()[e.group as int].execution_style;
                    &&& req.id == id
                    &&& req.title == s.test_id.id
                    &&& req.cwd == s.command.cwd
                    &&& req.command@ == s.command.command@
                    &&& req.local == (style == ExecutionStyle::Parallel)
                    &&& req.single == (style == ExecutionStyle::Single)
                }
            },
    {
        match self.indices.pop_front() {
            None => None,
            Some(send_idx) => {
                let ghost old_creators = self.creators@;
                let mut e = self.creators.remove(send_idx);
                let instance = e.creator.instantiate();
                let kept = instance.copy();
                e.sent.push(kept);
                let style = self.groups[e.group].execution_style;
                self.creators.insert(send_idx, e);
                self.in_flight = self.in_flight + 1;
                proof {
                    self.requests@ = self.requests@ + 1;
                    assert forall|k: int| 0 <= k < old_creators.len() && k != send_idx implies #[trigger] self.creators@[k] == old_creators[k] by {
                        if k < send_idx {
                        } else {
                        }
                    }
                    assert forall|k: int| 0 <= k < self.indices@.len() implies #[trigger] self.indices@[k] < self.creators@.len() by {
                        assert(self.indices@[k] == old(self).indices@[k + 1]);
                    }
                    assert forall|k: int| 0 <= k < self.indices@.len() implies !(#[trigger] self.creators@[self.indices@[k] as int]).creator.is_g_multitest by {
                        assert(self.indices@[k] == old(self).indices@[k + 1]);
                    }
                    assert(!self.creators@[send_idx as int].creator.is_g_multitest);
                    let s = self.creators@[send_idx as int].sent@.last();
                    assert(same_instance(s, instance));
                    let u = choose|u: Seq<char>| instance_is(instance, e.creator, u);
                    assert(instance_is(s, e.creator, u));
                }
                let id: u64 = send_idx as u64;
                Some(StreamRequest {
                    id,
                    title: instance.test_id.id,
                    cwd: instance.command.cwd,
                    command: instance.command.command,
                    local: style == ExecutionStyle::Parallel,
                    single: style == ExecutionStyle::Single,
                })
            },
        }
    }

    /// Records the answer for test `id`: one run fewer in flight; a failed test that
    /// has been sent at most `repeat_if_failed` times is scheduled once more, at the
    /// back. Returns the test's group, the run at position `id % repeat` among the
    /// test's sent runs, and whether the queue is now done.
    pub fn return_response(&mut self, id: usize, success: bool, repeat_if_failed: usize) -> (r: (usize, TestInstance, bool))
        requires
            old(self).wf(),
            id < old(self).num_tests(),
            old(self).in_flight_count() > 0,
            old(self).repeat_count() > 0,
            (id as nat) % old(self).repeat_count() < old(self).entry(id as int).sent@.len(),
        ensures
            final(self).wf(),
            final(self).num_tests() == old(self).num_tests(),
            final(self).group_list() == old(self).group_list(),
            final(self).repeat_count() == old(self).repeat_count(),
            forall|k: int| 0 <= k < old(self).num_tests() ==> #[trigger] final(self).entry(k) == old(self).entry(k),
            final(self).in_flight_count() == old(self).in_flight_count() - 1,
            final(self).requests_sent() == old(self).requests_sent(),
            final(self).responses_received() == old(self).responses_received() + 1,
            final(self).pending() == if !success && old(self).entry(id as int).sent@.len() <= repeat_if_failed {
                old(self).pending().push(id)
            } else {
                old(self).pending()
            },
            r.0 == old(self).entry(id as int).group,
            same_instance(r.1, old(self).entry(id as int).sent@[((id as nat) % old(self).repeat_count()) as int]),
            r.2 == final(self).done_spec(),
    {
        self.in_flight = self.in_flight - 1;
        proof {
            self.responses@ = self.responses@ + 1;
        }
        if !success && self.creators[id].sent.len() <= repeat_if_failed {
            self.indices.push_back(id);
            proof {
                assert forall|k: int| 0 <= k < self.indices@.len() implies #[trigger] self.indices@[k] < self.creators@.len() by {
                    if k < old(self).indices@.len() {
                        assert(self.indices@[k] == old(self).indices@[k]);
                    }
                }
                assert forall|k: int| 0 <= k < self.indices@.len() implies !(#[trigger] self.creators@[self.indices@[k] as int]).creator.is_g_multitest by {
                    if k < old(self).indices@.len() {
                        assert(self.indices@[k] == old(self).indices@[k]);
                    }
                }
            }
        }
        let instance = self.creators[id].sent[id % self.repeat].copy();
        let done = self.is_done();
        (self.creators[id].group, instance, done)
    }

    /// Nothing is pending and nothing is in flight.
    pub fn is_done(&self) -> (r: bool)
        ensures
            r == self.done_spec(),
    {
        self.in_flight == 0 && self.indices.len() == 0
    }

    /// The group at position `g` (without its tests).
    pub fn group(&self, g: usize) -> (r: &TestGroup)
        requires
            g < self.group_list().len(),
        ensures
            *r == self.group_list()[g as int],
    {
        &self.groups[g]
    }
}

/// No copies of anything is nothing.
pub proof fn lemma_expanded_zero(n: nat)
    ensures
        expanded(n, 0).len() == 0,
    decreases n,
{
    if n > 0 {
        lemma_expanded_zero((n - 1) as nat);
    }
}

/// A queue of `n` tests, each sent `r` times, has `n * r` runs to send.
pub proof fn law_expanded_len(n: nat, r: nat)
    ensures
        expanded(n, r).len() == n * r,
    decreases n,
{
    if n > 0 {
        law_expanded_len((n - 1) as nat, r);
        let m = (n - 1) as nat;
        let tail = Seq::new(r, |k: int| m as usize);
        assert(expanded(n, r) == expanded(m, r) + tail);
        assert(tail.len() == r);
        assert(m * r + r == n * r) by (nonlinear_arith)
            requires
                m == n - 1,
        ;
        assert(expanded(m, r).len() == m * r);
        assert(expanded(n, r).len() == expanded(m, r).len() + tail.len());
    } else {
        assert(0 * r == 0) by (nonlinear_arith);
    }
}

/// Every request the queue sent is either answered or still in flight.
pub proof fn law_requests_answered_or_in_flight(q: &TestQueue)
    requires
        q.wf(),
    ensures
        q.requests_sent() == q.responses_received() + q.in_flight_count(),
{
}

/// Every position in `expanded(n, r)` is below `n`.
pub proof fn lemma_expanded_bound(n: nat, r: nat)
    ensures
        forall|k: int| 0 <= k < expanded(n, r).len() ==> #[trigger] expanded(n, r)[k] < n,
    decreases n,
{
    if n > 0 {
        lemma_expanded_bound((n - 1) as nat, r);
        let e = expanded((n - 1) as nat, r);
        assert forall|k: int| 0 <= k < expanded(n, r).len() implies #[trigger] expanded(n, r)[k] < n by {
            if k < e.len() {
                assert(expanded(n, r)[k] == e[k]);
            }
        }
    }
}

/// What to do after a local run of a test.
#[derive(PartialEq, Eq, Structural, Clone, Copy, Debug)]
pub enum RunVerdict {
    /// The exit code is accepted: the test succeeded.
    Passed,
    /// The run failed and another attempt is allowed.
    Retry,
    /// The run failed and no attempt is left: the test failed.
    Failed,
}

/// The verdict after attempt `attempt` (counted from 0) of a test that may be
/// run `repeat_if_failed` more times after a failure.
pub open spec fn run_verdict_spec(attempt: nat, repeat_if_failed: nat, accepted: Seq<i32>, exit_code: i32) -> RunVerdict {
    if accepted.contains(exit_code) {
        RunVerdict::Passed
    } else if attempt < repeat_if_failed {
        RunVerdict::Retry
    } else {
        RunVerdict::Failed
    }
}

/// Whether `v` holds `x`.
pub fn contains_i32(v: &Vec<i32>, x: i32) -> (r: bool)
    ensures
        r == v@.contains(x),
{
    let mut i: usize = 0;
    while i < v.len()
        invariant
            i <= v.len(),
            forall|j: int| 0 <= j < i ==> v@[j] != x,
        decreases v.len() - i,
    {
        if v[i] == x {
            assert(v@[i as int] == x);
            return true;
        }
        i += 1;
    }
    false
}

/// The verdict after a local run (see `run_verdict_spec`).
pub fn run_verdict(attempt: usize, repeat_if_failed: usize, accepted: &Vec<i32>, exit_code: i32) -> (r: RunVerdict)
    ensures
        r == run_verdict_spec(attempt as nat, repeat_if_failed as nat, accepted@, exit_code),
{
    if contains_i32(accepted, exit_code) {
        RunVerdict::Passed
    } else if attempt < repeat_if_failed {
        RunVerdict::Retry
    } else {
        RunVerdict::Failed
    }
}

/// A test that never exits with an accepted code is run `repeat_if_failed + 1`
/// times: every attempt before that one is followed by a retry, and that one fails.
pub proof fn law_failing_test_runs_repeat_if_failed_plus_one(repeat_if_failed: nat, accepted: Seq<i32>, codes: Seq<i32>)
    requires
        codes.len() == repeat_if_failed + 1,
        forall|i: int| 0 <= i < codes.len() ==> !accepted.contains(#[trigger] codes[i]),
    ensures
        forall|a: int| 0 <= a < repeat_if_failed ==> run_verdict_spec(a as nat, repeat_if_failed, accepted, #[trigger] codes[a]) == RunVerdict::Retry,
        run_verdict_spec(repeat_if_failed, repeat_if_failed, accepted, codes[repeat_if_failed as int]) == RunVerdict::Failed,
{
}

/// A test whose attempt succeeds is not run again, whatever attempt it was.
pub proof fn law_accepted_run_ends_attempts(attempt: nat, repeat_if_failed: nat, accepted: Seq<i32>, code: i32)
    requires
        accepted.contains(code),
    ensures
        run_verdict_spec(attempt, repeat_if_failed, accepted, code) == RunVerdict::Passed,
{
}

/// The number of local workers: `parallel` given without a count means one per
/// CPU (`cpus`), with a count means that count, and not given means one.
pub open spec fn worker_count_spec(parallel: Option<Option<usize>>, cpus: usize) -> usize {
    match parallel {
        Some(None) => cpus,
        Some(Some(n)) => n,
        None => 1,
    }
}

/// The number of local workers for a known CPU count.
pub fn worker_count_with(parallel: Option<Option<usize>>, cpus: usize) -> (r: usize)
    ensures
        r == worker_count_spec(parallel, cpus),
{
    match parallel {
        Some(None) => cpus,
        Some(Some(n)) => n,
        None => 1,
    }
}

/// The number of CPUs of this machine (num_cpus' `get`), which its documentation
/// says is at least 1; nothing more is stated, as it depends on the machine.
#[verifier::external_body]
fn cpu_count() -> (r: usize)
    ensures
        r >= 1,
{
    num_cpus::get()
}

/// The number of local workers on this machine.
pub fn worker_count(parallel: Option<Option<usize>>) -> (r: usize)
    ensures
        parallel matches Some(Some(n)) ==> r == n,
        parallel is None ==> r == 1,
        parallel matches Some(None) ==> r >= 1,
{
    match parallel {
        Some(None) => {
            let cpus = cpu_count();
            worker_count_with(parallel, cpus)
        }
        _ => worker_count_with(parallel, 1),
    }
}

/// The overall outcome of a local run, updated as tests finish.
pub struct LocalProgress {
    pub overall_success: bool,
}

impl LocalProgress {
    /// Nothing has failed yet.
    pub fn new() -> (r: LocalProgress)
        ensures
            r.overall_success,
    {
        LocalProgress { overall_success: true }
    }

    /// Records that a test finished with `success`; returns whether to stop
    /// (a failure with `fail_fast`).
    pub fn record(&mut self, success: bool, fail_fast: bool) -> (stop: bool)
        ensures
            final(self).overall_success == (old(self).overall_success && success),
            stop == (!success && fail_fast),
    {
        self.overall_success = self.overall_success && success;
        !success && fail_fast
    }
}

pub open spec fn gtest_run_prefix() -> Seq<char> {
    "[ RUN      ]"@
}

pub open spec fn gtest_ok_prefix() -> Seq<char> {
    "[       OK ]"@
}

pub open spec fn gtest_failed_prefix() -> Seq<char> {
    "[  FAILED  ]"@
}

/// The name a RUN line announces: the line after its prefix and the space that
/// follows, without trailing whitespace.
pub open spec fn announced_test(line: Seq<char>) -> Seq<char> {
    trim_end_by(line.skip(13), whitespace_pred())
}

/// A test result read from gtest output.
pub struct GtestReport {
    pub test_id: String,
    pub exit_code: i32,
    pub output: String,
}

/// The reading of gtest output, line by line.
pub struct GtestParser {
    pub current_test: Option<String>,
    pub current_output: String,
    pub any_failed: bool,
}

/// What reading one line of gtest output yields: a result to report, and whether
/// to stop reading.
pub struct GtestStep {
    pub report: Option<GtestReport>,
    pub stop: bool,
}

/// The line can be read without failing: a RUN line is long enough to hold a
/// name after its prefix (its thirteenth character, a space, is one byte), and
/// an OK or FAILED line that is reported follows a RUN line.
pub open spec fn gtest_line_ok(p: GtestParser, line: Seq<char>, fail_fast: bool) -> bool {
    if starts_with(line, gtest_run_prefix()) {
        line.len() >= 13 && (line[12] as u32) < 128
    } else if starts_with(line, gtest_ok_prefix()) || (starts_with(line, gtest_failed_prefix()) && !fail_fast) {
        p.current_test is Some
    } else {
        true
    }
}

impl GtestParser {
    /// Nothing read yet.
    pub fn new() -> (r: GtestParser)
        ensures
            r.current_test is None,
            r.current_output@ == Seq::<char>::empty(),
            !r.any_failed,
    {
        GtestParser { current_test: None, current_output: String::new(), any_failed: false }
    }

    /// Whether `line` can be read without failing (see `gtest_line_ok`).
    pub fn accepts_line(&self, line: &str, fail_fast: bool) -> (r: bool)
        ensures
            r == gtest_line_ok(*self, line@, fail_fast),
    {
        proof { reveal_strlit("[ RUN      ]"); reveal_strlit("[       OK ]"); reveal_strlit("[  FAILED  ]"); }
        if str_starts_with(line, "[ RUN      ]") {
            let v = chars_of(line);
            v.len() >= 13 && (v[12] as u32) < 128
        } else if str_starts_with(line, "[       OK ]") || (str_starts_with(line, "[  FAILED  ]") && !fail_fast) {
            self.current_test.is_some()
        } else {
            true
        }
    }

    /// Reads one line of output (with its line ending). A RUN line starts a new
    /// test and its output; any other line is added to the output; an OK line
    /// reports the current test with exit code 0, a FAILED line with exit code 1
    /// and marks the run as failed. With `fail_fast`, a FAILED line stops the
    /// reading before it is reported.
    pub fn feed_line(&mut self, line: &str, fail_fast: bool) -> (r: GtestStep)
        requires
            gtest_line_ok(*old(self), line@, fail_fast),
        ensures
            starts_with(line@, gtest_run_prefix()) ==> {
                &&& final(self).current_test == Some::<String>(final(self).current_test->Some_0)
                &&& final(self).current_test->Some_0@ == announced_test(line@)
                &&& final(self).current_output@ == line@
                &&& final(self).any_failed == old(self).any_failed
                &&& r.report is None
                &&& !r.stop
            },
            !starts_with(line@, gtest_run_prefix()) ==> {
                let ok = starts_with(line@, gtest_ok_prefix());
                let failed = !ok && starts_with(line@, gtest_failed_prefix());
                &&& final(self).current_test == old(self).current_test
                &&& final(self).current_output@ == old(self).current_output@ + line@
                &&& final(self).any_failed == (old(self).any_failed || failed)
                &&& r.stop == (failed && fail_fast)
                &&& (r.report is Some <==> (ok || (failed && !fail_fast)))
                &&& r.report matches Some(rep) ==> {
                    &&& rep.test_id == old(self).current_test->Some_0
                    &&& rep.exit_code == (if ok { 0i32 } else { 1i32 })
                    &&& rep.output@ == final(self).current_output@
                }
            },
    {
        proof { reveal_strlit("[ RUN      ]"); reveal_strlit("[       OK ]"); reveal_strlit("[  FAILED  ]"); }
        if str_starts_with(line, "[ RUN      ]") {
            let v = chars_of(line);
            let rest = sub_chars(&v, 13, v.len());
            let (a, b) = trim_end_bounds(&rest);
            let name = sub_chars(&rest, a, b);
            self.current_test = Some(string_from_chars(&name));
            self.current_output = line.to_owned();
            return GtestStep { report: None, stop: false };
        }
        let mut out = chars_of(self.current_output.as_str());
        let lv = chars_of(line);
        extend_chars(&mut out, &lv);
        self.current_output = string_from_chars(&out);
        let mut success: Option<bool> = None;
        if str_starts_with(line, "[       OK ]") {
            success = Some(true);
        } else if str_starts_with(line, "[  FAILED  ]") {
            success = Some(false);
            self.any_failed = true;
            if fail_fast {
                return GtestStep { report: None, stop: true };
            }
        }
        match success {
            Some(ok) => {
                let test_id = match &self.current_test {
                    Some(t) => t.clone(),
                    None => String::new(),
                };
                let exit_code: i32 = if ok { 0 } else { 1 };
                GtestStep {
                    report: Some(GtestReport { test_id, exit_code, output: self.current_output.clone() }),
                    stop: false,
                }
            }
            None => GtestStep { report: None, stop: false },
        }
    }

    /// The batch run succeeded: none of its tests failed.
    pub fn succeeded(&self) -> (r: bool)
        ensures
            r == !self.any_failed,
    {
        !self.any_failed
    }
}

/// The kinds of line that the remote launcher writes.
#[derive(PartialEq, Eq, Debug)]
pub enum XgeLine {
    /// `mwt done`: the launcher has finished.
    Done,
    /// `mwt <json>`: a result, whose JSON text follows.
    Result(String),
    /// Anything else.
    Other,
}

pub open spec fn mwt_prefix() -> Seq<char> {
    "mwt "@
}

pub open spec fn mwt_done_prefix() -> Seq<char> {
    "mwt done"@
}

/// Classifies a line of the launcher's output.
pub fn classify_xge_line(line: &str) -> (r: XgeLine)
    ensures
        !starts_with(line@, mwt_prefix()) ==> r == XgeLine::Other,
        starts_with(line@, mwt_prefix()) && starts_with(line@, mwt_done_prefix()) ==> r == XgeLine::Done,
        starts_with(line@, mwt_prefix()) && !starts_with(line@, mwt_done_prefix()) ==> (r matches XgeLine::Result(j) && j@ == line@.skip(4)),
{
    proof { reveal_strlit("mwt "); }
    if str_starts_with(line, "mwt ") {
        if str_starts_with(line, "mwt done") {
            XgeLine::Done
        } else {
            let v = chars_of(line);
            let rest = sub_chars(&v, 4, v.len());
            assert(rest@ =~= line@.skip(4));
            XgeLine::Result(string_from_chars(&rest))
        }
    } else {
        XgeLine::Other
    }
}

impl TestQueue {
    /// The temporary output directory of the last run sent of test `id`, where its
    /// command makes one (the caller creates it before the run starts); `None`
    /// where the test asks for no directory or has no run sent.
    pub fn output_dir_of_last(&self, id: usize) -> (r: Option<String>)
        requires
            self.wf(),
        ensures
            (id < self.num_tests() && self.entry(id as int).sent@.len() > 0
                && self.entry(id as int).creator.command_generator.output == OutputKind::Dir)
                ==> r == self.entry(id as int).sent@.last().command.tmp_path,
            !(id < self.num_tests() && self.entry(id as int).sent@.len() > 0
                && self.entry(id as int).creator.command_generator.output == OutputKind::Dir)
                ==> r is None,
    {
        if id >= self.creators.len() {
            return None;
        }
        let e = &self.creators[id];
        if e.sent.len() == 0 || e.creator.command_generator.output != OutputKind::Dir {
            return None;
        }
        clone_opt(&e.sent[e.sent.len() - 1].command.tmp_path)
    }

    /// Whether an answer for test `id` can be recorded: `id` names a test that has
    /// been sent at least `id % repeat + 1` times, and a run is in flight.
    pub fn can_accept_response(&self, id: u64) -> (r: bool)
        requires
            self.wf(),
        ensures
            r == (id < self.num_tests() && self.in_flight_count() > 0 && self.repeat_count() > 0
                && (id as nat) % self.repeat_count() < self.entry(id as int).sent@.len()),
    {
        if id >= self.creators.len() as u64 || self.in_flight == 0 || self.repeat == 0 {
            return false;
        }
        let i = id as usize;
        i % self.repeat < self.creators[i].sent.len()
    }
}

/// The state of a remote run: the queue, whether every answered test succeeded,
/// and whether the run is over.
pub struct XgeRun {
    pub queue: TestQueue,
    pub overall_success: bool,
    pub done: bool,
}

impl XgeRun {
    /// A run of `tests`, each `repeat` times; it is over at once where nothing is
    /// to be run.
    pub fn new(tests: Vec<TestGroup>, repeat: usize) -> (r: XgeRun)
        requires
            repeat > 0 ==> forall|k: int| 0 <= k < flat_tests(tests@).len() ==> !(#[trigger] flat_tests(tests@)[k]).1.is_g_multitest,
        ensures
            r.queue.wf(),
            r.queue.pending() == expanded(flat_tests(tests@).len(), repeat as nat),
            r.queue.in_flight_count() == 0,
            r.overall_success,
            r.done == r.queue.done_spec(),
    {
        let queue = TestQueue::new(tests, repeat);
        let done = queue.is_done();
        XgeRun { queue, overall_success: true, done }
    }

    /// Handles a line of the launcher's output: `mwt done` ends the run; a result
    /// line yields its JSON text; other lines are ignored.
    pub fn on_line(&mut self, line: &str) -> (r: Option<String>)
        ensures
            final(self).queue == old(self).queue,
            final(self).overall_success == old(self).overall_success,
            classify_spec_done(line@) ==> final(self).done && r is None,
            !classify_spec_done(line@) ==> final(self).done == old(self).done,
            starts_with(line@, mwt_prefix()) && !starts_with(line@, mwt_done_prefix()) ==> (r matches Some(j) && j@ == line@.skip(4)),
            !starts_with(line@, mwt_prefix()) ==> r is None,
    {
        match classify_xge_line(line) {
            XgeLine::Done => {
                self.done = true;
                None
            }
            XgeLine::Result(j) => Some(j),
            XgeLine::Other => None,
        }
    }

    /// Records a result of the launcher: the test succeeded if it exited with 0;
    /// the queue takes the answer (see `TestQueue::return_response`); the run is
    /// over when the queue is done, or at a failure with `fail_fast`. Returns the
    /// test's group, its run, and the result to report.
    pub fn handle_result(&mut self, result: &StreamResult, repeat_if_failed: usize, fail_fast: bool) -> (r: (usize, TestInstance, TestCommandResult))
        requires
            old(self).queue.wf(),
            result.id < old(self).queue.num_tests(),
            old(self).queue.in_flight_count() > 0,
            old(self).queue.repeat_count() > 0,
            (result.id as nat) % old(self).queue.repeat_count() < old(self).queue.entry(result.id as int).sent@.len(),
        ensures
            final(self).queue.wf(),
            final(self).overall_success == (old(self).overall_success && result.exit_code == 0),
            final(self).done == (final(self).queue.done_spec() || (result.exit_code != 0 && fail_fast)),
            final(self).queue.pending() == if result.exit_code != 0 && old(self).queue.entry(result.id as int).sent@.len() <= repeat_if_failed {
                old(self).queue.pending().push(result.id as usize)
            } else {
                old(self).queue.pending()
            },
            final(self).queue.in_flight_count() == old(self).queue.in_flight_count() - 1,
            r.0 == old(self).queue.entry(result.id as int).group,
            same_instance(r.1, old(self).queue.entry(result.id as int).sent@[((result.id as nat) % old(self).queue.repeat_count()) as int]),
            r.2.exit_code == result.exit_code,
            r.2.stdout == result.stdout,
    {
        let success = result.exit_code == 0;
        self.overall_success = self.overall_success && success;
        let (group, instance, is_done) = self.queue.return_response(result.id as usize, success, repeat_if_failed);
        self.done = is_done || (!success && fail_fast);
        (group, instance, TestCommandResult { exit_code: result.exit_code, stdout: result.stdout.clone() })
    }
}

/// The line is the launcher's `mwt done`.
pub open spec fn classify_spec_done(line: Seq<char>) -> bool {
    starts_with(line, mwt_prefix()) && starts_with(line, mwt_done_prefix())
}

/// The runs of a local session before repetition: a group with a gtest generator
/// contributes that generator once (`None`), any other group each of its tests
/// (`Some(position)`), group after group.
pub open spec fn local_units(gs: Seq<TestGroup>) -> Seq<(usize, Option<usize>)>
    decreases gs.len(),
{
    if gs.len() == 0 {
        seq![]
    } else {
        let g = (gs.len() - 1) as usize;
        local_units(gs.drop_last()) + if gs.last().gtest_generator is Some {
            seq![(g, None::<usize>)]
        } else {
            Seq::new(gs.last().tests@.len(), |t: int| (g, Some(t as usize)))
        }
    }
}

/// Each unit `repeat` times in a row, in order.
pub open spec fn repeated_units(u: Seq<(usize, Option<usize>)>, repeat: nat) -> Seq<(usize, Option<usize>)>
    decreases u.len(),
{
    if u.len() == 0 {
        seq![]
    } else {
        repeated_units(u.drop_last(), repeat) + Seq::new(repeat, |k: int| u.last())
    }
}

/// A local session starts `repeat` runs of each unit: `u.len() * repeat` in all.
pub proof fn law_repeated_units_len(u: Seq<(usize, Option<usize>)>, repeat: nat)
    ensures
        repeated_units(u, repeat).len() == u.len() * repeat,
    decreases u.len(),
{
    if u.len() > 0 {
        law_repeated_units_len(u.drop_last(), repeat);
        let m = u.drop_last().len();
        assert(m * repeat + repeat == u.len() * repeat) by (nonlinear_arith)
            requires
                m == u.len() - 1,
        ;
        assert(repeated_units(u, repeat).len() == repeated_units(u.drop_last(), repeat).len() + repeat);
    } else {
        assert(0 * repeat == 0) by (nonlinear_arith);
    }
}

/// In a local session, run `k` of the schedule is of unit `k / repeat`: each unit's
/// runs come one after another.
pub proof fn law_repeated_units_in_a_row(u: Seq<(usize, Option<usize>)>, repeat: nat, k: int)
    requires
        repeat > 0,
        0 <= k < u.len() * repeat,
    ensures
        repeated_units(u, repeat)[k] == u[k / (repeat as int)],
    decreases u.len(),
{
    let m = u.drop_last().len();
    law_repeated_units_len(u.drop_last(), repeat);
    assert(u.len() > 0) by (nonlinear_arith)
        requires
            0 <= k < u.len() * repeat,
            repeat > 0,
    ;
    let base = m * repeat;
    let first = repeated_units(u.drop_last(), repeat);
    let tail = Seq::new(repeat, |j: int| u.last());
    assert(repeated_units(u, repeat) == first + tail);
    if k < base {
        law_repeated_units_in_a_row(u.drop_last(), repeat, k);
        assert(k / (repeat as int) < m) by (nonlinear_arith)
            requires
                0 <= k < m * repeat,
                repeat > 0,
        ;
        assert(repeated_units(u, repeat)[k] == first[k]);
        assert(u.drop_last()[k / (repeat as int)] == u[k / (repeat as int)]);
    } else {
        assert(k / (repeat as int) == m) by (nonlinear_arith)
            requires
                m * repeat <= k < (m + 1) * repeat,
                repeat > 0,
        ;
        assert(u.len() * repeat == (m + 1) * repeat) by (nonlinear_arith)
            requires
                m == u.len() - 1,
        ;
        assert((m + 1) * repeat == m * repeat + repeat) by (nonlinear_arith);
        assert(first.len() == base);
        assert(repeated_units(u, repeat)[k] == tail[k - base]);
        assert(u.last() == u[m as int]);
    }
}

/// The order in which a local session starts its runs: each unit of
/// `local_units`, `repeat` times in a row.
pub fn local_schedule(groups: &Vec<TestGroup>, repeat: usize) -> (r: Vec<(usize, Option<usize>)>)
    ensures
        r@ == repeated_units(local_units(groups@), repeat as nat),
{
    let mut units: Vec<(usize, Option<usize>)> = Vec::new();
    let mut g: usize = 0;
    while g < groups.len()
        invariant
            g <= groups.len(),
            units@ == local_units(groups@.take(g as int)),
        decreases groups.len() - g,
    {
        let ghost before = units@;
        assert(groups@.take(g + 1).drop_last() =~= groups@.take(g as int));
        if groups[g].gtest_generator.is_some() {
            units.push((g, None));
            assert(units@ =~= before + seq![(g, None::<usize>)]);
        } else {
            let mut t: usize = 0;
            while t < groups[g].tests.len()
                invariant
                    g < groups.len(),
                    t <= groups@[g as int].tests@.len(),
                    units@ == before + Seq::new(t as nat, |k: int| (g, Some(k as usize))),
                decreases groups@[g as int].tests@.len() - t,
            {
                units.push((g, Some(t)));
                assert(units@ =~= before + Seq::new((t + 1) as nat, |k: int| (g, Some(k as usize))));
                t += 1;
            }
        }
        g += 1;
    }
    assert(groups@.take(groups.len() as int) =~= groups@);
    let mut r: Vec<(usize, Option<usize>)> = Vec::new();
    let mut i: usize = 0;
    while i < units.len()
        invariant
            i <= units.len(),
            r@ == repeated_units(units@.take(i as int), repeat as nat),
        decreases units.len() - i,
    {
        let ghost before = r@;
        assert(units@.take(i + 1).drop_last() =~= units@.take(i as int));
        let mut k: usize = 0;
        while k < repeat
            invariant
                i < units.len(),
                k <= repeat,
                r@ == before + Seq::new(k as nat, |j: int| units@[i as int]),
            decreases repeat - k,
        {
            r.push(units[i]);
            assert(r@ =~= before + Seq::new((k + 1) as nat, |j: int| units@[i as int]));
            k += 1;
        }
        i += 1;
    }
    assert(units@.take(units.len() as int) =~= units@);
    r
}

} // verus!
