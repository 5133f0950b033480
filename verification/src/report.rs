//! What the reports say: progress lines, the count of runs of each test, the
//! closing summary, and the XML results file.
use vstd::prelude::*;
use crate::runnable::{TestCommandResult, TestInstance};
use crate::text::{chars_of, decimal, decimal_chars, extend_chars, string_from_chars, texts};

verus! {

broadcast use vstd::seq_lib::group_to_multiset_ensures;

/// Appends the characters of `s` to `v`.
pub fn push_text(v: &mut Vec<char>, s: &str)
    ensures
        final(v)@ == old(v)@ + s@,
{
    let c = chars_of(s);
    extend_chars(v, &c);
}

/// Appends the decimal digits of `n` to `v`.
pub fn push_decimal(v: &mut Vec<char>, n: u64)
    ensures
        final(v)@ == old(v)@ + decimal(n as nat),
{
    let d = decimal_chars(n);
    extend_chars(v, &d);
}

/// The progress line of a finished run: `[i/n] Ok: name --id "id"`, with
/// `Failed` for a non-zero exit code.
pub open spec fn progress_line_spec(i: u64, n: u64, name: Seq<char>, id: Seq<char>, exit_code: i32) -> Seq<char> {
    "["@ + decimal(i as nat) + "/"@ + decimal(n as nat) + "] "@ + (if exit_code == 0 { "Ok"@ } else { "Failed"@ })
        + ": "@ + name + " --id \""@ + id + "\""@
}

/// The progress line of a finished run.
pub fn progress_line(i: u64, n: u64, name: &str, id: &str, exit_code: i32) -> (r: String)
    ensures
        r@ == progress_line_spec(i, n, name@, id@, exit_code),
{
    let mut v: Vec<char> = Vec::new();
    push_text(&mut v, "[");
    push_decimal(&mut v, i);
    push_text(&mut v, "/");
    push_decimal(&mut v, n);
    push_text(&mut v, "] ");
    if exit_code == 0 {
        push_text(&mut v, "Ok");
    } else {
        push_text(&mut v, "Failed");
    }
    push_text(&mut v, ": ");
    push_text(&mut v, name);
    push_text(&mut v, " --id \"");
    push_text(&mut v, id);
    push_text(&mut v, "\"");
    assert(v@ =~= progress_line_spec(i, n, name@, id@, exit_code));
    string_from_chars(&v)
}

/// The full output of a run is shown where it failed or where output is verbose.
pub fn shows_output(exit_code: i32, verbose: bool) -> (r: bool)
    ensures
        r == (exit_code != 0 || verbose),
{
    exit_code != 0 || verbose
}

/// How often a test ran, and how often it succeeded.
pub struct RunCount {
    pub name: String,
    pub id: String,
    pub n_runs: u32,
    pub n_successes: u32,
}

/// The runs of each test (app name and id) so far.
pub struct RunCounts {
    entries: Vec<RunCount>,
}

/// The position of the count for `(name, id)`, if any.
pub open spec fn find_count(entries: Seq<RunCount>, name: Seq<char>, id: Seq<char>) -> Option<int> {
    if exists|i: int| 0 <= i < entries.len() && (#[trigger] entries[i]).name@ == name && entries[i].id@ == id {
        Some(choose|i: int| 0 <= i < entries.len() && (#[trigger] entries[i]).name@ == name && entries[i].id@ == id)
    } else {
        None
    }
}

impl RunCounts {
    /// The counts, one per test.
    pub closed spec fn counts(&self) -> Seq<RunCount> {
        self.entries@
    }

    /// The number of runs of `(name, id)`; 0 for a test not run yet.
    pub open spec fn runs_of(&self, name: Seq<char>, id: Seq<char>) -> nat {
        match find_count(self.counts(), name, id) {
            Some(i) => self.counts()[i].n_runs as nat,
            None => 0,
        }
    }

    /// The number of successful runs of `(name, id)`.
    pub open spec fn successes_of(&self, name: Seq<char>, id: Seq<char>) -> nat {
        match find_count(self.counts(), name, id) {
            Some(i) => self.counts()[i].n_successes as nat,
            None => 0,
        }
    }

    /// Each test has at most one count, every count has a run, and a test
    /// succeeds at most as often as it runs.
    pub open spec fn wf(&self) -> bool {
        &&& forall|i: int, j: int| 0 <= i < j < self.counts().len() ==> !((#[trigger] self.counts()[i]).name@ == (#[trigger] self.counts()[j]).name@
            && self.counts()[i].id@ == self.counts()[j].id@)
        &&& forall|i: int| 0 <= i < self.counts().len() ==> 1 <= (#[trigger] self.counts()[i]).n_runs
            && self.counts()[i].n_successes <= self.counts()[i].n_runs
    }

    /// No runs yet.
    pub fn new() -> (r: RunCounts)
        ensures
            r.wf(),
            r.counts().len() == 0,
    {
        RunCounts { entries: Vec::new() }
    }

    /// Counts a run of `(name, id)` that exited with `exit_code`: one run more, and
    /// one success more where the exit code is 0; no other test changes.
    pub fn add(&mut self, name: &str, id: &str, exit_code: i32)
        requires
            old(self).wf(),
            old(self).runs_of(name@, id@) < u32::MAX,
        ensures
            final(self).wf(),
            final(self).runs_of(name@, id@) == old(self).runs_of(name@, id@) + 1,
            final(self).successes_of(name@, id@) == old(self).successes_of(name@, id@) + (if exit_code == 0 { 1nat } else { 0nat }),
            forall|n: Seq<char>, i: Seq<char>| !(n == name@ && i == id@) ==> final(self).runs_of(n, i) == old(self).runs_of(n, i)
                && final(self).successes_of(n, i) == old(self).successes_of(n, i),
    {
        let name_s = name.to_owned();
        let id_s = id.to_owned();
        let ok: u32 = if exit_code == 0 { 1 } else { 0 };
        let ghost old_entries = self.entries@;
        let mut k: usize = 0;
        while k < self.entries.len()
            invariant
                k <= self.entries.len(),
                self.entries@ == old_entries,
                old_entries == old(self).counts(),
                ok == (if exit_code == 0 { 1u32 } else { 0u32 }),
                old(self).wf(),
                old(self).runs_of(name@, id@) < u32::MAX,
                name_s@ == name@,
                id_s@ == id@,
                forall|j: int| 0 <= j < k ==> !((#[trigger] self.entries@[j]).name@ == name@ && self.entries@[j].id@ == id@),
            decreases self.entries.len() - k,
        {
            if self.entries[k].name == name_s && self.entries[k].id == id_s {
                proof {
                    assert forall|j: int| 0 <= j < self.entries@.len() && (#[trigger] self.entries@[j]).name@ == name@ && self.entries@[j].id@ == id@ implies j == k by {
                        if j != k {
                            if j < k {
                            } else {
                                assert(!(self.entries@[k as int].name@ == self.entries@[j].name@ && self.entries@[k as int].id@ == self.entries@[j].id@));
                            }
                        }
                    }
                    assert(find_count(old_entries, name@, id@) == Some(k as int));
                    assert(old_entries[k as int].n_runs < u32::MAX);
                    assert(old_entries[k as int].n_successes <= old_entries[k as int].n_runs);
                }
                let e = self.entries.remove(k);
                assert(e == old_entries[k as int]);
                assert(e.n_successes <= e.n_runs && e.n_runs < u32::MAX);
                let RunCount { name: n, id: i, n_runs, n_successes } = e;
                self.entries.insert(k, RunCount { name: n, id: i, n_runs: n_runs + 1, n_successes: n_successes + ok });
                proof {
                    assert forall|j: int| 0 <= j < self.entries@.len() && j != k implies #[trigger] self.entries@[j] == old_entries[j] by {
                        if j < k {
                        } else {
                        }
                    }
                    assert(find_count(self.entries@, name@, id@) == Some(k as int)) by {
                        assert forall|j: int| 0 <= j < self.entries@.len() && (#[trigger] self.entries@[j]).name@ == name@ && self.entries@[j].id@ == id@ implies j == k by {
                            if j != k {
                                assert(self.entries@[j] == old_entries[j]);
                                assert(!(old_entries[k as int].name@ == old_entries[j].name@ && old_entries[k as int].id@ == old_entries[j].id@));
                            }
                        }
                        assert(self.entries@[k as int].name@ == name@);
                    }
                    assert forall|nn: Seq<char>, ii: Seq<char>| !(nn == name@ && ii == id@) implies self.runs_of(nn, ii) == old(self).runs_of(nn, ii)
                        && self.successes_of(nn, ii) == old(self).successes_of(nn, ii) by {
                        lemma_find_count_same(old_entries, self.entries@, k as int, nn, ii);
                    }
                    assert forall|x: int| 0 <= x < self.counts().len() implies 1 <= (#[trigger] self.counts()[x]).n_runs
                        && self.counts()[x].n_successes <= self.counts()[x].n_runs by {
                        if x != k {
                            assert(self.entries@[x] == old_entries[x]);
                        }
                    }
                    assert forall|x: int, y: int| 0 <= x < y < self.counts().len() implies !((#[trigger] self.counts()[x]).name@ == (#[trigger] self.counts()[y]).name@
                        && self.counts()[x].id@ == self.counts()[y].id@) by {
                        assert(old_entries[x].name@ == self.entries@[x].name@ && old_entries[x].id@ == self.entries@[x].id@);
                        assert(old_entries[y].name@ == self.entries@[y].name@ && old_entries[y].id@ == self.entries@[y].id@);
                    }
                }
                return;
            }
            k += 1;
        }
        proof {
            assert(find_count(old_entries, name@, id@) is None);
        }
        self.entries.push(RunCount { name: name_s, id: id_s, n_runs: 1, n_successes: ok });
        proof {
            let n = old_entries.len() as int;
            assert(find_count(self.entries@, name@, id@) == Some(n)) by {
                assert(self.entries@[n].name@ == name@);
            }
            assert forall|nn: Seq<char>, ii: Seq<char>| !(nn == name@ && ii == id@) implies self.runs_of(nn, ii) == old(self).runs_of(nn, ii)
                && self.successes_of(nn, ii) == old(self).successes_of(nn, ii) by {
                lemma_find_count_push(old_entries, self.entries@, nn, ii);
            }
        }
    }
}

impl RunCounts {
    /// The number of runs of `(name, id)` so far.
    pub fn runs(&self, name: &str, id: &str) -> (r: u32)
        requires
            self.wf(),
        ensures
            r == self.runs_of(name@, id@),
    {
        let name_s = name.to_owned();
        let id_s = id.to_owned();
        let mut k: usize = 0;
        while k < self.entries.len()
            invariant
                k <= self.entries@.len(),
                self.wf(),
                name_s@ == name@,
                id_s@ == id@,
                forall|j: int| 0 <= j < k ==> !((#[trigger] self.entries@[j]).name@ == name@ && self.entries@[j].id@ == id@),
            decreases self.entries@.len() - k,
        {
            if self.entries[k].name == name_s && self.entries[k].id == id_s {
                proof {
                    assert forall|j: int| 0 <= j < self.entries@.len() && (#[trigger] self.entries@[j]).name@ == name@ && self.entries@[j].id@ == id@ implies j == k by {
                        if j > k {
                            assert(!(self.counts()[k as int].name@ == self.counts()[j].name@ && self.counts()[k as int].id@ == self.counts()[j].id@));
                        }
                    }
                    assert(find_count(self.entries@, name@, id@) == Some(k as int));
                }
                return self.entries[k].n_runs;
            }
            k += 1;
        }
        assert(find_count(self.entries@, name@, id@) is None);
        0
    }
}

/// Replacing the count at `k` by one for the same test leaves the other tests'
/// counts where they were.
proof fn lemma_find_count_same(a: Seq<RunCount>, b: Seq<RunCount>, k: int, n: Seq<char>, i: Seq<char>)
    requires
        a.len() == b.len(),
        0 <= k < a.len(),
        b[k].name@ == a[k].name@ && b[k].id@ == a[k].id@,
        forall|j: int| 0 <= j < a.len() && j != k ==> #[trigger] b[j] == a[j],
        forall|x: int, y: int| 0 <= x < y < a.len() ==> !((#[trigger] a[x]).name@ == (#[trigger] a[y]).name@ && a[x].id@ == a[y].id@),
        !(n == a[k].name@ && i == a[k].id@),
    ensures
        find_count(a, n, i) == find_count(b, n, i),
        find_count(a, n, i) matches Some(j) ==> j != k && b[j] == a[j],
{
    if exists|j: int| 0 <= j < a.len() && (#[trigger] a[j]).name@ == n && a[j].id@ == i {
        let j = choose|j: int| 0 <= j < a.len() && (#[trigger] a[j]).name@ == n && a[j].id@ == i;
        assert(b[j] == a[j]);
        assert(exists|j: int| 0 <= j < b.len() && (#[trigger] b[j]).name@ == n && b[j].id@ == i);
        let jb = choose|j: int| 0 <= j < b.len() && (#[trigger] b[j]).name@ == n && b[j].id@ == i;
        assert(b[jb] == a[jb]);
        if jb != j {
            if jb < j {
                assert(!(a[jb].name@ == a[j].name@ && a[jb].id@ == a[j].id@));
            } else {
                assert(!(a[j].name@ == a[jb].name@ && a[j].id@ == a[jb].id@));
            }
        }
    } else {
        assert forall|j: int| 0 <= j < b.len() implies !((#[trigger] b[j]).name@ == n && b[j].id@ == i) by {
            if j != k {
                assert(b[j] == a[j]);
            }
        }
    }
}

/// Adding the count of a new test leaves the other tests' counts where they were.
proof fn lemma_find_count_push(a: Seq<RunCount>, b: Seq<RunCount>, n: Seq<char>, i: Seq<char>)
    requires
        b.len() == a.len() + 1,
        forall|j: int| 0 <= j < a.len() ==> #[trigger] b[j] == a[j],
        !(n == b.last().name@ && i == b.last().id@),
        forall|x: int, y: int| 0 <= x < y < a.len() ==> !((#[trigger] a[x]).name@ == (#[trigger] a[y]).name@ && a[x].id@ == a[y].id@),
    ensures
        find_count(a, n, i) == find_count(b, n, i),
        find_count(a, n, i) matches Some(j) ==> b[j] == a[j],
{
    if exists|j: int| 0 <= j < a.len() && (#[trigger] a[j]).name@ == n && a[j].id@ == i {
        let j = choose|j: int| 0 <= j < a.len() && (#[trigger] a[j]).name@ == n && a[j].id@ == i;
        assert(b[j] == a[j]);
        assert(exists|j: int| 0 <= j < b.len() && (#[trigger] b[j]).name@ == n && b[j].id@ == i);
        let jb = choose|j: int| 0 <= j < b.len() && (#[trigger] b[j]).name@ == n && b[j].id@ == i;
        assert(jb < a.len());
        assert(b[jb] == a[jb]);
        if jb != j {
            if jb < j {
                assert(!(a[jb].name@ == a[j].name@ && a[jb].id@ == a[j].id@));
            } else {
                assert(!(a[j].name@ == a[jb].name@ && a[j].id@ == a[jb].id@));
            }
        }
    } else {
        assert forall|j: int| 0 <= j < b.len() implies !((#[trigger] b[j]).name@ == n && b[j].id@ == i) by {
            if j < a.len() {
                assert(b[j] == a[j]);
            }
        }
    }
}

/// `a` comes before `b` in the order of strings: character by character, a
/// proper prefix first (the order of std's `String` comparison, as UTF-8 keeps
/// the order of code points).
pub open spec fn text_lt(a: Seq<char>, b: Seq<char>) -> bool
    decreases a.len(),
{
    if a.len() == 0 {
        b.len() > 0
    } else if b.len() == 0 {
        false
    } else if a[0] != b[0] {
        a[0] < b[0]
    } else {
        text_lt(a.drop_first(), b.drop_first())
    }
}

/// The order of strings is transitive.
pub proof fn law_text_lt_transitive(a: Seq<char>, b: Seq<char>, c: Seq<char>)
    requires
        text_lt(a, b),
        text_lt(b, c),
    ensures
        text_lt(a, c),
    decreases a.len(),
{
    if a.len() > 0 && b.len() > 0 && c.len() > 0 && a[0] == b[0] && b[0] == c[0] {
        law_text_lt_transitive(a.drop_first(), b.drop_first(), c.drop_first());
    }
}

/// Whether `a` comes before `b`.
pub fn text_less(a: &Vec<char>, b: &Vec<char>) -> (r: bool)
    ensures
        r == text_lt(a@, b@),
{
    let mut i: usize = 0;
    assert(a@.skip(0) =~= a@);
    assert(b@.skip(0) =~= b@);
    while i < a.len() && i < b.len()
        invariant
            i <= a.len(),
            i <= b.len(),
            forall|j: int| 0 <= j < i ==> a@[j] == b@[j],
            text_lt(a@, b@) == text_lt(a@.skip(i as int), b@.skip(i as int)),
        decreases a.len() - i,
    {
        assert(a@.skip(i as int).drop_first() =~= a@.skip(i + 1));
        assert(b@.skip(i as int).drop_first() =~= b@.skip(i + 1));
        assert(a@.skip(i as int)[0] == a@[i as int]);
        assert(b@.skip(i as int)[0] == b@[i as int]);
        if a[i] != b[i] {
            return a[i] < b[i];
        }
        i += 1;
    }
    i < b.len()
}

/// `s` is in order.
pub open spec fn texts_sorted(s: Seq<Seq<char>>) -> bool {
    forall|i: int, j: int| 0 <= i < j < s.len() ==> !text_lt(#[trigger] s[j], #[trigger] s[i])
}

/// The distinct strings of `v`, each once, in order (the order of `text_lt`).
pub fn distinct_sorted(v: Vec<String>) -> (r: Vec<String>)
    ensures
        texts_sorted(texts(r@)),
        texts(r@).no_duplicates(),
        forall|x: Seq<char>| texts(r@).contains(x) <==> texts(v@).contains(x),
{
    let ghost tv = texts(v@);
    let s = sort_strings(v);
    let ghost ts = texts(s@);
    assert(ts.to_multiset() == tv.to_multiset());
    let mut r: Vec<String> = Vec::new();
    let mut i: usize = 0;
    while i < s.len()
        invariant
            i <= s@.len(),
            ts == texts(s@),
            texts_sorted(ts),
            texts(r@).no_duplicates(),
            forall|k: int| 0 <= k < r@.len() ==> exists|j: int| 0 <= j < i && (#[trigger] r@[k])@ == ts[j],
            forall|j: int| 0 <= j < i ==> texts(r@).contains(#[trigger] ts[j]),
            forall|x: Seq<char>| texts(r@).contains(x) ==> ts.contains(x),
            texts_sorted(texts(r@)),
        decreases s@.len() - i,
    {
        let mut found = false;
        let mut k: usize = 0;
        while k < r.len()
            invariant
                k <= r@.len(),
                i < s@.len(),
                found <==> exists|m: int| 0 <= m < k && (#[trigger] r@[m])@ == s@[i as int]@,
            decreases r@.len() - k,
        {
            if r[k] == s[i] {
                found = true;
            }
            k += 1;
        }
        if !found {
            let ghost before = r@;
            let item = s[i].clone();
            r.push(item);
            proof {
                crate::config::lemma_texts_push(before, item);
                assert(texts(r@) == texts(before).push(ts[i as int]));
                assert forall|a: int, b: int| 0 <= a < texts(r@).len() && 0 <= b < texts(r@).len() && a != b
                    implies texts(r@)[a] != texts(r@)[b] by {
                    if a < before.len() && b < before.len() {
                        assert(texts(before)[a] == texts(r@)[a]);
                        assert(texts(before)[b] == texts(r@)[b]);
                    } else if a == before.len() {
                        assert(r@[b]@ == before[b]@);
                    } else {
                        assert(r@[a]@ == before[a]@);
                    }
                }
                assert forall|x: int, y: int| 0 <= x < y < texts(r@).len() implies !text_lt(#[trigger] texts(r@)[y], #[trigger] texts(r@)[x]) by {
                    if y < before.len() {
                        assert(texts(before)[x] == texts(r@)[x]);
                        assert(texts(before)[y] == texts(r@)[y]);
                    } else {
                        assert(r@[x]@ == before[x]@);
                        let j = choose|j: int| 0 <= j < i && (#[trigger] before[x])@ == ts[j];
                        assert(!text_lt(ts[i as int], ts[j]));
                    }
                }
                assert forall|k2: int| 0 <= k2 < r@.len() implies exists|j: int| 0 <= j < i + 1 && (#[trigger] r@[k2])@ == ts[j] by {
                    if k2 < before.len() {
                        assert(r@[k2] == before[k2]);
                        let j = choose|j: int| 0 <= j < i && (#[trigger] before[k2])@ == ts[j];
                        assert(r@[k2]@ == ts[j]);
                    } else {
                        assert(r@[k2]@ == ts[i as int]);
                    }
                }
                assert forall|j: int| 0 <= j < i + 1 implies texts(r@).contains(#[trigger] ts[j]) by {
                    if j < i {
                        let m = choose|m: int| 0 <= m < texts(before).len() && texts(before)[m] == ts[j];
                        assert(texts(r@)[m] == ts[j]);
                    } else {
                        assert(texts(r@)[before.len() as int] == ts[j]);
                    }
                }
                assert forall|x: Seq<char>| texts(r@).contains(x) implies ts.contains(x) by {
                    let m = choose|m: int| 0 <= m < texts(r@).len() && texts(r@)[m] == x;
                    if m < before.len() {
                        assert(texts(before)[m] == x);
                    } else {
                        assert(ts[i as int] == x);
                    }
                }
            }
        } else {
            proof {
                let m = choose|m: int| 0 <= m < r@.len() && (#[trigger] r@[m])@ == s@[i as int]@;
                assert(texts(r@)[m] == ts[i as int]);
                assert forall|k2: int| 0 <= k2 < r@.len() implies exists|j: int| 0 <= j < i + 1 && (#[trigger] r@[k2])@ == ts[j] by {
                    let j = choose|j: int| 0 <= j < i && (#[trigger] r@[k2])@ == ts[j];
                    assert(0 <= j < i + 1);
                }
            }
        }
        i += 1;
    }
    proof {
        ts.to_multiset_ensures();
        tv.to_multiset_ensures();
        assert forall|x: Seq<char>| texts(r@).contains(x) <==> tv.contains(x) by {
            if tv.contains(x) {
                assert(tv.to_multiset().count(x) > 0);
                assert(ts.to_multiset().count(x) > 0);
                assert(ts.contains(x));
                let j = choose|j: int| 0 <= j < ts.len() && ts[j] == x;
                assert(texts(r@).contains(ts[j]));
            }
            if texts(r@).contains(x) {
                assert(ts.contains(x));
                assert(ts.to_multiset().count(x) > 0);
                assert(tv.to_multiset().count(x) > 0);
            }
        }
    }
    r
}

/// The strings of `v`, in order (the order of `text_lt`).
pub fn sort_strings(v: Vec<String>) -> (r: Vec<String>)
    ensures
        texts_sorted(texts(r@)),
        texts(r@).to_multiset() == texts(v@).to_multiset(),
{
    let mut rest = v;
    let mut out: Vec<String> = Vec::new();
    let ghost orig = texts(rest@);
    while rest.len() > 0
        invariant
            texts_sorted(texts(out@)),
            forall|x: int, y: int| 0 <= x < out@.len() && 0 <= y < rest@.len() ==> !text_lt(#[trigger] rest@[y]@, #[trigger] out@[x]@),
            texts(out@).to_multiset().add(texts(rest@).to_multiset()) == orig.to_multiset(),
        decreases rest@.len(),
    {
        let mut best: usize = 0;
        let mut best_chars = chars_of(rest[0].as_str());
        let mut k: usize = 1;
        proof { lemma_text_lt_irreflexive(rest@[0]@); }
        while k < rest.len()
            invariant
                1 <= k <= rest@.len(),
                best < rest@.len(),
                best_chars@ == rest@[best as int]@,
                forall|j: int| 0 <= j < k ==> !text_lt(#[trigger] rest@[j]@, rest@[best as int]@),
            decreases rest@.len() - k,
        {
            let kc = chars_of(rest[k].as_str());
            if text_less(&kc, &best_chars) {
                proof {
                    assert forall|j: int| 0 <= j < k + 1 implies !text_lt(#[trigger] rest@[j]@, rest@[k as int]@) by {
                        if j < k && text_lt(rest@[j]@, rest@[k as int]@) {
                            law_text_lt_transitive(rest@[j]@, rest@[k as int]@, rest@[best as int]@);
                        }
                        if j == k {
                            lemma_text_lt_irreflexive(rest@[j]@);
                        }
                    }
                }
                best = k;
                best_chars = kc;
            }
            k += 1;
        }
        let ghost old_rest = rest@;
        let ghost old_out = out@;
        let chosen = rest.remove(best);
        proof {
            assert(texts(rest@) =~= texts(old_rest).remove(best as int));
            assert(texts(old_rest)[best as int] == chosen@);
        }
        out.push(chosen);
        proof {
            crate::config::lemma_texts_push(old_out, chosen);
            assert forall|x: int, y: int| 0 <= x < out@.len() && 0 <= y < rest@.len() implies !text_lt(#[trigger] rest@[y]@, #[trigger] out@[x]@) by {
                let oy = if y < best { y } else { y + 1 };
                assert(rest@[y] == old_rest[oy]);
                if x < old_out.len() {
                    assert(out@[x] == old_out[x]);
                }
            }
            assert forall|i: int, j: int| 0 <= i < j < texts(out@).len() implies !text_lt(#[trigger] texts(out@)[j], #[trigger] texts(out@)[i]) by {
                if j < old_out.len() {
                    assert(texts(out@)[j] == texts(old_out)[j]);
                    assert(texts(out@)[i] == texts(old_out)[i]);
                } else {
                    assert(out@[i] == old_out[i]);
                    assert(old_rest[best as int] == chosen);
                }
            }
            assert(texts(out@).to_multiset() == texts(old_out).to_multiset().insert(chosen@));
            assert(texts(rest@).to_multiset() == texts(old_rest).to_multiset().remove(chosen@));
            assert(texts(old_rest).to_multiset().count(chosen@) > 0) by {
                assert(texts(old_rest).contains(chosen@));
            }
            assert(texts(out@).to_multiset().add(texts(rest@).to_multiset()) =~= orig.to_multiset());
        }
    }
    proof {
        assert(texts(rest@).to_multiset() =~= vstd::multiset::Multiset::empty()) by {
            assert(texts(rest@) =~= Seq::<Seq<char>>::empty());
        }
        assert(texts(out@).to_multiset().add(vstd::multiset::Multiset::empty()) =~= texts(out@).to_multiset());
    }
    out
}

/// No string comes before itself.
pub proof fn lemma_text_lt_irreflexive(a: Seq<char>)
    ensures
        !text_lt(a, a),
    decreases a.len(),
{
    if a.len() > 0 {
        lemma_text_lt_irreflexive(a.drop_first());
    }
}

/// The summary line of a test: `  name --id "id"`, followed by
/// ` (succeeded s out of n runs)` where it ran more than once.
pub open spec fn summary_line_spec(c: RunCount) -> Seq<char> {
    if c.n_runs > 1 {
        "  "@ + c.name@ + " --id \""@ + c.id@ + "\" (succeeded "@ + decimal(c.n_successes as nat) + " out of "@
            + decimal(c.n_runs as nat) + " runs)"@
    } else {
        "  "@ + c.name@ + " --id \""@ + c.id@ + "\""@
    }
}

/// The summary line of a test.
pub fn summary_line(c: &RunCount) -> (r: String)
    ensures
        r@ == summary_line_spec(*c),
{
    let mut v: Vec<char> = Vec::new();
    push_text(&mut v, "  ");
    push_text(&mut v, c.name.as_str());
    push_text(&mut v, " --id \"");
    push_text(&mut v, c.id.as_str());
    if c.n_runs > 1 {
        push_text(&mut v, "\" (succeeded ");
        push_decimal(&mut v, c.n_successes as u64);
        push_text(&mut v, " out of ");
        push_decimal(&mut v, c.n_runs as u64);
        push_text(&mut v, " runs)");
    } else {
        push_text(&mut v, "\"");
    }
    assert(v@ =~= summary_line_spec(*c));
    string_from_chars(&v)
}

/// The summary lines of the tests that never succeeded, in the order of `cs`.
pub open spec fn failed_lines(cs: Seq<RunCount>) -> Seq<Seq<char>>
    decreases cs.len(),
{
    if cs.len() == 0 {
        seq![]
    } else if cs.last().n_successes == 0 {
        failed_lines(cs.drop_last()).push(summary_line_spec(cs.last()))
    } else {
        failed_lines(cs.drop_last())
    }
}

/// The summary lines of the tests that succeeded in some runs and failed in
/// others, in the order of `cs`.
pub open spec fn instable_lines(cs: Seq<RunCount>) -> Seq<Seq<char>>
    decreases cs.len(),
{
    if cs.len() == 0 {
        seq![]
    } else if 0 < cs.last().n_successes && cs.last().n_successes < cs.last().n_runs {
        instable_lines(cs.drop_last()).push(summary_line_spec(cs.last()))
    } else {
        instable_lines(cs.drop_last())
    }
}

/// The closing summary: the lines of instable and of failed tests, each sorted,
/// and whether every test succeeded at least once.
pub struct Summary {
    pub instable: Vec<String>,
    pub failed: Vec<String>,
    pub all_succeeded: bool,
}

impl RunCounts {
    /// The closing summary of the counts.
    pub fn summary(&self) -> (r: Summary)
        ensures
            texts_sorted(texts(r.failed@)),
            texts(r.failed@).to_multiset() == failed_lines(self.counts()).to_multiset(),
            texts_sorted(texts(r.instable@)),
            texts(r.instable@).to_multiset() == instable_lines(self.counts()).to_multiset(),
            r.all_succeeded == (failed_lines(self.counts()).len() == 0),
            r.all_succeeded == forall|i: int| 0 <= i < self.counts().len() ==> (#[trigger] self.counts()[i]).n_successes > 0,
    {
        proof { law_summary_names_every_failure(self.counts()); }
        let mut failed: Vec<String> = Vec::new();
        let mut instable: Vec<String> = Vec::new();
        let mut i: usize = 0;
        while i < self.entries.len()
            invariant
                i <= self.entries@.len(),
                texts(failed@) == failed_lines(self.entries@.take(i as int)),
                texts(instable@) == instable_lines(self.entries@.take(i as int)),
            decreases self.entries@.len() - i,
        {
            let c = &self.entries[i];
            assert(self.entries@.take(i + 1).drop_last() =~= self.entries@.take(i as int));
            assert(self.entries@.take(i + 1).last() == *c);
            if c.n_successes == 0 {
                let line = summary_line(c);
                let ghost before = failed@;
                failed.push(line);
                proof { crate::config::lemma_texts_push(before, line); }
            } else if c.n_successes < c.n_runs {
                let line = summary_line(c);
                let ghost before = instable@;
                instable.push(line);
                proof { crate::config::lemma_texts_push(before, line); }
            }
            i += 1;
        }
        assert(self.entries@.take(self.entries@.len() as int) =~= self.entries@);
        let all_succeeded = failed.len() == 0;
        let failed = sort_strings(failed);
        let instable = sort_strings(instable);
        Summary { instable, failed, all_succeeded }
    }
}

/// A character as htmlescape's minimal encoding writes it.
pub open spec fn minimal_entity(c: char) -> Seq<char> {
    if c == '"' { "&quot;"@ }
    else if c == '&' { "&amp;"@ }
    else if c == '\'' { "&#x27;"@ }
    else if c == '<' { "&lt;"@ }
    else if c == '>' { "&gt;"@ }
    else { seq![c] }
}

/// The text with every character written by `f`, in order.
pub open spec fn encode_by(s: Seq<char>, f: spec_fn(char) -> Seq<char>) -> Seq<char>
    decreases s.len(),
{
    if s.len() == 0 {
        seq![]
    } else {
        encode_by(s.drop_last(), f) + f(s.last())
    }
}

/// An upper-case hex digit for `d < 16`.
pub open spec fn hex_digit(d: nat) -> char {
    if d < 10 { (48 + d) as char } else { (55 + d) as char }
}

/// A character as htmlescape's attribute encoding writes it: the minimal entities;
/// other characters below 256 that are not ASCII letters or digits as `&#xHH;`;
/// all else as they are.
pub open spec fn attribute_entity(c: char) -> Seq<char> {
    let b = c as nat;
    if c == '"' || c == '&' || c == '\'' || c == '<' || c == '>' {
        minimal_entity(c)
    } else if b < 256 && (b > 127 || !(('a' <= c && c <= 'z') || ('A' <= c && c <= 'Z') || ('0' <= c && c <= '9'))) {
        "&#x"@ + seq![hex_digit(b / 16), hex_digit(b % 16)] + ";"@
    } else {
        seq![c]
    }
}

/// htmlescape's `encode_minimal`: each character written as `minimal_entity` does.
#[verifier::external_body]
fn escape_minimal(s: &str) -> (r: String)
    ensures
        r@ == encode_by(s@, |c: char| minimal_entity(c)),
{
    htmlescape::encode_minimal(s)
}

/// htmlescape's `encode_attribute`: each character written as `attribute_entity`
/// does.
#[verifier::external_body]
fn escape_attribute(s: &str) -> (r: String)
    ensures
        r@ == encode_by(s@, |c: char| attribute_entity(c)),
{
    htmlescape::encode_attribute(s)
}

/// The start of the XML results file, naming the testcases directory.
pub open spec fn xml_head_spec(testcases_root: Seq<char>) -> Seq<char> {
    "<?xml version=\"1.0\" encoding=\"UTF-8\"?><mwtest>"@ + "<config><reference_root>"@ + testcases_root
        + "</reference_root></config>"@ + "<testsuites>"@
}

/// The start of the XML results file.
pub fn xml_head(testcases_root: &str) -> (r: String)
    ensures
        r@ == xml_head_spec(testcases_root@),
{
    let mut v: Vec<char> = Vec::new();
    push_text(&mut v, "<?xml version=\"1.0\" encoding=\"UTF-8\"?><mwtest>");
    push_text(&mut v, "<config><reference_root>");
    push_text(&mut v, testcases_root);
    push_text(&mut v, "</reference_root></config>");
    push_text(&mut v, "<testsuites>");
    assert(v@ =~= xml_head_spec(testcases_root@));
    string_from_chars(&v)
}

/// The start of the test suite of an app with `n` results.
pub open spec fn xml_suite_head_spec(name: Seq<char>, n: u64) -> Seq<char> {
    "<testsuite name=\""@ + name + "\" test=\""@ + decimal(n as nat) + "\">"@
}

/// The start of the test suite of an app.
pub fn xml_suite_head(name: &str, n: u64) -> (r: String)
    ensures
        r@ == xml_suite_head_spec(name@, n),
{
    let mut v: Vec<char> = Vec::new();
    push_text(&mut v, "<testsuite name=\"");
    push_text(&mut v, name);
    push_text(&mut v, "\" test=\"");
    push_decimal(&mut v, n);
    push_text(&mut v, "\">");
    assert(v@ =~= xml_suite_head_spec(name@, n));
    string_from_chars(&v)
}

/// An artifact of a test case: the reference it is compared with and where it was
/// put, both relative paths, attribute-encoded.
pub open spec fn xml_artifact_spec(reference: Seq<char>, location: Seq<char>) -> Seq<char> {
    "<artifact reference=\""@ + encode_by(reference, |c: char| attribute_entity(c)) + "\" location=\""@
        + encode_by(location, |c: char| attribute_entity(c)) + "\" />"@
}

/// The artifacts of a test case, in order.
pub open spec fn xml_artifacts_spec(artifacts: Seq<(String, String)>) -> Seq<char>
    decreases artifacts.len(),
{
    if artifacts.len() == 0 {
        seq![]
    } else {
        xml_artifacts_spec(artifacts.drop_last()) + xml_artifact_spec(artifacts.last().0@, artifacts.last().1@)
    }
}

/// A test case of the results file: its id (attribute-encoded), its exit code, a
/// failure mark for a non-zero exit code, its output (minimally encoded), and its
/// artifacts.
pub open spec fn xml_testcase_spec(id: Seq<char>, exit_code: i32, stdout: Seq<char>, artifacts: Seq<(String, String)>) -> Seq<char> {
    "<testcase name=\""@ + encode_by(id, |c: char| attribute_entity(c)) + "\">"@
        + "<exit_code>"@ + crate::text::decimal_int(exit_code as int) + "</exit_code>"@
        + (if exit_code != 0 { "<failure />"@ } else { seq![] })
        + "<system_out>"@ + encode_by(stdout, |c: char| minimal_entity(c)) + "</system_out>"@
        + xml_artifacts_spec(artifacts) + "</testcase>"@
}

/// A test case of the results file.
pub fn xml_testcase(id: &str, exit_code: i32, stdout: &str, artifacts: &Vec<(String, String)>) -> (r: String)
    ensures
        r@ == xml_testcase_spec(id@, exit_code, stdout@, artifacts@),
{
    let mut v: Vec<char> = Vec::new();
    push_text(&mut v, "<testcase name=\"");
    let eid = escape_attribute(id);
    push_text(&mut v, eid.as_str());
    push_text(&mut v, "\">");
    push_text(&mut v, "<exit_code>");
    let code = crate::text::int_to_chars(exit_code as i64);
    extend_chars(&mut v, &code);
    push_text(&mut v, "</exit_code>");
    let ghost before_failure = v@;
    if exit_code != 0 {
        push_text(&mut v, "<failure />");
    }
    assert(v@ =~= before_failure + (if exit_code != 0 { "<failure />"@ } else { seq![] }));
    push_text(&mut v, "<system_out>");
    let eout = escape_minimal(stdout);
    push_text(&mut v, eout.as_str());
    push_text(&mut v, "</system_out>");
    let ghost before_artifacts = v@;
    let mut i: usize = 0;
    while i < artifacts.len()
        invariant
            i <= artifacts@.len(),
            v@ == before_artifacts + xml_artifacts_spec(artifacts@.take(i as int)),
        decreases artifacts@.len() - i,
    {
        assert(artifacts@.take(i + 1).drop_last() =~= artifacts@.take(i as int));
        let ghost b = v@;
        push_text(&mut v, "<artifact reference=\"");
        let r1 = escape_attribute(artifacts[i].0.as_str());
        push_text(&mut v, r1.as_str());
        push_text(&mut v, "\" location=\"");
        let r2 = escape_attribute(artifacts[i].1.as_str());
        push_text(&mut v, r2.as_str());
        push_text(&mut v, "\" />");
        assert(v@ =~= b + xml_artifact_spec(artifacts@[i as int].0@, artifacts@[i as int].1@));
        i += 1;
    }
    assert(artifacts@.take(artifacts@.len() as int) =~= artifacts@);
    push_text(&mut v, "</testcase>");
    assert(v@ =~= xml_testcase_spec(id@, exit_code, stdout@, artifacts@));
    string_from_chars(&v)
}


/// The folder under the artifacts directory that takes a run's output: "success"
/// for an exit code of 0, "different" otherwise.
pub fn artifact_subdir(exit_code: i32) -> (r: String)
    ensures
        r@ == (if exit_code == 0 { "success"@ } else { "different"@ }),
{
    if exit_code == 0 { "success".to_string() } else { "different".to_string() }
}

/// The results of one app, in the order they were added.
pub struct Suite {
    pub name: String,
    pub cases: Vec<(TestInstance, TestCommandResult)>,
}

/// The position of the suite of app `name`, if any.
pub open spec fn suite_index(suites: Seq<Suite>, name: Seq<char>) -> Option<int> {
    if exists|i: int| 0 <= i < suites.len() && (#[trigger] suites[i]).name@ == name {
        Some(choose|i: int| 0 <= i < suites.len() && (#[trigger] suites[i]).name@ == name)
    } else {
        None
    }
}

/// The results of app `name` in `suites`; none where it has no suite.
pub open spec fn cases_in(suites: Seq<Suite>, name: Seq<char>) -> Seq<(TestInstance, TestCommandResult)> {
    match suite_index(suites, name) {
        Some(k) => suites[k].cases@,
        None => seq![],
    }
}

/// No two suites are of the same app.
pub open spec fn suites_distinct(suites: Seq<Suite>) -> bool {
    forall|i: int, j: int| 0 <= i < j < suites.len() ==> (#[trigger] suites[i]).name@ != (#[trigger] suites[j]).name@
}

/// Where a name has a suite, it is the one at the found position.
proof fn lemma_suite_index_unique(suites: Seq<Suite>, name: Seq<char>, k: int)
    requires
        suites_distinct(suites),
        0 <= k < suites.len(),
        suites[k].name@ == name,
    ensures
        suite_index(suites, name) == Some(k),
{
    let j = choose|i: int| 0 <= i < suites.len() && (#[trigger] suites[i]).name@ == name;
    if j != k {
        if j < k {
            assert(suites[j].name@ != suites[k].name@);
        } else {
            assert(suites[k].name@ != suites[j].name@);
        }
    }
}

/// A copy of a result.
fn copy_result(r: &TestCommandResult) -> (c: TestCommandResult)
    ensures
        c == *r,
{
    TestCommandResult { exit_code: r.exit_code, stdout: r.stdout.clone() }
}

/// Adds `case` to the suite of app `name`, opening that suite where there is none;
/// the other apps' results stay as they were.
fn add_case(suites: &mut Vec<Suite>, name: &str, case: (TestInstance, TestCommandResult))
    requires
        suites_distinct(old(suites)@),
    ensures
        suites_distinct(final(suites)@),
        cases_in(final(suites)@, name@) == cases_in(old(suites)@, name@).push(case),
        forall|n: Seq<char>| n != name@ ==> cases_in(final(suites)@, n) == cases_in(old(suites)@, n),
{
    let ghost old_s = suites@;
    let mut k: usize = 0;
    while k < suites.len()
        invariant
            k <= suites.len(),
            suites@ == old_s,
            old(suites)@ == old_s,
            suites_distinct(old_s),
            forall|j: int| 0 <= j < k ==> (#[trigger] suites@[j]).name@ != name@,
        decreases suites.len() - k,
    {
        if str_equal(suites[k].name.as_str(), name) {
            proof { lemma_suite_index_unique(old_s, name@, k as int); }
            let mut suite = suites.remove(k);
            assert(suite == old_s[k as int]);
            let ghost old_cases = suite.cases@;
            suite.cases.push(case);
            suites.insert(k, suite);
            proof {
                assert forall|j: int| 0 <= j < suites@.len() && j != k implies #[trigger] suites@[j] == old_s[j] by {}
                assert forall|i: int, j: int| 0 <= i < j < suites@.len() implies (#[trigger] suites@[i]).name@ != (#[trigger] suites@[j]).name@ by {
                    assert(suites@[i].name@ == old_s[i].name@);
                    assert(suites@[j].name@ == old_s[j].name@);
                }
                lemma_suite_index_unique(suites@, name@, k as int);
                assert(cases_in(suites@, name@) =~= old_cases.push(case));
                assert forall|n: Seq<char>| n != name@ implies cases_in(suites@, n) == cases_in(old_s, n) by {
                    if exists|i: int| 0 <= i < old_s.len() && (#[trigger] old_s[i]).name@ == n {
                        let i = choose|i: int| 0 <= i < old_s.len() && (#[trigger] old_s[i]).name@ == n;
                        lemma_suite_index_unique(old_s, n, i);
                        assert(i != k);
                        assert(suites@[i] == old_s[i]);
                        lemma_suite_index_unique(suites@, n, i);
                    } else {
                        assert forall|i: int| 0 <= i < suites@.len() implies (#[trigger] suites@[i]).name@ != n by {
                            if i != k {
                                assert(suites@[i] == old_s[i]);
                            }
                        }
                    }
                }
            }
            return;
        }
        k += 1;
    }
    assert(suite_index(old_s, name@) is None);
    let mut cases: Vec<(TestInstance, TestCommandResult)> = Vec::new();
    cases.push(case);
    suites.push(Suite { name: name.to_string(), cases });
    proof {
        let n0 = old_s.len() as int;
        assert(suites_distinct(suites@)) by {
            assert forall|i: int, j: int| 0 <= i < j < suites@.len() implies (#[trigger] suites@[i]).name@ != (#[trigger] suites@[j]).name@ by {
                if j == n0 {
                    assert(suites@[i] == old_s[i]);
                } else {
                    assert(suites@[i] == old_s[i] && suites@[j] == old_s[j]);
                }
            }
        }
        lemma_suite_index_unique(suites@, name@, n0);
        assert(cases_in(suites@, name@) =~= seq![case]);
        assert forall|n: Seq<char>| n != name@ implies cases_in(suites@, n) == cases_in(old_s, n) by {
            if exists|i: int| 0 <= i < old_s.len() && (#[trigger] old_s[i]).name@ == n {
                let i = choose|i: int| 0 <= i < old_s.len() && (#[trigger] old_s[i]).name@ == n;
                lemma_suite_index_unique(old_s, n, i);
                assert(suites@[i] == old_s[i]);
                lemma_suite_index_unique(suites@, n, i);
            } else {
                assert forall|i: int| 0 <= i < suites@.len() implies (#[trigger] suites@[i]).name@ != n by {
                    if i < n0 {
                        assert(suites@[i] == old_s[i]);
                    }
                }
            }
        }
    }
}

/// Whether two texts are equal.
fn str_equal(a: &str, b: &str) -> (r: bool)
    ensures
        r == (a@ == b@),
{
    let av = chars_of(a);
    let bv = chars_of(b);
    if av.len() != bv.len() {
        return false;
    }
    let mut i: usize = 0;
    while i < av.len()
        invariant
            i <= av.len(),
            av@.len() == bv@.len(),
            av@ == a@,
            bv@ == b@,
            forall|j: int| 0 <= j < i ==> av@[j] == bv@[j],
        decreases av.len() - i,
    {
        if av[i] != bv[i] {
            return false;
        }
        i += 1;
    }
    assert(av@ =~= bv@);
    true
}

/// What a test run reports: a progress line per finished run, the count of runs
/// of each test for the closing summary, and the results of each app for the
/// XML results file.
pub struct Report {
    verbose: bool,
    artifacts_root: String,
    testcases_root: String,
    counts: RunCounts,
    suites: Vec<Suite>,
}

impl Report {
    /// The runs counted so far.
    pub closed spec fn run_counts(&self) -> RunCounts {
        self.counts
    }

    /// The suites of results so far.
    pub closed spec fn suites(&self) -> Seq<Suite> {
        self.suites@
    }

    /// Whether the output of every run is shown.
    pub closed spec fn is_verbose(&self) -> bool {
        self.verbose
    }

    /// Where the artifacts of the runs go.
    pub closed spec fn artifacts_root(&self) -> Seq<char> {
        self.artifacts_root@
    }

    /// Where the reference test cases lie.
    pub closed spec fn testcases_root(&self) -> Seq<char> {
        self.testcases_root@
    }

    /// The results of app `name` so far, in the order they were added.
    pub open spec fn results_of(&self, name: Seq<char>) -> Seq<(TestInstance, TestCommandResult)> {
        cases_in(self.suites(), name)
    }

    /// The counts are well formed and no app has two suites.
    pub open spec fn wf(&self) -> bool {
        &&& self.run_counts().wf()
        &&& suites_distinct(self.suites())
    }

    /// An empty report.
    pub fn new(artifacts_root: &str, testcases_root: &str, verbose: bool) -> (r: Report)
        ensures
            r.wf(),
            r.run_counts().counts().len() == 0,
            r.suites().len() == 0,
            r.is_verbose() == verbose,
            r.artifacts_root() == artifacts_root@,
            r.testcases_root() == testcases_root@,
    {
        Report {
            verbose,
            artifacts_root: artifacts_root.to_string(),
            testcases_root: testcases_root.to_string(),
            counts: RunCounts::new(),
            suites: Vec::new(),
        }
    }

    /// Adds the `i`-th of `n` results, the one of `test_instance` of app
    /// `app_name`. Returns its progress line and whether its full output is to
    /// be shown. The run is counted for the test (app and id), and the result
    /// joins the app's results; nothing else changes.
    pub fn add(&mut self, i: u64, n: u64, app_name: &str, test_instance: TestInstance, test_result: &TestCommandResult) -> (r: (String, bool))
        requires
            old(self).wf(),
            old(self).run_counts().runs_of(app_name@, test_instance.test_id.id@) < u32::MAX,
        ensures
            final(self).wf(),
            r.0@ == progress_line_spec(i, n, app_name@, test_instance.test_id.id@, test_result.exit_code),
            r.1 == (test_result.exit_code != 0 || old(self).is_verbose()),
            final(self).run_counts().runs_of(app_name@, test_instance.test_id.id@)
                == old(self).run_counts().runs_of(app_name@, test_instance.test_id.id@) + 1,
            final(self).run_counts().successes_of(app_name@, test_instance.test_id.id@)
                == old(self).run_counts().successes_of(app_name@, test_instance.test_id.id@)
                + (if test_result.exit_code == 0 { 1nat } else { 0nat }),
            forall|a: Seq<char>, t: Seq<char>| !(a == app_name@ && t == test_instance.test_id.id@) ==>
                final(self).run_counts().runs_of(a, t) == old(self).run_counts().runs_of(a, t)
                && final(self).run_counts().successes_of(a, t) == old(self).run_counts().successes_of(a, t),
            final(self).results_of(app_name@) == old(self).results_of(app_name@).push((test_instance, *test_result)),
            forall|a: Seq<char>| a != app_name@ ==> final(self).results_of(a) == old(self).results_of(a),
            final(self).is_verbose() == old(self).is_verbose(),
            final(self).artifacts_root() == old(self).artifacts_root(),
            final(self).testcases_root() == old(self).testcases_root(),
    {
        let line = progress_line(i, n, app_name, test_instance.test_id.id.as_str(), test_result.exit_code);
        let show = shows_output(test_result.exit_code, self.verbose);
        self.counts.add(app_name, test_instance.test_id.id.as_str(), test_result.exit_code);
        let result = copy_result(test_result);
        add_case(&mut self.suites, app_name, (test_instance, result));
        (line, show)
    }

    /// The number of runs of the test `id` of app `app_name` so far.
    pub fn runs_of_test(&self, app_name: &str, id: &str) -> (r: u32)
        requires
            self.wf(),
        ensures
            r == self.run_counts().runs_of(app_name@, id@),
    {
        self.counts.runs(app_name, id)
    }

    /// The closing summary of the runs counted.
    pub fn summary(&self) -> (r: Summary)
        ensures
            texts_sorted(texts(r.failed@)),
            texts(r.failed@).to_multiset() == failed_lines(self.run_counts().counts()).to_multiset(),
            texts_sorted(texts(r.instable@)),
            texts(r.instable@).to_multiset() == instable_lines(self.run_counts().counts()).to_multiset(),
            r.all_succeeded == (failed_lines(self.run_counts().counts()).len() == 0),
            r.all_succeeded == forall|i: int| 0 <= i < self.run_counts().counts().len()
                ==> (#[trigger] self.run_counts().counts()[i]).n_successes > 0,
    {
        self.counts.summary()
    }

    /// The suites of results, one per app, in the order the apps first reported.
    pub fn suite_list(&self) -> (r: &Vec<Suite>)
        ensures
            r@ == self.suites(),
    {
        &self.suites
    }

    /// Whether the output of every run is shown.
    pub fn verbose(&self) -> (r: bool)
        ensures
            r == self.is_verbose(),
    {
        self.verbose
    }

    /// Where the artifacts of the runs go.
    pub fn artifacts_dir(&self) -> (r: &String)
        ensures
            r@ == self.artifacts_root(),
    {
        &self.artifacts_root
    }

    /// Where the reference test cases lie.
    pub fn testcases_dir(&self) -> (r: &String)
        ensures
            r@ == self.testcases_root(),
    {
        &self.testcases_root
    }
}


/// The summary names every test that never succeeded, whatever its number of
/// runs, as failed, and every test that succeeded in some runs but not all as
/// instable; no failed line is there unless a test never succeeded, so the run
/// counts as all succeeded exactly when every test succeeded at least once.
pub proof fn law_summary_names_every_failure(cs: Seq<RunCount>)
    ensures
        (failed_lines(cs).len() == 0) <==> (forall|i: int| 0 <= i < cs.len() ==> (#[trigger] cs[i]).n_successes > 0),
        forall|i: int| 0 <= i < cs.len() && (#[trigger] cs[i]).n_successes == 0
            ==> failed_lines(cs).contains(summary_line_spec(cs[i])),
        forall|i: int| 0 <= i < cs.len() && 0 < (#[trigger] cs[i]).n_successes && cs[i].n_successes < cs[i].n_runs
            ==> instable_lines(cs).contains(summary_line_spec(cs[i])),
        forall|l: Seq<char>| failed_lines(cs).contains(l) ==> exists|i: int| 0 <= i < cs.len()
            && (#[trigger] cs[i]).n_successes == 0 && l == summary_line_spec(cs[i]),
    decreases cs.len(),
{
    if cs.len() > 0 {
        let d = cs.drop_last();
        law_summary_names_every_failure(d);
        let last = cs.len() - 1;
        assert forall|i: int| 0 <= i < cs.len() && (#[trigger] cs[i]).n_successes == 0
            implies failed_lines(cs).contains(summary_line_spec(cs[i])) by {
            if i < last {
                assert(d[i] == cs[i]);
                let k = choose|k: int| 0 <= k < failed_lines(d).len() && failed_lines(d)[k] == summary_line_spec(d[i]);
                assert(failed_lines(cs)[k] == summary_line_spec(cs[i]));
            } else {
                assert(failed_lines(cs)[failed_lines(cs).len() - 1] == summary_line_spec(cs[i]));
            }
        }
        assert forall|i: int| 0 <= i < cs.len() && 0 < (#[trigger] cs[i]).n_successes && cs[i].n_successes < cs[i].n_runs
            implies instable_lines(cs).contains(summary_line_spec(cs[i])) by {
            if i < last {
                assert(d[i] == cs[i]);
                let k = choose|k: int| 0 <= k < instable_lines(d).len() && instable_lines(d)[k] == summary_line_spec(d[i]);
                assert(instable_lines(cs)[k] == summary_line_spec(cs[i]));
            } else {
                assert(instable_lines(cs)[instable_lines(cs).len() - 1] == summary_line_spec(cs[i]));
            }
        }
        assert forall|l: Seq<char>| failed_lines(cs).contains(l) implies exists|i: int| 0 <= i < cs.len()
            && (#[trigger] cs[i]).n_successes == 0 && l == summary_line_spec(cs[i]) by {
            let k = choose|k: int| 0 <= k < failed_lines(cs).len() && failed_lines(cs)[k] == l;
            if k < failed_lines(d).len() {
                assert(failed_lines(d)[k] == l);
                assert(failed_lines(d).contains(l));
                let i = choose|i: int| 0 <= i < d.len() && (#[trigger] d[i]).n_successes == 0 && l == summary_line_spec(d[i]);
                assert(cs[i] == d[i]);
            } else {
                assert(cs[last].n_successes == 0 && l == summary_line_spec(cs[last]));
            }
        }
        if forall|i: int| 0 <= i < cs.len() ==> (#[trigger] cs[i]).n_successes > 0 {
            assert forall|i: int| 0 <= i < d.len() implies (#[trigger] d[i]).n_successes > 0 by {
                assert(d[i] == cs[i]);
            }
            assert(cs[last].n_successes > 0);
        }
        if failed_lines(cs).len() == 0 {
            assert forall|i: int| 0 <= i < cs.len() implies (#[trigger] cs[i]).n_successes > 0 by {
                if cs[i].n_successes == 0 {
                    let k = choose|k: int| 0 <= k < failed_lines(cs).len() && failed_lines(cs)[k] == summary_line_spec(cs[i]);
                }
            }
        }
    }
}

} // verus!
