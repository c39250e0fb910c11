//! The periodic job scheduler's bookkeeping: a registry of jobs, each
//! with an interval and the time it last ran. The surrounding runtime
//! drives the loop: on every tick it hands the current time to
//! `collect_ready_jobs` and spawns the jobs whose indices come back; when
//! a spawned run finishes, it reports back through `job_finished`.
//!
//! Due-ness is computed purely from `last_executed + interval <= now`; a
//! job whose previous run is still going when it next falls due is
//! collected again — the running flag is kept but deliberately not
//! consulted before collecting, preserving the scheduler's may-overlap
//! behaviour.

use vstd::prelude::*;

verus! {

/// One registered job: its name, its interval in seconds, when it last
/// ran (unix seconds; `i64::MIN` right after registration, so that it is
/// eligible on the first tick), and whether a run is in flight.
#[derive(Debug)]
pub struct JobEntry {
    pub name: String,
    pub interval: i64,
    pub last_executed: i64,
    pub is_running: bool,
}

/// Ghost model of a job entry.
pub struct JobEntryV {
    pub name: Seq<char>,
    pub interval: int,
    pub last_executed: int,
    pub is_running: bool,
}

impl View for JobEntry {
    type V = JobEntryV;

    open spec fn view(&self) -> JobEntryV {
        JobEntryV {
            name: self.name@,
            interval: self.interval as int,
            last_executed: self.last_executed as int,
            is_running: self.is_running,
        }
    }
}

impl DeepView for JobEntry {
    type V = JobEntryV;

    open spec fn deep_view(&self) -> JobEntryV {
        self.view()
    }
}

/// The scheduler: its job registry and whether the loop is running.
#[derive(Debug)]
pub struct JobScheduler {
    pub jobs: Vec<JobEntry>,
    pub running: bool,
}

/// A job is due when its interval has elapsed since its last run.
pub open spec fn due(e: JobEntryV, now: int) -> bool {
    e.last_executed + e.interval <= now
}

/// How one tick leaves an entry: a due entry has its last run time set to
/// the tick's time and is marked running; any other entry is untouched.
pub open spec fn tick_entry(e: JobEntryV, now: int) -> JobEntryV {
    if due(e, now) {
        JobEntryV { name: e.name, interval: e.interval, last_executed: now, is_running: true }
    } else {
        e
    }
}

/// The registry without the entries registered under `name`, in order.
pub open spec fn without_name(jobs: Seq<JobEntryV>, name: Seq<char>) -> Seq<JobEntryV>
    decreases jobs.len(),
{
    if jobs.len() == 0 {
        Seq::empty()
    } else {
        let rest = without_name(jobs.drop_last(), name);
        if jobs.last().name != name {
            rest.push(jobs.last())
        } else {
            rest
        }
    }
}

impl JobScheduler {
    /// A scheduler with no jobs, not yet started.
    pub fn new() -> (r: JobScheduler)
        ensures
            r.jobs.deep_view() == Seq::<JobEntryV>::empty(),
            !r.running,
    {
        let r = JobScheduler { jobs: Vec::new(), running: false };
        assert(r.jobs.deep_view() =~= Seq::<JobEntryV>::empty());
        r
    }

    /// Register a job. Its last run time starts at the minimum
    /// representable time, so it runs on the first tick after
    /// registration.
    pub fn add_job(&mut self, name: String, interval: i64)
        requires
            0 <= interval,
        ensures
            final(self).jobs.deep_view() == old(self).jobs.deep_view().push(
                JobEntryV {
                    name: name@,
                    interval: interval as int,
                    last_executed: i64::MIN as int,
                    is_running: false,
                },
            ),
            final(self).running == old(self).running,
    {
        let ghost before = self.jobs.deep_view();
        let ghost namev = name@;
        self.jobs.push(
            JobEntry { name, interval, last_executed: i64::MIN, is_running: false },
        );
        assert(self.jobs.deep_view() =~= before.push(
            JobEntryV {
                name: namev,
                interval: interval as int,
                last_executed: i64::MIN as int,
                is_running: false,
            },
        ));
    }

    /// Cancel and drop every job registered under the name; registering
    /// none of them is a no-op.
    pub fn remove_job(&mut self, name: &String)
        ensures
            final(self).jobs.deep_view() == without_name(old(self).jobs.deep_view(), name@),
            final(self).running == old(self).running,
    {
        let ghost before = self.jobs.deep_view();
        let mut kept: Vec<JobEntry> = Vec::new();
        assert(kept.deep_view() =~= Seq::<JobEntryV>::empty());
        assert(before.take(0) =~= Seq::<JobEntryV>::empty());
        let mut k: usize = 0;
        while k < self.jobs.len()
            invariant
                0 <= k <= self.jobs.len(),
                before == self.jobs.deep_view(),
                kept.deep_view() == without_name(before.take(k as int), name@),
            decreases self.jobs.len() - k,
        {
            let e = &self.jobs[k];
            assert(before[k as int] == e@);
            let ghost kept_before = kept.deep_view();
            if e.name != *name {
                kept.push(
                    JobEntry {
                        name: e.name.clone(),
                        interval: e.interval,
                        last_executed: e.last_executed,
                        is_running: e.is_running,
                    },
                );
                assert(kept.deep_view() =~= kept_before.push(e@));
            }
            proof {
                assert(before.take(k + 1).drop_last() =~= before.take(k as int));
                assert(before.take(k + 1).last() == before[k as int]);
            }
            k += 1;
        }
        assert(before.take(self.jobs.len() as int) =~= before);
        self.jobs = kept;
    }

    /// Start the loop; starting an already started scheduler changes
    /// nothing.
    pub fn start_scheduler(&mut self)
        ensures
            final(self).running,
            final(self).jobs.deep_view() == old(self).jobs.deep_view(),
    {
        if !self.running {
            self.running = true;
        }
    }

    /// Stop the loop, cancelling in-flight runs; stopping an inactive
    /// scheduler changes nothing.
    pub fn stop_scheduler(&mut self)
        ensures
            !final(self).running,
            final(self).jobs.deep_view() == old(self).jobs.deep_view(),
    {
        if self.running {
            self.running = false;
        }
    }

    /// One tick of the loop at time `now`: every due entry has its last
    /// run time set to `now` and is marked running, and its index is
    /// collected, in registry order; other entries are untouched. The
    /// runtime spawns the collected jobs as independent tasks.
    pub fn collect_ready_jobs(&mut self, now: i64) -> (ready: Vec<usize>)
        requires
            forall|i: int|
                0 <= i < old(self).jobs.deep_view().len() ==> 0 <= (#[trigger] old(
                    self,
                ).jobs.deep_view()[i]).interval,
        ensures
            final(self).jobs.deep_view().len() == old(self).jobs.deep_view().len(),
            forall|i: int|
                0 <= i < old(self).jobs.deep_view().len() ==> final(self).jobs.deep_view()[i]
                    == tick_entry(#[trigger] old(self).jobs.deep_view()[i], now as int),
            forall|k: int|
                0 <= k < ready.deep_view().len() ==> due(
                    old(self).jobs.deep_view()[#[trigger] ready.deep_view()[k] as int],
                    now as int,
                ) && 0 <= ready.deep_view()[k] < old(self).jobs.deep_view().len(),
            forall|i: int|
                0 <= i < old(self).jobs.deep_view().len() && due(
                    #[trigger] old(self).jobs.deep_view()[i],
                    now as int,
                ) ==> ready.deep_view().contains(i as usize),
            forall|a: int, b: int|
                0 <= a < b < ready.deep_view().len() ==> ready.deep_view()[a]
                    < ready.deep_view()[b],
            final(self).running == old(self).running,
    {
        let ghost before = self.jobs.deep_view();
        let mut ready: Vec<usize> = Vec::new();
        let mut k: usize = 0;
        while k < self.jobs.len()
            invariant
                0 <= k <= self.jobs.len(),
                self.jobs.deep_view().len() == before.len(),
                self.running == old(self).running,
                forall|i: int|
                    0 <= i < k ==> self.jobs.deep_view()[i] == tick_entry(
                        #[trigger] before[i],
                        now as int,
                    ),
                forall|i: int| k <= i < before.len() ==> #[trigger] self.jobs.deep_view()[i]
                    == before[i],
                forall|i: int| 0 <= i < before.len() ==> 0 <= (#[trigger] before[i]).interval,
                forall|m: int|
                    0 <= m < ready.deep_view().len() ==> due(
                        before[#[trigger] ready.deep_view()[m] as int],
                        now as int,
                    ) && 0 <= ready.deep_view()[m] < k,
                forall|i: int|
                    0 <= i < k && due(#[trigger] before[i], now as int) ==> ready.deep_view()
                        .contains(i as usize),
                forall|a: int, b: int|
                    0 <= a < b < ready.deep_view().len() ==> ready.deep_view()[a]
                        < ready.deep_view()[b],
            decreases self.jobs.len() - k,
        {
            assert(self.jobs.deep_view()[k as int] == before[k as int]);
            assert(self.jobs.deep_view()[k as int] == self.jobs@[k as int]@);
            let last = self.jobs[k].last_executed;
            let interval = self.jobs[k].interval;
            assert(before[k as int].last_executed == last as int);
            assert(before[k as int].interval == interval as int);
            let is_due = match last.checked_add(interval) {
                Some(next_due) => next_due <= now,
                None => false,
            };
            assert(is_due == due(before[k as int], now as int));
            let ghost ready_at_start = ready.deep_view();
            if is_due {
                let name = self.jobs[k].name.clone();
                let ghost jobs_before = self.jobs.deep_view();
                self.jobs.set(
                    k,
                    JobEntry { name, interval, last_executed: now, is_running: true },
                );
                assert(self.jobs.deep_view() =~= jobs_before.update(
                    k as int,
                    tick_entry(before[k as int], now as int),
                ));
                ready.push(k);
                assert(ready.deep_view() =~= ready_at_start.push(k));
                assert(ready.deep_view()[ready.deep_view().len() - 1] == k);
            }
            proof {
                assert forall|i: int|
                    0 <= i <= k && due(#[trigger] before[i], now as int) implies ready.deep_view()
                    .contains(i as usize) by {
                    if i < k {
                        let w = choose|w: int|
                            0 <= w < ready_at_start.len() && ready_at_start[w] == i as usize;
                        assert(ready.deep_view()[w] == i as usize);
                    } else {
                        assert(ready.deep_view()[ready.deep_view().len() - 1] == (k as usize));
                    }
                }
            }
            k += 1;
        }
        ready
    }

    /// A spawned run finished, successfully or not: its entry's running
    /// flag is reset.
    pub fn job_finished(&mut self, index: usize)
        requires
            index < old(self).jobs.deep_view().len(),
        ensures
            final(self).jobs.deep_view() == old(self).jobs.deep_view().update(
                index as int,
                (JobEntryV {
                    name: old(self).jobs.deep_view()[index as int].name,
                    interval: old(self).jobs.deep_view()[index as int].interval,
                    last_executed: old(self).jobs.deep_view()[index as int].last_executed,
                    is_running: false,
                }),
            ),
            final(self).running == old(self).running,
    {
        let ghost before = self.jobs.deep_view();
        let name = self.jobs[index].name.clone();
        let interval = self.jobs[index].interval;
        let last_executed = self.jobs[index].last_executed;
        self.jobs.set(
            index,
            JobEntry { name, interval, last_executed, is_running: false },
        );
        assert(self.jobs.deep_view() =~= before.update(
            index as int,
            (JobEntryV {
                name: before[index as int].name,
                interval: before[index as int].interval,
                last_executed: before[index as int].last_executed,
                is_running: false,
            }),
        ));
    }
}

/// After a tick runs a job at time `now`, the job is not due again before
/// `now + interval`: a second run cannot start earlier.
pub proof fn lemma_no_rerun_before_interval(e: JobEntryV, now: int, later: int)
    requires
        due(e, now),
        later < now + e.interval,
    ensures
        !due(tick_entry(e, now), later),
{
}

/// A freshly registered job is due on the first tick after registration:
/// its last run time starts at the minimum representable time.
pub proof fn lemma_new_job_runs_on_first_tick(name: Seq<char>, interval: int, now: int)
    requires
        0 <= interval,
        i64::MIN + interval <= now,
    ensures
        due(
            JobEntryV { name, interval, last_executed: i64::MIN as int, is_running: false },
            now,
        ),
{
}

} // verus!
