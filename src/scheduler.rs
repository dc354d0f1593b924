use vstd::prelude::*;

use crate::bump::{lemma_bump_then_reschedule, lemma_missing_timestamp, Action, BumpError, Event, Phase, run_from};
use crate::store::{has_id, has_thread, lemma_filter_distinct_threads, set_run_at, Task, TaskStore};

verus! {

/// What the operator is told about a finished cycle.
#[derive(Clone, Copy, Debug, PartialEq, Eq)]
pub enum Notice {
    /// Routine rescheduling while on cooldown: nothing to report.
    Quiet,
    /// The thread was bumped.
    Bumped(i64),
    /// The cycle failed; the task keeps its time and is tried on the next tick.
    Failed(i64, BumpError),
}

/// The result of applying one cycle's outcome.
#[derive(Clone, Copy, Debug, PartialEq, Eq)]
pub struct Report {
    /// Whether a new due time was written to the table.
    pub stored: bool,
    pub notice: Notice,
}

/// The table and the threads whose cycle is running.
pub struct SchedulerView {
    pub tasks: Seq<Task>,
    pub in_flight: Set<i64>,
}

/// Due at `now` and not already being worked on.
pub open spec fn eligible(in_flight: Set<i64>, now: i64) -> spec_fn(Task) -> bool {
    |t: Task| t.run_at <= now && !in_flight.contains(t.thread_id)
}

/// The tasks that a tick at `now` hands out, in table order.
pub open spec fn dispatch_list(v: SchedulerView, now: i64) -> Seq<Task> {
    v.tasks.filter(eligible(v.in_flight, now))
}

pub open spec fn threads_of(s: Seq<Task>) -> Set<i64> {
    Set::new(|x: i64| exists|j: int| 0 <= j < s.len() && s[j].thread_id == x)
}

/// The state after a tick at `now`: what it handed out is in flight.
pub open spec fn after_tick(v: SchedulerView, now: i64) -> SchedulerView {
    SchedulerView { tasks: v.tasks, in_flight: v.in_flight.union(threads_of(dispatch_list(v, now))) }
}

/// The table after a cycle of `task` ended with `outcome`: a next time is
/// written, a failure leaves the old time.
pub open spec fn applied(tasks: Seq<Task>, task: Task, outcome: Result<(i64, bool), BumpError>) -> Seq<Task> {
    match outcome {
        Ok((t, _)) => set_run_at(tasks, task.id, t),
        Err(_) => tasks,
    }
}

pub open spec fn after_finish(v: SchedulerView, task: Task, outcome: Result<(i64, bool), BumpError>) -> SchedulerView {
    SchedulerView { tasks: applied(v.tasks, task, outcome), in_flight: v.in_flight.remove(task.thread_id) }
}

pub open spec fn notice_for(task: Task, outcome: Result<(i64, bool), BumpError>) -> Notice {
    match outcome {
        Ok((_, true)) => Notice::Bumped(task.thread_id),
        Ok((_, false)) => Notice::Quiet,
        Err(e) => Notice::Failed(task.thread_id, e),
    }
}

/// Relies on chrono's `Utc::now` and `DateTime::timestamp`: the clock read in
/// whole seconds since the Unix epoch. Nothing is promised of the value.
#[verifier::external_body]
fn utc_now_seconds() -> (r: i64) {
    chrono::Utc::now().timestamp()
}

/// The bump engine's state: the task table and the set of threads in flight.
pub struct Scheduler {
    store: TaskStore,
    in_flight: Vec<i64>,
}

impl View for Scheduler {
    type V = SchedulerView;

    closed spec fn view(&self) -> SchedulerView {
        SchedulerView { tasks: self.store@, in_flight: Set::new(|x: i64| self.in_flight@.contains(x)) }
    }
}

impl Scheduler {
    pub closed spec fn wf(&self) -> bool {
        self.store.wf()
    }

    pub closed spec fn spec_next_id(&self) -> u64 {
        self.store.spec_next_id()
    }

    pub fn new() -> (r: Self)
        ensures
            r.wf(),
            r@.tasks == Seq::<Task>::empty(),
            r@.in_flight == Set::<i64>::empty(),
            r.spec_next_id() == 1,
    {
        let r = Scheduler { store: TaskStore::new(), in_flight: Vec::new() };
        assert(r@.in_flight =~= Set::<i64>::empty());
        r
    }

    pub fn next_id(&self) -> (r: u64)
        ensures
            r == self.spec_next_id(),
    {
        self.store.next_id()
    }

    /// Starts tracking `thread_id`; `false` when it is tracked already.
    pub fn create_task(&mut self, thread_id: i64, due_at: i64) -> (created: bool)
        requires
            old(self).wf(),
            old(self).spec_next_id() < u64::MAX,
        ensures
            final(self).wf(),
            created == !has_thread(old(self)@.tasks, thread_id),
            has_thread(final(self)@.tasks, thread_id),
            final(self)@.tasks == crate::store::after_create(
                old(self)@.tasks,
                old(self).spec_next_id(),
                thread_id,
                due_at,
            ),
            final(self)@.in_flight == old(self)@.in_flight,
            final(self).spec_next_id() == if created {
                (old(self).spec_next_id() + 1) as u64
            } else {
                old(self).spec_next_id()
            },
    {
        self.store.create(thread_id, due_at)
    }

    /// Stops tracking `thread_id`; `false` when it was not tracked.
    pub fn delete_task(&mut self, thread_id: i64) -> (deleted: bool)
        requires
            old(self).wf(),
        ensures
            final(self).wf(),
            final(self).spec_next_id() == old(self).spec_next_id(),
            deleted == has_thread(old(self)@.tasks, thread_id),
            !has_thread(final(self)@.tasks, thread_id),
            !deleted ==> final(self)@.tasks == old(self)@.tasks,
            deleted ==> exists|k: int|
                0 <= k < old(self)@.tasks.len() && old(self)@.tasks[k].thread_id == thread_id
                    && final(self)@.tasks == old(self)@.tasks.remove(k),
            final(self)@.in_flight == old(self)@.in_flight,
    {
        let ghost before = self@.tasks;
        let deleted = self.store.delete(thread_id);
        proof {
            if deleted {
                let k = choose|k: int|
                    0 <= k < before.len() && before[k].thread_id == thread_id && self.store@
                        == before.remove(k);
                assert(self@.tasks == before.remove(k));
            }
        }
        deleted
    }

    /// Every tracked task with its next due time.
    pub fn list_tasks(&self) -> (r: Vec<Task>)
        ensures
            r@ == self@.tasks,
    {
        self.store.list_all()
    }

    /// The tasks due at `now`, whether in flight or not.
    pub fn list_due(&self, now: i64) -> (r: Vec<Task>)
        ensures
            r@ == crate::store::due_tasks(self@.tasks, now),
    {
        self.store.list_due(now)
    }

    fn is_in_flight(&self, thread_id: i64) -> (r: bool)
        ensures
            r == self@.in_flight.contains(thread_id),
    {
        let mut k: usize = 0;
        while k < self.in_flight.len()
            invariant
                k <= self.in_flight@.len(),
                forall|j: int| 0 <= j < k ==> self.in_flight@[j] != thread_id,
            decreases self.in_flight@.len() - k,
        {
            if self.in_flight[k] == thread_id {
                return true;
            }
            k = k + 1;
        }
        false
    }

    /// One tick at `now`: hands out every due task that is not in flight, and
    /// marks the handed-out threads as in flight.
    pub fn begin_tick(&mut self, now: i64) -> (r: Vec<Task>)
        requires
            old(self).wf(),
        ensures
            final(self).wf(),
            final(self).spec_next_id() == old(self).spec_next_id(),
            r@ == dispatch_list(old(self)@, now),
            forall|i: int, j: int| 0 <= i < j < r@.len() ==> r@[i].thread_id != r@[j].thread_id,
            final(self)@ == after_tick(old(self)@, now),
    {
        proof {
            self.store.lemma_unique();
            lemma_filter_distinct_threads(self@.tasks, eligible(self@.in_flight, now));
        }
        let all = self.store.list_all();
        let ghost v = self@;
        let mut r: Vec<Task> = Vec::new();
        let mut k: usize = 0;
        while k < all.len()
            invariant
                k <= all@.len(),
                all@ == v.tasks,
                v == self@,
                r@ == all@.subrange(0, k as int).filter(eligible(v.in_flight, now)),
            decreases all@.len() - k,
        {
            let t = all[k];
            proof {
                let s = all@.subrange(0, k + 1);
                assert(s.drop_last() =~= all@.subrange(0, k as int));
                assert(s.last() == t);
                reveal(Seq::filter);
            }
            if t.run_at <= now && !self.is_in_flight(t.thread_id) {
                r.push(t);
            }
            k = k + 1;
        }
        assert(all@.subrange(0, k as int) =~= all@);
        let ghost old_flight = self.in_flight@;
        let mut i: usize = 0;
        while i < r.len()
            invariant
                i <= r@.len(),
                r@ == dispatch_list(v, now),
                self.store@ == v.tasks,
                self.wf(),
                self.spec_next_id() == old(self).spec_next_id(),
                forall|x: i64|
                    #[trigger] self.in_flight@.contains(x) <==> (old_flight.contains(x) || exists|j: int|
                        0 <= j < i && r@[j].thread_id == x),
                forall|x: i64| old_flight.contains(x) <==> v.in_flight.contains(x),
            decreases r@.len() - i,
        {
            let ghost before = self.in_flight@;
            assert(forall|x: i64| #[trigger] before.contains(x) <==> (old_flight.contains(x) || exists|j: int|
                0 <= j < i && r@[j].thread_id == x));
            self.in_flight.push(r[i].thread_id);
            proof {
                assert forall|x: i64| #[trigger] self.in_flight@.contains(x) <==> (old_flight.contains(x)
                    || exists|j: int| 0 <= j < i + 1 && r@[j].thread_id == x) by {
                    if self.in_flight@.contains(x) {
                        let m = choose|m: int| 0 <= m < self.in_flight@.len() && self.in_flight@[m] == x;
                        if m < before.len() {
                            assert(before[m] == x);
                            assert(before.contains(x));
                            if !old_flight.contains(x) {
                                let j2 = choose|j2: int| 0 <= j2 < i && r@[j2].thread_id == x;
                                assert(0 <= j2 < i + 1 && r@[j2].thread_id == x);
                            }
                        } else {
                            assert(r@[i as int].thread_id == x);
                        }
                    }
                    if exists|j: int| 0 <= j < i + 1 && r@[j].thread_id == x {
                        let j = choose|j: int| 0 <= j < i + 1 && r@[j].thread_id == x;
                        if j == i {
                            assert(self.in_flight@[before.len() as int] == x);
                        } else {
                            assert(exists|j2: int| 0 <= j2 < i && r@[j2].thread_id == x);
                            assert(before.contains(x));
                            let m = choose|m: int| 0 <= m < before.len() && before[m] == x;
                            assert(self.in_flight@[m] == x);
                        }
                    }
                    if old_flight.contains(x) {
                        assert(before.contains(x));
                        let m = choose|m: int| 0 <= m < before.len() && before[m] == x;
                        assert(self.in_flight@[m] == x);
                    }
                }
            }
            i = i + 1;
        }
        assert(self@.in_flight =~= after_tick(v, now).in_flight);
        r
    }

    /// `begin_tick` at the current time, which is returned beside the tasks.
    pub fn begin_tick_now(&mut self) -> (r: (i64, Vec<Task>))
        requires
            old(self).wf(),
        ensures
            final(self).wf(),
            final(self).spec_next_id() == old(self).spec_next_id(),
            r.1@ == dispatch_list(old(self)@, r.0),
            forall|i: int, j: int| 0 <= i < j < r.1@.len() ==> r.1@[i].thread_id != r.1@[j].thread_id,
            final(self)@ == after_tick(old(self)@, r.0),
    {
        let now = utc_now_seconds();
        let due = self.begin_tick(now);
        (now, due)
    }

    /// Applies the outcome of `task`'s cycle: a next time is written to the
    /// table, a failure leaves it; either way the thread leaves the in-flight set.
    pub fn finish(&mut self, task: Task, outcome: Result<(i64, bool), BumpError>) -> (r: Report)
        requires
            old(self).wf(),
        ensures
            final(self).wf(),
            final(self).spec_next_id() == old(self).spec_next_id(),
            final(self)@ == after_finish(old(self)@, task, outcome),
            r.stored == (outcome is Ok && has_id(old(self)@.tasks, task.id)),
            r.notice == notice_for(task, outcome),
    {
        let ghost v = self@;
        let stored = match outcome {
            Ok((t, _)) => self.store.update_due_at(task.id, t).is_ok(),
            Err(_) => false,
        };
        let mut kept: Vec<i64> = Vec::new();
        let mut k: usize = 0;
        while k < self.in_flight.len()
            invariant
                k <= self.in_flight@.len(),
                forall|x: i64|
                    kept@.contains(x) <==> (x != task.thread_id && exists|j: int|
                        0 <= j < k && self.in_flight@[j] == x),
            decreases self.in_flight@.len() - k,
        {
            let x = self.in_flight[k];
            let ghost before = kept@;
            if x != task.thread_id {
                kept.push(x);
            }
            proof {
                assert forall|y: i64| kept@.contains(y) <==> (y != task.thread_id && exists|j: int|
                    0 <= j < k + 1 && self.in_flight@[j] == y) by {
                    if kept@.contains(y) {
                        let m = choose|m: int| 0 <= m < kept@.len() && kept@[m] == y;
                        if m < before.len() {
                            assert(before[m] == y);
                            assert(before.contains(y));
                            let j2 = choose|j2: int| 0 <= j2 < k && self.in_flight@[j2] == y;
                            assert(0 <= j2 < k + 1 && self.in_flight@[j2] == y);
                        } else {
                            assert(y == x);
                            assert(self.in_flight@[k as int] == y);
                        }
                    }
                    if y != task.thread_id && exists|j: int| 0 <= j < k + 1 && self.in_flight@[j] == y {
                        let j = choose|j: int| 0 <= j < k + 1 && self.in_flight@[j] == y;
                        if j == k {
                            assert(kept@[kept@.len() - 1] == y);
                        } else {
                            assert(exists|j2: int| 0 <= j2 < k && self.in_flight@[j2] == y);
                            assert(before.contains(y));
                            let m = choose|m: int| 0 <= m < before.len() && before[m] == y;
                            assert(kept@[m] == y);
                        }
                    }
                }
            }
            k = k + 1;
        }
        self.in_flight = kept;
        assert(self@.in_flight =~= v.in_flight.remove(task.thread_id));
        assert(self@.tasks == applied(v.tasks, task, outcome));
        let notice = match outcome {
            Ok((_, true)) => Notice::Bumped(task.thread_id),
            Ok((_, false)) => Notice::Quiet,
            Err(e) => Notice::Failed(task.thread_id, e),
        };
        Report { stored, notice }
    }
}

/// Two ticks with no finish between them never hand out the same thread: a
/// thread handed out by the first is in flight for the second.
pub proof fn lemma_at_most_one_in_flight(v: SchedulerView, now1: i64, now2: i64)
    ensures
        forall|i: int, j: int|
            0 <= i < dispatch_list(v, now1).len() && 0 <= j < dispatch_list(after_tick(v, now1), now2).len()
                ==> dispatch_list(v, now1)[i].thread_id != dispatch_list(after_tick(v, now1), now2)[j].thread_id,
        forall|j: int|
            0 <= j < dispatch_list(after_tick(v, now1), now2).len() ==> !v.in_flight.contains(
                dispatch_list(after_tick(v, now1), now2)[j].thread_id,
            ),
{
    let r1 = dispatch_list(v, now1);
    let v1 = after_tick(v, now1);
    let r2 = dispatch_list(v1, now2);
    assert forall|i: int, j: int| 0 <= i < r1.len() && 0 <= j < r2.len() implies r1[i].thread_id
        != r2[j].thread_id by {
        v1.tasks.lemma_filter_pred(eligible(v1.in_flight, now2), j);
        assert(threads_of(r1).contains(r1[i].thread_id));
    }
    assert forall|j: int| 0 <= j < r2.len() implies !v.in_flight.contains(r2[j].thread_id) by {
        v1.tasks.lemma_filter_pred(eligible(v1.in_flight, now2), j);
    }
}

/// A cycle that finds no cooldown, bumps with 200 and then reads cooldown `t`
/// ends with `(t, true)`; applying that outcome moves the task to `t` and
/// reports a bump.
pub proof fn lemma_cycle_reschedules(v: SchedulerView, k: int, t: i64)
    requires
        0 <= k < v.tasks.len(),
    ensures
        run_from(Phase::Checking, seq![Event::Fetched(None), Event::Bumped(200), Event::Fetched(Some(t))])
            == Some(seq![Action::Bump, Action::FetchThread, Action::Finish(Ok((t, true)))]),
        after_finish(v, v.tasks[k], Ok((t, true))).tasks[k].run_at == t,
        after_finish(v, v.tasks[k], Ok((t, true))).tasks.len() == v.tasks.len(),
        notice_for(v.tasks[k], Ok((t, true))) == Notice::Bumped(v.tasks[k].thread_id),
{
    lemma_bump_then_reschedule(t);
}

/// A cycle whose fetch after a successful bump shows no cooldown ends with
/// `MissingTimestamp`; applying it leaves every due time as it was.
pub proof fn lemma_missing_timestamp_keeps_time(v: SchedulerView, task: Task)
    ensures
        run_from(Phase::Checking, seq![Event::Fetched(None), Event::Bumped(200), Event::Fetched(None)])
            == Some(seq![Action::Bump, Action::FetchThread, Action::Finish(Err(BumpError::MissingTimestamp))]),
        after_finish(v, task, Err(BumpError::MissingTimestamp)).tasks == v.tasks,
        notice_for(task, Err(BumpError::MissingTimestamp)) == Notice::Failed(
            task.thread_id,
            BumpError::MissingTimestamp,
        ),
{
    lemma_missing_timestamp();
}

} // verus!
