use vstd::prelude::*;

verus! {

/// One pending bump: the remote thread and the earliest second (UTC, Unix time)
/// at which it may be bumped again.
#[derive(Clone, Copy, Debug, PartialEq, Eq, Structural)]
pub struct Task {
    pub id: u64,
    pub thread_id: i64,
    pub run_at: i64,
}

#[derive(Clone, Copy, Debug, PartialEq, Eq, Structural)]
pub enum StoreError {
    /// No task carries the id: it was deleted in the meantime.
    NotFound,
}

pub open spec fn has_thread(s: Seq<Task>, thread_id: i64) -> bool {
    exists|k: int| 0 <= k < s.len() && s[k].thread_id == thread_id
}

pub open spec fn has_id(s: Seq<Task>, id: u64) -> bool {
    exists|k: int| 0 <= k < s.len() && s[k].id == id
}

/// No two tasks target the same thread, and no two share an id.
pub open spec fn unique_keys(s: Seq<Task>) -> bool {
    forall|i: int, j: int|
        0 <= i < s.len() && 0 <= j < s.len() && i != j ==> s[i].thread_id != s[j].thread_id
            && s[i].id != s[j].id
}

pub open spec fn is_due(now: i64) -> spec_fn(Task) -> bool {
    |t: Task| t.run_at <= now
}

/// The tasks whose time has come, in table order.
pub open spec fn due_tasks(s: Seq<Task>, now: i64) -> Seq<Task> {
    s.filter(is_due(now))
}

/// The table with the task of the given id moved to `run_at`.
pub open spec fn set_run_at(s: Seq<Task>, id: u64, run_at: i64) -> Seq<Task> {
    Seq::new(
        s.len(),
        |k: int|
            if s[k].id == id {
                Task { run_at, ..s[k] }
            } else {
                s[k]
            },
    )
}

/// The table after `create`: unchanged when the thread is already tracked,
/// else with one new task at the end.
pub open spec fn after_create(s: Seq<Task>, next_id: u64, thread_id: i64, due_at: i64) -> Seq<Task> {
    if has_thread(s, thread_id) {
        s
    } else {
        s.push(Task { id: next_id, thread_id, run_at: due_at })
    }
}

/// Exactly one task targets the thread.
pub open spec fn one_row_for(s: Seq<Task>, thread_id: i64) -> bool {
    exists|k: int|
        0 <= k < s.len() && s[k].thread_id == thread_id && forall|j: int|
            0 <= j < s.len() && s[j].thread_id == thread_id ==> j == k
}

/// The table of pending bumps, keyed by thread.
pub struct TaskStore {
    tasks: Vec<Task>,
    next_id: u64,
}

impl View for TaskStore {
    type V = Seq<Task>;

    closed spec fn view(&self) -> Seq<Task> {
        self.tasks@
    }
}

impl TaskStore {
    /// The id that the next created task receives.
    pub closed spec fn spec_next_id(&self) -> u64 {
        self.next_id
    }

    pub closed spec fn wf(&self) -> bool {
        &&& unique_keys(self.tasks@)
        &&& forall|k: int| 0 <= k < self.tasks@.len() ==> self.tasks@[k].id < self.next_id
    }

    pub proof fn lemma_unique(&self)
        requires
            self.wf(),
        ensures
            unique_keys(self@),
    {
    }

    pub fn new() -> (r: Self)
        ensures
            r.wf(),
            r@ == Seq::<Task>::empty(),
            r.spec_next_id() == 1,
    {
        TaskStore { tasks: Vec::new(), next_id: 1 }
    }

    pub fn next_id(&self) -> (r: u64)
        ensures
            r == self.spec_next_id(),
    {
        self.next_id
    }

    /// Position of the task that targets `thread_id`.
    fn find_thread(&self, thread_id: i64) -> (r: Option<usize>)
        ensures
            match r {
                Some(k) => k < self@.len() && self@[k as int].thread_id == thread_id,
                None => !has_thread(self@, thread_id),
            },
    {
        let mut k: usize = 0;
        while k < self.tasks.len()
            invariant
                k <= self.tasks@.len(),
                forall|j: int| 0 <= j < k ==> self.tasks@[j].thread_id != thread_id,
            decreases self.tasks@.len() - k,
        {
            if self.tasks[k].thread_id == thread_id {
                return Some(k);
            }
            k = k + 1;
        }
        None
    }

    /// Position of the task with the given id.
    fn find_id(&self, id: u64) -> (r: Option<usize>)
        ensures
            match r {
                Some(k) => k < self@.len() && self@[k as int].id == id,
                None => !has_id(self@, id),
            },
    {
        let mut k: usize = 0;
        while k < self.tasks.len()
            invariant
                k <= self.tasks@.len(),
                forall|j: int| 0 <= j < k ==> self.tasks@[j].id != id,
            decreases self.tasks@.len() - k,
        {
            if self.tasks[k].id == id {
                return Some(k);
            }
            k = k + 1;
        }
        None
    }

    pub fn contains_thread(&self, thread_id: i64) -> (r: bool)
        ensures
            r == has_thread(self@, thread_id),
    {
        self.find_thread(thread_id).is_some()
    }

    /// Adds a task for `thread_id`, unless one is already tracked: then nothing
    /// changes and the result is `false`.
    pub fn create(&mut self, thread_id: i64, due_at: i64) -> (created: bool)
        requires
            old(self).wf(),
            old(self).spec_next_id() < u64::MAX,
        ensures
            final(self).wf(),
            created == !has_thread(old(self)@, thread_id),
            has_thread(final(self)@, thread_id),
            final(self)@ == after_create(old(self)@, old(self).spec_next_id(), thread_id, due_at),
            final(self).spec_next_id() == if created {
                (old(self).spec_next_id() + 1) as u64
            } else {
                old(self).spec_next_id()
            },
    {
        if self.find_thread(thread_id).is_some() {
            return false;
        }
        let t = Task { id: self.next_id, thread_id, run_at: due_at };
        self.tasks.push(t);
        self.next_id = self.next_id + 1;
        assert(self.tasks@[self.tasks@.len() - 1] == t);
        true
    }

    /// Removes the task for `thread_id`; the result says whether there was one.
    pub fn delete(&mut self, thread_id: i64) -> (deleted: bool)
        requires
            old(self).wf(),
        ensures
            final(self).wf(),
            final(self).spec_next_id() == old(self).spec_next_id(),
            deleted == has_thread(old(self)@, thread_id),
            !has_thread(final(self)@, thread_id),
            !deleted ==> final(self)@ == old(self)@,
            deleted ==> exists|k: int|
                0 <= k < old(self)@.len() && old(self)@[k].thread_id == thread_id && final(self)@
                    == old(self)@.remove(k),
    {
        match self.find_thread(thread_id) {
            None => false,
            Some(k) => {
                let ghost before = self.tasks@;
                self.tasks.remove(k);
                assert(self.tasks@ == before.remove(k as int));
                assert forall|j: int| 0 <= j < self.tasks@.len() implies self.tasks@[j].thread_id
                    != thread_id by {
                    if j < k {
                        assert(self.tasks@[j] == before[j]);
                    } else {
                        assert(self.tasks@[j] == before[j + 1]);
                    }
                }
                true
            },
        }
    }

    /// Every task, in the order of creation.
    pub fn list_all(&self) -> (r: Vec<Task>)
        ensures
            r@ == self@,
    {
        self.tasks.clone()
    }

    /// The tasks with `run_at <= now`, in the order of creation.
    pub fn list_due(&self, now: i64) -> (r: Vec<Task>)
        ensures
            r@ == due_tasks(self@, now),
    {
        let mut r: Vec<Task> = Vec::new();
        let mut k: usize = 0;
        while k < self.tasks.len()
            invariant
                k <= self.tasks@.len(),
                r@ == self.tasks@.subrange(0, k as int).filter(is_due(now)),
            decreases self.tasks@.len() - k,
        {
            let t = self.tasks[k];
            proof {
                let s = self.tasks@.subrange(0, k + 1);
                assert(s.drop_last() =~= self.tasks@.subrange(0, k as int));
                assert(s.last() == t);
                reveal(Seq::filter);
            }
            if t.run_at <= now {
                r.push(t);
            }
            k = k + 1;
        }
        assert(self.tasks@.subrange(0, k as int) =~= self.tasks@);
        r
    }

    /// Moves the task with the given id to `new_due_at`. Fails with `NotFound`
    /// when no task has that id.
    pub fn update_due_at(&mut self, id: u64, new_due_at: i64) -> (r: Result<(), StoreError>)
        requires
            old(self).wf(),
        ensures
            final(self).wf(),
            final(self).spec_next_id() == old(self).spec_next_id(),
            r is Ok <==> has_id(old(self)@, id),
            final(self)@ == set_run_at(old(self)@, id, new_due_at),
    {
        match self.find_id(id) {
            None => {
                assert(self.tasks@ =~= set_run_at(self.tasks@, id, new_due_at));
                Err(StoreError::NotFound)
            },
            Some(k) => {
                let ghost before = self.tasks@;
                let old_t = self.tasks[k];
                self.tasks.set(k, Task { id: old_t.id, thread_id: old_t.thread_id, run_at: new_due_at });
                assert(self.tasks@ =~= set_run_at(before, id, new_due_at));
                Ok(())
            },
        }
    }
}

/// Selecting tasks keeps their threads distinct.
pub proof fn lemma_filter_distinct_threads(s: Seq<Task>, p: spec_fn(Task) -> bool)
    requires
        unique_keys(s),
    ensures
        forall|i: int, j: int|
            0 <= i < j < s.filter(p).len() ==> s.filter(p)[i].thread_id != s.filter(p)[j].thread_id,
    decreases s.len(),
{
    reveal(Seq::filter);
    if s.len() > 0 {
        let t = s.drop_last();
        assert forall|i: int, j: int|
            0 <= i < t.len() && 0 <= j < t.len() && i != j implies t[i].thread_id != t[j].thread_id
            && t[i].id != t[j].id by {
            assert(t[i] == s[i] && t[j] == s[j]);
        }
        lemma_filter_distinct_threads(t, p);
        let ft = t.filter(p);
        if p(s.last()) {
            let f = s.filter(p);
            assert(f == ft.push(s.last()));
            assert forall|i: int, j: int| 0 <= i < j < f.len() implies f[i].thread_id
                != f[j].thread_id by {
                if j == ft.len() {
                    assert(ft.contains(ft[i]));
                    t.lemma_filter_contains_rev(p, ft[i]);
                    let m = choose|m: int| 0 <= m < t.len() && t[m] == ft[i];
                    assert(s[m] == ft[i]);
                    assert(s.last() == s[s.len() - 1]);
                }
            }
        }
    }
}

/// Creating a task twice for one thread: the first call creates, the second
/// reports a duplicate, and exactly one task targets the thread afterwards.
pub proof fn lemma_create_twice(s: Seq<Task>, next_id: u64, thread_id: i64, due1: i64, due2: i64)
    requires
        unique_keys(s),
        !has_thread(s, thread_id),
    ensures
        !has_thread(s, thread_id),
        has_thread(after_create(s, next_id, thread_id, due1), thread_id),
        after_create(after_create(s, next_id, thread_id, due1), (next_id + 1) as u64, thread_id, due2)
            == after_create(s, next_id, thread_id, due1),
        one_row_for(after_create(s, next_id, thread_id, due1), thread_id),
{
    let s1 = after_create(s, next_id, thread_id, due1);
    let k = s.len() as int;
    assert(s1[k].thread_id == thread_id);
    assert forall|j: int| 0 <= j < s1.len() && s1[j].thread_id == thread_id implies j == k by {
        if j < k {
            assert(s1[j] == s[j]);
        }
    }
}

} // verus!
