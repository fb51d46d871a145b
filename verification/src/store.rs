use vstd::prelude::*;
use vstd::string::StrSliceExecFns;
use crate::clock::format_local_datetime;
use crate::codec::spec_parse_token;
use crate::errors::TaskError;
use crate::task::{sat_add64, spec_print_line, Task};

verus! {

/// What a listing shows: one rendered line per listed task, and the sum
/// of their display durations.
pub struct ListReport {
    /// One line per listed task, in ascending id order.
    pub lines: Vec<String>,
    /// The saturating sum of the listed tasks' display durations.
    pub total_seconds: u64,
}

/// The tasks a listing shows: every running task, or every task when
/// `show_all` is set, in store order.
pub open spec fn spec_selected(s: Seq<Task>, show_all: bool) -> Seq<Task>
    decreases s.len(),
{
    if s.len() == 0 {
        Seq::empty()
    } else {
        let rest = spec_selected(s.drop_last(), show_all);
        if s.last().running || show_all {
            rest.push(s.last())
        } else {
            rest
        }
    }
}

/// The saturating sum of the tasks' display durations at `now`.
pub open spec fn spec_total_duration(s: Seq<Task>, now: u64) -> u64
    decreases s.len(),
{
    if s.len() == 0 {
        0u64
    } else {
        sat_add64(
            spec_total_duration(s.drop_last(), now),
            s.last().spec_current_duration(now),
        )
    }
}

/// What one listed line says of its task.
pub open spec fn spec_line_ok(
    t: Task,
    line: Seq<char>,
    now: u64,
    show_timestamp: bool,
    show_base_timer: bool,
) -> bool {
    if show_timestamp && t.last_run is Some {
        exists|ts: Seq<char>|
            line == spec_print_line(
                t,
                t.spec_current_duration(now),
                show_base_timer,
                " - Last time: "@ + ts,
            )
    } else {
        line == spec_print_line(
            t,
            t.spec_current_duration(now),
            show_base_timer,
            Seq::<char>::empty(),
        )
    }
}

/// What a listing reports of a store as of the moment `now`.
pub open spec fn spec_list_report_ok(
    s: Seq<Task>,
    r: ListReport,
    now: u64,
    show_all: bool,
    show_timestamp: bool,
    show_base_timer: bool,
) -> bool {
    let sel = spec_selected(s, show_all);
    &&& r.lines@.len() == sel.len()
    &&& r.total_seconds == spec_total_duration(sel, now)
    &&& forall|k: int|
        0 <= k < sel.len() ==> spec_line_ok(
            sel[k],
            (#[trigger] r.lines@[k])@,
            now,
            show_timestamp,
            show_base_timer,
        )
}

/// The yes/no reading of an answer to the clear prompt.
pub open spec fn spec_confirmation(s: Seq<char>) -> Option<bool> {
    if s.len() == 1 && (s[0] == 'y' || s[0] == 'Y') {
        Some(true)
    } else if s.len() == 1 && (s[0] == 'n' || s[0] == 'N') {
        Some(false)
    } else {
        None
    }
}

/// Reads a yes/no answer to the clear prompt: `y` or `Y` is yes, `n` or
/// `N` is no, anything else is no answer and must be asked again.
pub fn parse_confirmation(answer: &str) -> (r: Option<bool>)
    ensures
        r == spec_confirmation(answer@),
{
    let n: usize = answer.unicode_len();
    if n != 1 {
        return None;
    }
    let c: char = answer.get_char(0);
    if c == 'y' || c == 'Y' {
        Some(true)
    } else if c == 'n' || c == 'N' {
        Some(false)
    } else {
        None
    }
}

/// The message for an empty listing, telling a store with no tasks at
/// all apart from one with no running tasks.
pub fn no_tasks_message(show_all: bool) -> (r: String)
    ensures
        show_all ==> r@ == "There are no tasks."@,
        !show_all ==> r@ == "There are no running tasks."@,
{
    if show_all {
        "There are no tasks.".to_owned()
    } else {
        "There are no running tasks.".to_owned()
    }
}

/// Whether some task in `s` carries the id.
pub open spec fn spec_has_id(s: Seq<Task>, id: u32) -> bool {
    exists|i: int| 0 <= i < s.len() && s[i].id == id
}

/// The index of the task carrying the id (unique in a well-formed store).
pub open spec fn spec_index_of_id(s: Seq<Task>, id: u32) -> int {
    choose|i: int| 0 <= i < s.len() && s[i].id == id
}

/// How many tasks in `s` carry the name.
pub open spec fn spec_count_name(s: Seq<Task>, name: Seq<char>) -> nat
    decreases s.len(),
{
    if s.len() == 0 {
        0
    } else {
        spec_count_name(s.drop_last(), name) + (if s.last().name@ == name {
            1nat
        } else {
            0nat
        })
    }
}

/// In a well-formed store an index holding the id is the index the store
/// looks up.
proof fn lemma_index_of_id_unique(s: Seq<Task>, id: u32, i: int)
    requires
        spec_store_wf(s),
        0 <= i < s.len(),
        s[i].id == id,
    ensures
        spec_has_id(s, id),
        spec_index_of_id(s, id) == i,
{
    assert(spec_has_id(s, id));
    let j = spec_index_of_id(s, id);
    if j < i {
        assert(s[j].id < s[i].id);
    } else if j > i {
        assert(s[i].id < s[j].id);
    }
}

/// The store's tasks stand in strictly ascending id order, and each task
/// is well formed.
pub open spec fn spec_store_wf(s: Seq<Task>) -> bool {
    &&& forall|i: int, j: int|
        0 <= i < j < s.len() ==> #[trigger] s[i].id < #[trigger] s[j].id
    &&& forall|i: int| 0 <= i < s.len() ==> (#[trigger] s[i]).wf()
}

/// The id the store hands to its next task: one past the largest id held,
/// or one on an empty store.
pub open spec fn spec_alloc_id(s: Seq<Task>) -> int {
    if s.len() == 0 {
        1
    } else {
        s[s.len() - 1].id + 1
    }
}

/// Whether the store can still allocate an id: its largest one is below
/// the largest a task can carry (a machine limit).
pub open spec fn spec_id_headroom(s: Seq<Task>) -> bool {
    s.len() > 0 ==> s[s.len() - 1].id < u32::MAX
}

/// An in-memory collection of tasks with unique ids.
pub struct TaskStore {
    tasks: Vec<Task>,
}

impl View for TaskStore {
    type V = Seq<Task>;

    closed spec fn view(&self) -> Seq<Task> {
        self.tasks@
    }
}

impl TaskStore {
    /// See `spec_store_wf`.
    pub open spec fn wf(&self) -> bool {
        spec_store_wf(self@)
    }

    /// An empty store.
    pub fn new() -> (s: TaskStore)
        ensures
            s@ == Seq::<Task>::empty(),
            s.wf(),
    {
        let s = TaskStore { tasks: Vec::new() };
        proof {
            assert(s@ =~= Seq::<Task>::empty());
        }
        s
    }

    /// A fresh id: one past the largest id in the store, or one if the
    /// store is empty. Freed ids below the maximum are never reused.
    pub fn find_new_unique_id(&self) -> (r: u32)
        requires
            self.wf(),
            spec_id_headroom(self@),
        ensures
            r as int == spec_alloc_id(self@),
            forall|i: int| 0 <= i < self@.len() ==> #[trigger] self@[i].id < r,
    {
        let n: usize = self.tasks.len();
        if n == 0 {
            1
        } else {
            self.tasks[n - 1].id + 1
        }
    }

    /// How many tasks the store holds.
    pub fn len(&self) -> (r: usize)
        ensures
            r == self@.len(),
    {
        self.tasks.len()
    }

    /// The tasks in ascending id order, for reading.
    pub fn all_tasks(&self) -> (r: &Vec<Task>)
        ensures
            r@ == self@,
    {
        &self.tasks
    }

    /// The index of the task carrying `id`, if the store holds one.
    fn index_of_id(&self, id: u32) -> (r: Option<usize>)
        requires
            self.wf(),
        ensures
            match r {
                Some(i) => i < self@.len() && self@[i as int].id == id && i as int
                    == spec_index_of_id(self@, id) && spec_has_id(self@, id),
                None => !spec_has_id(self@, id),
            },
    {
        let n: usize = self.tasks.len();
        let mut k: usize = 0;
        while k < n
            invariant
                k <= n,
                n == self@.len(),
                self.wf(),
                forall|j: int| 0 <= j < k ==> self@[j].id != id,
            decreases n - k,
        {
            if self.tasks[k].id == id {
                proof {
                    lemma_index_of_id_unique(self@, id, k as int);
                }
                return Some(k);
            }
            k += 1;
        }
        None
    }

    /// The task carrying `id`, for reading.
    pub fn get_task(&self, id: u32) -> (r: Result<&Task, TaskError>)
        requires
            self.wf(),
        ensures
            spec_has_id(self@, id) ==> (r matches Ok(t) && *t == self@[spec_index_of_id(
                self@,
                id,
            )]),
            !spec_has_id(self@, id) ==> r == Err::<&Task, TaskError>(TaskError::NotFound),
    {
        match self.index_of_id(id) {
            Some(i) => Ok(&self.tasks[i]),
            None => Err(TaskError::NotFound),
        }
    }

    /// Places a task whose id the store does not hold yet, keeping the
    /// ascending id order.
    pub fn insert_task(&mut self, t: Task)
        requires
            old(self).wf(),
            t.wf(),
            !spec_has_id(old(self)@, t.id),
        ensures
            final(self).wf(),
            final(self)@.len() == old(self)@.len() + 1,
            exists|i: int| 0 <= i <= old(self)@.len() && final(self)@ == old(self)@.insert(i, t),
    {
        let n: usize = self.tasks.len();
        let mut k: usize = 0;
        while k < n && self.tasks[k].id < t.id
            invariant
                k <= n,
                n == self@.len(),
                self.wf(),
                self@ == old(self)@,
                !spec_has_id(self@, t.id),
                forall|j: int| 0 <= j < k ==> self@[j].id < t.id,
            decreases n - k,
        {
            k += 1;
        }
        proof {
            if k < n {
                if self@[k as int].id == t.id {
                    assert(spec_has_id(self@, t.id));
                }
                assert(self@[k as int].id > t.id);
            }
            old(self)@.insert_ensures(k as int, t);
        }
        self.tasks.insert(k, t);
        proof {
            let s = old(self)@;
            let ki = k as int;
            let ns = s.insert(ki, t);
            assert forall|i: int, j: int| 0 <= i < j < ns.len() implies #[trigger] ns[i].id
                < #[trigger] ns[j].id by {
                if j < ki {
                    assert(ns[i] == s[i] && ns[j] == s[j]);
                } else if i < ki && j == ki {
                    assert(ns[i] == s[i]);
                } else if i < ki && j > ki {
                    assert(ns[i] == s[i] && ns[j] == s[j - 1]);
                    if ki < s.len() {
                        assert(s[ki].id > t.id);
                    }
                } else if i == ki && j > ki {
                    assert(ns[j] == s[j - 1]);
                    assert(s[ki].id > t.id);
                    if j - 1 > ki {
                        assert(s[ki].id < s[j - 1].id);
                    }
                } else {
                    assert(ns[i] == s[i - 1] && ns[j] == s[j - 1]);
                }
            }
            assert forall|i: int| 0 <= i < ns.len() implies (#[trigger] ns[i]).wf() by {
                if i < ki {
                    assert(ns[i] == s[i]);
                } else if i > ki {
                    assert(ns[i] == s[i - 1]);
                }
            }
        }
    }

    /// Creates a task with a fresh id, optionally already running since
    /// the moment `now`, and returns the id.
    pub fn create_task_at(&mut self, task_name: &str, start: bool, now: u64) -> (r: u32)
        requires
            old(self).wf(),
            spec_id_headroom(old(self)@),
        ensures
            final(self).wf(),
            r as int == spec_alloc_id(old(self)@),
            final(self)@.len() == old(self)@.len() + 1,
            final(self)@.subrange(0, old(self)@.len() as int) == old(self)@,
            ({
                let t = final(self)@.last();
                &&& t.id == r
                &&& t.name@ == task_name@
                &&& t.total_duration_seconds == 0
                &&& t.running == start
                &&& t.last_run == (if start {
                    Some(now)
                } else {
                    None::<u64>
                })
            }),
    {
        let id: u32 = self.find_new_unique_id();
        let t = Task {
            id,
            name: task_name.to_owned(),
            total_duration_seconds: 0,
            running: start,
            last_run: if start {
                Some(now)
            } else {
                None
            },
        };
        self.tasks.push(t);
        proof {
            assert(final(self)@.subrange(0, old(self)@.len() as int) =~= old(self)@);
            assert forall|i: int, j: int| 0 <= i < j < self@.len() implies #[trigger] self@[i].id
                < #[trigger] self@[j].id by {
                if j < self@.len() - 1 {
                    assert(self@[i] == old(self)@[i] && self@[j] == old(self)@[j]);
                } else if 0 <= i < self@.len() - 1 {
                    assert(self@[i] == old(self)@[i]);
                }
            }
            assert forall|i: int| 0 <= i < self@.len() implies (#[trigger] self@[i]).wf() by {
                if i < self@.len() - 1 {
                    assert(self@[i] == old(self)@[i]);
                }
            }
        }
        id
    }

    /// Creates a task with a fresh id; a task started immediately runs
    /// from the clock's present reading.
    pub fn create_task(&mut self, task_name: &str, start: bool) -> (r: u32)
        requires
            old(self).wf(),
            spec_id_headroom(old(self)@),
        ensures
            final(self).wf(),
            r as int == spec_alloc_id(old(self)@),
            final(self)@.len() == old(self)@.len() + 1,
            final(self)@.subrange(0, old(self)@.len() as int) == old(self)@,
            ({
                let t = final(self)@.last();
                &&& t.id == r
                &&& t.name@ == task_name@
                &&& t.total_duration_seconds == 0
                &&& t.running == start
                &&& (t.last_run is Some <==> start)
            }),
    {
        let now: u64 = crate::clock::now_seconds();
        self.create_task_at(task_name, start, now)
    }

    /// Removes the task carrying `id`.
    pub fn delete_task_by_id(&mut self, id: u32) -> (r: Result<(), TaskError>)
        requires
            old(self).wf(),
        ensures
            final(self).wf(),
            !spec_has_id(old(self)@, id) ==> r == Err::<(), TaskError>(TaskError::NotFound)
                && final(self)@ == old(self)@,
            spec_has_id(old(self)@, id) ==> r == Ok::<(), TaskError>(()) && final(self)@ == old(
                self,
            )@.remove(spec_index_of_id(old(self)@, id)),
    {
        match self.index_of_id(id) {
            Some(i) => {
                proof {
                    old(self)@.remove_ensures(i as int);
                }
                self.tasks.remove(i);
                proof {
                    lemma_store_wf_remove(old(self)@, i as int);
                }
                Ok(())
            },
            None => Err(TaskError::NotFound),
        }
    }

    /// Removes the task carrying `task_name`; refused when no task or
    /// more than one task carries it, and nothing is removed then.
    pub fn delete_task_by_name(&mut self, task_name: &str) -> (r: Result<(), TaskError>)
        requires
            old(self).wf(),
        ensures
            final(self).wf(),
            spec_count_name(old(self)@, task_name@) == 0 ==> r == Err::<(), TaskError>(
                TaskError::NotFound,
            ) && final(self)@ == old(self)@,
            spec_count_name(old(self)@, task_name@) > 1 ==> r == Err::<(), TaskError>(
                TaskError::Ambiguous,
            ) && final(self)@ == old(self)@,
            spec_count_name(old(self)@, task_name@) == 1 ==> r == Ok::<(), TaskError>(()) && ({
                let i = choose|i: int|
                    0 <= i < old(self)@.len() && old(self)@[i].name@ == task_name@;
                final(self)@ == old(self)@.remove(i)
            }),
    {
        let name_owned: String = task_name.to_owned();
        let n: usize = self.tasks.len();
        let mut count: usize = 0;
        let mut found: usize = 0;
        let mut i: usize = 0;
        while i < n
            invariant
                i <= n,
                n == self@.len(),
                self.wf(),
                self@ == old(self)@,
                name_owned@ == task_name@,
                count == spec_count_name(self@.subrange(0, i as int), task_name@),
                count <= i,
                count > 0 ==> found < i && self@[found as int].name@ == task_name@,
            decreases n - i,
        {
            proof {
                lemma_count_name_step(self@, task_name@, i as int);
            }
            if self.tasks[i].name.eq(&name_owned) {
                count += 1;
                found = i;
            }
            i += 1;
        }
        proof {
            assert(self@.subrange(0, n as int) =~= self@);
        }
        if count == 0 {
            Err(TaskError::NotFound)
        } else if count > 1 {
            Err(TaskError::Ambiguous)
        } else {
            proof {
                assert(exists|j: int| 0 <= j < self@.len() && self@[j].name@ == task_name@);
                let c = choose|j: int| 0 <= j < self@.len() && self@[j].name@ == task_name@;
                if c < found as int {
                    lemma_count_name_two(self@, task_name@, c, found as int);
                } else if c > found as int {
                    lemma_count_name_two(self@, task_name@, found as int, c);
                }
                old(self)@.remove_ensures(found as int);
            }
            self.tasks.remove(found);
            proof {
                lemma_store_wf_remove(old(self)@, found as int);
            }
            Ok(())
        }
    }

    /// Starts the timer of the task carrying `id`, at the moment `now`.
    pub fn start_task_at(&mut self, id: u32, now: u64) -> (r: Result<(), TaskError>)
        requires
            old(self).wf(),
        ensures
            final(self).wf(),
            !spec_has_id(old(self)@, id) ==> r == Err::<(), TaskError>(TaskError::NotFound)
                && final(self)@ == old(self)@,
            spec_has_id(old(self)@, id) ==> ({
                let i = spec_index_of_id(old(self)@, id);
                let t = old(self)@[i];
                &&& (t.running ==> r == Err::<(), TaskError>(TaskError::AlreadyRunning)
                    && final(self)@ == old(self)@)
                &&& (!t.running ==> r == Ok::<(), TaskError>(()) && final(self)@ == old(
                    self,
                )@.update(i, t.spec_started(now)))
            }),
    {
        match self.index_of_id(id) {
            None => Err(TaskError::NotFound),
            Some(i) => {
                proof {
                    old(self)@.remove_ensures(i as int);
                }
                let mut t = self.tasks.remove(i);
                let res = t.start_at(now);
                self.tasks.insert(i, t);
                proof {
                    let nt = self@[i as int];
                    lemma_remove_insert_is_update(old(self)@, i as int, nt);
                    lemma_store_wf_update(old(self)@, i as int, nt);
                    if old(self)@[i as int].running {
                        assert(self@ =~= old(self)@);
                    }
                }
                res
            },
        }
    }

    /// Starts the timer of the task carrying `id`, at the clock's
    /// present reading.
    pub fn start_task(&mut self, id: u32) -> (r: Result<(), TaskError>)
        requires
            old(self).wf(),
        ensures
            final(self).wf(),
            !spec_has_id(old(self)@, id) ==> r == Err::<(), TaskError>(TaskError::NotFound)
                && final(self)@ == old(self)@,
            spec_has_id(old(self)@, id) ==> ({
                let i = spec_index_of_id(old(self)@, id);
                let t = old(self)@[i];
                &&& (t.running ==> r == Err::<(), TaskError>(TaskError::AlreadyRunning)
                    && final(self)@ == old(self)@)
                &&& (!t.running ==> r == Ok::<(), TaskError>(()) && exists|now: u64|
                    final(self)@ == old(self)@.update(i, t.spec_started(now)))
            }),
    {
        let now: u64 = crate::clock::now_seconds();
        self.start_task_at(id, now)
    }

    /// Stops the timer of the task carrying `id` at the moment `now`,
    /// committing the elapsed time.
    pub fn stop_task_at(&mut self, id: u32, now: u64) -> (r: Result<(), TaskError>)
        requires
            old(self).wf(),
        ensures
            final(self).wf(),
            !spec_has_id(old(self)@, id) ==> r == Err::<(), TaskError>(TaskError::NotFound)
                && final(self)@ == old(self)@,
            spec_has_id(old(self)@, id) ==> ({
                let i = spec_index_of_id(old(self)@, id);
                let t = old(self)@[i];
                &&& (!t.running ==> r == Err::<(), TaskError>(TaskError::NotRunning)
                    && final(self)@ == old(self)@)
                &&& (t.running ==> r == Ok::<(), TaskError>(()) && final(self)@ == old(
                    self,
                )@.update(i, t.spec_stopped(now)))
            }),
    {
        match self.index_of_id(id) {
            None => Err(TaskError::NotFound),
            Some(i) => {
                proof {
                    old(self)@.remove_ensures(i as int);
                    assert(old(self)@[i as int].wf());
                }
                let mut t = self.tasks.remove(i);
                let res = t.stop_at(now);
                self.tasks.insert(i, t);
                proof {
                    let nt = self@[i as int];
                    lemma_remove_insert_is_update(old(self)@, i as int, nt);
                    lemma_store_wf_update(old(self)@, i as int, nt);
                    if nt == old(self)@[i as int] {
                        assert(self@ =~= old(self)@);
                    }
                }
                res
            },
        }
    }

    /// Stops the timer of the task carrying `id` at the clock's present
    /// reading.
    pub fn stop_task(&mut self, id: u32) -> (r: Result<(), TaskError>)
        requires
            old(self).wf(),
        ensures
            final(self).wf(),
            !spec_has_id(old(self)@, id) ==> r == Err::<(), TaskError>(TaskError::NotFound)
                && final(self)@ == old(self)@,
            spec_has_id(old(self)@, id) ==> ({
                let i = spec_index_of_id(old(self)@, id);
                let t = old(self)@[i];
                &&& (!t.running ==> r == Err::<(), TaskError>(TaskError::NotRunning)
                    && final(self)@ == old(self)@)
                &&& (t.running ==> r == Ok::<(), TaskError>(()) && exists|now: u64|
                    final(self)@ == old(self)@.update(i, t.spec_stopped(now)))
            }),
    {
        let now: u64 = crate::clock::now_seconds();
        self.stop_task_at(id, now)
    }

    /// Stops the timer of the task carrying `id` and discards the time
    /// since its last start.
    pub fn cancel_task(&mut self, id: u32) -> (r: Result<(), TaskError>)
        requires
            old(self).wf(),
        ensures
            final(self).wf(),
            !spec_has_id(old(self)@, id) ==> r == Err::<(), TaskError>(TaskError::NotFound)
                && final(self)@ == old(self)@,
            spec_has_id(old(self)@, id) ==> ({
                let i = spec_index_of_id(old(self)@, id);
                let t = old(self)@[i];
                &&& (!t.running ==> r == Err::<(), TaskError>(TaskError::NotRunning)
                    && final(self)@ == old(self)@)
                &&& (t.running ==> r == Ok::<(), TaskError>(()) && final(self)@ == old(
                    self,
                )@.update(i, t.spec_cancelled()))
            }),
    {
        match self.index_of_id(id) {
            None => Err(TaskError::NotFound),
            Some(i) => {
                proof {
                    old(self)@.remove_ensures(i as int);
                    assert(old(self)@[i as int].wf());
                }
                let mut t = self.tasks.remove(i);
                let res = t.cancel();
                self.tasks.insert(i, t);
                proof {
                    let nt = self@[i as int];
                    lemma_remove_insert_is_update(old(self)@, i as int, nt);
                    lemma_store_wf_update(old(self)@, i as int, nt);
                    if nt == old(self)@[i as int] {
                        assert(self@ =~= old(self)@);
                    }
                }
                res
            },
        }
    }

    /// Renames the task carrying `id`.
    pub fn rename_task(&mut self, id: u32, task_name: &str) -> (r: Result<(), TaskError>)
        requires
            old(self).wf(),
        ensures
            final(self).wf(),
            !spec_has_id(old(self)@, id) ==> r == Err::<(), TaskError>(TaskError::NotFound)
                && final(self)@ == old(self)@,
            spec_has_id(old(self)@, id) ==> r == Ok::<(), TaskError>(()) && ({
                let i = spec_index_of_id(old(self)@, id);
                let t = old(self)@[i];
                let u = final(self)@[i];
                &&& final(self)@ == old(self)@.update(i, u)
                &&& u.id == t.id
                &&& u.name@ == task_name@
                &&& u.total_duration_seconds == t.total_duration_seconds
                &&& u.running == t.running
                &&& u.last_run == t.last_run
            }),
    {
        match self.index_of_id(id) {
            None => Err(TaskError::NotFound),
            Some(i) => {
                proof {
                    old(self)@.remove_ensures(i as int);
                    assert(old(self)@[i as int].wf());
                }
                let mut t = self.tasks.remove(i);
                t.rename(task_name);
                self.tasks.insert(i, t);
                proof {
                    let nt = self@[i as int];
                    lemma_remove_insert_is_update(old(self)@, i as int, nt);
                    lemma_store_wf_update(old(self)@, i as int, nt);
                }
                Ok(())
            },
        }
    }

    /// Sets the committed total of the task carrying `id` from a time
    /// token; refused while that task's timer runs.
    pub fn set_time(&mut self, id: u32, time: &str) -> (r: Result<(), TaskError>)
        requires
            old(self).wf(),
        ensures
            final(self).wf(),
            !spec_has_id(old(self)@, id) ==> r == Err::<(), TaskError>(TaskError::NotFound)
                && final(self)@ == old(self)@,
            spec_has_id(old(self)@, id) ==> ({
                let i = spec_index_of_id(old(self)@, id);
                let t = old(self)@[i];
                &&& (t.running ==> r == Err::<(), TaskError>(TaskError::TaskBusy) && final(self)@
                    == old(self)@)
                &&& (!t.running && spec_parse_token(time@) is None ==> r == Err::<(), TaskError>(
                    TaskError::InvalidFormat,
                ) && final(self)@ == old(self)@)
                &&& (!t.running && spec_parse_token(time@) is Some ==> r == Ok::<(), TaskError>(())
                    && final(self)@ == old(self)@.update(i, (Task {
                    total_duration_seconds: spec_parse_token(time@)->0,
                    ..t
                })))
            }),
    {
        match self.index_of_id(id) {
            None => Err(TaskError::NotFound),
            Some(i) => {
                proof {
                    old(self)@.remove_ensures(i as int);
                    assert(old(self)@[i as int].wf());
                }
                let mut t = self.tasks.remove(i);
                let res = t.set_time(time);
                self.tasks.insert(i, t);
                proof {
                    let nt = self@[i as int];
                    lemma_remove_insert_is_update(old(self)@, i as int, nt);
                    lemma_store_wf_update(old(self)@, i as int, nt);
                    if nt == old(self)@[i as int] {
                        assert(self@ =~= old(self)@);
                    }
                }
                res
            },
        }
    }

    /// Adds a time token's worth of seconds to the committed total of
    /// the task carrying `id`.
    pub fn add_time(&mut self, id: u32, time: &str) -> (r: Result<(), TaskError>)
        requires
            old(self).wf(),
        ensures
            final(self).wf(),
            !spec_has_id(old(self)@, id) ==> r == Err::<(), TaskError>(TaskError::NotFound)
                && final(self)@ == old(self)@,
            spec_has_id(old(self)@, id) ==> ({
                let i = spec_index_of_id(old(self)@, id);
                let t = old(self)@[i];
                &&& (spec_parse_token(time@) is None ==> r == Err::<(), TaskError>(
                    TaskError::InvalidFormat,
                ) && final(self)@ == old(self)@)
                &&& (spec_parse_token(time@) is Some ==> r == Ok::<(), TaskError>(())
                    && final(self)@ == old(self)@.update(i, (Task {
                    total_duration_seconds: sat_add64(
                        t.total_duration_seconds,
                        spec_parse_token(time@)->0,
                    ),
                    ..t
                })))
            }),
    {
        match self.index_of_id(id) {
            None => Err(TaskError::NotFound),
            Some(i) => {
                proof {
                    old(self)@.remove_ensures(i as int);
                    assert(old(self)@[i as int].wf());
                }
                let mut t = self.tasks.remove(i);
                let res = t.add_time(time);
                self.tasks.insert(i, t);
                proof {
                    let nt = self@[i as int];
                    lemma_remove_insert_is_update(old(self)@, i as int, nt);
                    lemma_store_wf_update(old(self)@, i as int, nt);
                    if nt == old(self)@[i as int] {
                        assert(self@ =~= old(self)@);
                    }
                }
                res
            },
        }
    }

    /// Subtracts a time token's worth of seconds from the committed
    /// total of the task carrying `id`; refused when more is asked than
    /// that task has.
    pub fn subtract_time(&mut self, id: u32, time: &str) -> (r: Result<(), TaskError>)
        requires
            old(self).wf(),
        ensures
            final(self).wf(),
            !spec_has_id(old(self)@, id) ==> r == Err::<(), TaskError>(TaskError::NotFound)
                && final(self)@ == old(self)@,
            spec_has_id(old(self)@, id) ==> ({
                let i = spec_index_of_id(old(self)@, id);
                let t = old(self)@[i];
                &&& (spec_parse_token(time@) is None ==> r == Err::<(), TaskError>(
                    TaskError::InvalidFormat,
                ) && final(self)@ == old(self)@)
                &&& (spec_parse_token(time@) is Some && spec_parse_token(time@)->0
                    > t.total_duration_seconds ==> r == Err::<(), TaskError>(
                    TaskError::InsufficientDuration,
                ) && final(self)@ == old(self)@)
                &&& (spec_parse_token(time@) is Some && spec_parse_token(time@)->0
                    <= t.total_duration_seconds ==> r == Ok::<(), TaskError>(()) && final(self)@
                    == old(self)@.update(i, (Task {
                    total_duration_seconds: (t.total_duration_seconds - spec_parse_token(
                        time@,
                    )->0) as u64,
                    ..t
                })))
            }),
    {
        match self.index_of_id(id) {
            None => Err(TaskError::NotFound),
            Some(i) => {
                proof {
                    old(self)@.remove_ensures(i as int);
                    assert(old(self)@[i as int].wf());
                }
                let mut t = self.tasks.remove(i);
                let res = t.subtract_time(time);
                self.tasks.insert(i, t);
                proof {
                    let nt = self@[i as int];
                    lemma_remove_insert_is_update(old(self)@, i as int, nt);
                    lemma_store_wf_update(old(self)@, i as int, nt);
                    if nt == old(self)@[i as int] {
                        assert(self@ =~= old(self)@);
                    }
                }
                res
            },
        }
    }

    /// Moves the task carrying `id` into `target` under a fresh
    /// target-local id, and removes it here; refused while the task's
    /// timer runs, and then both stores are left unchanged. The archived
    /// copy does not keep its original id. The target needs id headroom
    /// only where something is moved: when the task exists and is
    /// stopped.
    pub fn archive_task(&mut self, id: u32, target: &mut TaskStore) -> (r: Result<
        u32,
        TaskError,
    >)
        requires
            old(self).wf(),
            old(target).wf(),
            spec_has_id(old(self)@, id) && !old(self)@[spec_index_of_id(
                old(self)@,
                id,
            )].running ==> spec_id_headroom(old(target)@),
        ensures
            final(self).wf(),
            final(target).wf(),
            !spec_has_id(old(self)@, id) ==> r == Err::<u32, TaskError>(TaskError::NotFound)
                && final(self)@ == old(self)@ && final(target)@ == old(target)@,
            spec_has_id(old(self)@, id) ==> ({
                let i = spec_index_of_id(old(self)@, id);
                let t = old(self)@[i];
                &&& (t.running ==> r == Err::<u32, TaskError>(TaskError::TaskBusy) && final(self)@
                    == old(self)@ && final(target)@ == old(target)@)
                &&& (!t.running ==> (r matches Ok(aid) && aid as int == spec_alloc_id(
                    old(target)@,
                ) && final(self)@ == old(self)@.remove(i) && final(target)@ == old(
                    target,
                )@.push((Task { id: aid, ..t }))))
            }),
    {
        match self.index_of_id(id) {
            None => Err(TaskError::NotFound),
            Some(i) => {
                if self.tasks[i].running {
                    return Err(TaskError::TaskBusy);
                }
                let aid: u32 = target.find_new_unique_id();
                proof {
                    old(self)@.remove_ensures(i as int);
                }
                let t = self.tasks.remove(i);
                let archived = Task {
                    id: aid,
                    name: t.name,
                    total_duration_seconds: t.total_duration_seconds,
                    running: t.running,
                    last_run: t.last_run,
                };
                target.tasks.push(archived);
                proof {
                    lemma_store_wf_remove(old(self)@, i as int);
                    lemma_store_wf_push(old(target)@, target@.last());
                }
                Ok(aid)
            },
        }
    }

    /// The tasks a listing shows: every running task, or every task when
    /// `show_all` is set, in ascending id order, one rendered line each,
    /// together with the saturating sum of their display durations as of
    /// the moment `now`.
    pub fn list_tasks_at(
        &self,
        now: u64,
        show_all: bool,
        show_timestamp: bool,
        show_base_timer: bool,
    ) -> (r: ListReport)
        requires
            self.wf(),
        ensures
            spec_list_report_ok(self@, r, now, show_all, show_timestamp, show_base_timer),
    {
        let n: usize = self.tasks.len();
        let mut lines: Vec<String> = Vec::new();
        let mut total: u64 = 0;
        let mut i: usize = 0;
        while i < n
            invariant
                i <= n,
                n == self@.len(),
                self.wf(),
                lines@.len() == spec_selected(self@.subrange(0, i as int), show_all).len(),
                total == spec_total_duration(
                    spec_selected(self@.subrange(0, i as int), show_all),
                    now,
                ),
                forall|k: int|
                    0 <= k < lines@.len() ==> spec_line_ok(
                        spec_selected(self@.subrange(0, i as int), show_all)[k],
                        #[trigger] lines@[k]@,
                        now,
                        show_timestamp,
                        show_base_timer,
                    ),
            decreases n - i,
        {
            proof {
                assert(self@.subrange(0, i + 1).drop_last() =~= self@.subrange(0, i as int));
                assert(self@.subrange(0, i + 1).last() == self@[i as int]);
            }
            let t = &self.tasks[i];
            proof {
                assert(self@[i as int].wf());
            }
            if t.running || show_all {
                let d: u64 = t.current_duration_at(now);
                total = total.saturating_add(d);
                let line = if show_timestamp {
                    match t.last_run {
                        Some(lr) => {
                            let rendered = format_local_datetime(lr);
                            let l = t.to_print_string_at(
                                now,
                                Some(rendered.as_str()),
                                show_base_timer,
                            );
                            proof {
                                assert(l@ == spec_print_line(
                                    self@[i as int],
                                    self@[i as int].spec_current_duration(now),
                                    show_base_timer,
                                    " - Last time: "@ + rendered@,
                                ));
                            }
                            l
                        },
                        None => t.to_print_string_at(now, None, show_base_timer),
                    }
                } else {
                    t.to_print_string_at(now, None, show_base_timer)
                };
                lines.push(line);
                proof {
                    let sel = spec_selected(self@.subrange(0, i as int), show_all);
                    let nsel = spec_selected(self@.subrange(0, i + 1), show_all);
                    assert(nsel == sel.push(self@[i as int]));
                    assert(nsel.drop_last() =~= sel);
                }
            }
            i += 1;
        }
        proof {
            assert(self@.subrange(0, n as int) =~= self@);
        }
        ListReport { lines, total_seconds: total }
    }

    /// The listing as of the clock's present reading.
    pub fn list_tasks(&self, show_all: bool, show_timestamp: bool, show_base_timer: bool) -> (r:
        ListReport)
        requires
            self.wf(),
        ensures
            exists|now: u64|
                spec_list_report_ok(self@, r, now, show_all, show_timestamp, show_base_timer),
    {
        let now: u64 = crate::clock::now_seconds();
        let r = self.list_tasks_at(now, show_all, show_timestamp, show_base_timer);
        proof {
            assert(spec_list_report_ok(self@, r, now, show_all, show_timestamp, show_base_timer));
        }
        r
    }

    /// Empties the store.
    pub fn clear(&mut self)
        ensures
            final(self).wf(),
            final(self)@ == Seq::<Task>::empty(),
    {
        self.tasks.clear();
        proof {
            assert(self@ =~= Seq::<Task>::empty());
        }
    }
}

/// Removing a task and putting another back at the same index is an
/// update at that index.
proof fn lemma_remove_insert_is_update(s: Seq<Task>, i: int, x: Task)
    requires
        0 <= i < s.len(),
    ensures
        s.remove(i).insert(i, x) == s.update(i, x),
{
    s.remove_ensures(i);
    s.remove(i).insert_ensures(i, x);
    let a = s.remove(i).insert(i, x);
    let b = s.update(i, x);
    assert forall|j: int| 0 <= j < a.len() implies a[j] == b[j] by {
        if j < i {
            assert(a[j] == s.remove(i)[j]);
        } else if j > i {
            assert(a[(j - 1) + 1] == s.remove(i)[j - 1]);
            assert(s.remove(i)[j - 1] == s[(j - 1) + 1]);
        }
    }
    assert(a =~= b);
}

/// Replacing a task by one carrying the same id leaves the store well
/// formed.
proof fn lemma_store_wf_update(s: Seq<Task>, i: int, t: Task)
    requires
        spec_store_wf(s),
        0 <= i < s.len(),
        t.id == s[i].id,
        t.wf(),
    ensures
        spec_store_wf(s.update(i, t)),
{
    let ns = s.update(i, t);
    assert forall|a: int, b: int| 0 <= a < b < ns.len() implies #[trigger] ns[a].id
        < #[trigger] ns[b].id by {
        assert(s[a].id < s[b].id);
    }
    assert forall|a: int| 0 <= a < ns.len() implies (#[trigger] ns[a]).wf() by {
        if a != i {
            assert(ns[a] == s[a]);
        }
    }
}

/// A name that occurs at some index is counted at least once.
proof fn lemma_count_name_pos(s: Seq<Task>, name: Seq<char>, a: int)
    requires
        0 <= a < s.len(),
        s[a].name@ == name,
    ensures
        spec_count_name(s, name) >= 1,
    decreases s.len(),
{
    if a < s.len() - 1 {
        lemma_count_name_pos(s.drop_last(), name, a);
    }
}

/// A name that occurs at two indices is counted at least twice.
proof fn lemma_count_name_two(s: Seq<Task>, name: Seq<char>, a: int, b: int)
    requires
        0 <= a < b < s.len(),
        s[a].name@ == name,
        s[b].name@ == name,
    ensures
        spec_count_name(s, name) >= 2,
    decreases s.len(),
{
    if b == s.len() - 1 {
        lemma_count_name_pos(s.drop_last(), name, a);
    } else {
        lemma_count_name_two(s.drop_last(), name, a, b);
    }
}

/// Counting one more task counts its name.
proof fn lemma_count_name_step(s: Seq<Task>, name: Seq<char>, k: int)
    requires
        0 <= k < s.len(),
    ensures
        spec_count_name(s.subrange(0, k + 1), name) == spec_count_name(s.subrange(0, k), name) + (
        if s[k].name@ == name {
            1nat
        } else {
            0nat
        }),
{
    assert(s.subrange(0, k + 1).drop_last() =~= s.subrange(0, k));
    assert(s.subrange(0, k + 1).last() == s[k]);
}

/// Appending a task whose id is above every held id keeps the store
/// well formed.
proof fn lemma_store_wf_push(s: Seq<Task>, t: Task)
    requires
        spec_store_wf(s),
        t.wf(),
        forall|i: int| 0 <= i < s.len() ==> #[trigger] s[i].id < t.id,
    ensures
        spec_store_wf(s.push(t)),
{
    let ns = s.push(t);
    assert forall|a: int, b: int| 0 <= a < b < ns.len() implies #[trigger] ns[a].id
        < #[trigger] ns[b].id by {
        if b < ns.len() - 1 {
            assert(ns[a] == s[a] && ns[b] == s[b]);
        } else {
            assert(ns[a] == s[a]);
            assert(ns[b] == t);
        }
    }
    assert forall|a: int| 0 <= a < ns.len() implies (#[trigger] ns[a]).wf() by {
        if a < ns.len() - 1 {
            assert(ns[a] == s[a]);
        }
    }
}

/// Removing any task from a well-formed store leaves it well formed.
proof fn lemma_store_wf_remove(s: Seq<Task>, i: int)
    requires
        spec_store_wf(s),
        0 <= i < s.len(),
    ensures
        spec_store_wf(s.remove(i)),
{
    s.remove_ensures(i);
    let ns = s.remove(i);
    assert forall|a: int, b: int| 0 <= a < b < ns.len() implies #[trigger] ns[a].id
        < #[trigger] ns[b].id by {
        let oa = if a < i {
            a
        } else {
            a + 1
        };
        let ob = if b < i {
            b
        } else {
            b + 1
        };
        assert(ns[a] == s[oa] && ns[b] == s[ob]);
    }
    assert forall|a: int| 0 <= a < ns.len() implies (#[trigger] ns[a]).wf() by {
        let oa = if a < i {
            a
        } else {
            a + 1
        };
        assert(ns[a] == s[oa]);
    }
}

} // verus!
