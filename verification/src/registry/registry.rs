//! The task registry: tasks keyed by their id.
use vstd::prelude::*;
use crate::clock::{UtcTime, MAX_SECS, MIN_SECS};
use crate::parser::schedule::{next_occurrence, next_spec, occurrence_defined};
use crate::text::{chars_eq, chars_of, lemma_insert_multiset};
use crate::types::Task;

verus! {

/// The ids of a sequence of tasks.
pub open spec fn task_ids(s: Seq<Task>) -> Seq<Seq<char>> {
    s.map_values(|t: Task| t.id@)
}

/// No two tasks share an id.
pub open spec fn distinct_ids(s: Seq<Task>) -> bool {
    task_ids(s).no_duplicates()
}

/// A position of a task with id `k`.
pub open spec fn index_of_id(s: Seq<Task>, k: Seq<char>) -> int {
    choose|i: int| 0 <= i < s.len() && s[i].id@ == k
}

/// The tasks of `s` keyed by id.
pub open spec fn task_map(s: Seq<Task>) -> Map<Seq<char>, Task> {
    Map::new(|k: Seq<char>| task_ids(s).contains(k), |k: Seq<char>| s[index_of_id(s, k)])
}

/// The tasks of references.
pub open spec fn derefs(s: Seq<&Task>) -> Seq<Task> {
    Seq::new(s.len(), |i: int| *s[i])
}

/// The map obtained by registering the tasks of `s` in order into `m`
/// (a later task replaces an earlier one with the same id).
pub open spec fn registered(m: Map<Seq<char>, Task>, s: Seq<Task>) -> Map<Seq<char>, Task>
    decreases s.len(),
{
    if s.len() == 0 {
        m
    } else {
        registered(m, s.drop_last()).insert(s.last().id@, s.last())
    }
}

/// How many of the tasks are enabled.
pub open spec fn count_enabled(s: Seq<Task>) -> nat
    decreases s.len(),
{
    if s.len() == 0 {
        0
    } else {
        count_enabled(s.drop_last()) + if s.last().enabled {
            1nat
        } else {
            0nat
        }
    }
}

/// A task is due when it is enabled and its next occurrence after `from`
/// falls no later than `deadline`.
pub open spec fn is_due(t: Task, from: UtcTime, deadline: UtcTime) -> bool {
    &&& t.enabled
    &&& next_spec(t.schedule@, from) matches Some(n)
    &&& n@ <= deadline@
}

/// The due tasks of `s`, in order.
pub open spec fn due_among(s: Seq<Task>, from: UtcTime, deadline: UtcTime) -> Seq<Task>
    decreases s.len(),
{
    if s.len() == 0 {
        Seq::empty()
    } else if is_due(s.last(), from, deadline) {
        due_among(s.drop_last(), from, deadline).push(s.last())
    } else {
        due_among(s.drop_last(), from, deadline)
    }
}

/// The enabled tasks of `s` that have a next occurrence after `from`,
/// paired with it, in order.
pub open spec fn scheduled_among(s: Seq<Task>, from: UtcTime) -> Seq<(Task, UtcTime)>
    decreases s.len(),
{
    if s.len() == 0 {
        Seq::empty()
    } else {
        let rest = scheduled_among(s.drop_last(), from);
        if s.last().enabled && next_spec(s.last().schedule@, from) is Some {
            rest.push((s.last(), next_spec(s.last().schedule@, from)->0))
        } else {
            rest
        }
    }
}

/// Pairs of references, read as pairs of tasks.
pub open spec fn deref_pairs(s: Seq<(&Task, UtcTime)>) -> Seq<(Task, UtcTime)> {
    Seq::new(s.len(), |i: int| (*s[i].0, s[i].1))
}

/// Ordered by instant, earliest first.
pub open spec fn sorted_by_time(s: Seq<(Task, UtcTime)>) -> bool {
    forall|i: int, j: int| 0 <= i < j < s.len() ==> s[i].1@ <= s[j].1@
}

/// Whether the schedules of the enabled tasks of `s` can be evaluated at
/// `from`.
pub open spec fn schedules_defined(s: Seq<Task>, from: UtcTime) -> bool {
    forall|i: int| 0 <= i < s.len() && s[i].enabled ==> occurrence_defined(#[trigger] s[i].schedule@, from)
}

/// In-memory registry of tasks, keyed by id; each id appears once.
#[derive(Debug)]
pub struct TaskRegistry {
    tasks: Vec<Task>,
}

impl View for TaskRegistry {
    type V = Map<Seq<char>, Task>;

    closed spec fn view(&self) -> Map<Seq<char>, Task> {
        task_map(self.tasks@)
    }
}

proof fn lemma_index_of_id(s: Seq<Task>, i: int)
    requires
        distinct_ids(s),
        0 <= i < s.len(),
    ensures
        index_of_id(s, s[i].id@) == i,
        task_ids(s).contains(s[i].id@),
{
    assert(task_ids(s)[i] == s[i].id@);
    let j = index_of_id(s, s[i].id@);
    assert(0 <= j < s.len() && s[j].id@ == s[i].id@);
    assert(task_ids(s)[j] == task_ids(s)[i]);
}

proof fn lemma_map_dom(s: Seq<Task>)
    requires
        distinct_ids(s),
    ensures
        task_map(s).dom() == task_ids(s).to_set(),
        task_map(s).dom().finite(),
        task_map(s).dom().len() == s.len(),
{
    assert(task_map(s).dom() =~= task_ids(s).to_set());
    task_ids(s).unique_seq_to_set();
    vstd::seq_lib::seq_to_set_is_finite(task_ids(s));
}

proof fn lemma_map_lookup(s: Seq<Task>)
    requires
        distinct_ids(s),
    ensures
        forall|i: int| 0 <= i < s.len() ==> #[trigger] task_map(s).contains_key(s[i].id@) && task_map(s)[s[i].id@] == s[i],
        forall|k: Seq<char>| #[trigger] task_map(s).contains_key(k) ==> exists|i: int| 0 <= i < s.len() && s[i].id@ == k,
{
    assert forall|i: int| 0 <= i < s.len() implies #[trigger] task_map(s).contains_key(s[i].id@) && task_map(s)[s[i].id@] == s[i] by {
        lemma_index_of_id(s, i);
    }
    assert forall|k: Seq<char>| #[trigger] task_map(s).contains_key(k) implies exists|i: int| 0 <= i < s.len() && s[i].id@ == k by {
        let j = choose|j: int| 0 <= j < task_ids(s).len() && task_ids(s)[j] == k;
        assert(s[j].id@ == k);
    }
}

proof fn lemma_push(s: Seq<Task>, t: Task)
    requires
        distinct_ids(s),
        !task_ids(s).contains(t.id@),
    ensures
        distinct_ids(s.push(t)),
        task_map(s.push(t)) == task_map(s).insert(t.id@, t),
{
    let s2 = s.push(t);
    assert(task_ids(s2) =~= task_ids(s).push(t.id@));
    assert forall|i: int, j: int| 0 <= i < task_ids(s2).len() && 0 <= j < task_ids(s2).len() && i != j implies task_ids(s2)[i] != task_ids(s2)[j] by {
        if i < s.len() && j < s.len() {
            assert(task_ids(s2)[i] == task_ids(s)[i]);
            assert(task_ids(s2)[j] == task_ids(s)[j]);
        } else if i < s.len() {
            assert(task_ids(s2)[i] == task_ids(s)[i]);
        } else if j < s.len() {
            assert(task_ids(s2)[j] == task_ids(s)[j]);
        }
    }
    lemma_map_lookup(s);
    lemma_map_lookup(s2);
    assert forall|k: Seq<char>| #[trigger] task_map(s2).contains_key(k) == task_map(s).insert(t.id@, t).contains_key(k) by {
        if task_map(s2).contains_key(k) {
            let i = choose|i: int| 0 <= i < s2.len() && s2[i].id@ == k;
            if i < s.len() {
                assert(s2[i] == s[i]);
            }
        }
        if task_map(s).contains_key(k) {
            let i = choose|i: int| 0 <= i < s.len() && s[i].id@ == k;
            assert(s2[i] == s[i]);
        }
        if k == t.id@ {
            assert(s2[s.len() as int] == t);
        }
    }
    assert forall|k: Seq<char>| #[trigger] task_map(s2).contains_key(k) implies task_map(s2)[k] == task_map(s).insert(t.id@, t)[k] by {
        let i = choose|i: int| 0 <= i < s2.len() && s2[i].id@ == k;
        if i < s.len() {
            assert(s2[i] == s[i]);
            assert(task_ids(s)[i] == k);
        } else {
            assert(s2[i] == t);
        }
    }
    assert(task_map(s2) =~= task_map(s).insert(t.id@, t));
}

proof fn lemma_update(s: Seq<Task>, i: int, t: Task)
    requires
        distinct_ids(s),
        0 <= i < s.len(),
        s[i].id@ == t.id@,
    ensures
        distinct_ids(s.update(i, t)),
        task_map(s.update(i, t)) == task_map(s).insert(t.id@, t),
{
    let s2 = s.update(i, t);
    assert(task_ids(s2) =~= task_ids(s));
    lemma_map_lookup(s);
    lemma_map_lookup(s2);
    assert forall|k: Seq<char>| #[trigger] task_map(s2).contains_key(k) implies task_map(s2)[k] == task_map(s).insert(t.id@, t)[k] by {
        let j = choose|j: int| 0 <= j < s2.len() && s2[j].id@ == k;
        if j != i {
            assert(s2[j] == s[j]);
            assert(task_ids(s)[j] != task_ids(s)[i]);
            assert(task_map(s).contains_key(s[j].id@));
        } else {
            assert(s2[j] == t);
        }
    }
    assert forall|k: Seq<char>| #[trigger] task_map(s2).contains_key(k) == task_map(s).insert(t.id@, t).contains_key(k) by {
        if task_map(s).contains_key(k) {
            let j = choose|j: int| 0 <= j < s.len() && s[j].id@ == k;
            assert(task_ids(s2)[j] == k);
        }
        if k == t.id@ {
            assert(task_ids(s2)[i] == k);
        }
    }
    assert(task_map(s2) =~= task_map(s).insert(t.id@, t));
}

proof fn lemma_remove(s: Seq<Task>, i: int)
    requires
        distinct_ids(s),
        0 <= i < s.len(),
    ensures
        distinct_ids(s.remove(i)),
        task_map(s.remove(i)) == task_map(s).remove(s[i].id@),
{
    let s2 = s.remove(i);
    assert(task_ids(s2) =~= task_ids(s).remove(i));
    assert forall|a: int, b: int| 0 <= a < task_ids(s2).len() && 0 <= b < task_ids(s2).len() && a != b implies task_ids(s2)[a] != task_ids(s2)[b] by {
        let a2 = if a < i { a } else { a + 1 };
        let b2 = if b < i { b } else { b + 1 };
        assert(task_ids(s2)[a] == task_ids(s)[a2]);
        assert(task_ids(s2)[b] == task_ids(s)[b2]);
    }
    lemma_map_lookup(s);
    lemma_map_lookup(s2);
    assert forall|k: Seq<char>| #[trigger] task_map(s2).contains_key(k) == task_map(s).remove(s[i].id@).contains_key(k) by {
        if task_map(s2).contains_key(k) {
            let j = choose|j: int| 0 <= j < s2.len() && s2[j].id@ == k;
            let j2 = if j < i { j } else { j + 1 };
            assert(s2[j] == s[j2]);
            assert(task_ids(s)[j2] != task_ids(s)[i]);
        }
        if task_map(s).contains_key(k) && k != s[i].id@ {
            let j = choose|j: int| 0 <= j < s.len() && s[j].id@ == k;
            assert(j != i);
            let j2 = if j < i { j } else { j - 1 };
            assert(s2[j2] == s[j]);
        }
    }
    assert forall|k: Seq<char>| #[trigger] task_map(s2).contains_key(k) implies task_map(s2)[k] == task_map(s).remove(s[i].id@)[k] by {
        let j = choose|j: int| 0 <= j < s2.len() && s2[j].id@ == k;
        let j2 = if j < i { j } else { j + 1 };
        assert(s2[j] == s[j2]);
        assert(task_ids(s)[j2] == k);
    }
    assert(task_map(s2) =~= task_map(s).remove(s[i].id@));
}

/// Whether a task's id is `id`.
fn has_id(t: &Task, id: &Vec<char>) -> (b: bool)
    ensures
        b == (t.id@ == id@),
{
    let cs = chars_of(t.id.as_str());
    chars_eq(&cs, id)
}

impl TaskRegistry {
    /// Each id appears once.
    pub closed spec fn wf(&self) -> bool {
        distinct_ids(self.tasks@)
    }

    /// The tasks, in registry order.
    pub closed spec fn entries(&self) -> Seq<Task> {
        self.tasks@
    }

    /// The entries are the map's tasks, each once, each under its own id.
    pub proof fn lemma_entries(&self)
        requires
            self.wf(),
        ensures
            distinct_ids(self.entries()),
            self@ == task_map(self.entries()),
            self@.dom() == task_ids(self.entries()).to_set(),
            self@.dom().finite(),
            self@.dom().len() == self.entries().len(),
            forall|i: int| 0 <= i < self.entries().len() ==> #[trigger] self@.contains_key(self.entries()[i].id@) && self@[self.entries()[i].id@] == self.entries()[i],
            forall|k: Seq<char>| #[trigger] self@.contains_key(k) ==> self@[k].id@ == k,
    {
        lemma_map_dom(self.tasks@);
        lemma_map_lookup(self.tasks@);
        assert forall|k: Seq<char>| #[trigger] self@.contains_key(k) implies self@[k].id@ == k by {
            let i = choose|i: int| 0 <= i < self.tasks@.len() && self.tasks@[i].id@ == k;
            lemma_index_of_id(self.tasks@, i);
        }
    }

    /// Position of the task with id `id`.
    fn position(&self, id: &Vec<char>) -> (r: Option<usize>)
        requires
            self.wf(),
        ensures
            r matches Some(i) ==> i < self.tasks@.len() && self.tasks@[i as int].id@ == id@,
            r is None ==> !self@.contains_key(id@),
    {
        let mut i: usize = 0;
        while i < self.tasks.len()
            invariant
                i <= self.tasks@.len(),
                forall|j: int| 0 <= j < i ==> self.tasks@[j].id@ != id@,
            decreases self.tasks.len() - i,
        {
            if has_id(&self.tasks[i], id) {
                return Some(i);
            }
            i = i + 1;
        }
        proof {
            if self@.contains_key(id@) {
                let j = choose|j: int| 0 <= j < task_ids(self.tasks@).len() && task_ids(self.tasks@)[j] == id@;
                assert(self.tasks@[j].id@ == id@);
            }
        }
        None
    }

    /// An empty registry.
    pub fn new() -> (r: TaskRegistry)
        ensures
            r.wf(),
            r@ == Map::<Seq<char>, Task>::empty(),
            r.entries() == Seq::<Task>::empty(),
    {
        let r = TaskRegistry { tasks: Vec::new() };
        assert(r@ =~= Map::<Seq<char>, Task>::empty());
        r
    }

    /// Registers `task` under its id, replacing (and returning) a task with
    /// the same id.
    pub fn register(&mut self, task: Task) -> (r: Option<Task>)
        requires
            old(self).wf(),
        ensures
            final(self).wf(),
            final(self)@ == old(self)@.insert(task.id@, task),
            r == (if old(self)@.contains_key(task.id@) {
                Some(old(self)@[task.id@])
            } else {
                None
            }),
    {
        let id = chars_of(task.id.as_str());
        match self.position(&id) {
            Some(i) => {
                proof {
                    lemma_update(self.tasks@, i as int, task);
                    lemma_map_lookup(self.tasks@);
                }
                let old_task = self.tasks.remove(i);
                self.tasks.insert(i, task);
                assert(self.tasks@ =~= old(self).tasks@.update(i as int, task));
                Some(old_task)
            },
            None => {
                proof {
                    assert(!task_ids(self.tasks@).contains(task.id@));
                    lemma_push(self.tasks@, task);
                }
                self.tasks.push(task);
                None
            },
        }
    }

    /// A registry holding `tasks`, registered in order.
    pub fn from_tasks(tasks: Vec<Task>) -> (r: TaskRegistry)
        ensures
            r.wf(),
            r@ == registered(Map::empty(), tasks@),
    {
        let mut registry = TaskRegistry::new();
        let mut i: usize = 0;
        let mut rest = tasks;
        let ghost all = rest@;
        let mut pending: Vec<Task> = Vec::new();
        let n = rest.len();
        assert(all.len() == n);
        // register in order: move the tasks into a stack reversed
        while rest.len() > 0
            invariant
                all.len() <= usize::MAX,
                pending@.len() + rest@.len() == all.len(),
                forall|j: int| 0 <= j < rest@.len() ==> rest@[j] == all[j],
                forall|j: int| 0 <= j < pending@.len() ==> pending@[j] == all[all.len() - 1 - j],
            decreases rest.len(),
        {
            let t = rest.pop().unwrap();
            pending.push(t);
        }
        while pending.len() > 0
            invariant
                all.len() <= usize::MAX,
                registry.wf(),
                i + pending@.len() == all.len(),
                forall|j: int| 0 <= j < pending@.len() ==> pending@[j] == all[all.len() - 1 - j],
                registry@ == registered(Map::empty(), all.take(i as int)),
            decreases pending.len(),
        {
            let t = pending.pop().unwrap();
            assert(t == all[i as int]);
            assert(all.take(i + 1).drop_last() =~= all.take(i as int));
            registry.register(t);
            i = i + 1;
        }
        assert(all.take(all.len() as int) =~= all);
        registry
    }

    /// Removes (and returns) the task with id `id`.
    pub fn unregister(&mut self, id: &str) -> (r: Option<Task>)
        requires
            old(self).wf(),
        ensures
            final(self).wf(),
            final(self)@ == old(self)@.remove(id@),
            r == (if old(self)@.contains_key(id@) {
                Some(old(self)@[id@])
            } else {
                None
            }),
    {
        let key = chars_of(id);
        match self.position(&key) {
            Some(i) => {
                proof {
                    lemma_remove(self.tasks@, i as int);
                    lemma_map_lookup(self.tasks@);
                }
                let t = self.tasks.remove(i);
                Some(t)
            },
            None => {
                assert(self@ =~= old(self)@.remove(id@));
                None
            },
        }
    }

    /// The task with id `id`.
    pub fn get(&self, id: &str) -> (r: Option<&Task>)
        requires
            self.wf(),
        ensures
            r is Some <==> self@.contains_key(id@),
            r matches Some(t) ==> *t == self@[id@],
    {
        let key = chars_of(id);
        match self.position(&key) {
            Some(i) => {
                proof {
                    lemma_map_lookup(self.tasks@);
                    assert(self@.contains_key(self.tasks@[i as int].id@));
                }
                Some(&self.tasks[i])
            },
            None => None,
        }
    }

    /// All tasks, each once, in registry order.
    pub fn all_tasks(&self) -> (r: Vec<&Task>)
        requires
            self.wf(),
        ensures
            derefs(r@) == self.entries(),
    {
        let mut r: Vec<&Task> = Vec::new();
        let mut i: usize = 0;
        while i < self.tasks.len()
            invariant
                i <= self.tasks@.len(),
                derefs(r@) == self.tasks@.take(i as int),
                r@.len() == i,
            decreases self.tasks.len() - i,
        {
            let ghost prev = r@;
            let t: &Task = &self.tasks[i];
            assert(*t == self.tasks@[i as int]);
            r.push(t);
            assert(r@ == prev.push(t));
            i = i + 1;
            assert forall|j: int| 0 <= j < i implies derefs(r@)[j] == self.tasks@.take(i as int)[j] by {
                if j < i - 1 {
                    assert(r@[j] == prev[j]);
                    assert(derefs(prev)[j] == *prev[j]);
                }
            }
            assert(derefs(r@) =~= self.tasks@.take(i as int));
        }
        assert(self.tasks@.take(self.tasks.len() as int) =~= self.tasks@);
        r
    }

    /// Sets whether the task with id `id` is enabled; `false` when there is
    /// no such task.
    pub fn set_enabled(&mut self, id: &str, enabled: bool) -> (found: bool)
        requires
            old(self).wf(),
        ensures
            final(self).wf(),
            found == old(self)@.contains_key(id@),
            found ==> final(self)@ == old(self)@.insert(id@, Task { enabled, ..old(self)@[id@] }),
            !found ==> final(self)@ == old(self)@,
            task_ids(final(self).entries()) == task_ids(old(self).entries()),
    {
        let key = chars_of(id);
        match self.position(&key) {
            Some(i) => {
                let mut t = self.tasks.remove(i);
                let ghost before = t;
                t.enabled = enabled;
                proof {
                    lemma_map_lookup(old(self).tasks@);
                    assert(old(self)@.contains_key(old(self).tasks@[i as int].id@));
                    assert(before == old(self)@[id@]);
                    lemma_update(old(self).tasks@, i as int, t);
                }
                self.tasks.insert(i, t);
                assert(self.tasks@ =~= old(self).tasks@.update(i as int, t));
                assert(task_ids(self.tasks@) =~= task_ids(old(self).tasks@));
                true
            },
            None => false,
        }
    }

    /// Number of tasks.
    pub fn len(&self) -> (n: usize)
        requires
            self.wf(),
        ensures
            n == self@.dom().len(),
            n == self.entries().len(),
    {
        proof {
            lemma_map_dom(self.tasks@);
        }
        self.tasks.len()
    }

    /// Whether there is no task.
    pub fn is_empty(&self) -> (b: bool)
        requires
            self.wf(),
        ensures
            b == (self@.dom().len() == 0),
    {
        proof {
            lemma_map_dom(self.tasks@);
        }
        self.tasks.len() == 0
    }

    /// Number of enabled tasks.
    pub fn active_count(&self) -> (n: usize)
        requires
            self.wf(),
        ensures
            n == count_enabled(self.entries()),
            n <= self@.dom().len(),
    {
        proof {
            lemma_map_dom(self.tasks@);
        }
        let mut n: usize = 0;
        let mut i: usize = 0;
        while i < self.tasks.len()
            invariant
                i <= self.tasks@.len(),
                n == count_enabled(self.tasks@.take(i as int)),
                n <= i,
            decreases self.tasks.len() - i,
        {
            assert(self.tasks@.take(i + 1).drop_last() =~= self.tasks@.take(i as int));
            if self.tasks[i].enabled {
                n = n + 1;
            }
            i = i + 1;
        }
        assert(self.tasks@.take(self.tasks.len() as int) =~= self.tasks@);
        n
    }

    /// The enabled tasks whose next occurrence after `from` falls within
    /// `window_secs` seconds of `from`, in registry order.
    pub fn due_tasks(&self, from: UtcTime, window_secs: i64) -> (r: Vec<&Task>)
        requires
            self.wf(),
            from.wf(),
            -(i64::MAX / 1000) <= window_secs <= i64::MAX / 1000,
            MIN_SECS <= from.secs + window_secs <= MAX_SECS,
            schedules_defined(self.entries(), from),
        ensures
            derefs(r@) == due_among(self.entries(), from, from.plus_secs_spec(window_secs)),
    {
        let deadline = from.plus_secs(window_secs);
        let mut r: Vec<&Task> = Vec::new();
        let mut i: usize = 0;
        while i < self.tasks.len()
            invariant
                i <= self.tasks@.len(),
                from.wf(),
                deadline.wf(),
                deadline == from.plus_secs_spec(window_secs),
                schedules_defined(self.tasks@, from),
                derefs(r@) == due_among(self.tasks@.take(i as int), from, deadline),
            decreases self.tasks.len() - i,
        {
            assert(self.tasks@.take(i + 1).drop_last() =~= self.tasks@.take(i as int));
            let task = &self.tasks[i];
            if task.enabled {
                assert(occurrence_defined(self.tasks@[i as int].schedule@, from));
                match next_occurrence(&task.schedule, from) {
                    Some(next) => {
                        if next.le(&deadline) {
                            r.push(task);
                        }
                    },
                    None => {},
                }
            }
            i = i + 1;
            assert(derefs(r@) =~= due_among(self.tasks@.take(i as int), from, deadline));
        }
        assert(self.tasks@.take(self.tasks.len() as int) =~= self.tasks@);
        r
    }
}

/// Inserts `item` after the elements not later than it, keeping `r`
/// ordered by instant.
fn insert_by_time<'a>(r: &mut Vec<(&'a Task, UtcTime)>, item: (&'a Task, UtcTime))
    requires
        item.1.wf(),
        forall|k: int| 0 <= k < old(r)@.len() ==> (#[trigger] old(r)@[k]).1.wf(),
        sorted_by_time(deref_pairs(old(r)@)),
    ensures
        forall|k: int| 0 <= k < final(r)@.len() ==> (#[trigger] final(r)@[k]).1.wf(),
        sorted_by_time(deref_pairs(final(r)@)),
        deref_pairs(final(r)@).to_multiset() == deref_pairs(old(r)@).to_multiset().insert((*item.0, item.1)),
{
    let mut p: usize = 0;
    let mut stop = false;
    while !stop && p < r.len()
        invariant
            p <= r@.len(),
            r@ == old(r)@,
            item.1.wf(),
            sorted_by_time(deref_pairs(r@)),
            forall|k: int| 0 <= k < r@.len() ==> (#[trigger] r@[k]).1.wf(),
            forall|k: int| 0 <= k < p ==> (#[trigger] r@[k]).1@ <= item.1@,
            stop ==> p < r@.len() && item.1@ < r@[p as int].1@,
        decreases r@.len() - p + (if stop { 0int } else { 1int }),
    {
        if r[p].1.le(&item.1) {
            p = p + 1;
        } else {
            stop = true;
        }
    }
    proof {
        // every element from p on is later than item
        assert forall|k: int| p <= k < r@.len() implies item.1@ < (#[trigger] r@[k]).1@ by {
            assert(deref_pairs(r@)[p as int].1 == r@[p as int].1);
            assert(deref_pairs(r@)[k].1 == r@[k].1);
        }
    }
    let ghost before = r@;
    r.insert(p, item);
    proof {
        assert(deref_pairs(r@) =~= deref_pairs(before).insert(p as int, (*item.0, item.1)));
        lemma_insert_multiset(deref_pairs(before), p as int, (*item.0, item.1));
        assert forall|i: int, j: int| 0 <= i < j < deref_pairs(r@).len() implies deref_pairs(r@)[i].1@ <= deref_pairs(r@)[j].1@ by {
            let bi = if i < p { i } else { i - 1 };
            let bj = if j < p { j } else { j - 1 };
            if i == p {
                assert(r@[j] == before[bj]);
            } else if j == p {
                assert(r@[i] == before[bi]);
            } else {
                assert(r@[i] == before[bi]);
                assert(r@[j] == before[bj]);
                assert(deref_pairs(before)[bi].1 == before[bi].1);
                assert(deref_pairs(before)[bj].1 == before[bj].1);
            }
        }
        assert forall|k: int| 0 <= k < r@.len() implies (#[trigger] r@[k]).1.wf() by {
            if k < p {
                assert(r@[k] == before[k]);
            } else if k > p {
                assert(r@[k] == before[k - 1]);
            }
        }
    }
}

impl TaskRegistry {
    /// The enabled tasks that have a next occurrence after `from`, with it,
    /// ordered by that instant, earliest first.
    pub fn upcoming(&self, from: UtcTime) -> (r: Vec<(&Task, UtcTime)>)
        requires
            self.wf(),
            from.wf(),
            schedules_defined(self.entries(), from),
        ensures
            sorted_by_time(deref_pairs(r@)),
            deref_pairs(r@).to_multiset() == scheduled_among(self.entries(), from).to_multiset(),
    {
        broadcast use vstd::seq_lib::group_to_multiset_ensures;
        let mut r: Vec<(&Task, UtcTime)> = Vec::new();
        let mut i: usize = 0;
        assert(deref_pairs(r@) =~= Seq::<(Task, UtcTime)>::empty());
        while i < self.tasks.len()
            invariant
                i <= self.tasks@.len(),
                from.wf(),
                schedules_defined(self.tasks@, from),
                forall|k: int| 0 <= k < r@.len() ==> (#[trigger] r@[k]).1.wf(),
                sorted_by_time(deref_pairs(r@)),
                deref_pairs(r@).to_multiset() == scheduled_among(self.tasks@.take(i as int), from).to_multiset(),
            decreases self.tasks.len() - i,
        {
            assert(self.tasks@.take(i + 1).drop_last() =~= self.tasks@.take(i as int));
            let task = &self.tasks[i];
            if task.enabled {
                assert(occurrence_defined(self.tasks@[i as int].schedule@, from));
                match next_occurrence(&task.schedule, from) {
                    Some(next) => {
                        let ghost prev = deref_pairs(r@);
                        insert_by_time(&mut r, (task, next));
                        assert(scheduled_among(self.tasks@.take(i + 1), from) == scheduled_among(
                            self.tasks@.take(i as int),
                            from,
                        ).push((self.tasks@[i as int], next)));
                        proof {
                            vstd::seq_lib::to_multiset_build(
                                scheduled_among(self.tasks@.take(i as int), from),
                                (self.tasks@[i as int], next),
                            );
                        }
                    },
                    None => {},
                }
            }
            i = i + 1;
        }
        assert(self.tasks@.take(self.tasks.len() as int) =~= self.tasks@);
        r
    }
}

impl Default for TaskRegistry {
    /// An empty registry.
    fn default() -> (r: TaskRegistry)
        ensures
            r.wf(),
            r@ == Map::<Seq<char>, Task>::empty(),
    {
        TaskRegistry::new()
    }
}

impl UtcTime {
    /// `plus_secs` as a spec function.
    pub open spec fn plus_secs_spec(self, secs: i64) -> UtcTime {
        UtcTime { secs: (self.secs + secs) as i64, nanos: self.nanos }
    }
}

// ---------------------------------------------------------------------------
// Laws of the registry
// ---------------------------------------------------------------------------

/// After registering a task, looking its id up gives that task, and every
/// other id gives what it gave before.
pub proof fn law_register_then_get(before: Map<Seq<char>, Task>, t: Task, other: Seq<char>)
    ensures
        before.insert(t.id@, t).contains_key(t.id@),
        before.insert(t.id@, t)[t.id@] == t,
        other != t.id@ ==> before.insert(t.id@, t).contains_key(other) == before.contains_key(other),
        other != t.id@ && before.contains_key(other) ==> before.insert(t.id@, t)[other] == before[other],
{
}

/// Registering a new id adds one task; registering a known id replaces its
/// task and keeps the number of tasks.
pub proof fn law_register_len(r: TaskRegistry, t: Task)
    requires
        r.wf(),
    ensures
        r@.insert(t.id@, t).dom().len() == r@.dom().len() + if r@.contains_key(t.id@) {
            0int
        } else {
            1int
        },
{
    r.lemma_entries();
    if r@.contains_key(t.id@) {
        assert(r@.insert(t.id@, t).dom() =~= r@.dom());
    } else {
        assert(r@.insert(t.id@, t).dom() =~= r@.dom().insert(t.id@));
    }
}

/// After unregistering an id, looking it up finds nothing, and every other
/// id gives what it gave before.
pub proof fn law_unregister_then_get(before: Map<Seq<char>, Task>, id: Seq<char>, other: Seq<char>)
    ensures
        !before.remove(id).contains_key(id),
        other != id ==> before.remove(id).contains_key(other) == before.contains_key(other),
        other != id && before.contains_key(other) ==> before.remove(id)[other] == before[other],
{
}

/// Unregistering a task that was just registered under a new id gives the
/// registry back as it was.
pub proof fn law_register_then_unregister(before: Map<Seq<char>, Task>, t: Task)
    requires
        !before.contains_key(t.id@),
    ensures
        before.insert(t.id@, t).remove(t.id@) == before,
{
    assert(before.insert(t.id@, t).remove(t.id@) =~= before);
}

/// Enabling or disabling a task changes nothing but its `enabled` flag,
/// and doing it twice is the same as doing it once.
pub proof fn law_set_enabled(before: Map<Seq<char>, Task>, id: Seq<char>, enabled: bool)
    requires
        before.contains_key(id),
    ensures
        ({
            let after = before.insert(id, Task { enabled, ..before[id] });
            &&& after.dom() == before.dom()
            &&& after[id].enabled == enabled
            &&& after[id].id == before[id].id
            &&& after[id].name == before[id].name
            &&& after[id].command == before[id].command
            &&& after[id].schedule == before[id].schedule
            &&& after[id].timeout_seconds == before[id].timeout_seconds
            &&& after[id].max_retries == before[id].max_retries
            &&& after.insert(id, Task { enabled, ..after[id] }) == after
        }),
{
    let after = before.insert(id, Task { enabled, ..before[id] });
    assert(after.dom() =~= before.dom());
    assert(after.insert(id, Task { enabled, ..after[id] }) =~= after);
}

/// There are never more active tasks than tasks.
pub proof fn law_active_count_le_len(s: Seq<Task>)
    ensures
        count_enabled(s) <= s.len(),
    decreases s.len(),
{
    if s.len() > 0 {
        law_active_count_le_len(s.drop_last());
    }
}

/// A due task is an enabled task of the registry whose next occurrence
/// falls by the deadline; a disabled task is never due.
pub proof fn law_due_tasks_enabled(s: Seq<Task>, from: UtcTime, deadline: UtcTime)
    ensures
        forall|i: int| 0 <= i < due_among(s, from, deadline).len() ==> {
            let t = #[trigger] due_among(s, from, deadline)[i];
            &&& t.enabled
            &&& s.contains(t)
            &&& next_spec(t.schedule@, from) matches Some(n) && n@ <= deadline@
        },
    decreases s.len(),
{
    if s.len() > 0 {
        let rest = s.drop_last();
        law_due_tasks_enabled(rest, from, deadline);
        let d = due_among(s, from, deadline);
        assert forall|i: int| 0 <= i < d.len() implies {
            let t = #[trigger] d[i];
            &&& t.enabled
            &&& s.contains(t)
            &&& next_spec(t.schedule@, from) matches Some(n) && n@ <= deadline@
        } by {
            let dr = due_among(rest, from, deadline);
            if i < dr.len() {
                assert(d[i] == dr[i]);
                let k = choose|k: int| 0 <= k < rest.len() && rest[k] == dr[i];
                assert(s[k] == rest[k]);
            } else {
                assert(d[i] == s.last());
                assert(s[s.len() - 1] == s.last());
            }
        }
    }
}

/// A registry built from tasks with distinct ids holds each of them under
/// its id, and nothing else.
pub proof fn law_from_tasks_distinct(s: Seq<Task>)
    requires
        distinct_ids(s),
    ensures
        registered(Map::empty(), s).dom() == task_ids(s).to_set(),
        forall|i: int| 0 <= i < s.len() ==> registered(Map::empty(), s)[#[trigger] s[i].id@] == s[i],
    decreases s.len(),
{
    if s.len() > 0 {
        let rest = s.drop_last();
        assert(task_ids(rest) =~= task_ids(s).drop_last());
        assert(distinct_ids(rest)) by {
            assert forall|i: int, j: int| 0 <= i < task_ids(rest).len() && 0 <= j < task_ids(rest).len() && i != j implies task_ids(rest)[i] != task_ids(rest)[j] by {
                assert(task_ids(rest)[i] == task_ids(s)[i]);
                assert(task_ids(rest)[j] == task_ids(s)[j]);
            }
        }
        law_from_tasks_distinct(rest);
        let m = registered(Map::empty(), s);
        let m0 = registered(Map::empty(), rest);
        assert(m == m0.insert(s.last().id@, s.last()));
        assert(task_ids(s) =~= task_ids(rest).push(s.last().id@));
        assert(m.dom() =~= task_ids(s).to_set()) by {
            assert forall|k: Seq<char>| m.dom().contains(k) <==> task_ids(s).to_set().contains(k) by {
                assert(m0.dom().contains(k) <==> task_ids(rest).contains(k));
                if k == s.last().id@ {
                    assert(task_ids(s)[s.len() - 1] == k);
                }
                if task_ids(s).contains(k) {
                    let j = choose|j: int| 0 <= j < task_ids(s).len() && task_ids(s)[j] == k;
                    if j < rest.len() {
                        assert(task_ids(rest)[j] == k);
                    }
                }
                if task_ids(rest).contains(k) {
                    let j = choose|j: int| 0 <= j < task_ids(rest).len() && task_ids(rest)[j] == k;
                    assert(task_ids(s)[j] == k);
                }
            }
        }
        assert forall|i: int| 0 <= i < s.len() implies m[#[trigger] s[i].id@] == s[i] by {
            if i < s.len() - 1 {
                assert(rest[i] == s[i]);
                assert(task_ids(s)[i] == s[i].id@);
                assert(task_ids(s)[s.len() - 1] == s.last().id@);
                assert(s[i].id@ != s.last().id@);
            }
        }
    }
}

/// The tasks of `p` whose instant falls no later than `deadline`, in order.
pub open spec fn due_by(p: Seq<(Task, UtcTime)>, deadline: UtcTime) -> Seq<Task>
    decreases p.len(),
{
    if p.len() == 0 {
        Seq::empty()
    } else if p.last().1@ <= deadline@ {
        due_by(p.drop_last(), deadline).push(p.last().0)
    } else {
        due_by(p.drop_last(), deadline)
    }
}

/// The due tasks are the scheduled ones (enabled, with a next occurrence)
/// whose next occurrence falls by the deadline, in registry order.
pub proof fn law_due_is_scheduled_by(s: Seq<Task>, from: UtcTime, deadline: UtcTime)
    ensures
        due_among(s, from, deadline) == due_by(scheduled_among(s, from), deadline),
    decreases s.len(),
{
    if s.len() > 0 {
        law_due_is_scheduled_by(s.drop_last(), from, deadline);
        let rest = scheduled_among(s.drop_last(), from);
        let t = s.last();
        if t.enabled && next_spec(t.schedule@, from) is Some {
            let p = rest.push((t, next_spec(t.schedule@, from)->0));
            assert(p.drop_last() =~= rest);
        }
    }
}

} // verus!
