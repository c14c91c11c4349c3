//! Tasks, the payloads that create and change them, the contract every
//! storage backend meets, and the in-memory backend with the laws it obeys.
use vstd::prelude::*;

verus! {

/// What a repository operation can fail with.
#[derive(Debug, Clone, PartialEq, Eq)]
pub enum RepositoryError {
    /// A backend-level failure (I/O, malformed row, protocol violation),
    /// with the backend's diagnostic message.
    Unexpexted(String),
    /// The requested id does not exist.
    NotFound(i32),
}

/// A to-do item. The storage backend assigns `id`; callers hold copies.
#[derive(Debug, Clone)]
pub struct Task {
    pub id: i32,
    pub text: String,
    pub completed: bool,
}

impl PartialEq for Task {
    fn eq(&self, other: &Task) -> (r: bool) {
        self.id == other.id && self.completed == other.completed && self.text == other.text
    }
}

impl vstd::std_specs::cmp::PartialEqSpecImpl for Task {
    open spec fn obeys_eq_spec() -> bool {
        true
    }

    open spec fn eq_spec(&self, other: &Task) -> bool {
        self.id == other.id && self.completed == other.completed && self.text@ == other.text@
    }
}

impl Eq for Task {
}

impl Task {
    /// A task that is not yet completed.
    pub fn new(id: i32, text: String) -> (r: Task)
        ensures
            r == (Task { id, text, completed: false }),
    {
        Task { id, text, completed: false }
    }

    /// A copy with the same fields.
    pub fn duplicate(&self) -> (r: Task)
        ensures
            r == *self,
    {
        Task { id: self.id, text: self.text.clone(), completed: self.completed }
    }
}

/// Input for creating a task.
#[derive(Debug, Clone, PartialEq, Eq)]
pub struct CreateTaskPayload {
    pub text: String,
}

/// Input for a partial update: a field that is `None` is left unchanged.
#[derive(Debug, Clone, PartialEq, Eq)]
pub struct UpdateTaskPayload {
    pub text: Option<String>,
    pub completed: Option<bool>,
}

/// `t` with the fields that `payload` holds put in; the id never changes.
pub open spec fn applied(t: Task, payload: UpdateTaskPayload) -> Task {
    Task {
        id: t.id,
        text: match payload.text {
            Some(x) => x,
            None => t.text,
        },
        completed: match payload.completed {
            Some(c) => c,
            None => t.completed,
        },
    }
}

/// Some task of `tasks` has the id `id`.
pub open spec fn has_id(tasks: Seq<Task>, id: i32) -> bool {
    exists|i: int| 0 <= i < tasks.len() && #[trigger] tasks[i].id == id
}

/// The ids of `tasks` strictly increase along the sequence.
pub open spec fn ids_increasing(tasks: Seq<Task>) -> bool {
    forall|i: int, j: int| 0 <= i < j < tasks.len() ==> #[trigger] tasks[i].id < #[trigger] tasks[j].id
}

/// No two tasks of `tasks` share an id.
pub open spec fn ids_distinct(tasks: Seq<Task>) -> bool {
    forall|i: int, j: int| 0 <= i < tasks.len() && 0 <= j < tasks.len() && i != j ==> #[trigger] tasks[i].id != #[trigger] tasks[j].id
}

/// The operations every storage backend offers, with the meaning each backend
/// owes: a missing id is `NotFound(id)`, and a backend failure is `Unexpexted`.
pub trait TaskRepository: Sized {
    /// The stored tasks.
    spec fn stored(&self) -> Seq<Task>;

    /// The backend's own invariant.
    spec fn valid(&self) -> bool;

    /// Stores a new, not completed task under an id no stored task has.
    fn create(&mut self, payload: CreateTaskPayload) -> (r: Result<Task, RepositoryError>)
        requires
            old(self).valid(),
        ensures
            final(self).valid(),
            match r {
                Ok(t) => {
                    &&& t.text == payload.text
                    &&& !t.completed
                    &&& !has_id(old(self).stored(), t.id)
                    &&& final(self).stored() == old(self).stored().push(t)
                },
                Err(e) => e is Unexpexted && final(self).stored() == old(self).stored(),
            },
    ;

    /// The task with id `id`.
    fn find(&self, id: i32) -> (r: Result<Task, RepositoryError>)
        requires
            self.valid(),
        ensures
            match r {
                Ok(t) => t.id == id && self.stored().contains(t),
                Err(e) => if has_id(self.stored(), id) {
                    e is Unexpexted
                } else {
                    e == RepositoryError::NotFound(id)
                },
            },
    ;

    /// Every stored task.
    fn all(&self) -> (r: Vec<Task>)
        requires
            self.valid(),
        ensures
            r@.to_multiset() == self.stored().to_multiset(),
            ids_distinct(r@),
    ;

    /// Puts the fields that `payload` holds into the task with id `id`.
    fn update(&mut self, id: i32, payload: UpdateTaskPayload) -> (r: Result<Task, RepositoryError>)
        requires
            old(self).valid(),
        ensures
            final(self).valid(),
            match r {
                Ok(t) => exists|i: int|
                    0 <= i < old(self).stored().len() && old(self).stored()[i].id == id
                        && t == applied(#[trigger] old(self).stored()[i], payload)
                        && final(self).stored() == old(self).stored().update(i, t),
                Err(e) => final(self).stored() == old(self).stored() && if has_id(old(self).stored(), id) {
                    e is Unexpexted
                } else {
                    e == RepositoryError::NotFound(id)
                },
            },
    ;

    /// Removes the task with id `id`.
    fn delete(&mut self, id: i32) -> (r: Result<(), RepositoryError>)
        requires
            old(self).valid(),
        ensures
            final(self).valid(),
            match r {
                Ok(_) => exists|i: int|
                    0 <= i < old(self).stored().len() && #[trigger] old(self).stored()[i].id == id
                        && final(self).stored() == old(self).stored().remove(i),
                Err(e) => final(self).stored() == old(self).stored() && if has_id(old(self).stored(), id) {
                    e is Unexpexted
                } else {
                    e == RepositoryError::NotFound(id)
                },
            },
    ;
}

/// The in-memory backend: tasks in insertion order, with ids handed out by a
/// counter that only grows, so that an id is never reused.
pub struct TaskRepositoryForMemory {
    tasks: Vec<Task>,
    next_id: i64,
}

/// The largest id a task can have.
pub open spec fn max_id() -> int {
    i32::MAX as int
}

impl TaskRepositoryForMemory {
    /// The stored tasks, in insertion order.
    pub closed spec fn tasks(&self) -> Seq<Task> {
        self.tasks@
    }

    /// The id the next created task gets; above `max_id()` once ids are spent.
    pub closed spec fn next_id(&self) -> int {
        self.next_id as int
    }

    /// Ids are positive, below the counter, and increase along the sequence
    /// (so no two stored tasks share an id).
    pub open spec fn well_formed(&self) -> bool {
        &&& 1 <= self.next_id() <= max_id() + 1
        &&& forall|i: int| 0 <= i < self.tasks().len() ==> 1 <= #[trigger] self.tasks()[i].id < self.next_id()
        &&& ids_increasing(self.tasks())
    }

    /// `create` on `s0` with `payload` returned `r` and left `s1`.
    pub open spec fn created(s0: Self, payload: CreateTaskPayload, r: Result<Task, RepositoryError>, s1: Self) -> bool {
        if s0.next_id() <= max_id() {
            &&& r == Ok::<Task, RepositoryError>(Task { id: s0.next_id() as i32, text: payload.text, completed: false })
            &&& s1.tasks() == s0.tasks().push(r->Ok_0)
            &&& s1.next_id() == s0.next_id() + 1
        } else {
            &&& r is Err
            &&& r->Err_0 is Unexpexted
            &&& s1.tasks() == s0.tasks()
            &&& s1.next_id() == s0.next_id()
        }
    }

    /// `find` on `s` for `id` returned `r`.
    pub open spec fn found(s: Self, id: i32, r: Result<Task, RepositoryError>) -> bool {
        if has_id(s.tasks(), id) {
            exists|i: int| 0 <= i < s.tasks().len() && s.tasks()[i].id == id && r == Ok::<Task, RepositoryError>(#[trigger] s.tasks()[i])
        } else {
            r == Err::<Task, RepositoryError>(RepositoryError::NotFound(id))
        }
    }

    /// `update` on `s0` for `id` with `payload` returned `r` and left `s1`.
    pub open spec fn updated(s0: Self, id: i32, payload: UpdateTaskPayload, r: Result<Task, RepositoryError>, s1: Self) -> bool {
        &&& s1.next_id() == s0.next_id()
        &&& if has_id(s0.tasks(), id) {
            exists|i: int|
                0 <= i < s0.tasks().len() && s0.tasks()[i].id == id
                    && r == Ok::<Task, RepositoryError>(applied(#[trigger] s0.tasks()[i], payload))
                    && s1.tasks() == s0.tasks().update(i, r->Ok_0)
        } else {
            r == Err::<Task, RepositoryError>(RepositoryError::NotFound(id)) && s1.tasks() == s0.tasks()
        }
    }

    /// `delete` on `s0` for `id` returned `r` and left `s1`.
    pub open spec fn deleted(s0: Self, id: i32, r: Result<(), RepositoryError>, s1: Self) -> bool {
        &&& s1.next_id() == s0.next_id()
        &&& if has_id(s0.tasks(), id) {
            &&& r is Ok
            &&& exists|i: int|
                0 <= i < s0.tasks().len() && #[trigger] s0.tasks()[i].id == id && s1.tasks() == s0.tasks().remove(i)
        } else {
            r == Err::<(), RepositoryError>(RepositoryError::NotFound(id)) && s1.tasks() == s0.tasks()
        }
    }

    /// `s1` is what one `create`, `update` or `delete` on `s0` left (`find` and
    /// `all` change nothing).
    pub open spec fn changed_by_one_call(s0: Self, s1: Self) -> bool {
        ||| exists|p: CreateTaskPayload, r: Result<Task, RepositoryError>| #[trigger] Self::created(s0, p, r, s1)
        ||| exists|id: i32, p: UpdateTaskPayload, r: Result<Task, RepositoryError>| #[trigger] Self::updated(s0, id, p, r, s1)
        ||| exists|id: i32, r: Result<(), RepositoryError>| #[trigger] Self::deleted(s0, id, r, s1)
    }

    /// An empty repository whose first id is 1.
    pub fn new() -> (r: Self)
        ensures
            r.well_formed(),
            r.tasks() == Seq::<Task>::empty(),
            r.next_id() == 1,
    {
        TaskRepositoryForMemory { tasks: Vec::new(), next_id: 1 }
    }

    /// The index of the task with id `id`, if there is one.
    fn position(&self, id: i32) -> (r: Option<usize>)
        ensures
            match r {
                Some(i) => i < self.tasks@.len() && self.tasks@[i as int].id == id,
                None => !has_id(self.tasks@, id),
            },
    {
        let mut i: usize = 0;
        while i < self.tasks.len()
            invariant
                i <= self.tasks@.len(),
                forall|k: int| 0 <= k < i ==> #[trigger] self.tasks@[k].id != id,
            decreases self.tasks@.len() - i,
        {
            if self.tasks[i].id == id {
                return Some(i);
            }
            i = i + 1;
        }
        None
    }
}

impl TaskRepository for TaskRepositoryForMemory {
    open spec fn stored(&self) -> Seq<Task> {
        self.tasks()
    }

    open spec fn valid(&self) -> bool {
        self.well_formed()
    }

    /// Uses the next id of the counter; fails with `Unexpexted` once every id
    /// has been handed out.
    fn create(&mut self, payload: CreateTaskPayload) -> (r: Result<Task, RepositoryError>)
        ensures
            Self::created(*old(self), payload, r, *final(self)),
    {
        if self.next_id > i32::MAX as i64 {
            return Err(RepositoryError::Unexpexted("no task id is left".to_owned()));
        }
        let task = Task::new(self.next_id as i32, payload.text);
        let out = task.duplicate();
        self.tasks.push(task);
        self.next_id = self.next_id + 1;
        assert(self.tasks@.last() == out);
        Ok(out)
    }

    /// The task with id `id`; `NotFound(id)` if there is none.
    fn find(&self, id: i32) -> (r: Result<Task, RepositoryError>)
        ensures
            Self::found(*self, id, r),
    {
        match self.position(id) {
            Some(i) => Ok(self.tasks[i].duplicate()),
            None => Err(RepositoryError::NotFound(id)),
        }
    }

    /// Every stored task, in insertion order, so with increasing ids.
    fn all(&self) -> (r: Vec<Task>)
        ensures
            r@ == self.tasks(),
            ids_increasing(r@),
    {
        let mut out: Vec<Task> = Vec::new();
        let mut i: usize = 0;
        while i < self.tasks.len()
            invariant
                i <= self.tasks@.len(),
                out@ == self.tasks@.subrange(0, i as int),
            decreases self.tasks@.len() - i,
        {
            out.push(self.tasks[i].duplicate());
            i = i + 1;
            assert(out@ =~= self.tasks@.subrange(0, i as int));
        }
        assert(out@ =~= self.tasks@);
        assert forall|a: int, b: int| 0 <= a < out@.len() && 0 <= b < out@.len() && a != b implies #[trigger] out@[a].id != #[trigger] out@[b].id by {
            if a < b {
                assert(out@[a].id < out@[b].id);
            } else {
                assert(out@[b].id < out@[a].id);
            }
        }
        out
    }

    /// Puts the fields that `payload` holds into the task with id `id` and
    /// returns the result; `NotFound(id)` if there is no such task.
    fn update(&mut self, id: i32, payload: UpdateTaskPayload) -> (r: Result<Task, RepositoryError>)
        ensures
            Self::updated(*old(self), id, payload, r, *final(self)),
    {
        match self.position(id) {
            Some(i) => {
                let old_task = self.tasks[i].duplicate();
                let text = match payload.text {
                    Some(x) => x,
                    None => old_task.text,
                };
                let completed = match payload.completed {
                    Some(c) => c,
                    None => old_task.completed,
                };
                let task = Task { id: old_task.id, text, completed };
                let out = task.duplicate();
                self.tasks.set(i, task);
                assert(self.tasks@ == old(self).tasks@.update(i as int, out));
                assert(old(self).stored()[i as int].id == id);
                Ok(out)
            },
            None => Err(RepositoryError::NotFound(id)),
        }
    }

    /// Removes the task with id `id`; `NotFound(id)` if there is none.
    fn delete(&mut self, id: i32) -> (r: Result<(), RepositoryError>)
        ensures
            Self::deleted(*old(self), id, r, *final(self)),
    {
        match self.position(id) {
            Some(i) => {
                self.tasks.remove(i);
                assert forall|a: int, b: int| 0 <= a < b < self.tasks@.len() implies #[trigger] self.tasks@[a].id < #[trigger] self.tasks@[b].id by {
                    let a0 = if a < i { a } else { a + 1 };
                    let b0 = if b < i { b } else { b + 1 };
                    assert(self.tasks@[a] == old(self).tasks@[a0]);
                    assert(self.tasks@[b] == old(self).tasks@[b0]);
                }
                assert forall|a: int| 0 <= a < self.tasks@.len() implies 1 <= #[trigger] self.tasks@[a].id < self.next_id by {
                    let a0 = if a < i { a } else { a + 1 };
                    assert(self.tasks@[a] == old(self).tasks@[a0]);
                }
                assert(old(self).stored()[i as int].id == id);
                Ok(())
            },
            None => Err(RepositoryError::NotFound(id)),
        }
    }
}

/// Creating a task and then looking up its id gives back the created task.
pub proof fn lemma_create_then_find(
    s0: TaskRepositoryForMemory,
    payload: CreateTaskPayload,
    r: Result<Task, RepositoryError>,
    s1: TaskRepositoryForMemory,
    found: Result<Task, RepositoryError>,
)
    requires
        s0.well_formed(),
        s1.well_formed(),
        TaskRepositoryForMemory::created(s0, payload, r, s1),
        r is Ok,
        TaskRepositoryForMemory::found(s1, r->Ok_0.id, found),
    ensures
        found == r,
{
    let t = r->Ok_0;
    let n = s0.tasks().len() as int;
    assert(s1.tasks()[n] == t);
    assert(has_id(s1.tasks(), t.id));
    let i = choose|i: int| 0 <= i < s1.tasks().len() && s1.tasks()[i].id == t.id && found == Ok::<Task, RepositoryError>(#[trigger] s1.tasks()[i]);
    if i != n {
        assert(s1.tasks()[i] == s0.tasks()[i]);
    }
}

/// Two successive creates hand out different ids, the later one larger.
pub proof fn lemma_create_ids_increase(
    s0: TaskRepositoryForMemory,
    first: CreateTaskPayload,
    r1: Result<Task, RepositoryError>,
    s1: TaskRepositoryForMemory,
    second: CreateTaskPayload,
    r2: Result<Task, RepositoryError>,
    s2: TaskRepositoryForMemory,
)
    requires
        s0.well_formed(),
        TaskRepositoryForMemory::created(s0, first, r1, s1),
        TaskRepositoryForMemory::created(s1, second, r2, s2),
        r1 is Ok,
        r2 is Ok,
    ensures
        r1->Ok_0.id < r2->Ok_0.id,
{
}

/// A run of `n` creates, each starting from the state the one before left,
/// all succeeding, hands out `n` strictly increasing (so distinct) ids, and
/// every created task is stored at the end after the tasks that were there.
pub proof fn lemma_creates_distinct_and_kept(
    states: Seq<TaskRepositoryForMemory>,
    payloads: Seq<CreateTaskPayload>,
    results: Seq<Result<Task, RepositoryError>>,
)
    requires
        states.len() == payloads.len() + 1,
        results.len() == payloads.len(),
        states[0].well_formed(),
        forall|k: int|
            0 <= k < payloads.len() ==> TaskRepositoryForMemory::created(
                #[trigger] states[k],
                payloads[k],
                results[k],
                states[k + 1],
            ),
        forall|k: int| 0 <= k < results.len() ==> (#[trigger] results[k]) is Ok,
    ensures
        forall|a: int, b: int|
            0 <= a < b < results.len() ==> #[trigger] results[a]->Ok_0.id < #[trigger] results[b]->Ok_0.id,
        states.last().tasks() == states[0].tasks() + results.map_values(|x: Result<Task, RepositoryError>| x->Ok_0),
    decreases payloads.len(),
{
    let n = payloads.len() as int;
    if n > 0 {
        let m = n - 1;
        assert(states.drop_last()[0] == states[0]);
        lemma_creates_distinct_and_kept(states.drop_last(), payloads.drop_last(), results.drop_last());
        assert(TaskRepositoryForMemory::created(states[m], payloads[m], results[m], states[n]));
        assert(results[m] is Ok);
        assert forall|k: int| 0 <= k <= m implies #[trigger] states[k].next_id() == states[0].next_id() + k by {
            lemma_creates_counter(states, payloads, results, k);
        }
        assert forall|a: int, b: int|
            0 <= a < b < results.len() implies #[trigger] results[a]->Ok_0.id < #[trigger] results[b]->Ok_0.id by {
            assert(TaskRepositoryForMemory::created(states[a], payloads[a], results[a], states[a + 1]));
            assert(TaskRepositoryForMemory::created(states[b], payloads[b], results[b], states[b + 1]));
            lemma_creates_counter(states, payloads, results, a);
            lemma_creates_counter(states, payloads, results, b);
        }
        let f = |x: Result<Task, RepositoryError>| x->Ok_0;
        assert(results.drop_last().map_values(f).push(results[m]->Ok_0) =~= results.map_values(f));
        assert(states.drop_last().last() == states[m]);
        assert(states[0].tasks() + results.map_values(f) =~= (states[0].tasks() + results.drop_last().map_values(f)).push(results[m]->Ok_0));
    } else {
        assert(states[0].tasks() + results.map_values(|x: Result<Task, RepositoryError>| x->Ok_0) =~= states[0].tasks());
    }
}

/// An update that carries only a text replaces the text of the task with that
/// id and keeps its id and its completion flag.
pub proof fn lemma_update_text_only(
    s0: TaskRepositoryForMemory,
    id: i32,
    before: Result<Task, RepositoryError>,
    x: String,
    r: Result<Task, RepositoryError>,
    s1: TaskRepositoryForMemory,
)
    requires
        s0.well_formed(),
        TaskRepositoryForMemory::found(s0, id, before),
        before is Ok,
        TaskRepositoryForMemory::updated(s0, id, UpdateTaskPayload { text: Some(x), completed: None }, r, s1),
    ensures
        r == Ok::<Task, RepositoryError>(Task { id, text: x, completed: before->Ok_0.completed }),
{
    lemma_same_id_same_task(s0, id, before, UpdateTaskPayload { text: Some(x), completed: None }, r, s1);
}

/// An update that carries only a completion flag sets the flag of the task
/// with that id and keeps its id and its text.
pub proof fn lemma_update_completed_only(
    s0: TaskRepositoryForMemory,
    id: i32,
    before: Result<Task, RepositoryError>,
    c: bool,
    r: Result<Task, RepositoryError>,
    s1: TaskRepositoryForMemory,
)
    requires
        s0.well_formed(),
        TaskRepositoryForMemory::found(s0, id, before),
        before is Ok,
        TaskRepositoryForMemory::updated(s0, id, UpdateTaskPayload { text: None, completed: Some(c) }, r, s1),
    ensures
        r == Ok::<Task, RepositoryError>(Task { id, text: before->Ok_0.text, completed: c }),
{
    lemma_same_id_same_task(s0, id, before, UpdateTaskPayload { text: None, completed: Some(c) }, r, s1);
}

/// The task that `find` gave for `id` is the one that `update` changes.
proof fn lemma_same_id_same_task(
    s0: TaskRepositoryForMemory,
    id: i32,
    before: Result<Task, RepositoryError>,
    payload: UpdateTaskPayload,
    r: Result<Task, RepositoryError>,
    s1: TaskRepositoryForMemory,
)
    requires
        s0.well_formed(),
        TaskRepositoryForMemory::found(s0, id, before),
        before is Ok,
        TaskRepositoryForMemory::updated(s0, id, payload, r, s1),
    ensures
        r == Ok::<Task, RepositoryError>(applied(before->Ok_0, payload)),
        before->Ok_0.id == id,
{
    let i = choose|i: int| 0 <= i < s0.tasks().len() && s0.tasks()[i].id == id && before == Ok::<Task, RepositoryError>(#[trigger] s0.tasks()[i]);
    let j = choose|j: int|
        0 <= j < s0.tasks().len() && s0.tasks()[j].id == id
            && r == Ok::<Task, RepositoryError>(applied(#[trigger] s0.tasks()[j], payload))
            && s1.tasks() == s0.tasks().update(j, r->Ok_0);
    if i != j {
        if i < j {
            assert(s0.tasks()[i].id < s0.tasks()[j].id);
        } else {
            assert(s0.tasks()[j].id < s0.tasks()[i].id);
        }
    }
}

/// No stored task has an id that was never handed out (outside `1..next_id`),
/// so `find`, `update` and `delete` on it fail with `NotFound(id)` and change
/// nothing.
pub proof fn lemma_never_issued_not_found(
    s: TaskRepositoryForMemory,
    id: i32,
    rf: Result<Task, RepositoryError>,
    payload: UpdateTaskPayload,
    ru: Result<Task, RepositoryError>,
    su: TaskRepositoryForMemory,
    rd: Result<(), RepositoryError>,
    sd: TaskRepositoryForMemory,
)
    requires
        s.well_formed(),
        !(1 <= id < s.next_id()),
        TaskRepositoryForMemory::found(s, id, rf),
        TaskRepositoryForMemory::updated(s, id, payload, ru, su),
        TaskRepositoryForMemory::deleted(s, id, rd, sd),
    ensures
        !has_id(s.tasks(), id),
        rf == Err::<Task, RepositoryError>(RepositoryError::NotFound(id)),
        ru == Err::<Task, RepositoryError>(RepositoryError::NotFound(id)),
        su.tasks() == s.tasks(),
        rd == Err::<(), RepositoryError>(RepositoryError::NotFound(id)),
        sd.tasks() == s.tasks(),
{
}

/// After a successful delete of `id` no stored task has that id, so a later
/// `find` fails with `NotFound(id)` and `all` no longer lists it.
pub proof fn lemma_delete_then_find(
    s0: TaskRepositoryForMemory,
    id: i32,
    r: Result<(), RepositoryError>,
    s1: TaskRepositoryForMemory,
    found: Result<Task, RepositoryError>,
)
    requires
        s0.well_formed(),
        TaskRepositoryForMemory::deleted(s0, id, r, s1),
        r is Ok,
        TaskRepositoryForMemory::found(s1, id, found),
    ensures
        !has_id(s1.tasks(), id),
        found == Err::<Task, RepositoryError>(RepositoryError::NotFound(id)),
{
    let i = choose|i: int|
        0 <= i < s0.tasks().len() && #[trigger] s0.tasks()[i].id == id && s1.tasks() == s0.tasks().remove(i);
    if has_id(s1.tasks(), id) {
        let k = choose|k: int| 0 <= k < s1.tasks().len() && #[trigger] s1.tasks()[k].id == id;
        if k < i {
            assert(s1.tasks()[k] == s0.tasks()[k]);
            assert(s0.tasks()[k].id < s0.tasks()[i].id);
        } else {
            assert(s1.tasks()[k] == s0.tasks()[k + 1]);
            assert(s0.tasks()[i].id < s0.tasks()[k + 1].id);
        }
    }
}

/// After a successful update, looking up the id gives the updated task.
pub proof fn lemma_update_then_find(
    s0: TaskRepositoryForMemory,
    id: i32,
    payload: UpdateTaskPayload,
    r: Result<Task, RepositoryError>,
    s1: TaskRepositoryForMemory,
    found: Result<Task, RepositoryError>,
)
    requires
        s0.well_formed(),
        TaskRepositoryForMemory::updated(s0, id, payload, r, s1),
        r is Ok,
        TaskRepositoryForMemory::found(s1, id, found),
    ensures
        found == r,
{
    let i = choose|i: int|
        0 <= i < s0.tasks().len() && s0.tasks()[i].id == id
            && r == Ok::<Task, RepositoryError>(applied(#[trigger] s0.tasks()[i], payload))
            && s1.tasks() == s0.tasks().update(i, r->Ok_0);
    assert(s1.tasks()[i].id == id);
    let k = choose|k: int| 0 <= k < s1.tasks().len() && s1.tasks()[k].id == id && found == Ok::<Task, RepositoryError>(#[trigger] s1.tasks()[k]);
    if k != i {
        assert(s1.tasks()[k] == s0.tasks()[k]);
        if k < i {
            assert(s0.tasks()[k].id < s0.tasks()[i].id);
        } else {
            assert(s0.tasks()[i].id < s0.tasks()[k].id);
        }
    }
}

/// Repeating a successful update with the same payload returns the same task
/// and changes nothing more.
pub proof fn lemma_update_repeated(
    s0: TaskRepositoryForMemory,
    id: i32,
    payload: UpdateTaskPayload,
    r1: Result<Task, RepositoryError>,
    s1: TaskRepositoryForMemory,
    r2: Result<Task, RepositoryError>,
    s2: TaskRepositoryForMemory,
)
    requires
        s0.well_formed(),
        TaskRepositoryForMemory::updated(s0, id, payload, r1, s1),
        r1 is Ok,
        TaskRepositoryForMemory::updated(s1, id, payload, r2, s2),
    ensures
        r2 == r1,
        s2.tasks() == s1.tasks(),
        s2.next_id() == s1.next_id(),
{
    let i = choose|i: int|
        0 <= i < s0.tasks().len() && s0.tasks()[i].id == id
            && r1 == Ok::<Task, RepositoryError>(applied(#[trigger] s0.tasks()[i], payload))
            && s1.tasks() == s0.tasks().update(i, r1->Ok_0);
    assert(s1.tasks()[i].id == id);
    assert(has_id(s1.tasks(), id));
    let j = choose|j: int|
        0 <= j < s1.tasks().len() && s1.tasks()[j].id == id
            && r2 == Ok::<Task, RepositoryError>(applied(#[trigger] s1.tasks()[j], payload))
            && s2.tasks() == s1.tasks().update(j, r2->Ok_0);
    if j != i {
        assert(s1.tasks()[j] == s0.tasks()[j]);
        if j < i {
            assert(s0.tasks()[j].id < s0.tasks()[i].id);
        } else {
            assert(s0.tasks()[i].id < s0.tasks()[j].id);
        }
    }
    assert(applied(applied(s0.tasks()[i], payload), payload) == applied(s0.tasks()[i], payload));
    assert(s2.tasks() =~= s1.tasks());
}

/// A create that succeeds after any run of `create`, `update` and `delete`
/// calls (deletes of earlier tasks included) gives a larger id than every
/// earlier successful create, so an id is never reused.
pub proof fn lemma_ids_never_reused(
    s0: TaskRepositoryForMemory,
    first: CreateTaskPayload,
    r1: Result<Task, RepositoryError>,
    run: Seq<TaskRepositoryForMemory>,
    second: CreateTaskPayload,
    r2: Result<Task, RepositoryError>,
    s3: TaskRepositoryForMemory,
)
    requires
        s0.well_formed(),
        run.len() >= 1,
        forall|k: int| 0 <= k < run.len() ==> (#[trigger] run[k]).well_formed(),
        TaskRepositoryForMemory::created(s0, first, r1, run[0]),
        forall|k: int| 0 <= k < run.len() - 1 ==> TaskRepositoryForMemory::changed_by_one_call(#[trigger] run[k], run[k + 1]),
        TaskRepositoryForMemory::created(run.last(), second, r2, s3),
        r1 is Ok,
        r2 is Ok,
    ensures
        r1->Ok_0.id < r2->Ok_0.id,
{
    lemma_run_counter(run, run.len() - 1);
    assert(run.last().well_formed());
}

/// Along a run of calls the counter never goes down.
proof fn lemma_run_counter(run: Seq<TaskRepositoryForMemory>, k: int)
    requires
        forall|j: int| 0 <= j < run.len() - 1 ==> TaskRepositoryForMemory::changed_by_one_call(#[trigger] run[j], run[j + 1]),
        0 <= k < run.len(),
    ensures
        run[0].next_id() <= run[k].next_id(),
    decreases k,
{
    if k > 0 {
        lemma_run_counter(run, k - 1);
        assert(TaskRepositoryForMemory::changed_by_one_call(run[k - 1], run[k]));
    }
}

/// Along such a run of successful creates the counter grows by one a step.
proof fn lemma_creates_counter(
    states: Seq<TaskRepositoryForMemory>,
    payloads: Seq<CreateTaskPayload>,
    results: Seq<Result<Task, RepositoryError>>,
    k: int,
)
    requires
        states.len() == payloads.len() + 1,
        results.len() == payloads.len(),
        states[0].next_id() >= 1,
        forall|j: int|
            0 <= j < payloads.len() ==> TaskRepositoryForMemory::created(
                #[trigger] states[j],
                payloads[j],
                results[j],
                states[j + 1],
            ),
        forall|j: int| 0 <= j < results.len() ==> (#[trigger] results[j]) is Ok,
        0 <= k < states.len(),
    ensures
        states[k].next_id() == states[0].next_id() + k,
        k < results.len() ==> results[k]->Ok_0.id == states[k].next_id(),
    decreases k,
{
    if k > 0 {
        lemma_creates_counter(states, payloads, results, k - 1);
        assert(TaskRepositoryForMemory::created(states[k - 1], payloads[k - 1], results[k - 1], states[k]));
        assert(results[k - 1] is Ok);
    }
    if k < results.len() {
        assert(TaskRepositoryForMemory::created(states[k], payloads[k], results[k], states[k + 1]));
        assert(results[k] is Ok);
    }
}

} // verus!
