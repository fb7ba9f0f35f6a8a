//! The task list: records, their ids, and the operations on the list.

use crate::text::{append_chars, chars_of, decimal, decimal_chars, string_of};
use crate::time::{utc_now, Timestamp};
use vstd::prelude::*;

verus! {

/// Whether a task is still open.
#[derive(Debug, Clone, Copy, PartialEq, Eq, Structural)]
pub enum Status {
    Draft,
    Completed,
}

impl Status {
    /// The other status.
    pub open spec fn flipped(self) -> Status {
        match self {
            Status::Draft => Status::Completed,
            Status::Completed => Status::Draft,
        }
    }

    /// The name of the status.
    pub open spec fn text(self) -> Seq<char> {
        match self {
            Status::Draft => "Draft"@,
            Status::Completed => "Completed"@,
        }
    }

    /// The name of the status.
    pub fn name(&self) -> (out: &'static str)
        ensures
            out@ == self.text(),
    {
        match self {
            Status::Draft => "Draft",
            Status::Completed => "Completed",
        }
    }
}

/// One task.
#[derive(Debug, Clone)]
pub struct Todo {
    pub id: usize,
    pub title: String,
    pub status: Status,
    pub created_at: Timestamp,
    pub updated_at: Timestamp,
    pub deleted_at: Option<Timestamp>,
}

/// A task as a mathematical value.
pub struct TodoView {
    pub id: usize,
    pub title: Seq<char>,
    pub status: Status,
    pub created_at: Timestamp,
    pub updated_at: Timestamp,
    pub deleted_at: Option<Timestamp>,
}

impl View for Todo {
    type V = TodoView;

    open spec fn view(&self) -> TodoView {
        TodoView {
            id: self.id,
            title: self.title@,
            status: self.status,
            created_at: self.created_at,
            updated_at: self.updated_at,
            deleted_at: self.deleted_at,
        }
    }
}

/// The tasks of `v` as mathematical values, in order.
pub open spec fn todo_views(v: Seq<Todo>) -> Seq<TodoView> {
    v.map_values(|t: Todo| t@)
}

/// The highest id in `s`, and 0 where `s` is empty.
pub open spec fn max_id(s: Seq<TodoView>) -> nat
    decreases s.len(),
{
    if s.len() == 0 {
        0
    } else {
        let rest = max_id(s.drop_last());
        if s.last().id > rest {
            s.last().id as nat
        } else {
            rest
        }
    }
}

/// The id that the next new task gets: one more than the highest.
pub open spec fn next_id(s: Seq<TodoView>) -> nat {
    max_id(s) + 1
}

/// The index of the first task of `s` with the id `id`, and the length of
/// `s` where there is none.
pub open spec fn first_index(s: Seq<TodoView>, id: usize) -> int
    decreases s.len(),
{
    if s.len() == 0 {
        0
    } else if s[0].id == id {
        0
    } else {
        1 + first_index(s.drop_first(), id)
    }
}

/// Whether some task of `s` has the id `id`.
pub open spec fn has_id(s: Seq<TodoView>, id: usize) -> bool {
    first_index(s, id) < s.len()
}

/// A new task as `insert_todo` makes it.
pub open spec fn fresh(id: usize, title: Seq<char>, now: Timestamp) -> TodoView {
    TodoView {
        id,
        title,
        status: Status::Draft,
        created_at: now,
        updated_at: now,
        deleted_at: None,
    }
}

/// `s` with the status of the first task with the id `id` flipped.
pub open spec fn toggled(s: Seq<TodoView>, id: usize) -> Seq<TodoView> {
    let i = first_index(s, id);
    if i < s.len() {
        s.update(i, TodoView { status: s[i].status.flipped(), ..s[i] })
    } else {
        s
    }
}

/// `s` with the first task with the id `id` marked as deleted at `now`.
pub open spec fn soft_deleted(s: Seq<TodoView>, id: usize, now: Timestamp) -> Seq<TodoView> {
    let i = first_index(s, id);
    if i < s.len() {
        s.update(i, TodoView { deleted_at: Some(now), ..s[i] })
    } else {
        s
    }
}

/// `s` with the first task with the id `id` no longer marked as deleted.
pub open spec fn restored(s: Seq<TodoView>, id: usize) -> Seq<TodoView> {
    let i = first_index(s, id);
    if i < s.len() {
        s.update(i, TodoView { deleted_at: None, ..s[i] })
    } else {
        s
    }
}

/// `s` without the first task with the id `id`.
pub open spec fn removed(s: Seq<TodoView>, id: usize) -> Seq<TodoView> {
    let i = first_index(s, id);
    if i < s.len() {
        s.remove(i)
    } else {
        s
    }
}

/// The title of the seeded task with the id `id`.
pub open spec fn seed_title(id: usize) -> Seq<char> {
    "Todo list "@ + decimal(id as nat)
}

/// How many tasks seeding with `n` adds.
pub open spec fn seed_count(n: usize) -> nat {
    if n >= 1 {
        (n - 1) as nat
    } else {
        0
    }
}

/// The tasks that seeding with `n` adds: one for each id from 1 up to, and
/// without, `n`.
pub open spec fn seeded(n: usize, now: Timestamp) -> Seq<TodoView> {
    Seq::new(
        seed_count(n),
        |i: int| fresh((i + 1) as usize, seed_title((i + 1) as usize), now),
    )
}

/// `first_index` is the least index with the id, and is within the length.
pub proof fn lemma_first_index(s: Seq<TodoView>, id: usize)
    ensures
        0 <= first_index(s, id) <= s.len(),
        first_index(s, id) < s.len() ==> s[first_index(s, id)].id == id,
        forall|j: int| 0 <= j < first_index(s, id) ==> (#[trigger] s[j]).id != id,
    decreases s.len(),
{
    if s.len() > 0 && s[0].id != id {
        let rest = s.drop_first();
        lemma_first_index(rest, id);
        assert forall|j: int| 0 <= j < first_index(s, id) implies (#[trigger] s[j]).id != id by {
            if j > 0 {
                assert(rest[j - 1] == s[j]);
            }
        }
    }
}

/// An index before which no task has the id is the first index if the task
/// there has the id, and the length if it is the length.
pub proof fn lemma_first_index_is(s: Seq<TodoView>, id: usize, i: int)
    requires
        0 <= i <= s.len(),
        forall|j: int| 0 <= j < i ==> (#[trigger] s[j]).id != id,
        i < s.len() ==> s[i].id == id,
    ensures
        first_index(s, id) == i,
{
    lemma_first_index(s, id);
    let k = first_index(s, id);
    if k < i {
        assert(s[k].id != id);
    }
}

/// No id is above `max_id`, and a list that is not empty holds `max_id`.
pub proof fn lemma_max_id(s: Seq<TodoView>)
    ensures
        forall|j: int| 0 <= j < s.len() ==> (#[trigger] s[j]).id <= max_id(s),
        s.len() > 0 ==> exists|j: int| 0 <= j < s.len() && (#[trigger] s[j]).id == max_id(s),
        s.len() == 0 ==> max_id(s) == 0,
    decreases s.len(),
{
    if s.len() > 0 {
        let rest = s.drop_last();
        lemma_max_id(rest);
        assert forall|j: int| 0 <= j < s.len() implies (#[trigger] s[j]).id <= max_id(s) by {
            if j < s.len() - 1 {
                assert(rest[j] == s[j]);
            }
        }
        if s.last().id > max_id(rest) {
            assert(s[s.len() - 1].id == max_id(s));
        } else if rest.len() > 0 {
            let j = choose|j: int| 0 <= j < rest.len() && (#[trigger] rest[j]).id == max_id(rest);
            assert(s[j].id == max_id(s));
        } else {
            assert(s[s.len() - 1].id == max_id(s));
        }
    }
}

/// An empty list after one task was put in for each title of `titles`, all
/// at `now`.
pub open spec fn inserted(titles: Seq<Seq<char>>, now: Timestamp) -> Seq<TodoView>
    decreases titles.len(),
{
    if titles.len() == 0 {
        Seq::<TodoView>::empty()
    } else {
        let before = inserted(titles.drop_last(), now);
        before.push(fresh(next_id(before) as usize, titles.last(), now))
    }
}

/// Tasks put into an empty list one after another get the ids 1, 2, 3 and
/// so on.
pub proof fn lemma_inserted_ids(titles: Seq<Seq<char>>, now: Timestamp)
    requires
        titles.len() < usize::MAX,
    ensures
        inserted(titles, now).len() == titles.len(),
        max_id(inserted(titles, now)) == titles.len(),
        forall|i: int| 0 <= i < titles.len() ==> (#[trigger] inserted(titles, now)[i]).id == i + 1,
    decreases titles.len(),
{
    if titles.len() > 0 {
        lemma_inserted_ids(titles.drop_last(), now);
        let before = inserted(titles.drop_last(), now);
        let all = inserted(titles, now);
        assert(all.drop_last() =~= before);
    }
}

/// The id of a new task is one more than the highest id in the list, so 1
/// in an empty list, and the task after it gets the id after that.
pub proof fn lemma_insert_raises_next_id(s: Seq<TodoView>, title: Seq<char>, now: Timestamp)
    requires
        max_id(s) < usize::MAX,
    ensures
        next_id(Seq::<TodoView>::empty()) == 1,
        next_id(s.push(fresh(next_id(s) as usize, title, now))) == next_id(s) + 1,
{
    let t = fresh(next_id(s) as usize, title, now);
    assert(s.push(t).drop_last() =~= s);
}

/// A bound on every id is a bound on the highest.
proof fn lemma_max_id_least_bound(s: Seq<TodoView>, bound: nat)
    requires
        forall|j: int| 0 <= j < s.len() ==> (#[trigger] s[j]).id <= bound,
    ensures
        max_id(s) <= bound,
{
    lemma_max_id(s);
}

/// Removing a task below the highest id leaves the next id as it was: only
/// the highest id counts.
pub proof fn lemma_delete_lower_keeps_next_id(s: Seq<TodoView>, i: int)
    requires
        0 <= i < s.len(),
        s[i].id < max_id(s),
    ensures
        next_id(s.remove(i)) == next_id(s),
{
    lemma_max_id(s);
    let rest = s.remove(i);
    let top = choose|j: int| 0 <= j < s.len() && (#[trigger] s[j]).id == max_id(s);
    assert(top != i);
    let moved = if top < i {
        top
    } else {
        top - 1
    };
    assert(rest[moved] == s[top]);
    lemma_max_id(rest);
    assert(rest[moved].id <= max_id(rest));
    assert forall|j: int| 0 <= j < rest.len() implies (#[trigger] rest[j]).id <= max_id(s) by {
        if j < i {
            assert(rest[j] == s[j]);
        } else {
            assert(rest[j] == s[j + 1]);
        }
    }
    lemma_max_id_least_bound(rest, max_id(s));
}

/// Where the task at `i` alone has the highest id, and the id just below
/// it is in the list too (or the highest id is 1), the next task after the
/// removal of the task at `i` gets that highest id again.
pub proof fn lemma_delete_highest_frees_id(s: Seq<TodoView>, i: int)
    requires
        0 <= i < s.len(),
        forall|j: int| 0 <= j < s.len() && j != i ==> (#[trigger] s[j]).id < s[i].id,
        s[i].id == 1 || exists|j: int| 0 <= j < s.len() && j != i && (#[trigger] s[j]).id == s[i].id - 1,
    ensures
        next_id(s.remove(i)) == s[i].id,
{
    let rest = s.remove(i);
    let top = s[i].id;
    assert(top >= 1);
    assert forall|j: int| 0 <= j < rest.len() implies (#[trigger] rest[j]).id <= top - 1 by {
        if j < i {
            assert(rest[j] == s[j]);
        } else {
            assert(rest[j] == s[j + 1]);
        }
    }
    lemma_max_id_least_bound(rest, (top - 1) as nat);
    lemma_max_id(rest);
    if exists|j: int| 0 <= j < s.len() && j != i && (#[trigger] s[j]).id == top - 1 {
        let below = choose|j: int| 0 <= j < s.len() && j != i && (#[trigger] s[j]).id == top - 1;
        let moved = if below < i {
            below
        } else {
            below - 1
        };
        assert(rest[moved] == s[below]);
        assert(rest[moved].id <= max_id(rest));
    } else {
        assert(top == 1);
    }
}

/// Flipping the status of the same id twice gives the list back.
pub proof fn lemma_toggle_twice(s: Seq<TodoView>, id: usize)
    ensures
        toggled(toggled(s, id), id) == s,
{
    lemma_first_index(s, id);
    let i = first_index(s, id);
    let once = toggled(s, id);
    if i < s.len() {
        assert forall|j: int| 0 <= j < i implies (#[trigger] once[j]).id != id by {
            assert(once[j] == s[j]);
        }
        lemma_first_index_is(once, id, i);
        assert(toggled(once, id) =~= s);
    }
}

/// Marking a task as deleted and then restoring it leaves the list as it
/// was where the task was not marked before; where it was, the task is
/// then not marked, and no other field and no other task has changed.
pub proof fn lemma_restore_after_soft_delete(s: Seq<TodoView>, id: usize, now: Timestamp)
    ensures
        restored(soft_deleted(s, id, now), id) == restored(s, id),
        has_id(s, id) && s[first_index(s, id)].deleted_at is None ==> restored(
            soft_deleted(s, id, now),
            id,
        ) == s,
        !has_id(s, id) ==> restored(soft_deleted(s, id, now), id) == s,
        restored(s, id).len() == s.len(),
        forall|j: int|
            0 <= j < s.len() ==> #[trigger] restored(s, id)[j] == (TodoView {
                deleted_at: if j == first_index(s, id) {
                    None
                } else {
                    s[j].deleted_at
                },
                ..s[j]
            }),
{
    lemma_first_index(s, id);
    let i = first_index(s, id);
    let marked = soft_deleted(s, id, now);
    if i < s.len() {
        assert forall|j: int| 0 <= j < i implies (#[trigger] marked[j]).id != id by {
            assert(marked[j] == s[j]);
        }
        lemma_first_index_is(marked, id, i);
        assert(restored(marked, id) =~= restored(s, id));
        if s[i].deleted_at is None {
            assert(restored(s, id) =~= s);
        }
    }
}

/// The list of tasks, in the order in which they were added.
pub struct TodoApp {
    todos: Vec<Todo>,
}

impl View for TodoApp {
    type V = Seq<TodoView>;

    closed spec fn view(&self) -> Seq<TodoView> {
        todo_views(self.todos@)
    }
}

impl TodoApp {
    /// An empty list.
    pub fn new() -> (out: TodoApp)
        ensures
            out@ == Seq::<TodoView>::empty(),
    {
        let out = TodoApp { todos: Vec::new() };
        assert(out@ =~= Seq::<TodoView>::empty());
        out
    }

    /// Adds `todo` at the end as it is, whatever its id.
    pub fn add_todo(&mut self, todo: Todo)
        ensures
            final(self)@ == old(self)@.push(todo@),
    {
        self.todos.push(todo);
        assert(self@ =~= old(self)@.push(todo@));
    }

    /// The number of tasks, those marked as deleted included.
    pub fn todos_len(&self) -> (out: usize)
        ensures
            out == self@.len(),
    {
        self.todos.len()
    }

    /// The tasks in their order, those marked as deleted included.
    pub fn todos(&self) -> (out: &Vec<Todo>)
        ensures
            todo_views(out@) == self@,
    {
        &self.todos
    }

    /// Puts `todos` in the place of the whole list.
    pub fn replace_all(&mut self, todos: Vec<Todo>)
        ensures
            final(self)@ == todo_views(todos@),
    {
        self.todos = todos;
    }

    /// The highest id in the list, and 0 where the list is empty.
    pub fn highest_id(&self) -> (out: usize)
        ensures
            out == max_id(self@),
    {
        let mut best: usize = 0;
        let mut i: usize = 0;
        while i < self.todos.len()
            invariant
                i <= self.todos.len(),
                best == max_id(self@.take(i as int)),
            decreases self.todos.len() - i,
        {
            proof {
                assert(self@.take(i + 1).drop_last() =~= self@.take(i as int));
                assert(self@.take(i + 1).last() == self.todos@[i as int]@);
            }
            if self.todos[i].id > best {
                best = self.todos[i].id;
            }
            i += 1;
        }
        assert(self@.take(self.todos.len() as int) =~= self@);
        best
    }

    /// The id for the next new task: one more than the highest in the list,
    /// so 1 for an empty list.
    pub fn generate_id(&self) -> (out: usize)
        requires
            max_id(self@) < usize::MAX,
        ensures
            out == next_id(self@),
    {
        self.highest_id() + 1
    }

    /// The index of the first task with the id `id`, or the length.
    fn position(&self, id: usize) -> (out: usize)
        ensures
            out == first_index(self@, id),
            out <= self.todos@.len(),
            self@.len() == self.todos@.len(),
            out < self.todos@.len() ==> self.todos@[out as int].id == id,
    {
        let mut i: usize = 0;
        while i < self.todos.len()
            invariant
                i <= self.todos.len(),
                forall|j: int| 0 <= j < i ==> (#[trigger] self@[j]).id != id,
            decreases self.todos.len() - i,
        {
            if self.todos[i].id == id {
                proof {
                    assert(self@[i as int].id == id);
                    lemma_first_index_is(self@, id, i as int);
                }
                return i;
            }
            assert(self@[i as int].id != id);
            i += 1;
        }
        proof {
            lemma_first_index_is(self@, id, i as int);
        }
        i
    }

    /// Adds a new task with the title `title`, made at `now`: a draft, not
    /// deleted, with the next id.
    pub fn insert_todo_at(&mut self, title: String, now: Timestamp)
        requires
            max_id(old(self)@) < usize::MAX,
        ensures
            final(self)@ == old(self)@.push(fresh(next_id(old(self)@) as usize, title@, now)),
    {
        let id: usize = self.generate_id();
        let todo = Todo {
            id,
            title,
            status: Status::Draft,
            created_at: now,
            updated_at: now,
            deleted_at: None,
        };
        self.add_todo(todo);
    }

    /// Adds a new task with the title `title`, made now.
    pub fn insert_todo(&mut self, title: String)
        requires
            max_id(old(self)@) < usize::MAX,
        ensures
            final(self)@.len() == old(self)@.len() + 1,
            final(self)@ == old(self)@.push(
                fresh(next_id(old(self)@) as usize, title@, final(self)@.last().created_at),
            ),
    {
        let now = utc_now();
        self.insert_todo_at(title, now);
    }

    /// Flips the status of the first task with the id `id`, and says whether
    /// there was one.
    pub fn update_todo(&mut self, id: usize) -> (found: bool)
        ensures
            found == has_id(old(self)@, id),
            final(self)@ == toggled(old(self)@, id),
    {
        let i: usize = self.position(id);
        if i < self.todos.len() {
            let status = match self.todos[i].status {
                Status::Completed => Status::Draft,
                Status::Draft => Status::Completed,
            };
            self.todos[i].status = status;
            assert(self@ =~= toggled(old(self)@, id));
            true
        } else {
            false
        }
    }

    /// Marks the first task with the id `id` as deleted at `now`, and says
    /// whether there was one.
    pub fn soft_delete_todo_at(&mut self, id: usize, now: Timestamp) -> (found: bool)
        ensures
            found == has_id(old(self)@, id),
            final(self)@ == soft_deleted(old(self)@, id, now),
    {
        let i: usize = self.position(id);
        if i < self.todos.len() {
            self.todos[i].deleted_at = Some(now);
            assert(self@ =~= soft_deleted(old(self)@, id, now));
            true
        } else {
            false
        }
    }

    /// Marks the first task with the id `id` as deleted now, and says
    /// whether there was one.
    pub fn soft_delete_todo(&mut self, id: usize) -> (found: bool)
        ensures
            found == has_id(old(self)@, id),
            !found ==> final(self)@ == old(self)@,
            found ==> final(self)@[first_index(old(self)@, id)].deleted_at is Some,
            found ==> final(self)@ == soft_deleted(
                old(self)@,
                id,
                final(self)@[first_index(old(self)@, id)].deleted_at->Some_0,
            ),
    {
        let now = utc_now();
        proof {
            lemma_first_index(self@, id);
        }
        self.soft_delete_todo_at(id, now)
    }

    /// Takes the deletion mark from the first task with the id `id`, and
    /// says whether there was one.
    pub fn restore_todo(&mut self, id: usize) -> (found: bool)
        ensures
            found == has_id(old(self)@, id),
            final(self)@ == restored(old(self)@, id),
    {
        let i: usize = self.position(id);
        if i < self.todos.len() {
            self.todos[i].deleted_at = None;
            assert(self@ =~= restored(old(self)@, id));
            true
        } else {
            false
        }
    }

    /// Removes the first task with the id `id`, marked as deleted or not,
    /// and says whether there was one.
    pub fn delete_todo(&mut self, id: usize) -> (found: bool)
        ensures
            found == has_id(old(self)@, id),
            final(self)@ == removed(old(self)@, id),
    {
        let i: usize = self.position(id);
        if i < self.todos.len() {
            self.todos.remove(i);
            assert(self@ =~= removed(old(self)@, id));
            true
        } else {
            false
        }
    }

    /// Adds one draft for each id from 1 up to, and without, `n`, all made
    /// at `now`. The ids already in the list are not looked at.
    pub fn seed_todos_at(&mut self, n: usize, now: Timestamp)
        ensures
            final(self)@ == old(self)@ + seeded(n, now),
    {
        let mut i: usize = 1;
        assert(self@ =~= old(self)@ + seeded(n, now).take(0));
        while i < n
            invariant
                1 <= i,
                i <= n || i == 1,
                self@ == old(self)@ + seeded(n, now).take(i - 1),
            decreases n - i,
        {
            let mut title = chars_of("Todo list ");
            let digits = decimal_chars(i);
            append_chars(&mut title, &digits);
            let todo = Todo {
                id: i,
                title: string_of(&title),
                status: Status::Draft,
                created_at: now,
                updated_at: now,
                deleted_at: None,
            };
            let ghost before = self@;
            self.add_todo(todo);
            proof {
                assert(seeded(n, now)[i - 1] == todo@);
                assert(seeded(n, now).take(i as int) =~= seeded(n, now).take(i - 1).push(todo@));
                assert(self@ =~= old(self)@ + seeded(n, now).take(i as int));
            }
            i += 1;
        }
        assert(seeded(n, now).take(i - 1) =~= seeded(n, now));
    }

    /// Adds one draft for each id from 1 up to, and without, `n`, all made
    /// now.
    pub fn seed_todos(&mut self, n: usize)
        ensures
            final(self)@.len() == old(self)@.len() + seed_count(n),
            n <= 1 ==> final(self)@ == old(self)@,
            n > 1 ==> final(self)@ == old(self)@ + seeded(n, final(self)@.last().created_at),
    {
        let now = utc_now();
        self.seed_todos_at(n, now);
    }
}

} // verus!
