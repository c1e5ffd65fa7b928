//! The task-list domain model: an ordered collection of tasks with unique,
//! monotonically increasing identifiers, supporting add, mark-done, rename,
//! remove and filtered listing.

use vstd::prelude::*;
use vstd::string::StringExecFns;
use crate::shared::num::{dec_seq, u64_to_string};

verus! {

/// One to-do entry: a unique identifier, an editable title, a completion flag.
#[derive(Debug)]
pub struct Todo {
    pub id: u64,
    pub title: String,
    pub done: bool,
}

/// The mathematical image of a task: its fields as plain values.
#[verifier::ext_equal]
pub struct TaskModel {
    pub id: u64,
    pub title: Seq<char>,
    pub done: bool,
}

impl View for Todo {
    type V = TaskModel;

    open spec fn view(&self) -> TaskModel {
        TaskModel { id: self.id, title: self.title@, done: self.done }
    }
}

/// The tasks a vector holds, as their mathematical images.
pub open spec fn tasks_view(s: Seq<Todo>) -> Seq<TaskModel> {
    s.map_values(|t: Todo| t@)
}

/// The ordered collection of tasks plus the next-id counter.
#[derive(Debug)]
pub struct TodoList {
    pub items: Vec<Todo>,
    pub next_id: u64,
}

/// The mathematical image of a task list.
#[verifier::ext_equal]
pub struct ListModel {
    pub items: Seq<TaskModel>,
    pub next_id: u64,
}

impl View for TodoList {
    type V = ListModel;

    open spec fn view(&self) -> ListModel {
        ListModel { items: tasks_view(self.items@), next_id: self.next_id }
    }
}

/// A freshly created list: no tasks, identifiers start at 1.
pub open spec fn empty_model() -> ListModel {
    ListModel { items: Seq::empty(), next_id: 1 }
}

impl ListModel {
    /// The list invariant: identifiers are pairwise distinct and every one of
    /// them was handed out before `next_id` was reached.
    pub open spec fn wf(self) -> bool {
        &&& 1 <= self.next_id
        &&& forall|i: int, j: int|
            0 <= i < j < self.items.len() ==> self.items[i].id != self.items[j].id
        &&& forall|i: int| 0 <= i < self.items.len() ==> self.items[i].id < self.next_id
    }

    /// Identifiers appear in strictly increasing order. Every list built from
    /// `new` by the mutating operations has this shape, since each `add`
    /// appends a fresh identifier larger than all earlier ones.
    pub open spec fn sorted(self) -> bool {
        forall|i: int, j: int|
            0 <= i < j < self.items.len() ==> self.items[i].id < self.items[j].id
    }
}

/// Some task in `items` carries the identifier `id`.
pub open spec fn has_id(items: Seq<TaskModel>, id: u64) -> bool {
    exists|i: int| 0 <= i < items.len() && items[i].id == id
}

/// The position of the task carrying `id`; meaningful when `has_id` holds and
/// the identifiers are distinct.
pub open spec fn idx_of(items: Seq<TaskModel>, id: u64) -> int {
    choose|i: int| 0 <= i < items.len() && items[i].id == id
}

/// What `add` does: append a pending task carrying the next identifier.
pub open spec fn add_model(m: ListModel, title: Seq<char>) -> ListModel {
    ListModel {
        items: m.items.push(TaskModel { id: m.next_id, title, done: false }),
        next_id: (m.next_id + 1) as u64,
    }
}

pub open spec fn set_done(t: TaskModel, value: bool) -> TaskModel {
    TaskModel { done: value, ..t }
}

pub open spec fn set_title(t: TaskModel, title: Seq<char>) -> TaskModel {
    TaskModel { title, ..t }
}

/// What `mark` does on success: the task carrying `id` gets the requested
/// flag; every other task, and the counter, stay as they were.
pub open spec fn mark_model(m: ListModel, id: u64, value: bool) -> ListModel {
    ListModel {
        items: Seq::new(
            m.items.len(),
            |i: int|
                if m.items[i].id == id {
                    set_done(m.items[i], value)
                } else {
                    m.items[i]
                },
        ),
        next_id: m.next_id,
    }
}

/// What `update_title` does on success.
pub open spec fn update_title_model(m: ListModel, id: u64, title: Seq<char>) -> ListModel {
    ListModel {
        items: Seq::new(
            m.items.len(),
            |i: int|
                if m.items[i].id == id {
                    set_title(m.items[i], title)
                } else {
                    m.items[i]
                },
        ),
        next_id: m.next_id,
    }
}

/// What `remove` does on success: the task carrying `id` leaves, the order of
/// the rest is preserved, the counter stays.
pub open spec fn remove_model(m: ListModel, id: u64) -> ListModel {
    ListModel { items: m.items.remove(idx_of(m.items, id)), next_id: m.next_id }
}

/// The tasks still to do, in their original order.
pub open spec fn pending_model(items: Seq<TaskModel>) -> Seq<TaskModel> {
    items.filter(|t: TaskModel| !t.done)
}

/// The completed tasks, in their original order.
pub open spec fn done_model(items: Seq<TaskModel>) -> Seq<TaskModel> {
    items.filter(|t: TaskModel| t.done)
}

/// The message `mark` returns for an unknown identifier.
pub open spec fn mark_err_msg(id: u64) -> Seq<char> {
    "Todo '"@ + dec_seq(id as nat) + "' is not found."@
}

/// The message `update_title` returns for an unknown identifier.
pub open spec fn update_err_msg(id: u64) -> Seq<char> {
    "Todo "@ + dec_seq(id as nat) + " not found"@
}

/// The message `remove` returns for an unknown identifier.
pub open spec fn remove_err_msg(id: u64) -> Seq<char> {
    "Todo '"@ + dec_seq(id as nat) + "' is not found"@
}

/// A message of the shape `<prefix><id><suffix>`.
fn not_found_message(prefix: &str, id: u64, suffix: &str) -> (r: String)
    ensures
        r@ == prefix@ + dec_seq(id as nat) + suffix@,
{
    let mut s = String::from_str(prefix);
    let num = u64_to_string(id);
    s.append(num.as_str());
    s.append(suffix);
    proof {
        assert(s@ =~= prefix@ + dec_seq(id as nat) + suffix@);
    }
    s
}

/// The label a task is shown under: `[<id>] <title>`.
pub open spec fn label_model(t: TaskModel) -> Seq<char> {
    "["@ + dec_seq(t.id as nat) + "] "@ + t.title
}

impl Todo {
    /// Render the task as `[<id>] <title>`.
    pub fn fmt(&self) -> (r: String)
        ensures
            r@ == label_model(self@),
    {
        let mut s = String::from_str("[");
        let num = u64_to_string(self.id);
        s.append(num.as_str());
        s.append("] ");
        s.append(self.title.as_str());
        proof {
            assert(s@ =~= label_model(self@));
        }
        s
    }
}

impl TodoList {
    /// Create an empty list whose first identifier will be 1.
    pub fn new() -> (r: TodoList)
        ensures
            r@ == empty_model(),
            r@.wf(),
            r@.sorted(),
    {
        let r = TodoList { items: Vec::new(), next_id: 1 };
        proof {
            assert(r@ =~= empty_model());
        }
        r
    }

    /// Append a new pending task under the next free identifier and return it.
    /// The identifier is never reused, so the counter must not yet be
    /// exhausted.
    pub fn add(&mut self, title: String) -> (r: Todo)
        requires
            old(self)@.wf(),
            old(self)@.next_id < u64::MAX,
        ensures
            final(self)@ == add_model(old(self)@, title@),
            final(self)@.wf(),
            old(self)@.sorted() ==> final(self)@.sorted(),
            r@ == (TaskModel { id: old(self)@.next_id, title: title@, done: false }),
    {
        let stored_title = title.clone();
        let todo = Todo { id: self.next_id, title, done: false };
        let stored = Todo { id: todo.id, title: stored_title, done: todo.done };
        self.next_id = self.next_id + 1;
        self.items.push(stored);
        proof {
            assert(self@ =~= add_model(old(self)@, todo.title@));
        }
        todo
    }

    /// Set the completion flag of the task carrying `id` to `value`. Setting a
    /// flag that already has the requested value succeeds and changes nothing.
    /// An unknown identifier is reported and leaves the list unchanged.
    pub fn mark(&mut self, id: u64, value: bool) -> (r: Result<(), String>)
        requires
            old(self)@.wf(),
        ensures
            final(self)@.wf(),
            r is Ok <==> has_id(old(self)@.items, id),
            r is Ok ==> final(self)@ == mark_model(old(self)@, id, value),
            r is Err ==> final(self)@ == old(self)@,
            r matches Err(m) ==> m@ == mark_err_msg(id),
            old(self)@.sorted() ==> final(self)@.sorted(),
    {
        let n = self.items.len();
        let mut i: usize = 0;
        while i < n
            invariant
                n == self.items@.len(),
                0 <= i <= n,
                self.items@ == old(self).items@,
                self.next_id == old(self).next_id,
                old(self)@.wf(),
                forall|j: int| 0 <= j < i ==> self.items@[j].id != id,
            decreases n - i,
        {
            if self.items[i].id == id {
                proof {
                    assert(old(self)@.items[i as int].id == id);
                    assert(has_id(old(self)@.items, id));
                }
                self.items[i].done = value;
                proof {
                    let mo = old(self)@;
                    assert forall|j: int| 0 <= j < mo.items.len() implies self@.items[j]
                        == mark_model(mo, id, value).items[j] by {
                        if j != i {
                            assert(mo.items[j].id != id);
                        }
                    }
                    assert(self@ =~= mark_model(mo, id, value));
                }
                return Ok(());
            }
            i += 1;
        }
        proof {
            assert(self@ =~= old(self)@);
        }
        Err(not_found_message("Todo '", id, "' is not found."))
    }

    /// Replace the title of the task carrying `id`. An unknown identifier is
    /// reported and leaves the list unchanged.
    pub fn update_title(&mut self, id: u64, title: &str) -> (r: Result<(), String>)
        requires
            old(self)@.wf(),
        ensures
            final(self)@.wf(),
            r is Ok <==> has_id(old(self)@.items, id),
            r is Ok ==> final(self)@ == update_title_model(old(self)@, id, title@),
            r is Err ==> final(self)@ == old(self)@,
            r matches Err(m) ==> m@ == update_err_msg(id),
            old(self)@.sorted() ==> final(self)@.sorted(),
    {
        let n = self.items.len();
        let mut i: usize = 0;
        while i < n
            invariant
                n == self.items@.len(),
                0 <= i <= n,
                self.items@ == old(self).items@,
                self.next_id == old(self).next_id,
                old(self)@.wf(),
                forall|j: int| 0 <= j < i ==> self.items@[j].id != id,
            decreases n - i,
        {
            if self.items[i].id == id {
                proof {
                    assert(old(self)@.items[i as int].id == id);
                    assert(has_id(old(self)@.items, id));
                }
                self.items[i].title = title.to_owned();
                proof {
                    let mo = old(self)@;
                    assert forall|j: int| 0 <= j < mo.items.len() implies self@.items[j]
                        == update_title_model(mo, id, title@).items[j] by {
                        if j != i {
                            assert(mo.items[j].id != id);
                        }
                    }
                    assert(self@ =~= update_title_model(mo, id, title@));
                }
                return Ok(());
            }
            i += 1;
        }
        proof {
            assert(self@ =~= old(self)@);
        }
        Err(not_found_message("Todo ", id, " not found"))
    }

    /// Delete the task carrying `id`, preserving the order of the rest. An
    /// unknown identifier is reported and leaves the list unchanged.
    pub fn remove(&mut self, id: u64) -> (r: Result<(), String>)
        requires
            old(self)@.wf(),
        ensures
            final(self)@.wf(),
            r is Ok <==> has_id(old(self)@.items, id),
            r is Ok ==> final(self)@ == remove_model(old(self)@, id),
            r is Err ==> final(self)@ == old(self)@,
            r matches Err(m) ==> m@ == remove_err_msg(id),
            old(self)@.sorted() ==> final(self)@.sorted(),
    {
        let n = self.items.len();
        let mut i: usize = 0;
        while i < n
            invariant
                n == self.items@.len(),
                0 <= i <= n,
                self.items@ == old(self).items@,
                self.next_id == old(self).next_id,
                old(self)@.wf(),
                forall|j: int| 0 <= j < i ==> self.items@[j].id != id,
            decreases n - i,
        {
            if self.items[i].id == id {
                proof {
                    assert(old(self)@.items[i as int].id == id);
                    assert(has_id(old(self)@.items, id));
                    let k = idx_of(old(self)@.items, id);
                    assert(0 <= k < old(self)@.items.len() && old(self)@.items[k].id == id);
                    assert(k == i);
                }
                self.items.remove(i);
                proof {
                    assert(self@ =~= remove_model(old(self)@, id));
                }
                return Ok(());
            }
            i += 1;
        }
        proof {
            assert(self@ =~= old(self)@);
        }
        Err(not_found_message("Todo '", id, "' is not found"))
    }

    /// The tasks still to do, in their original order.
    pub fn todo(&self) -> (r: Vec<Todo>)
        ensures
            tasks_view(r@) == pending_model(self@.items),
    {
        let mut out: Vec<Todo> = Vec::new();
        let mut i: usize = 0;
        proof {
            assert(self@.items.subrange(0, 0) =~= Seq::<TaskModel>::empty());
            reveal(Seq::filter);
        }
        while i < self.items.len()
            invariant
                0 <= i <= self.items@.len(),
                tasks_view(out@) == self@.items.subrange(0, i as int).filter(
                    |t: TaskModel| !t.done,
                ),
            decreases self.items@.len() - i,
        {
            let t = &self.items[i];
            if !t.done {
                out.push(Todo { id: t.id, title: t.title.clone(), done: t.done });
            }
            proof {
                reveal(Seq::filter);
                let pre = self@.items.subrange(0, i as int);
                let post = self@.items.subrange(0, i + 1);
                assert(post.drop_last() =~= pre);
                assert(post.last() == self@.items[i as int]);
                if !t@.done {
                    assert(tasks_view(out@) =~= post.filter(|t: TaskModel| !t.done));
                } else {
                    assert(tasks_view(out@) =~= post.filter(|t: TaskModel| !t.done));
                }
            }
            i += 1;
        }
        proof {
            assert(self@.items.subrange(0, self@.items.len() as int) =~= self@.items);
        }
        out
    }

    /// The completed tasks, in their original order.
    pub fn done(&self) -> (r: Vec<Todo>)
        ensures
            tasks_view(r@) == done_model(self@.items),
    {
        let mut out: Vec<Todo> = Vec::new();
        let mut i: usize = 0;
        proof {
            assert(self@.items.subrange(0, 0) =~= Seq::<TaskModel>::empty());
            reveal(Seq::filter);
        }
        while i < self.items.len()
            invariant
                0 <= i <= self.items@.len(),
                tasks_view(out@) == self@.items.subrange(0, i as int).filter(
                    |t: TaskModel| t.done,
                ),
            decreases self.items@.len() - i,
        {
            let t = &self.items[i];
            if t.done {
                out.push(Todo { id: t.id, title: t.title.clone(), done: t.done });
            }
            proof {
                reveal(Seq::filter);
                let pre = self@.items.subrange(0, i as int);
                let post = self@.items.subrange(0, i + 1);
                assert(post.drop_last() =~= pre);
                assert(post.last() == self@.items[i as int]);
                assert(tasks_view(out@) =~= post.filter(|t: TaskModel| t.done));
            }
            i += 1;
        }
        proof {
            assert(self@.items.subrange(0, self@.items.len() as int) =~= self@.items);
        }
        out
    }

    /// Every task, in insertion order.
    pub fn list(&self) -> (r: &Vec<Todo>)
        ensures
            tasks_view(r@) == self@.items,
    {
        &self.items
    }
}

/// The identifier a fresh `add` hands out is larger than that of every task
/// already present, so across any sequence of `add`s — whatever removals
/// intervene — the identifiers handed out are strictly increasing and unique.
pub proof fn lemma_add_id_fresh(m: ListModel, title: Seq<char>)
    requires
        m.wf(),
    ensures
        add_model(m, title).items.last().id == m.next_id,
        forall|i: int|
            0 <= i < m.items.len() ==> m.items[i].id < add_model(m, title).items.last().id,
{
}

/// In a sorted list the identifiers are pairwise distinct.
pub proof fn lemma_sorted_unique(m: ListModel)
    requires
        m.sorted(),
    ensures
        forall|i: int, j: int|
            0 <= i < m.items.len() && 0 <= j < m.items.len() && i != j ==> m.items[i].id
                != m.items[j].id,
{
}

/// After a task is removed its identifier is gone: no task of the remaining
/// list carries it.
pub proof fn lemma_remove_id_absent(m: ListModel, id: u64)
    requires
        m.wf(),
        has_id(m.items, id),
    ensures
        !has_id(remove_model(m, id).items, id),
{
    let k = idx_of(m.items, id);
    assert(0 <= k < m.items.len() && m.items[k].id == id);
    let r = remove_model(m, id).items;
    assert forall|j: int| 0 <= j < r.len() implies r[j].id != id by {
        if j < k {
            assert(r[j] == m.items[j]);
        } else {
            assert(r[j] == m.items[j + 1]);
        }
    }
}

/// Marking twice is the same as marking once with the later flag: in
/// particular, mark(id, true) followed by mark(id, false) leaves the task
/// pending again.
pub proof fn lemma_mark_twice(m: ListModel, id: u64, v1: bool, v2: bool)
    ensures
        mark_model(mark_model(m, id, v1), id, v2) == mark_model(m, id, v2),
{
    assert(mark_model(mark_model(m, id, v1), id, v2) =~= mark_model(m, id, v2));
}

/// Marking a task with the flag it already carries changes nothing; together
/// with `lemma_mark_twice` this says that mark(id, true) then mark(id, false)
/// restores a previously pending task exactly.
pub proof fn lemma_mark_noop(m: ListModel, id: u64, v: bool)
    requires
        forall|i: int| 0 <= i < m.items.len() && m.items[i].id == id ==> m.items[i].done == v,
    ensures
        mark_model(m, id, v) == m,
{
    assert(mark_model(m, id, v) =~= m);
}

/// The identifiers a sequence of tasks carries, as a set.
pub open spec fn id_set(items: Seq<TaskModel>) -> Set<u64> {
    Set::new(|id: u64| has_id(items, id))
}

/// An element of a filtered sequence is an element of the sequence.
pub proof fn lemma_filter_subset<A>(s: Seq<A>, pred: spec_fn(A) -> bool, x: A)
    requires
        s.filter(pred).contains(x),
    ensures
        s.contains(x),
        pred(x),
    decreases s.len(),
{
    reveal(Seq::filter);
    if s.len() > 0 {
        if s.drop_last().filter(pred).contains(x) {
            lemma_filter_subset(s.drop_last(), pred, x);
            let i = choose|i: int| 0 <= i < s.drop_last().len() && s.drop_last()[i] == x;
            assert(s[i] == x);
        } else {
            assert(x == s.last());
        }
    }
}

/// A sequence element satisfying the predicate is in the filtered sequence.
pub proof fn lemma_filter_complete<A>(s: Seq<A>, pred: spec_fn(A) -> bool, i: int)
    requires
        0 <= i < s.len(),
        pred(s[i]),
    ensures
        s.filter(pred).contains(s[i]),
    decreases s.len(),
{
    reveal(Seq::filter);
    if i == s.len() - 1 {
        assert(s.last() == s[i]);
        assert(s.filter(pred).last() == s[i]);
    } else {
        lemma_filter_complete(s.drop_last(), pred, i);
        let j = choose|j: int|
            0 <= j < s.drop_last().filter(pred).len() && s.drop_last().filter(pred)[j] == s[i];
        if pred(s.last()) {
            assert(s.filter(pred)[j] == s[i]);
        }
    }
}

/// The pending tasks and the completed tasks split the list: together their
/// identifiers are exactly the identifiers of the whole list, and no
/// identifier is on both sides.
pub proof fn lemma_pending_done_partition(m: ListModel)
    requires
        m.wf(),
    ensures
        id_set(pending_model(m.items)).union(id_set(done_model(m.items))) == id_set(m.items),
        id_set(pending_model(m.items)).intersect(id_set(done_model(m.items))) == Set::<
            u64,
        >::empty(),
{
    let pend = pending_model(m.items);
    let done = done_model(m.items);
    assert forall|x: u64| has_id(m.items, x) implies has_id(pend, x) || has_id(done, x) by {
        let i = choose|i: int| 0 <= i < m.items.len() && m.items[i].id == x;
        if m.items[i].done {
            lemma_filter_complete(m.items, |t: TaskModel| t.done, i);
            let j = choose|j: int| 0 <= j < done.len() && done[j] == m.items[i];
            assert(done[j].id == x);
        } else {
            lemma_filter_complete(m.items, |t: TaskModel| !t.done, i);
            let j = choose|j: int| 0 <= j < pend.len() && pend[j] == m.items[i];
            assert(pend[j].id == x);
        }
    }
    assert forall|x: u64| has_id(pend, x) implies has_id(m.items, x) by {
        let j = choose|j: int| 0 <= j < pend.len() && pend[j].id == x;
        lemma_filter_subset(m.items, |t: TaskModel| !t.done, pend[j]);
        let i = choose|i: int| 0 <= i < m.items.len() && m.items[i] == pend[j];
        assert(m.items[i].id == x);
    }
    assert forall|x: u64| has_id(done, x) implies has_id(m.items, x) by {
        let j = choose|j: int| 0 <= j < done.len() && done[j].id == x;
        lemma_filter_subset(m.items, |t: TaskModel| t.done, done[j]);
        let i = choose|i: int| 0 <= i < m.items.len() && m.items[i] == done[j];
        assert(m.items[i].id == x);
    }
    assert(id_set(pend).union(id_set(done)) =~= id_set(m.items));
    assert forall|x: u64| !(has_id(pend, x) && has_id(done, x)) by {
        if has_id(pend, x) && has_id(done, x) {
            let j1 = choose|j: int| 0 <= j < pend.len() && pend[j].id == x;
            let j2 = choose|j: int| 0 <= j < done.len() && done[j].id == x;
            lemma_filter_subset(m.items, |t: TaskModel| !t.done, pend[j1]);
            lemma_filter_subset(m.items, |t: TaskModel| t.done, done[j2]);
            let i1 = choose|i: int| 0 <= i < m.items.len() && m.items[i] == pend[j1];
            let i2 = choose|i: int| 0 <= i < m.items.len() && m.items[i] == done[j2];
            assert(m.items[i1].id == x && m.items[i2].id == x);
            assert(i1 != i2);
            assert(false);
        }
    }
    assert(id_set(pend).intersect(id_set(done)) =~= Set::<u64>::empty());
}

} // verus!
