//! The request handling behind the HTTP surface. Each endpoint's work on the
//! list — the operation itself and the status it answers with — stands here;
//! the route table, the JSON bodies and the lock around the shared list live
//! with the server glue, which calls these and writes the list back after
//! each successful mutation.
//!
//! Status mapping: a lookup miss answers 404 with the message as body; a
//! successful update or mark answers 200, a successful delete 204, a creation
//! 201 with the created task.

use vstd::prelude::*;
use crate::shared::todo::{
    add_model, done_model, empty_model, has_id, mark_model, pending_model, remove_model,
    tasks_view, update_title_model, mark_err_msg, remove_err_msg, update_err_msg, TaskModel, Todo,
    TodoList,
};

verus! {

/// The body of a creation request.
pub struct CreateTodo {
    pub title: String,
}

/// The body of a title update.
pub struct UpdateTodo {
    pub title: String,
}

/// One task as it is answered to a client.
pub struct TodoResponse {
    pub id: u64,
    pub title: String,
    pub done: bool,
}

impl View for TodoResponse {
    type V = TaskModel;

    open spec fn view(&self) -> TaskModel {
        TaskModel { id: self.id, title: self.title@, done: self.done }
    }
}

impl TodoResponse {
    /// Copy a task into its response shape.
    pub fn from(t: &Todo) -> (r: TodoResponse)
        ensures
            r@ == t@,
    {
        TodoResponse { id: t.id, title: t.title.clone(), done: t.done }
    }
}

/// Which tasks a listing request asks for.
#[derive(Debug)]
pub enum ListMode {
    All,
    Todo,
    Done,
}

/// The query of a listing request; a missing mode means all tasks.
pub struct ListQuery {
    pub mode: ListMode,
}

/// The mode a listing request falls back to.
pub fn default_mode() -> (r: ListMode)
    ensures
        r is All,
{
    ListMode::All
}

/// The tasks a listing answers with, as plain values.
pub open spec fn responses_view(s: Seq<TodoResponse>) -> Seq<TaskModel> {
    s.map_values(|r: TodoResponse| r@)
}

/// Copy tasks into their response shape.
fn to_responses(items: &Vec<Todo>) -> (r: Vec<TodoResponse>)
    ensures
        responses_view(r@) == tasks_view(items@),
{
    let mut out: Vec<TodoResponse> = Vec::new();
    let mut i: usize = 0;
    while i < items.len()
        invariant
            0 <= i <= items@.len(),
            responses_view(out@) == tasks_view(items@.subrange(0, i as int)),
        decreases items@.len() - i,
    {
        let resp = TodoResponse::from(&items[i]);
        let ghost prev = out@;
        out.push(resp);
        proof {
            assert(out@ == prev.push(resp));
            assert(responses_view(prev).len() == prev.len());
            assert(tasks_view(items@.subrange(0, i as int)).len() == i);
            assert(prev.len() == i);
            assert(items@.subrange(0, i + 1) =~= items@.subrange(0, i as int).push(
                items@[i as int],
            ));
            assert forall|j: int| 0 <= j < i + 1 implies responses_view(out@)[j] == tasks_view(
                items@.subrange(0, i + 1),
            )[j] by {
                if j < i {
                    assert(responses_view(prev)[j] == tasks_view(items@.subrange(0, i as int))[j]);
                    assert(out@[j] == prev[j]);
                }
            }
            assert(responses_view(out@) =~= tasks_view(items@.subrange(0, i + 1)));
        }
        i += 1;
    }
    proof {
        assert(items@.subrange(0, items@.len() as int) =~= items@);
    }
    out
}

/// Answer a listing request: the tasks the mode selects, in insertion order.
pub fn list(todos: &TodoList, query: &ListQuery) -> (r: Vec<TodoResponse>)
    ensures
        query.mode is All ==> responses_view(r@) == todos@.items,
        query.mode is Todo ==> responses_view(r@) == pending_model(todos@.items),
        query.mode is Done ==> responses_view(r@) == done_model(todos@.items),
{
    match query.mode {
        ListMode::All => to_responses(todos.list()),
        ListMode::Todo => {
            let v = todos.todo();
            to_responses(&v)
        },
        ListMode::Done => {
            let v = todos.done();
            to_responses(&v)
        },
    }
}

/// Answer a creation request: append the task and return it (201).
pub fn create(todos: &mut TodoList, payload: CreateTodo) -> (r: TodoResponse)
    requires
        old(todos)@.wf(),
        old(todos)@.next_id < u64::MAX,
    ensures
        final(todos)@ == add_model(old(todos)@, payload.title@),
        final(todos)@.wf(),
        old(todos)@.sorted() ==> final(todos)@.sorted(),
        r@ == (TaskModel { id: old(todos)@.next_id, title: payload.title@, done: false }),
{
    let todo = todos.add(payload.title);
    TodoResponse::from(&todo)
}

/// Answer a title update: 200 on success, 404 with the message for an
/// unknown identifier.
pub fn update(todos: &mut TodoList, id: u64, body: &UpdateTodo) -> (r: (u16, Option<String>))
    requires
        old(todos)@.wf(),
    ensures
        final(todos)@.wf(),
        old(todos)@.sorted() ==> final(todos)@.sorted(),
        has_id(old(todos)@.items, id) ==> r.0 == 200 && r.1 is None && final(todos)@
            == update_title_model(old(todos)@, id, body.title@),
        !has_id(old(todos)@.items, id) ==> r.0 == 404 && final(todos)@ == old(todos)@ && (
        r.1 matches Some(m) && m@ == update_err_msg(id)),
{
    match todos.update_title(id, body.title.as_str()) {
        Ok(_) => (200, None),
        Err(e) => (404, Some(e)),
    }
}

/// Answer a mark-done request: 200 on success, 404 with the message for an
/// unknown identifier.
pub fn mark_done(todos: &mut TodoList, id: u64) -> (r: (u16, Option<String>))
    requires
        old(todos)@.wf(),
    ensures
        final(todos)@.wf(),
        old(todos)@.sorted() ==> final(todos)@.sorted(),
        has_id(old(todos)@.items, id) ==> r.0 == 200 && r.1 is None && final(todos)@ == mark_model(
            old(todos)@,
            id,
            true,
        ),
        !has_id(old(todos)@.items, id) ==> r.0 == 404 && final(todos)@ == old(todos)@ && (
        r.1 matches Some(m) && m@ == mark_err_msg(id)),
{
    match todos.mark(id, true) {
        Ok(_) => (200, None),
        Err(e) => (404, Some(e)),
    }
}

/// Answer an undo-done request: 200 on success, 404 with the message for an
/// unknown identifier.
pub fn undo_done(todos: &mut TodoList, id: u64) -> (r: (u16, Option<String>))
    requires
        old(todos)@.wf(),
    ensures
        final(todos)@.wf(),
        old(todos)@.sorted() ==> final(todos)@.sorted(),
        has_id(old(todos)@.items, id) ==> r.0 == 200 && r.1 is None && final(todos)@ == mark_model(
            old(todos)@,
            id,
            false,
        ),
        !has_id(old(todos)@.items, id) ==> r.0 == 404 && final(todos)@ == old(todos)@ && (
        r.1 matches Some(m) && m@ == mark_err_msg(id)),
{
    match todos.mark(id, false) {
        Ok(_) => (200, None),
        Err(e) => (404, Some(e)),
    }
}

/// Answer a deletion request: 204 on success, 404 with the message for an
/// unknown identifier.
pub fn delete(todos: &mut TodoList, id: u64) -> (r: (u16, Option<String>))
    requires
        old(todos)@.wf(),
    ensures
        final(todos)@.wf(),
        old(todos)@.sorted() ==> final(todos)@.sorted(),
        has_id(old(todos)@.items, id) ==> r.0 == 204 && r.1 is None && final(todos)@
            == remove_model(old(todos)@, id),
        !has_id(old(todos)@.items, id) ==> r.0 == 404 && final(todos)@ == old(todos)@ && (
        r.1 matches Some(m) && m@ == remove_err_msg(id)),
{
    match todos.remove(id) {
        Ok(_) => (204, None),
        Err(e) => (404, Some(e)),
    }
}

/// Answer a reset request: the list starts over, empty (200, body `Reset`).
pub fn reset(todos: &mut TodoList)
    ensures
        final(todos)@ == empty_model(),
        final(todos)@.wf(),
        final(todos)@.sorted(),
{
    *todos = TodoList::new();
}

} // verus!
