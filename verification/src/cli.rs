//! The command-line front end's command handler: one domain operation per
//! invocation, interactive choices supplied through a `Prompter`. The caller
//! persists the list if and only if `Changed` comes back.

use vstd::prelude::*;
use vstd::string::StrSliceExecFns;
use vstd::string::StringExecFns;
use crate::prompter::Prompter;
use crate::shared::todo::{
    add_model, has_id, label_model, lemma_filter_subset, mark_model, pending_model, done_model,
    remove_model, tasks_view, update_title_model, TaskModel, Todo, TodoList,
};

verus! {

/// The parsed command line: exactly one command.
pub struct Cli {
    pub command: Command,
}

/// Which tasks a listing shows.
#[derive(Debug)]
pub enum ListMode {
    All,
    Done,
    Todo,
}

/// One invocation's command.
pub enum Command {
    Add { key: String },
    MarkDone,
    UndoDone,
    List { mode: ListMode },
    Delete,
    Update,
}

/// Whether the command mutated the list — the caller persists only then.
#[derive(Debug, PartialEq, Eq, Structural)]
pub enum RunResult {
    NoChange,
    Changed,
}

/// The labels under which the tasks are offered for selection: each task's
/// `[<id>] <title>` line, in the tasks' order.
fn labels_of(items: &Vec<Todo>) -> (r: Vec<String>)
    ensures
        r@.len() == items@.len(),
        forall|i: int| 0 <= i < r@.len() ==> r@[i]@ == label_model(items@[i]@),
{
    let mut out: Vec<String> = Vec::new();
    let mut i: usize = 0;
    while i < items.len()
        invariant
            0 <= i <= items@.len(),
            out@.len() == i,
            forall|j: int| 0 <= j < i ==> out@[j]@ == label_model(items@[j]@),
        decreases items@.len() - i,
    {
        out.push(items[i].fmt());
        i += 1;
    }
    out
}

/// The characters stripped from the ends of a title before the unchanged-title
/// comparison: Unicode whitespace.
pub open spec fn is_space(c: char) -> bool {
    ||| (9 <= c as int && c as int <= 13)
    ||| c as int == 32
    ||| c as int == 0x85
    ||| c as int == 0xA0
    ||| c as int == 0x1680
    ||| (0x2000 <= c as int && c as int <= 0x200A)
    ||| c as int == 0x2028
    ||| c as int == 0x2029
    ||| c as int == 0x202F
    ||| c as int == 0x205F
    ||| c as int == 0x3000
}

fn is_space_char(c: char) -> (r: bool)
    ensures
        r == is_space(c),
{
    let v = c as u32;
    let r = (9 <= v && v <= 13) || v == 32 || v == 0x85 || v == 0xA0 || v == 0x1680 || (0x2000 <= v
        && v <= 0x200A) || v == 0x2028 || v == 0x2029 || v == 0x202F || v == 0x205F || v == 0x3000;
    proof {
        assert(v as int == c as int);
        if r {
            assert(is_space(c));
        } else {
            assert(!is_space(c));
        }
    }
    r
}

/// A string without its leading and trailing whitespace.
pub open spec fn trim_spec(s: Seq<char>) -> Seq<char>
    decreases s.len(),
{
    if s.len() == 0 {
        s
    } else if is_space(s[0]) {
        trim_spec(s.drop_first())
    } else if is_space(s.last()) {
        trim_spec(s.drop_last())
    } else {
        s
    }
}

/// Strip leading and trailing whitespace.
fn trim_str(s: &str) -> (r: String)
    ensures
        r@ == trim_spec(s@),
    decreases s@.len(),
{
    let n = s.unicode_len();
    if n == 0 {
        String::new()
    } else if is_space_char(s.get_char(0)) {
        let rest = s.substring_char(1, n);
        proof {
            assert(s@.subrange(1, n as int) =~= s@.drop_first());
        }
        trim_str(rest)
    } else if is_space_char(s.get_char(n - 1)) {
        let rest = s.substring_char(0, n - 1);
        proof {
            assert(s@.subrange(0, n - 1) =~= s@.drop_last());
        }
        trim_str(rest)
    } else {
        s.to_owned()
    }
}

/// The question asked before a task is deleted.
fn delete_question(title: &str) -> (r: String)
    ensures
        r@ == "Are you sure you want to delete '"@ + title@ + "'?"@,
{
    let mut q = String::from_str("Are you sure you want to delete '");
    q.append(title);
    q.append("'?");
    proof {
        assert(q@ =~= "Are you sure you want to delete '"@ + title@ + "'?"@);
    }
    q
}

/// Apply the operator's answer to a mark menu. The offered tasks are the
/// pending ones when marking done (`value` true) and the completed ones when
/// undoing (`value` false). No answer, or one beyond the menu, changes
/// nothing; the answer `i` sets the flag of the i-th offered task, which
/// always succeeds.
fn mark_selected(todo: &mut TodoList, items: &Vec<Todo>, picked: Option<usize>, value: bool) -> (r:
    Result<RunResult, String>)
    requires
        old(todo)@.wf(),
        tasks_view(items@) == (if value {
            pending_model(old(todo)@.items)
        } else {
            done_model(old(todo)@.items)
        }),
    ensures
        final(todo)@.wf(),
        old(todo)@.sorted() ==> final(todo)@.sorted(),
        final(todo)@.next_id == old(todo)@.next_id,
        r is Ok,
        picked is None ==> r == Ok::<RunResult, String>(RunResult::NoChange) && final(todo)@ == old(
            todo,
        )@,
        picked is Some && picked->0 >= items@.len() ==> r == Ok::<RunResult, String>(
            RunResult::NoChange,
        ) && final(todo)@ == old(todo)@,
        picked is Some && picked->0 < items@.len() ==> r == Ok::<RunResult, String>(
            RunResult::Changed,
        ) && final(todo)@ == mark_model(old(todo)@, items@[picked->0 as int]@.id, value),
{
    let sel = match picked {
        Some(x) => x,
        None => {
            return Ok(RunResult::NoChange);
        },
    };
    if sel >= items.len() {
        return Ok(RunResult::NoChange);
    }
    let id = items[sel].id;
    proof {
        let tm = items@[sel as int]@;
        assert(tasks_view(items@)[sel as int] == tm);
        if value {
            assert(pending_model(old(todo)@.items).contains(tm));
            lemma_filter_subset(old(todo)@.items, |t: TaskModel| !t.done, tm);
        } else {
            assert(done_model(old(todo)@.items).contains(tm));
            lemma_filter_subset(old(todo)@.items, |t: TaskModel| t.done, tm);
        }
        let k = choose|k: int| 0 <= k < old(todo)@.items.len() && old(todo)@.items[k] == tm;
        assert(old(todo)@.items[k].id == id);
        assert(has_id(old(todo)@.items, id));
    }
    match todo.mark(id, value) {
        Ok(_) => Ok(RunResult::Changed),
        Err(e) => Err(e),
    }
}

/// Apply the operator's new title to the task at `sel`. No answer changes
/// nothing, and so does an answer whose trimmed text is the current title;
/// any other answer replaces the title with the answer as given, which always
/// succeeds.
fn update_selected(todo: &mut TodoList, sel: usize, answer: Option<String>) -> (r: Result<
    RunResult,
    String,
>)
    requires
        old(todo)@.wf(),
        sel < old(todo)@.items.len(),
    ensures
        final(todo)@.wf(),
        old(todo)@.sorted() ==> final(todo)@.sorted(),
        final(todo)@.next_id == old(todo)@.next_id,
        r is Ok,
        answer is None ==> r == Ok::<RunResult, String>(RunResult::NoChange) && final(todo)@ == old(
            todo,
        )@,
        answer is Some && trim_spec(answer->0@) == old(todo)@.items[sel as int].title ==> r
            == Ok::<RunResult, String>(RunResult::NoChange) && final(todo)@ == old(todo)@,
        answer is Some && trim_spec(answer->0@) != old(todo)@.items[sel as int].title ==> r
            == Ok::<RunResult, String>(RunResult::Changed) && final(todo)@ == update_title_model(
            old(todo)@,
            old(todo)@.items[sel as int].id,
            answer->0@,
        ),
{
    let new_title = match answer {
        Some(t) => t,
        None => {
            return Ok(RunResult::NoChange);
        },
    };
    let current = todo.items[sel].title.clone();
    if trim_str(new_title.as_str()).eq(&current) {
        return Ok(RunResult::NoChange);
    }
    let id = todo.items[sel].id;
    proof {
        assert(old(todo)@.items[sel as int].id == id);
        assert(has_id(old(todo)@.items, id));
    }
    match todo.update_title(id, new_title.as_str()) {
        Ok(_) => Ok(RunResult::Changed),
        Err(e) => Err(e),
    }
}

/// Apply the operator's confirmation to the task at `sel`: without it nothing
/// changes; with it the task leaves the list, which always succeeds.
fn delete_selected(todo: &mut TodoList, sel: usize, confirmed: bool) -> (r: Result<
    RunResult,
    String,
>)
    requires
        old(todo)@.wf(),
        sel < old(todo)@.items.len(),
    ensures
        final(todo)@.wf(),
        old(todo)@.sorted() ==> final(todo)@.sorted(),
        final(todo)@.next_id == old(todo)@.next_id,
        r is Ok,
        !confirmed ==> r == Ok::<RunResult, String>(RunResult::NoChange) && final(todo)@ == old(
            todo,
        )@,
        confirmed ==> r == Ok::<RunResult, String>(RunResult::Changed) && final(todo)@
            == remove_model(old(todo)@, old(todo)@.items[sel as int].id),
{
    if !confirmed {
        return Ok(RunResult::NoChange);
    }
    let id = todo.items[sel].id;
    proof {
        assert(old(todo)@.items[sel as int].id == id);
        assert(has_id(old(todo)@.items, id));
    }
    match todo.remove(id) {
        Ok(_) => Ok(RunResult::Changed),
        Err(e) => Err(e),
    }
}

/// Perform one command against the list, drawing interactive answers from the
/// prompter. The result says whether the list changed; the caller persists
/// exactly then. A command with nothing to offer, and a cancelled prompt, are
/// `NoChange` outcomes, not errors; a prompter failure is reported and leaves
/// the list untouched.
pub fn run<P: Prompter>(command: Command, todo: &mut TodoList, prompter: &P) -> (r: Result<
    RunResult,
    String,
>)
    requires
        old(todo)@.wf(),
        command is Add ==> old(todo)@.next_id < u64::MAX,
    ensures
        final(todo)@.wf(),
        old(todo)@.sorted() ==> final(todo)@.sorted(),
        final(todo)@.next_id >= old(todo)@.next_id,
        r == Ok::<RunResult, String>(RunResult::NoChange) ==> final(todo)@ == old(todo)@,
        r is Err ==> final(todo)@ == old(todo)@,
        (command matches Command::Add { key } ==> r == Ok::<RunResult, String>(RunResult::Changed)
            && final(todo)@ == add_model(old(todo)@, key@)),
        (command is List ==> r == Ok::<RunResult, String>(RunResult::NoChange)),
        (command is MarkDone && pending_model(old(todo)@.items).len() == 0 ==> r == Ok::<
            RunResult,
            String,
        >(RunResult::NoChange)),
        (command is UndoDone && done_model(old(todo)@.items).len() == 0 ==> r == Ok::<
            RunResult,
            String,
        >(RunResult::NoChange)),
        (command is Update && old(todo)@.items.len() == 0 ==> r == Ok::<RunResult, String>(
            RunResult::NoChange,
        )),
        (command is Delete && old(todo)@.items.len() == 0 ==> r == Ok::<RunResult, String>(
            RunResult::NoChange,
        )),
        (command is MarkDone && r == Ok::<RunResult, String>(RunResult::Changed) ==> exists|i: int|
            0 <= i < old(todo)@.items.len() && !old(todo)@.items[i].done && final(todo)@
                == mark_model(old(todo)@, old(todo)@.items[i].id, true)),
        (command is UndoDone && r == Ok::<RunResult, String>(RunResult::Changed) ==> exists|i: int|
            0 <= i < old(todo)@.items.len() && old(todo)@.items[i].done && final(todo)@
                == mark_model(old(todo)@, old(todo)@.items[i].id, false)),
        (command is Update && r == Ok::<RunResult, String>(RunResult::Changed) ==> exists|
            i: int,
            t: Seq<char>,
        |
            0 <= i < old(todo)@.items.len() && final(todo)@ == update_title_model(
                old(todo)@,
                old(todo)@.items[i].id,
                t,
            )),
        (command is Delete && r == Ok::<RunResult, String>(RunResult::Changed) ==> exists|i: int|
            0 <= i < old(todo)@.items.len() && final(todo)@ == remove_model(
                old(todo)@,
                old(todo)@.items[i].id,
            )),
{
    match command {
        Command::Add { key } => {
            todo.add(key);
            Ok(RunResult::Changed)
        },
        Command::MarkDone => {
            let items = todo.todo();
            if items.is_empty() {
                return Ok(RunResult::NoChange);
            }
            let labels = labels_of(&items);
            let picked = match prompter.select(labels.as_slice(), "Select a todo to mark as done") {
                Ok(v) => v,
                Err(e) => {
                    return Err(e);
                },
            };
            let res = mark_selected(todo, &items, picked, true);
            proof {
                match picked {
                    Some(sel) => {
                        if (sel as int) < items@.len() {
                            let tm = items@[sel as int]@;
                            assert(tasks_view(items@)[sel as int] == tm);
                            assert(pending_model(old(todo)@.items).contains(tm));
                            lemma_filter_subset(old(todo)@.items, |t: TaskModel| !t.done, tm);
                            let k = choose|k: int|
                                0 <= k < old(todo)@.items.len() && old(todo)@.items[k] == tm;
                            assert(old(todo)@.items[k].id == tm.id && !old(todo)@.items[k].done);
                        }
                    },
                    None => {},
                }
            }
            res
        },
        Command::UndoDone => {
            let items = todo.done();
            if items.is_empty() {
                return Ok(RunResult::NoChange);
            }
            let labels = labels_of(&items);
            let picked = match prompter.select(
                labels.as_slice(),
                "Select completed todo to undo done",
            ) {
                Ok(v) => v,
                Err(e) => {
                    return Err(e);
                },
            };
            let res = mark_selected(todo, &items, picked, false);
            proof {
                match picked {
                    Some(sel) => {
                        if (sel as int) < items@.len() {
                            let tm = items@[sel as int]@;
                            assert(tasks_view(items@)[sel as int] == tm);
                            assert(done_model(old(todo)@.items).contains(tm));
                            lemma_filter_subset(old(todo)@.items, |t: TaskModel| t.done, tm);
                            let k = choose|k: int|
                                0 <= k < old(todo)@.items.len() && old(todo)@.items[k] == tm;
                            assert(old(todo)@.items[k].id == tm.id && old(todo)@.items[k].done);
                        }
                    },
                    None => {},
                }
            }
            res
        },
        Command::List { mode: _ } => {
            Ok(RunResult::NoChange)
        },
        Command::Update => {
            if todo.items.len() == 0 {
                return Ok(RunResult::NoChange);
            }
            let labels = labels_of(&todo.items);
            let picked = match prompter.select(labels.as_slice(), "Select toddo to update") {
                Ok(v) => v,
                Err(e) => {
                    return Err(e);
                },
            };
            let sel = match picked {
                Some(x) => x,
                None => {
                    return Ok(RunResult::NoChange);
                },
            };
            if sel >= todo.items.len() {
                return Ok(RunResult::NoChange);
            }
            let current = todo.items[sel].title.clone();
            let answer = match prompter.input("Edit title", current.as_str()) {
                Ok(v) => v,
                Err(e) => {
                    return Err(e);
                },
            };
            update_selected(todo, sel, answer)
        },
        Command::Delete => {
            if todo.items.len() == 0 {
                return Ok(RunResult::NoChange);
            }
            let labels = labels_of(&todo.items);
            let picked = match prompter.select(labels.as_slice(), "Select todo to delete") {
                Ok(v) => v,
                Err(e) => {
                    return Err(e);
                },
            };
            let sel = match picked {
                Some(x) => x,
                None => {
                    return Ok(RunResult::NoChange);
                },
            };
            if sel >= todo.items.len() {
                return Ok(RunResult::NoChange);
            }
            let question = delete_question(todo.items[sel].title.as_str());
            let confirmed = match prompter.confirm(question.as_str()) {
                Ok(v) => v,
                Err(e) => {
                    return Err(e);
                },
            };
            delete_selected(todo, sel, confirmed)
        },
    }
}

} // verus!
