use todo_cli::api::{
    create, default_mode, delete, list, mark_done, reset, undo_done, update, CreateTodo, ListMode,
    ListQuery, UpdateTodo,
};
use todo_cli::shared::todo::TodoList;

#[test]
fn create_answers_with_the_new_task() {
    let mut todos = TodoList::new();
    let resp = create(&mut todos, CreateTodo { title: String::from("Buy milk") });
    assert_eq!(resp.id, 1);
    assert_eq!(resp.title, "Buy milk");
    assert_eq!(resp.done, false);
    assert_eq!(todos.items.len(), 1);
}

#[test]
fn list_modes_select_the_right_tasks() {
    let mut todos = TodoList::new();
    create(&mut todos, CreateTodo { title: String::from("a") });
    create(&mut todos, CreateTodo { title: String::from("b") });
    assert_eq!(mark_done(&mut todos, 1).0, 200);

    let all = list(&todos, &ListQuery { mode: ListMode::All });
    assert_eq!(all.len(), 2);

    let pending = list(&todos, &ListQuery { mode: ListMode::Todo });
    assert_eq!(pending.len(), 1);
    assert_eq!(pending[0].id, 2);

    let done = list(&todos, &ListQuery { mode: ListMode::Done });
    assert_eq!(done.len(), 1);
    assert_eq!(done[0].id, 1);

    assert!(matches!(default_mode(), ListMode::All));
}

#[test]
fn update_answers_200_or_404() {
    let mut todos = TodoList::new();
    create(&mut todos, CreateTodo { title: String::from("a") });

    let ok = update(&mut todos, 1, &UpdateTodo { title: String::from("b") });
    assert_eq!(ok, (200, None));
    assert_eq!(todos.items[0].title, "b");

    let missing = update(&mut todos, 9, &UpdateTodo { title: String::from("c") });
    assert_eq!(missing.0, 404);
    assert_eq!(missing.1, Some(String::from("Todo 9 not found")));
}

#[test]
fn mark_and_undo_answer_200_or_404() {
    let mut todos = TodoList::new();
    create(&mut todos, CreateTodo { title: String::from("a") });

    assert_eq!(mark_done(&mut todos, 1), (200, None));
    assert!(todos.items[0].done);
    assert_eq!(undo_done(&mut todos, 1), (200, None));
    assert!(!todos.items[0].done);

    let missing = mark_done(&mut todos, 2);
    assert_eq!(missing.0, 404);
    assert_eq!(missing.1, Some(String::from("Todo '2' is not found.")));
    let missing = undo_done(&mut todos, 2);
    assert_eq!(missing.0, 404);
}

#[test]
fn delete_answers_204_or_404() {
    let mut todos = TodoList::new();
    create(&mut todos, CreateTodo { title: String::from("a") });

    assert_eq!(delete(&mut todos, 1), (204, None));
    assert!(todos.items.is_empty());

    let missing = delete(&mut todos, 1);
    assert_eq!(missing.0, 404);
    assert_eq!(missing.1, Some(String::from("Todo '1' is not found")));
}

#[test]
fn reset_starts_over() {
    let mut todos = TodoList::new();
    create(&mut todos, CreateTodo { title: String::from("a") });
    create(&mut todos, CreateTodo { title: String::from("b") });
    reset(&mut todos);
    assert!(todos.items.is_empty());
    assert_eq!(todos.next_id, 1);
    let after = create(&mut todos, CreateTodo { title: String::from("c") });
    assert_eq!(after.id, 1);
}
