use todo_cli::shared::todo::TodoList;

#[test]
fn scenario_add_mark_remove() {
    // add("Buy milk") -> id 1, pending; add("Walk dog") -> id 2;
    // mark(1, true) -> completed list holds exactly task 1;
    // remove(2) -> only task 1 remains; remove(2) again -> not found.
    let mut list = TodoList::new();

    let first = list.add(String::from("Buy milk"));
    assert_eq!(first.id, 1);
    assert_eq!(first.title, "Buy milk");
    assert_eq!(first.done, false);

    let second = list.add(String::from("Walk dog"));
    assert_eq!(second.id, 2);

    assert!(list.mark(1, true).is_ok());
    let completed = list.done();
    assert_eq!(completed.len(), 1);
    assert_eq!(completed[0].id, 1);
    assert_eq!(completed[0].title, "Buy milk");
    assert_eq!(completed[0].done, true);

    assert!(list.remove(2).is_ok());
    let all = list.list();
    assert_eq!(all.len(), 1);
    assert_eq!(all[0].id, 1);
    assert_eq!(all[0].title, "Buy milk");
    assert_eq!(all[0].done, true);

    assert_eq!(list.remove(2), Err(String::from("Todo '2' is not found")));
}

#[test]
fn scenario_update_title() {
    // update_title(1, "Buy oat milk") renames task 1 in place;
    // update_title(99, "x") reports the missing id.
    let mut list = TodoList::new();
    list.add(String::from("Buy milk"));

    assert!(list.update_title(1, "Buy oat milk").is_ok());
    assert_eq!(list.list()[0].title, "Buy oat milk");
    assert_eq!(list.list()[0].id, 1);

    assert_eq!(list.update_title(99, "x"), Err(String::from("Todo 99 not found")));
}

#[test]
fn ids_strictly_increase_across_removals() {
    let mut list = TodoList::new();
    let a = list.add(String::from("a"));
    let b = list.add(String::from("b"));
    assert!(list.remove(a.id).is_ok());
    let c = list.add(String::from("c"));
    assert!(b.id > a.id);
    assert!(c.id > b.id);
    let ids: Vec<u64> = list.list().iter().map(|t| t.id).collect();
    assert_eq!(ids, vec![2, 3]);
}

#[test]
fn mark_round_trip_restores_pending() {
    let mut list = TodoList::new();
    list.add(String::from("a"));
    assert!(list.mark(1, true).is_ok());
    assert!(list.list()[0].done);
    assert!(list.mark(1, false).is_ok());
    assert_eq!(list.list()[0].done, false);
    assert_eq!(list.list()[0].title, "a");
}

#[test]
fn mark_missing_id_leaves_state() {
    let mut list = TodoList::new();
    list.add(String::from("a"));
    assert_eq!(list.mark(7, true), Err(String::from("Todo '7' is not found.")));
    assert_eq!(list.list().len(), 1);
    assert_eq!(list.list()[0].done, false);
}

#[test]
fn pending_and_done_partition_the_list() {
    let mut list = TodoList::new();
    list.add(String::from("a"));
    list.add(String::from("b"));
    list.add(String::from("c"));
    assert!(list.mark(2, true).is_ok());

    let mut pending_ids: Vec<u64> = list.todo().iter().map(|t| t.id).collect();
    let done_ids: Vec<u64> = list.done().iter().map(|t| t.id).collect();
    let all_ids: Vec<u64> = list.list().iter().map(|t| t.id).collect();

    assert_eq!(pending_ids, vec![1, 3]);
    assert_eq!(done_ids, vec![2]);
    assert_eq!(all_ids, vec![1, 2, 3]);
    for id in &done_ids {
        assert!(!pending_ids.contains(id));
    }
    pending_ids.extend(done_ids);
    pending_ids.sort();
    assert_eq!(pending_ids, all_ids);
}

#[test]
fn task_label_shape() {
    let mut list = TodoList::new();
    list.add(String::from("first"));
    for _ in 0..11 {
        list.add(String::from("x"));
    }
    let twelfth = &list.list()[11];
    assert_eq!(twelfth.fmt(), "[12] x");
}

#[test]
fn duplicate_titles_are_distinct_tasks() {
    let mut list = TodoList::new();
    list.add(String::from("same"));
    list.add(String::from("same"));
    assert_eq!(list.list().len(), 2);
    assert_eq!(list.list()[0].id, 1);
    assert_eq!(list.list()[1].id, 2);
    assert!(list.remove(1).is_ok());
    assert_eq!(list.list().len(), 1);
    assert_eq!(list.list()[0].id, 2);
    assert_eq!(list.list()[0].title, "same");
}
