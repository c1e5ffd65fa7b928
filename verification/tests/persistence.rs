use todo_cli::shared::codec::{load_todos_str, parse_todos, render_todos};
use todo_cli::shared::todo::TodoList;

#[test]
fn render_has_the_canonical_shape() {
    let mut list = TodoList::new();
    list.add(String::from("A"));
    let text = render_todos(&list);
    assert_eq!(text, "{\"items\":[{\"id\":1,\"title\":\"A\",\"done\":false}],\"next_id\":2}");
}

#[test]
fn render_empty_list() {
    let list = TodoList::new();
    assert_eq!(render_todos(&list), "{\"items\":[],\"next_id\":1}");
}

#[test]
fn save_then_load_round_trips() {
    let mut list = TodoList::new();
    list.add(String::from("Buy milk"));
    list.add(String::from("Walk dog"));
    list.add(String::from("Read"));
    assert!(list.mark(2, true).is_ok());
    assert!(list.remove(1).is_ok());

    let text = render_todos(&list);
    let loaded = load_todos_str(text.as_str());

    assert_eq!(loaded.next_id, list.next_id);
    assert_eq!(loaded.items.len(), list.items.len());
    for (a, b) in loaded.items.iter().zip(list.items.iter()) {
        assert_eq!(a.id, b.id);
        assert_eq!(a.title, b.title);
        assert_eq!(a.done, b.done);
    }
}

#[test]
fn round_trip_keeps_quotes_and_backslashes() {
    let mut list = TodoList::new();
    list.add(String::from("say \"hi\" to C:\\temp"));
    list.add(String::from(""));
    list.add(String::from("späße 😀"));

    let text = render_todos(&list);
    let loaded = load_todos_str(text.as_str());

    assert_eq!(loaded.items.len(), 3);
    assert_eq!(loaded.items[0].title, "say \"hi\" to C:\\temp");
    assert_eq!(loaded.items[1].title, "");
    assert_eq!(loaded.items[2].title, "späße 😀");
    assert_eq!(loaded.next_id, 4);
}

#[test]
fn parse_reads_the_canonical_text() {
    let text = "{\"items\":[{\"id\":3,\"title\":\"x\",\"done\":true}],\"next_id\":7}";
    let loaded = parse_todos(text).unwrap();
    assert_eq!(loaded.items.len(), 1);
    assert_eq!(loaded.items[0].id, 3);
    assert_eq!(loaded.items[0].title, "x");
    assert_eq!(loaded.items[0].done, true);
    assert_eq!(loaded.next_id, 7);
}

#[test]
fn loading_corrupt_text_yields_an_empty_list() {
    for text in [
        "",
        "not json at all",
        "{\"items\":[",
        "{\"items\":[],\"next_id\":}",
        "{\"items\":[],\"next_id\":1} trailing",
        "{\"items\":[{\"id\":1,\"title\":\"a\",\"done\":maybe}],\"next_id\":2}",
        "{\"items\":[],\"next_id\":99999999999999999999999999}",
    ] {
        let loaded = load_todos_str(text);
        assert!(loaded.items.is_empty());
        assert_eq!(loaded.next_id, 1);
    }
}

#[test]
fn loading_rejects_a_broken_invariant() {
    // Duplicate ids, an id at or above the counter, a zero counter: each is
    // corrupt state and falls back to a fresh list.
    for text in [
        "{\"items\":[{\"id\":1,\"title\":\"a\",\"done\":false},{\"id\":1,\"title\":\"b\",\"done\":false}],\"next_id\":3}",
        "{\"items\":[{\"id\":5,\"title\":\"a\",\"done\":false}],\"next_id\":2}",
        "{\"items\":[],\"next_id\":0}",
    ] {
        let loaded = load_todos_str(text);
        assert!(loaded.items.is_empty());
        assert_eq!(loaded.next_id, 1);
    }
}

#[test]
fn parse_rejects_what_load_discards() {
    assert!(parse_todos("{\"items\":[],\"next_id\":0}").is_none());
    assert!(parse_todos("nonsense").is_none());
    assert!(parse_todos("{\"items\":[],\"next_id\":1}").is_some());
}

#[test]
fn round_trip_at_the_counter_limit() {
    let text = "{\"items\":[{\"id\":18446744073709551614,\"title\":\"t\",\"done\":false}],\"next_id\":18446744073709551615}";
    let loaded = parse_todos(text).unwrap();
    assert_eq!(loaded.next_id, u64::MAX);
    assert_eq!(loaded.items[0].id, u64::MAX - 1);
    assert_eq!(render_todos(&loaded), text);
}

#[test]
fn parse_tolerates_blanks_between_tokens() {
    let text = "{ \"items\" : [ { \"id\" : 1 , \"title\" : \"a\" , \"done\" : false } ] , \"next_id\" : 2 }  ";
    let loaded = parse_todos(text).unwrap();
    assert_eq!(loaded.items.len(), 1);
    assert_eq!(loaded.items[0].title, "a");
    assert_eq!(loaded.next_id, 2);

    let pretty = "{\n  \"items\": [\n    {\n      \"id\": 1,\n      \"title\": \"Buy milk\",\n      \"done\": false\n    }\n  ],\n  \"next_id\": 2\n}";
    let loaded = parse_todos(pretty).unwrap();
    assert_eq!(loaded.items[0].title, "Buy milk");
    assert_eq!(loaded.next_id, 2);
}

#[test]
fn parse_reads_standard_escapes() {
    let text = "{\"items\":[{\"id\":1,\"title\":\"a\\nb\\t\\u0041\\/\\\"q\\\"\",\"done\":false}],\"next_id\":2}";
    let loaded = parse_todos(text).unwrap();
    assert_eq!(loaded.items[0].title, "a\nb\tA/\"q\"");
}

#[test]
fn render_escapes_control_characters() {
    let mut list = TodoList::new();
    list.add(String::from("a\nb\tc\u{1f}d"));
    let text = render_todos(&list);
    assert_eq!(
        text,
        "{\"items\":[{\"id\":1,\"title\":\"a\\nb\\tc\\u001fd\",\"done\":false}],\"next_id\":2}"
    );
    let loaded = load_todos_str(text.as_str());
    assert_eq!(loaded.items[0].title, "a\nb\tc\u{1f}d");
}

#[test]
fn parse_rejects_bad_escapes() {
    assert!(parse_todos(
        "{\"items\":[{\"id\":1,\"title\":\"\\uD800\",\"done\":false}],\"next_id\":2}"
    )
    .is_none());
    assert!(parse_todos(
        "{\"items\":[{\"id\":1,\"title\":\"\\u00\",\"done\":false}],\"next_id\":2}"
    )
    .is_none());
}
