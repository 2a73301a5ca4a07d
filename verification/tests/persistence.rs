use todo_core::codec::{load_tasks, parse_u64, save_tasks};
use todo_core::task::{Priority, ToDoItem};

fn task(id: u64, title: &str, desc: &str, p: Priority) -> ToDoItem {
    ToDoItem {
        id,
        title: title.to_string(),
        description: desc.to_string(),
        priority: p,
    }
}

#[test]
fn save_produces_tagged_records() {
    let items = vec![task(
        7,
        "Buy milk",
        "2%",
        Priority::critical("critical".to_string()),
    )];
    let s = save_tasks(&items);
    assert_eq!(
        s,
        "[{\"id\":7,\"title\":\"Buy milk\",\"description\":\"2%\",\"priority\":{\"critical\":\"critical\"}}]"
    );
}

#[test]
fn save_escapes_quotes_and_backslashes() {
    let items = vec![task(
        1,
        "say \"hi\"",
        "a\\b",
        Priority::low("low".to_string()),
    )];
    let s = save_tasks(&items);
    assert_eq!(
        s,
        "[{\"id\":1,\"title\":\"say \\\"hi\\\"\",\"description\":\"a\\\\b\",\"priority\":{\"low\":\"low\"}}]"
    );
}

#[test]
fn save_empty_list() {
    let items: Vec<ToDoItem> = vec![];
    assert_eq!(save_tasks(&items), "[]");
}

#[test]
fn round_trip_preserves_tasks() {
    let items = vec![
        task(1, "a", "b", Priority::critical("critical".to_string())),
        task(
            2,
            "He said \"hi\"",
            "back\\slash",
            Priority::moderate("moderate".to_string()),
        ),
        task(18446744073709551615, "", "", Priority::low(String::new())),
    ];
    let saved = save_tasks(&items);
    let loaded = load_tasks(&saved);
    assert_eq!(loaded, items);
}

#[test]
fn round_trip_preserves_unicode_text() {
    let items = vec![task(
        3,
        "10\u{20ac} caf\u{e9}",
        "\u{5217}",
        Priority::low("low".to_string()),
    )];
    let saved = save_tasks(&items);
    let loaded = load_tasks(&saved);
    assert_eq!(loaded, items);
}

#[test]
fn load_empty_source_yields_empty_list() {
    assert!(load_tasks("").is_empty());
}

#[test]
fn load_garbage_yields_empty_list() {
    assert!(load_tasks("not a task list").is_empty());
    assert!(load_tasks("[{\"id\":}]").is_empty());
    assert!(load_tasks("{\"id\":1}").is_empty());
    assert!(load_tasks("[").is_empty());
    assert!(load_tasks("[{\"id\":1,\"title\":\"x\"}]").is_empty());
    assert!(load_tasks(
        "[{\"id\":1,\"title\":\"x\",\"description\":\"y\",\"priority\":{\"urgent\":\"u\"}}]"
    )
    .is_empty());
}

#[test]
fn load_rejects_trailing_text() {
    let items = vec![task(1, "t", "d", Priority::low("low".to_string()))];
    let mut s = save_tasks(&items);
    s.push('x');
    assert!(load_tasks(&s).is_empty());
}

#[test]
fn load_empty_brackets_yields_empty_list() {
    assert!(load_tasks("[]").is_empty());
}

#[test]
fn load_reads_two_records() {
    let s = "[{\"id\":1,\"title\":\"x\",\"description\":\"y\",\"priority\":{\"low\":\"low\"}},{\"id\":2,\"title\":\"\",\"description\":\"\",\"priority\":{\"moderate\":\"moderate\"}}]";
    let ts = load_tasks(s);
    assert_eq!(ts.len(), 2);
    assert_eq!(ts[0].id, 1);
    assert_eq!(ts[0].title, "x");
    assert_eq!(ts[1].id, 2);
    assert_eq!(ts[1].priority, Priority::moderate("moderate".to_string()));
}

#[test]
fn load_rejects_oversized_id() {
    let s = "[{\"id\":18446744073709551616,\"title\":\"x\",\"description\":\"y\",\"priority\":{\"low\":\"low\"}}]";
    assert!(load_tasks(s).is_empty());
}

#[test]
fn parse_u64_accepts_digit_runs_only() {
    assert_eq!(parse_u64("0"), Some(0));
    assert_eq!(parse_u64("007"), Some(7));
    assert_eq!(parse_u64("18446744073709551615"), Some(u64::MAX));
    assert_eq!(parse_u64("18446744073709551616"), None);
    assert_eq!(parse_u64(""), None);
    assert_eq!(parse_u64("12a"), None);
    assert_eq!(parse_u64("-1"), None);
    assert_eq!(parse_u64(" 1"), None);
}
