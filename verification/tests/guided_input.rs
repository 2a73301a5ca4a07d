use todo_core::controller::App;
use todo_core::task::Priority;

fn fresh_app_on_add_task_tab() -> App {
    let mut app = App::new("t".to_string(), false, vec![]);
    app.on_right();
    app.on_right();
    app.on_right();
    assert_eq!(app.tabs.index, 3);
    app
}

fn type_text(app: &mut App, s: &str) {
    for c in s.chars() {
        app.on_key(c);
    }
}

#[test]
fn guided_input_builds_task() {
    let mut app = fresh_app_on_add_task_tab();
    type_text(&mut app, "7");
    app.on_key('\n');
    type_text(&mut app, "Buy milk");
    app.on_key('\n');
    type_text(&mut app, "2%");
    app.on_key('\n');
    type_text(&mut app, "critical");
    app.on_key('\n');
    assert_eq!(app.todo_list.items.len(), 1);
    let t = &app.todo_list.items[0];
    assert_eq!(t.id, 7);
    assert_eq!(t.title, "Buy milk");
    assert_eq!(t.description, "2%");
    assert_eq!(t.priority, Priority::critical("critical".to_string()));
    assert!(app.messages.is_empty());
    assert!(app.input.is_empty());
    assert!(app.item_added);
}

#[test]
fn unknown_priority_falls_back_to_low_with_empty_label() {
    let mut app = fresh_app_on_add_task_tab();
    type_text(&mut app, "1");
    app.on_key('\n');
    type_text(&mut app, "a");
    app.on_key('\n');
    type_text(&mut app, "b");
    app.on_key('\n');
    type_text(&mut app, "x");
    app.on_key('\n');
    assert_eq!(app.todo_list.items.len(), 1);
    assert_eq!(app.todo_list.items[0].priority, Priority::low(String::new()));
}

#[test]
fn known_priorities_keep_their_label() {
    for name in ["critical", "moderate", "low"] {
        let mut app = fresh_app_on_add_task_tab();
        type_text(&mut app, "1");
        app.on_key('\n');
        type_text(&mut app, "a");
        app.on_key('\n');
        type_text(&mut app, "b");
        app.on_key('\n');
        type_text(&mut app, name);
        app.on_key('\n');
        let expected = match name {
            "critical" => Priority::critical(name.to_string()),
            "moderate" => Priority::moderate(name.to_string()),
            _ => Priority::low(name.to_string()),
        };
        assert_eq!(app.todo_list.items[0].priority, expected);
    }
}

#[test]
fn characters_outside_add_task_tab_are_dropped() {
    let mut app = App::new("t".to_string(), false, vec![]);
    app.on_key('a');
    app.on_key('b');
    assert_eq!(app.input, "");
    app.on_right();
    app.on_key('z');
    assert_eq!(app.input, "");
    app.on_right();
    app.on_key('z');
    assert_eq!(app.input, "");
    app.on_right();
    app.on_key('z');
    assert_eq!(app.input, "z");
}

#[test]
fn line_submit_outside_add_task_tab_is_ignored() {
    let mut app = fresh_app_on_add_task_tab();
    type_text(&mut app, "5");
    app.on_right();
    assert_eq!(app.tabs.index, 0);
    app.on_key('\n');
    assert!(app.messages.is_empty());
    assert_eq!(app.input, "5");
}

#[test]
fn invalid_id_is_rejected_and_reprompted() {
    let mut app = fresh_app_on_add_task_tab();
    type_text(&mut app, "abc");
    app.on_key('\n');
    assert!(app.messages.is_empty());
    assert_eq!(app.input, "");
    type_text(&mut app, "12");
    app.on_key('\n');
    assert_eq!(app.messages.len(), 1);
    assert_eq!(app.messages[0], "12");
}

#[test]
fn oversized_id_is_rejected() {
    let mut app = fresh_app_on_add_task_tab();
    type_text(&mut app, "18446744073709551616");
    app.on_key('\n');
    assert!(app.messages.is_empty());
}

#[test]
fn acknowledgment_clears_after_one_redraw() {
    let mut app = fresh_app_on_add_task_tab();
    type_text(&mut app, "1");
    app.on_key('\n');
    type_text(&mut app, "a");
    app.on_key('\n');
    type_text(&mut app, "b");
    app.on_key('\n');
    type_text(&mut app, "low");
    app.on_key('\n');
    assert!(app.item_added);
    app.ack_item_added();
    assert!(!app.item_added);
}

#[test]
fn partial_fields_accumulate_in_order() {
    let mut app = fresh_app_on_add_task_tab();
    type_text(&mut app, "3");
    app.on_key('\n');
    type_text(&mut app, "title here");
    app.on_key('\n');
    assert_eq!(app.messages.len(), 2);
    assert_eq!(app.messages[0], "3");
    assert_eq!(app.messages[1], "title here");
    assert!(app.todo_list.items.is_empty());
}
