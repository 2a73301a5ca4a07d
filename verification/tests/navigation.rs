use todo_core::controller::App;
use todo_core::list::StatefulList;
use todo_core::tabs::TabsState;
use todo_core::task::{Priority, ToDoItem};

fn four_tabs() -> TabsState {
    TabsState::new(vec![
        "TO-DO".to_string(),
        "In-progress".to_string(),
        "Done".to_string(),
        "Add-task".to_string(),
    ])
}

fn task(id: u64, title: &str) -> ToDoItem {
    ToDoItem {
        id,
        title: title.to_string(),
        description: String::new(),
        priority: Priority::low("low".to_string()),
    }
}

#[test]
fn tab_cycle_wraps_forward() {
    let mut t = four_tabs();
    assert_eq!(t.index, 0);
    t.next();
    assert_eq!(t.index, 1);
    t.next();
    assert_eq!(t.index, 2);
    t.next();
    assert_eq!(t.index, 3);
    t.next();
    assert_eq!(t.index, 0);
}

#[test]
fn tab_cycle_wraps_backward() {
    let mut t = four_tabs();
    t.previous();
    assert_eq!(t.index, 3);
    t.previous();
    assert_eq!(t.index, 2);
}

#[test]
fn list_next_visits_in_order() {
    let mut l = StatefulList::with_items(vec![10u64, 20, 30]);
    assert_eq!(l.selected, None);
    for _ in 0..5 {
        l.next();
    }
    // five calls on a list of three: index (5 - 1) % 3
    assert_eq!(l.selected, Some(1));
}

#[test]
fn list_first_next_selects_first() {
    let mut l = StatefulList::with_items(vec![7u64]);
    l.next();
    assert_eq!(l.selected, Some(0));
    l.next();
    assert_eq!(l.selected, Some(0));
}

#[test]
fn list_previous_inverts_next() {
    let mut l = StatefulList::with_items(vec![1u64, 2, 3, 4]);
    l.next();
    l.next();
    let before = l.selected;
    l.next();
    l.previous();
    assert_eq!(l.selected, before);
}

#[test]
fn list_previous_wraps_to_last() {
    let mut l = StatefulList::with_items(vec![1u64, 2, 3]);
    l.next();
    l.previous();
    assert_eq!(l.selected, Some(2));
}

#[test]
fn empty_list_navigation_is_noop() {
    let mut l: StatefulList<u64> = StatefulList::with_items(vec![]);
    l.next();
    assert_eq!(l.selected, None);
    l.previous();
    assert_eq!(l.selected, None);
}

#[test]
fn append_keeps_selection() {
    let mut l = StatefulList::with_items(vec![1u64]);
    l.next();
    l.append(2);
    assert_eq!(l.selected, Some(0));
    assert_eq!(l.items.len(), 2);
}

#[test]
fn controller_routes_horizontal_events_to_tabs() {
    let mut app = App::new("t".to_string(), false, vec![]);
    app.on_right();
    assert_eq!(app.tabs.index, 1);
    app.on_left();
    assert_eq!(app.tabs.index, 0);
    app.on_left();
    assert_eq!(app.tabs.index, 3);
}

#[test]
fn controller_routes_vertical_events_to_list() {
    let mut app = App::new("t".to_string(), false, vec![task(1, "a"), task(2, "b")]);
    app.on_down();
    assert_eq!(app.todo_list.selected, Some(0));
    app.on_down();
    assert_eq!(app.todo_list.selected, Some(1));
    app.on_up();
    assert_eq!(app.todo_list.selected, Some(0));
    app.on_up();
    assert_eq!(app.todo_list.selected, Some(1));
}

#[test]
fn quit_key_sets_flag() {
    let mut app = App::new("t".to_string(), false, vec![]);
    assert!(!app.should_quit);
    app.on_key('q');
    assert!(app.should_quit);
}
