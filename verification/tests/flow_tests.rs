use tasklist::actions::{commit_pending, execute_action, load_tasks, Action, ActionEvent, State};
use tasklist::json::{tasks_from_json, save_tasks};
use tasklist::sort::{list_tasks, sort_by_priority};
use tasklist::store::MapTaskRepository;
use tasklist::task::{format_task, priority_to_color, ColorCode, KeyedTask, Priority, Task};

fn task(name: &str, p: Priority) -> Task {
    Task { name: name.to_string(), priority: p }
}

#[test]
fn missing_file_seeds_default_tasks() {
    // A missing file loads as no tasks; the empty store is then seeded.
    let mut tr = MapTaskRepository::new();
    load_tasks(&mut tr, Vec::new());
    let listed = list_tasks(&tr);
    assert_eq!(listed.len(), 2);
    assert_eq!(listed[0].1.name, "Learn Rust");
    assert_eq!(listed[0].1.priority, Priority::High);
    assert_eq!(listed[1].1.name, "Learn NeoVim");
    assert_eq!(listed[1].1.priority, Priority::Medium);
}

#[test]
fn loaded_tasks_are_not_reseeded() {
    let mut tr = MapTaskRepository::new();
    load_tasks(&mut tr, vec![task("only", Priority::Low)]);
    let all = tr.get_all();
    assert_eq!(all.len(), 1);
    assert_eq!(all[0].1.name, "only");
}

#[test]
fn list_puts_high_before_low() {
    // Add("Buy milk", Low) then Add("Fix bug", High): High lists first.
    let mut tr = MapTaskRepository::new();
    tr.add_task(task("Buy milk", Priority::Low));
    tr.add_task(task("Fix bug", Priority::High));
    let listed = list_tasks(&tr);
    assert_eq!(listed.len(), 2);
    assert_eq!(listed[0].1.name, "Fix bug");
    assert_eq!(listed[1].1.name, "Buy milk");
}

#[test]
fn sort_groups_priorities_in_order() {
    let input = vec![
        KeyedTask(1, task("l1", Priority::Low)),
        KeyedTask(2, task("h1", Priority::High)),
        KeyedTask(3, task("m1", Priority::Medium)),
        KeyedTask(4, task("h2", Priority::High)),
        KeyedTask(5, task("l2", Priority::Low)),
    ];
    let sorted = sort_by_priority(input);
    assert_eq!(sorted.len(), 5);
    for w in sorted.windows(2) {
        assert!(w[0].1.priority.rank() <= w[1].1.priority.rank());
    }
    let mut ids: Vec<u128> = sorted.iter().map(|kt| kt.0).collect();
    ids.sort();
    assert_eq!(ids, vec![1, 2, 3, 4, 5]);
}

#[test]
fn quit_leaves_store_untouched() {
    // Quit on the first cycle: nothing added or removed, and what was
    // loaded is written back unchanged.
    let mut tr = MapTaskRepository::new();
    load_tasks(&mut tr, vec![task("loaded", Priority::Medium)]);
    let before = save_tasks(&tr);
    let state = State::initial();
    let state = commit_pending(&mut tr, state);
    let state = execute_action(ActionEvent::Quit, &mut tr, state);
    assert!(!state.should_continue);
    let after = save_tasks(&tr);
    assert_eq!(before, after);
    let parsed = tasks_from_json(&after).expect("saved text parses");
    assert_eq!(parsed.len(), 1);
    assert_eq!(parsed[0].name, "loaded");
}

#[test]
fn add_event_inserts_task() {
    let mut tr = MapTaskRepository::new();
    let state = State::initial();
    let state = execute_action(ActionEvent::AddOk(task("new", Priority::High)), &mut tr, state);
    assert!(state.should_continue);
    assert_eq!(tr.len(), 1);
    assert_eq!(tr.get_all()[0].1.name, "new");
}

#[test]
fn failed_add_inserts_nothing() {
    let mut tr = MapTaskRepository::new();
    let state = State::initial();
    let state = execute_action(ActionEvent::AddFailed, &mut tr, state);
    assert!(state.should_continue);
    assert!(tr.is_empty());
}

#[test]
fn remove_commits_on_next_cycle() {
    // Select a task for removal; the next cycle's commit step deletes it.
    let mut tr = MapTaskRepository::new();
    let id = tr.add_task(task("target", Priority::Low));
    let state = State::initial();
    let selection = KeyedTask(id, task("target", Priority::Low));
    let state = execute_action(ActionEvent::RemoveSelected(Some(selection)), &mut tr, state);
    // Selection alone removes nothing yet.
    assert_eq!(tr.len(), 1);
    assert!(state.task.is_some());
    assert!(matches!(state.action, Some(Action::Remove)));
    // Next cycle.
    let state = commit_pending(&mut tr, state);
    assert!(tr.get_task(id).is_none());
    assert!(tr.is_empty());
    assert!(state.task.is_none());
    assert!(state.action.is_none());
}

#[test]
fn cancelled_selection_removes_nothing() {
    let mut tr = MapTaskRepository::new();
    let id = tr.add_task(task("stays", Priority::High));
    let state = State::initial();
    let state = execute_action(ActionEvent::RemoveSelected(None), &mut tr, state);
    let _state = commit_pending(&mut tr, state);
    assert!(tr.get_task(id).is_some());
}

#[test]
fn unknown_event_changes_nothing() {
    let mut tr = MapTaskRepository::new();
    tr.add_task(task("kept", Priority::Low));
    let state = State::initial();
    let state = execute_action(ActionEvent::Unknown("bad input".to_string()), &mut tr, state);
    assert!(state.should_continue);
    assert_eq!(tr.len(), 1);
}

#[test]
fn priority_colors_match() {
    assert_eq!(priority_to_color(&Priority::High), ColorCode::Red);
    assert_eq!(priority_to_color(&Priority::Medium), ColorCode::Yellow);
    assert_eq!(priority_to_color(&Priority::Low), ColorCode::Green);
}

#[test]
fn format_task_pads_priority() {
    assert_eq!(format_task(&task("x", Priority::High)), "[      High] x\n");
    assert_eq!(format_task(&task("y", Priority::Medium)), "[    Medium] y\n");
    assert_eq!(format_task(&task("z", Priority::Low)), "[       Low] z\n");
}

#[test]
fn labels_match_menu_words() {
    assert_eq!(Priority::High.label(), "High");
    assert_eq!(Priority::Medium.label(), "Medium");
    assert_eq!(Priority::Low.label(), "Low");
    assert_eq!(Action::Quit.label(), "[\"Quit\"]");
    assert_eq!(Action::List.label(), "[\"List\"]");
    assert_eq!(Action::Add.label(), "[\"Add\"]");
    assert_eq!(Action::Remove.label(), "[\"Remove\"]");
    assert_eq!(Action::Unknown("why".to_string()).label(), "[\"unknown\"]");
}

#[test]
fn menus_list_all_choices() {
    let actions = Action::values();
    assert_eq!(actions.len(), 4);
    assert!(matches!(actions[0], Action::Quit));
    assert!(matches!(actions[1], Action::List));
    assert!(matches!(actions[2], Action::Add));
    assert!(matches!(actions[3], Action::Remove));
    let prios = Priority::values();
    assert_eq!(prios, vec![Priority::High, Priority::Medium, Priority::Low]);
}

#[test]
fn initial_and_default_states() {
    let s = State::initial();
    assert!(s.should_continue);
    assert!(s.task.is_none());
    assert!(s.action.is_none());
    let d = State::default();
    assert!(!d.should_continue);
    assert!(d.task.is_none());
    assert!(d.action.is_none());
}
