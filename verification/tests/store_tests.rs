use tasklist::store::MapTaskRepository;
use tasklist::task::{KeyedTask, Priority, Task};

fn task(name: &str, p: Priority) -> Task {
    Task { name: name.to_string(), priority: p }
}

#[test]
fn add_then_list_counts() {
    let mut tr = MapTaskRepository::new();
    let a = tr.add_task(task("one", Priority::High));
    let b = tr.add_task(task("two", Priority::Medium));
    let c = tr.add_task(task("three", Priority::Low));
    let all = tr.get_all();
    assert_eq!(all.len(), 3);
    assert_ne!(a, b);
    assert_ne!(a, c);
    assert_ne!(b, c);
    let ids = tr.ids();
    assert_eq!(ids.len(), 3);
    for i in 0..ids.len() {
        for j in 0..ids.len() {
            if i != j {
                assert_ne!(ids[i], ids[j]);
            }
        }
    }
}

#[test]
fn get_returns_added_task() {
    let mut tr = MapTaskRepository::new();
    let id = tr.add_task(task("buy milk", Priority::Low));
    let got = tr.get_task(id).expect("task should be present");
    assert_eq!(got.name, "buy milk");
    assert_eq!(got.priority, Priority::Low);
}

#[test]
fn get_unknown_is_absent() {
    let tr = MapTaskRepository::new();
    assert!(tr.get_task(42).is_none());
}

#[test]
fn remove_then_get_is_absent() {
    let mut tr = MapTaskRepository::new();
    let id = tr.add_task(task("doomed", Priority::High));
    let keep = tr.add_task(task("kept", Priority::Low));
    let kt = KeyedTask(id, task("doomed", Priority::High));
    tr.remove_task(&kt);
    assert!(tr.get_task(id).is_none());
    assert!(tr.get_task(keep).is_some());
    assert_eq!(tr.len(), 1);
}

#[test]
fn remove_nonexistent_is_noop() {
    let mut tr = MapTaskRepository::new();
    let id = tr.add_task(task("stays", Priority::Medium));
    let bogus = id.wrapping_add(1);
    let kt = KeyedTask(bogus, task("ghost", Priority::Low));
    tr.remove_task(&kt);
    assert_eq!(tr.len(), 1);
    assert!(tr.get_task(id).is_some());
}

#[test]
fn is_empty_tracks_len() {
    let mut tr = MapTaskRepository::new();
    assert!(tr.is_empty());
    let id = tr.add_task(task("x", Priority::High));
    assert!(!tr.is_empty());
    tr.remove_task(&KeyedTask(id, task("x", Priority::High)));
    assert!(tr.is_empty());
}

#[test]
fn get_all_matches_ids() {
    let mut tr = MapTaskRepository::new();
    tr.add_task(task("a", Priority::High));
    tr.add_task(task("b", Priority::Low));
    let all = tr.get_all();
    let ids = tr.ids();
    assert_eq!(all.len(), ids.len());
    for i in 0..all.len() {
        assert_eq!(all[i].0, ids[i]);
    }
}
