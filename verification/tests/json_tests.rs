use tasklist::json::{tasks_from_json, tasks_to_json, JsonError};
use tasklist::store::MapTaskRepository;
use tasklist::json::save_tasks;
use tasklist::task::{Priority, Task};

fn task(name: &str, p: Priority) -> Task {
    Task { name: name.to_string(), priority: p }
}

#[test]
fn empty_list_serializes_to_brackets() {
    let tasks: Vec<Task> = Vec::new();
    assert_eq!(tasks_to_json(&tasks), "[]");
}

#[test]
fn empty_brackets_parse_to_no_tasks() {
    let parsed = tasks_from_json("[]").expect("empty array should parse");
    assert!(parsed.is_empty());
}

#[test]
fn one_task_serializes_exactly() {
    let tasks = vec![task("Learn Rust", Priority::High)];
    assert_eq!(tasks_to_json(&tasks), "[{\"name\":\"Learn Rust\",\"priority\":\"High\"}]");
}

#[test]
fn two_tasks_serialize_comma_separated() {
    let tasks = vec![task("a", Priority::Low), task("b", Priority::Medium)];
    assert_eq!(
        tasks_to_json(&tasks),
        "[{\"name\":\"a\",\"priority\":\"Low\"},{\"name\":\"b\",\"priority\":\"Medium\"}]"
    );
}

#[test]
fn special_characters_are_escaped() {
    let tasks = vec![task("a\"b\\c\nd", Priority::Low)];
    assert_eq!(tasks_to_json(&tasks), "[{\"name\":\"a\\\"b\\\\c\\u000ad\",\"priority\":\"Low\"}]");
}

#[test]
fn round_trip_keeps_names_and_priorities() {
    let tasks = vec![
        task("plain", Priority::High),
        task("with \"quotes\" and \\slashes\\", Priority::Medium),
        task("control\tchars\r\n", Priority::Low),
        task("", Priority::Low),
        task("unicode snowman \u{2603}", Priority::High),
    ];
    let text = tasks_to_json(&tasks);
    let parsed = tasks_from_json(&text).expect("serialized text should parse");
    assert_eq!(parsed.len(), tasks.len());
    for i in 0..tasks.len() {
        assert_eq!(parsed[i].name, tasks[i].name);
        assert_eq!(parsed[i].priority, tasks[i].priority);
    }
}

#[test]
fn save_tasks_round_trips_store_contents() {
    let mut tr = MapTaskRepository::new();
    tr.add_task(task("one", Priority::High));
    tr.add_task(task("two", Priority::Low));
    let text = save_tasks(&tr);
    let parsed = tasks_from_json(&text).expect("saved text should parse");
    let mut names: Vec<String> = parsed.iter().map(|t| t.name.clone()).collect();
    names.sort();
    assert_eq!(names, vec!["one".to_string(), "two".to_string()]);
}

#[test]
fn whitespace_between_tokens_is_accepted() {
    let text = " [ { \"name\" : \"padded\" , \"priority\" : \"Medium\" } ] \n";
    let parsed = tasks_from_json(text).expect("padded text should parse");
    assert_eq!(parsed.len(), 1);
    assert_eq!(parsed[0].name, "padded");
    assert_eq!(parsed[0].priority, Priority::Medium);
}

#[test]
fn standard_escapes_are_decoded() {
    let text = "[{\"name\":\"A\\u0042\\n\\t\\/\\\"end\\\"\",\"priority\":\"High\"}]";
    let parsed = tasks_from_json(text).expect("escaped text should parse");
    assert_eq!(parsed[0].name, "AB\n\t/\"end\"");
}

#[test]
fn malformed_texts_are_rejected() {
    let bad = [
        "",
        "not json",
        "[",
        "[]]",
        "[{]",
        "[{\"name\":\"x\"}]",
        "[{\"name\":\"x\",\"priority\":\"Urgent\"}]",
        "[{\"priority\":\"High\",\"name\":\"x\"}]",
        "[{\"name\":\"x\",\"priority\":\"High\"},]",
        "[{\"name\":\"unterminated,\"priority\":\"High\"}]",
        "[{\"name\":\"x\",\"priority\":\"High\"}] trailing",
        "[{\"name\":\"bad\\q\",\"priority\":\"High\"}]",
        "[{\"name\":\"\\ud800\",\"priority\":\"High\"}]",
    ];
    for text in bad.iter() {
        assert!(
            matches!(tasks_from_json(text), Err(JsonError::Malformed)),
            "should reject: {}",
            text
        );
    }
}
