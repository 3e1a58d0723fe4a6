use logview::control::should_quit;
use logview::document::{Column, Log};
use logview::projection::{project, Projection};
use logview::render::{display_keys, format_by_key, format_entry, render_buffer};
use logview::store::{AppState, SharedState};
use serde_json::Value;
use std::sync::Arc;

fn text(s: &str) -> Value {
    Value::String(s.to_string())
}

fn col(name: &str, kind: &str) -> Column {
    Column::new(name.to_string(), kind.to_string())
}

fn sample_log() -> Log {
    Log {
        values: vec![vec![
            text("2024-01-01T00:00:00Z"),
            text("a1"),
            text("h1"),
            text("linux"),
            text("bob"),
            text("10.0.0.1"),
        ]],
        took: 5,
        columns: vec![
            col("@timestamp", "date"),
            col("agent.id", "keyword"),
            col("host.name", "keyword"),
            col("host.os.name", "keyword"),
            col("user.name", "keyword"),
            col("host.ip", "ip"),
        ],
    }
}

fn key(s: &str) -> String {
    s.to_string()
}

fn buffer_of(p: &Projection) -> String {
    render_buffer(&display_keys(), p).expect("every value prints")
}

#[test]
fn empty_store_renders_unknown_for_every_key() {
    let store = SharedState::new();
    let p = store.read_projection();
    assert_eq!(p.len(), 0);
    assert_eq!(
        buffer_of(&p),
        "\"@timestamp\": unknown\n\"agent.id\": unknown\n\"host.name\": unknown\n\
         \"host.os.name\": unknown\n\"user.name\": unknown\n\"host.ip\": unknown\n"
    );
}

#[test]
fn replace_with_full_document_populates_every_key() {
    let store = SharedState::new();
    store.replace(sample_log());
    let p = store.read_projection();
    assert_eq!(p.len(), 6);
    assert_eq!(p.get(&key("host.ip")), Some(&text("10.0.0.1")));
    assert_eq!(
        buffer_of(&p),
        "\"@timestamp\": \"2024-01-01T00:00:00Z\"\n\"agent.id\": \"a1\"\n\"host.name\": \"h1\"\n\
         \"host.os.name\": \"linux\"\n\"user.name\": \"bob\"\n\"host.ip\": \"10.0.0.1\"\n"
    );
    let d = store.read_document();
    assert_eq!(d.took, 5);
    assert_eq!(d.values, sample_log().values);
    assert_eq!(d.columns.len(), 6);
    assert_eq!(d.columns[5].column_type, "ip");
}

#[test]
fn columns_longer_than_first_row_are_skipped() {
    let mut log = sample_log();
    log.values = vec![vec![text("t0"), text("a0")], vec![text("x"), text("y"), text("z")]];
    let p = project(&log);
    assert_eq!(p.len(), 2);
    assert_eq!(p.get(&key("@timestamp")), Some(&text("t0")));
    assert_eq!(p.get(&key("agent.id")), Some(&text("a0")));
    assert_eq!(p.get(&key("host.name")), None);
    assert_eq!(
        buffer_of(&p),
        "\"@timestamp\": \"t0\"\n\"agent.id\": \"a0\"\n\"host.name\": unknown\n\
         \"host.os.name\": unknown\n\"user.name\": unknown\n\"host.ip\": unknown\n"
    );
}

#[test]
fn first_row_longer_than_columns_is_cut_to_columns() {
    let log = Log {
        values: vec![vec![text("v0"), text("v1"), text("v2")]],
        took: 0,
        columns: vec![col("user.name", "keyword")],
    };
    let p = project(&log);
    assert_eq!(p.len(), 1);
    assert_eq!(p.get(&key("user.name")), Some(&text("v0")));
}

#[test]
fn document_without_rows_projects_to_nothing() {
    let log = Log { values: vec![], took: 3, columns: vec![col("host.ip", "ip")] };
    assert_eq!(project(&log).len(), 0);
}

#[test]
fn repeated_column_name_keeps_the_later_value() {
    let log = Log {
        values: vec![vec![text("first"), text("second")]],
        took: 0,
        columns: vec![col("host.name", "keyword"), col("host.name", "keyword")],
    };
    let p = project(&log);
    assert_eq!(p.len(), 1);
    assert_eq!(p.get(&key("host.name")), Some(&text("second")));
}

#[test]
fn two_replaces_in_succession_leave_the_second() {
    let store = SharedState::new();
    store.replace(sample_log());
    let mut second = sample_log();
    second.values = vec![vec![text("t2"), text("a2")]];
    second.took = 9;
    store.replace(second);
    let state = store.read_state();
    assert_eq!(state.current_document.took, 9);
    let p = store.read_projection();
    assert_eq!(p.len(), 2);
    assert_eq!(p.get(&key("@timestamp")), Some(&text("t2")));
    assert_eq!(p.get(&key("agent.id")), Some(&text("a2")));
    assert_eq!(p.get(&key("host.name")), None);
}

#[test]
fn replacing_twice_with_the_same_document_equals_once() {
    let mut once = AppState::new();
    once.update_log(sample_log());
    let mut twice = AppState::new();
    twice.update_log(sample_log());
    twice.update_log(sample_log());
    let keys = display_keys();
    assert_eq!(render_buffer(&keys, &once.mapped_document), render_buffer(&keys, &twice.mapped_document));
    assert_eq!(twice.mapped_document.len(), 6);
    assert_eq!(twice.current_document.values, once.current_document.values);
}

#[test]
fn concurrent_replaces_leave_one_whole_document() {
    let runtime = tokio::runtime::Runtime::new().unwrap();
    let store = Arc::new(SharedState::new());
    let mut handles = Vec::new();
    for n in 0..8u32 {
        let s = Arc::clone(&store);
        handles.push(runtime.spawn_blocking(move || {
            let log = Log {
                values: vec![vec![Value::from(n), Value::from(n * 10)]],
                took: n,
                columns: vec![col("agent.id", "long"), col("host.name", "long")],
            };
            s.replace(log);
        }));
    }
    for h in handles {
        runtime.block_on(h).unwrap();
    }
    let state = store.read_state();
    let n = state.current_document.took;
    assert!(n < 8);
    assert_eq!(state.current_document.values, vec![vec![Value::from(n), Value::from(n * 10)]]);
    assert_eq!(state.mapped_document.get(&key("agent.id")), Some(&Value::from(n)));
    assert_eq!(state.mapped_document.get(&key("host.name")), Some(&Value::from(n * 10)));
}

#[test]
fn nested_value_is_pretty_printed() {
    let mut inner = serde_json::Map::new();
    inner.insert("a".to_string(), Value::from(1));
    let log = Log {
        values: vec![vec![Value::Object(inner), Value::Array(vec![Value::Bool(true), Value::Null])]],
        took: 0,
        columns: vec![col("host.os.name", "object"), col("user.name", "array")],
    };
    let p = project(&log);
    assert_eq!(format_by_key(&key("host.os.name"), &p), Some("\"host.os.name\": {\n  \"a\": 1\n}\n".to_string()));
    assert_eq!(format_by_key(&key("user.name"), &p), Some("\"user.name\": [\n  true,\n  null\n]\n".to_string()));
    assert_eq!(format_by_key(&key("host.ip"), &p), Some("\"host.ip\": unknown\n".to_string()));
}

#[test]
fn format_entry_lines() {
    assert_eq!(format_entry(&key("k"), Some(&key("42"))), "\"k\": 42\n");
    assert_eq!(format_entry(&key("k"), None), "\"k\": unknown\n");
    assert_eq!(format_entry(&key(""), None), "\"\": unknown\n");
}

#[test]
fn render_with_no_keys_is_empty() {
    let p = project(&sample_log());
    assert_eq!(render_buffer(&Vec::new(), &p), Some(String::new()));
}

#[test]
fn display_keys_are_the_six_fields() {
    assert_eq!(
        display_keys(),
        vec!["@timestamp", "agent.id", "host.name", "host.os.name", "user.name", "host.ip"]
    );
}

#[test]
fn new_log_is_one_empty_row() {
    let log = Log::new();
    assert_eq!(log.values, vec![Vec::<Value>::new()]);
    assert_eq!(log.took, 0);
    assert!(log.columns.is_empty());
    assert_eq!(project(&log).len(), 0);
}

#[test]
fn quit_only_on_press_of_q() {
    assert!(should_quit(true, Some('q')));
    assert!(!should_quit(false, Some('q')));
    assert!(!should_quit(true, Some('Q')));
    assert!(!should_quit(true, Some('x')));
    assert!(!should_quit(true, None));
}

#[test]
fn projection_insert_replaces_existing_value() {
    let mut p = Projection::new();
    p.insert(key("a"), Value::from(1));
    p.insert(key("b"), Value::from(2));
    p.insert(key("a"), Value::from(3));
    assert_eq!(p.len(), 2);
    assert_eq!(p.get(&key("a")), Some(&Value::from(3)));
    assert_eq!(p.get(&key("b")), Some(&Value::from(2)));
    let copy = p.duplicate();
    assert_eq!(copy.get(&key("a")), Some(&Value::from(3)));
}
