use proclist::hello_message;
use proclist::json::records_to_json;
use proclist::process_list_json;
use proclist::records::{ProcEntry, ProcessRecord};

fn record(pid: i32, name: &str) -> ProcessRecord {
    ProcessRecord { pid, name: String::from(name), ram_usage: 0 }
}

#[test]
fn no_records_render_as_an_empty_array() {
    let out = records_to_json(&Vec::new());
    assert_eq!(out, "[]");
}

#[test]
fn no_entries_render_as_an_empty_array() {
    let out = process_list_json(&Vec::new());
    assert_eq!(out, "[]");
}

#[test]
fn one_record_renders_exactly() {
    let out = records_to_json(&vec![record(42, "bash")]);
    assert_eq!(out, "[{\"pid\":42,\"name\":\"bash\",\"ram_usage\":0}]");
}

#[test]
fn records_are_joined_with_commas() {
    let out = records_to_json(&vec![record(1, "init"), record(2, "kthreadd")]);
    assert_eq!(
        out,
        "[{\"pid\":1,\"name\":\"init\",\"ram_usage\":0},\
         {\"pid\":2,\"name\":\"kthreadd\",\"ram_usage\":0}]"
    );
}

#[test]
fn quotes_backslashes_and_controls_are_escaped() {
    let out = records_to_json(&vec![record(5, "a\"b\\c\nd")]);
    assert_eq!(out, "[{\"pid\":5,\"name\":\"a\\\"b\\\\c\\u000ad\",\"ram_usage\":0}]");
}

#[test]
fn non_ascii_names_pass_through() {
    let out = records_to_json(&vec![record(6, "héllo wörld")]);
    assert_eq!(out, "[{\"pid\":6,\"name\":\"héllo wörld\",\"ram_usage\":0}]");
}

#[test]
fn output_parses_as_json() {
    let entries = vec![
        ProcEntry {
            name: String::from("42"),
            cmdline: Some(String::from("a\"b\\c\u{1}\0--x")),
            comm: None,
        },
        ProcEntry { name: String::from("7"), cmdline: None, comm: None },
        ProcEntry { name: String::from("junk"), cmdline: None, comm: None },
    ];
    let out = process_list_json(&entries);
    let value: serde_json::Value = serde_json::from_str(&out).unwrap();
    let list = value.as_array().unwrap();
    assert_eq!(list.len(), 2);
    assert_eq!(list[0]["pid"].as_i64(), Some(42));
    assert_eq!(list[0]["name"].as_str(), Some("a\"b\\c\u{1}"));
    assert_eq!(list[0]["ram_usage"].as_i64(), Some(0));
    assert_eq!(list[1]["pid"].as_i64(), Some(7));
    assert_eq!(list[1]["name"].as_str(), Some("Unknown"));
    assert_eq!(list[1]["ram_usage"].as_i64(), Some(0));
}

#[test]
fn empty_output_parses_as_json() {
    let out = process_list_json(&Vec::new());
    let value: serde_json::Value = serde_json::from_str(&out).unwrap();
    assert_eq!(value.as_array().unwrap().len(), 0);
}

#[test]
fn greeting_is_fixed() {
    assert_eq!(hello_message(), "Hello from Rust Root Backend!");
}
