use proclist::process_list_json;
use proclist::records::{build_process_list, ProcEntry};

fn entry(name: &str, cmdline: Option<&str>, comm: Option<&str>) -> ProcEntry {
    ProcEntry {
        name: String::from(name),
        cmdline: cmdline.map(String::from),
        comm: comm.map(String::from),
    }
}

#[test]
fn only_numeric_entries_become_records() {
    let entries = vec![
        entry("1", Some("/sbin/init\0"), None),
        entry("42", None, Some("kworker/0:1\n")),
        entry("self", Some("/bin/ls\0"), None),
        entry("thread-self", None, Some("ls")),
    ];
    let records = build_process_list(&entries);
    let pids: Vec<i32> = records.iter().map(|r| r.pid).collect();
    assert_eq!(pids, vec![1, 42]);
}

#[test]
fn records_carry_resolved_names_in_entry_order() {
    let entries = vec![
        entry("7", Some("com.example.app\0--flag"), None),
        entry("8", Some(""), Some("kthreadd\n")),
        entry("9", None, None),
    ];
    let records = build_process_list(&entries);
    assert_eq!(records.len(), 3);
    assert_eq!(records[0].pid, 7);
    assert_eq!(records[0].name, "com.example.app");
    assert_eq!(records[1].pid, 8);
    assert_eq!(records[1].name, "kthreadd");
    assert_eq!(records[2].pid, 9);
    assert_eq!(records[2].name, "Unknown");
}

#[test]
fn every_record_has_zero_memory_usage() {
    let entries = vec![
        entry("1", Some("/sbin/init\0"), None),
        entry("2", None, Some("kthreadd")),
        entry("300", None, None),
    ];
    let records = build_process_list(&entries);
    assert_eq!(records.len(), 3);
    for r in &records {
        assert_eq!(r.ram_usage, 0);
    }
}

#[test]
fn end_to_end_listing() {
    let entries = vec![
        entry("1", Some("/sbin/init\0splash"), None),
        entry("42", None, Some("kworker/0:1\n")),
        entry("self", Some("/bin/ls\0"), None),
    ];
    let out = process_list_json(&entries);
    assert_eq!(
        out,
        "[{\"pid\":1,\"name\":\"/sbin/init\",\"ram_usage\":0},\
         {\"pid\":42,\"name\":\"kworker/0:1\",\"ram_usage\":0}]"
    );
}
