use proclist::text::resolve_process_name;

#[test]
fn cmdline_first_segment_wins() {
    let name = resolve_process_name(Some("com.example.app\0--flag"), None);
    assert_eq!(name, "com.example.app");
}

#[test]
fn cmdline_first_segment_is_trimmed() {
    let name = resolve_process_name(Some("  ./worker \0--verbose"), Some("ignored"));
    assert_eq!(name, "./worker");
}

#[test]
fn empty_cmdline_falls_back_to_comm() {
    let name = resolve_process_name(Some(""), Some("kworker/0:1\n"));
    assert_eq!(name, "kworker/0:1");
}

#[test]
fn absent_cmdline_falls_back_to_comm() {
    let name = resolve_process_name(None, Some("kthreadd\n"));
    assert_eq!(name, "kthreadd");
}

#[test]
fn blank_cmdline_segment_falls_back_to_comm() {
    let name = resolve_process_name(Some(" \t\0real-arg"), Some("migration/0"));
    assert_eq!(name, "migration/0");
}

#[test]
fn both_sources_unreadable_gives_unknown() {
    let name = resolve_process_name(None, None);
    assert_eq!(name, "Unknown");
}

#[test]
fn blank_sources_give_unknown() {
    let name = resolve_process_name(Some("\0\0"), Some("  \n "));
    assert_eq!(name, "Unknown");
}

#[test]
fn comm_all_whitespace_gives_unknown() {
    let name = resolve_process_name(None, Some("\n"));
    assert_eq!(name, "Unknown");
}

#[test]
fn unicode_whitespace_is_trimmed() {
    let name = resolve_process_name(Some("\u{a0}app\u{3000}\0x"), None);
    assert_eq!(name, "app");
}
