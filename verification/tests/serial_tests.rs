use rust_course::serial::{
    help_lines, no_reading_message, split_command, unknown_message, CommandName, LineBuffer,
};

#[test]
fn split_status_help_offset() {
    let p = split_command("  status  ");
    assert_eq!(p.name, CommandName::Status);
    assert_eq!(p.trimmed, "status");
    assert_eq!(split_command("help").name, CommandName::Help);
    let p = split_command("offset   25.5 ");
    assert_eq!(p.name, CommandName::Offset);
    assert_eq!(p.arg, "25.5");
    assert_eq!(p.trimmed, "offset   25.5");
    let p = split_command("offset");
    assert_eq!(p.name, CommandName::Offset);
    assert_eq!(p.arg, "");
}

#[test]
fn split_unknown_and_empty() {
    let p = split_command("reboot now");
    assert_eq!(p.name, CommandName::Unknown);
    assert_eq!(p.trimmed, "reboot now");
    assert_eq!(p.arg, "now");
    let p = split_command("");
    assert_eq!(p.name, CommandName::Unknown);
    assert_eq!(p.trimmed, "");
    assert_eq!(split_command("statusx").name, CommandName::Unknown);
}

#[test]
fn lines_are_gathered_and_capped() {
    let mut lb = LineBuffer::new();
    assert_eq!(lb.feed(b'\n'), None);
    for b in b"help" {
        assert_eq!(lb.feed(*b), None);
    }
    assert_eq!(lb.feed(b'\r'), Some(b"help".to_vec()));
    assert_eq!(lb.feed(b'\n'), None);
    for _ in 0..70 {
        lb.feed(b'x');
    }
    assert_eq!(lb.feed(b'\n').map(|l| l.len()), Some(64));
}

#[test]
fn fixed_answers() {
    assert_eq!(help_lines().len(), 4);
    assert_eq!(help_lines()[0], "Commands:");
    assert_eq!(
        unknown_message("reboot"),
        "Unknown command: 'reboot'. Type 'help' for usage."
    );
    assert_eq!(no_reading_message(), "{\"error\":\"no reading yet\"}");
}

#[test]
fn parse_status() {
    assert_eq!(split_command("status").name, CommandName::Status);
    assert_eq!(split_command("  status  ").name, CommandName::Status);
}

#[test]
fn parse_help() {
    assert_eq!(split_command("help").name, CommandName::Help);
}

#[test]
fn parse_unknown() {
    let p = split_command("reboot");
    assert_eq!(p.name, CommandName::Unknown);
    assert_eq!(p.trimmed, "reboot");
}

#[test]
fn parse_empty() {
    let p = split_command("");
    assert_eq!(p.name, CommandName::Unknown);
    assert_eq!(p.trimmed, "");
}
