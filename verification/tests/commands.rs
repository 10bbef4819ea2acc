use task_manager::command::{parse_command, Command};

fn complaint(line: &str) -> Option<String> {
    parse_command(line).complaint()
}

#[test]
fn add_is_recognised_by_its_first_word() {
    assert!(matches!(parse_command("add \\\\t\\\\d\\\\2024-01-01\n"), Command::Add));
    assert!(matches!(parse_command("  add\n"), Command::Add));
    assert!(matches!(parse_command("add a b c d"), Command::Add));
    assert!(matches!(parse_command("add\\\\t\\\\d\\\\2024-01-01"), Command::Invalid));
    assert!(matches!(parse_command("Add x"), Command::Invalid));
}

#[test]
fn view_takes_one_file_name() {
    match parse_command("view a.txt\n") {
        Command::View(name) => assert_eq!(name, "a.txt"),
        other => panic!("{:?}", other),
    }
    match parse_command("  view \t notes \n") {
        Command::View(name) => assert_eq!(name, "notes"),
        other => panic!("{:?}", other),
    }
    assert!(matches!(parse_command("view"), Command::ViewUsage));
    assert!(matches!(parse_command("view a b"), Command::ViewUsage));
}

#[test]
fn delete_takes_one_file_name() {
    match parse_command("delete a.txt\n") {
        Command::Delete(name) => assert_eq!(name, "a.txt"),
        other => panic!("{:?}", other),
    }
    assert!(matches!(parse_command("delete\n"), Command::DeleteUsage));
    assert!(matches!(parse_command("delete a.txt b.txt\n"), Command::DeleteUsage));
}

#[test]
fn filter_takes_one_mode() {
    match parse_command("filter due\n") {
        Command::Filter(mode) => assert_eq!(mode, "due"),
        other => panic!("{:?}", other),
    }
    match parse_command("filter soon\n") {
        Command::Filter(mode) => assert_eq!(mode, "soon"),
        other => panic!("{:?}", other),
    }
    assert!(matches!(parse_command("filter\n"), Command::FilterUsage));
    assert!(matches!(parse_command("filter due upcoming\n"), Command::FilterUsage));
}

#[test]
fn anything_else_is_no_command() {
    for line in ["", "\n", "   ", "help", "views a.txt", "VIEW a.txt", "quit", "vie w"] {
        assert!(matches!(parse_command(line), Command::Invalid), "{:?}", line);
    }
}

#[test]
fn complaints() {
    assert_eq!(complaint("view"), Some("Invalid input format. Use: view <filename>".to_string()));
    assert_eq!(
        complaint("delete a b"),
        Some("Invalid input format. Use: delete <filename>".to_string())
    );
    assert_eq!(
        complaint("filter"),
        Some("Invalid input format. Use: filter <completed | upcoming>".to_string())
    );
    assert_eq!(complaint("nonsense"), Some("Invalid command".to_string()));
    assert_eq!(complaint(""), Some("Invalid command".to_string()));
    assert_eq!(complaint("add x"), None);
    assert_eq!(complaint("view a.txt"), None);
    assert_eq!(complaint("delete a.txt"), None);
    assert_eq!(complaint("filter due"), None);
}
