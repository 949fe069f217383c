use minitools::commands::{
    command_description, command_name, find_command, help_command, hello_command, run_command,
    usage, CommandKind,
};

#[test]
fn table_lookup() {
    assert_eq!(find_command("hello"), Some(CommandKind::Hello));
    assert_eq!(find_command("help"), Some(CommandKind::Help));
    assert_eq!(find_command("hel"), None);
    assert_eq!(find_command(command_name(CommandKind::Help)), Some(CommandKind::Help));
    assert_eq!(command_description(CommandKind::Help), "Print this help messsage");
}

#[test]
fn usage_lines() {
    assert_eq!(
        usage("tool"),
        vec![
            "Usage: tool <command>".to_string(),
            "Commands:".to_string(),
            "    hello - print hello".to_string(),
            "    help - Print this help messsage".to_string(),
        ]
    );
}

#[test]
fn hello_prints_greeting() {
    let out = hello_command("tool");
    assert_eq!(out.stdout, vec!["Hello, World".to_string()]);
    assert!(out.stderr.is_empty());
    assert!(out.success);
}

#[test]
fn help_variants() {
    let out = help_command("tool", Some("hello"));
    assert_eq!(out.stdout, vec!["hello - print hello".to_string()]);
    assert!(out.success);
    let out = help_command("tool", Some("nope"));
    assert_eq!(out.stderr, vec!["ERROR: command nope is not found".to_string()]);
    assert!(out.stdout.is_empty());
    assert!(!out.success);
    let out = help_command("tool", None);
    assert_eq!(out.stderr, usage("tool"));
    assert!(out.success);
}

#[test]
fn dispatch() {
    let out = run_command("tool", "nope", None);
    assert!(!out.success && out.stdout.is_empty() && out.stderr.is_empty());
    // The tool succeeds even when the command itself fails.
    let out = run_command("tool", "help", Some("nope"));
    assert!(out.success);
    assert_eq!(out.stderr, vec!["ERROR: command nope is not found".to_string()]);
    let out = run_command("tool", "hello", None);
    assert_eq!(out.stdout, vec!["Hello, World".to_string()]);
}
