use rachet::executor::{
    command_outcome, is_blank, Action, CommandExecutor, DirEntry, ExecError, RachetToken,
};

fn entry(name: &str, is_file: bool, is_executable: bool) -> DirEntry {
    DirEntry { name: name.to_string(), is_file, is_executable }
}

fn executor_with(entries: Vec<DirEntry>) -> CommandExecutor {
    CommandExecutor::new("compiler/commands".to_string(), true, true, &entries)
        .ok()
        .expect("discovery over a listed directory succeeds")
}

fn token(command: &str, args: &[&str], line: i32) -> RachetToken {
    RachetToken {
        command: command.to_string(),
        args: args.iter().map(|s| s.to_string()).collect(),
        line,
    }
}

#[test]
fn missing_directory_is_reported() {
    let r = CommandExecutor::new("compiler/commands".to_string(), false, false, &Vec::new());
    match r {
        Err(e @ ExecError::MissingCommandsDir { .. }) => {
            assert_eq!(e.message(), "Commands directory 'compiler/commands' not found");
        }
        _ => panic!("expected a missing-directory error"),
    }
}

#[test]
fn non_directory_is_reported() {
    let r = CommandExecutor::new("compiler/commands".to_string(), true, false, &Vec::new());
    match r {
        Err(e @ ExecError::NotADirectory { .. }) => {
            assert_eq!(e.message(), "'compiler/commands' is not a directory");
        }
        _ => panic!("expected a not-a-directory error"),
    }
}

#[test]
fn discovery_keeps_executable_files_only() {
    let ex = executor_with(vec![
        entry("inc", true, true),
        entry("notes.txt", true, false),
        entry("subdir", false, true),
    ]);
    let names = ex.command_names();
    assert_eq!(names, vec!["inc".to_string()]);
}

#[test]
fn discovery_joins_directory_and_name() {
    let ex = executor_with(vec![entry("inc", true, true)]);
    let t = token("inc", &["x"], 1);
    match ex.execute_token(&t) {
        Ok(Action::Run { path, args }) => {
            assert_eq!(path, "compiler/commands/inc");
            assert_eq!(args, vec!["x".to_string()]);
        }
        _ => panic!("expected a run action"),
    }
}

#[test]
fn discovery_keeps_prior_commands() {
    let mut ex = executor_with(vec![entry("inc", true, true)]);
    ex.discover_commands(true, true, &vec![entry("dec", true, true)])
        .ok()
        .expect("discovery over a listed directory succeeds");
    let names = ex.command_names();
    assert!(names.contains(&"inc".to_string()));
    assert!(names.contains(&"dec".to_string()));
    let t = token("inc", &[], 1);
    match ex.execute_token(&t) {
        Ok(Action::Run { path, .. }) => assert_eq!(path, "compiler/commands/inc"),
        _ => panic!("expected the earlier command to survive discovery"),
    }
}

#[test]
fn discovery_overwrites_listed_name() {
    let mut ex = CommandExecutor {
        commands_dir: "compiler/commands".to_string(),
        available_commands: vec![("inc".to_string(), "elsewhere/inc".to_string())],
    };
    ex.discover_commands(true, true, &vec![entry("inc", true, true)])
        .ok()
        .expect("discovery over a listed directory succeeds");
    let t = token("inc", &[], 1);
    match ex.execute_token(&t) {
        Ok(Action::Run { path, .. }) => assert_eq!(path, "compiler/commands/inc"),
        _ => panic!("expected the listed name to map to the fresh path"),
    }
}

#[test]
fn discovery_error_leaves_table_alone() {
    let mut ex = executor_with(vec![entry("inc", true, true)]);
    assert!(ex.discover_commands(false, false, &Vec::new()).is_err());
    assert_eq!(ex.command_names(), vec!["inc".to_string()]);
}

#[test]
fn discovery_drops_duplicate_names() {
    let ex = executor_with(vec![entry("inc", true, true), entry("inc", true, true)]);
    assert_eq!(ex.command_names().len(), 1);
}

#[test]
fn print_token_prints_first_argument() {
    let ex = executor_with(Vec::new());
    let t = token("print", &["hello", "ignored"], 2);
    match ex.execute_token(&t) {
        Ok(Action::Print(s)) => assert_eq!(s, "hello"),
        _ => panic!("expected a print action"),
    }
}

#[test]
fn print_token_requires_argument() {
    let ex = executor_with(Vec::new());
    let t = token("print", &[], 7);
    match ex.execute_token(&t) {
        Err(e @ ExecError::PrintRequiresArgument { line }) => {
            assert_eq!(line, 7);
            assert_eq!(e.message(), "print command requires an argument");
        }
        _ => panic!("expected a print-requires-argument error"),
    }
}

#[test]
fn unknown_command_is_reported() {
    let ex = executor_with(vec![entry("inc", true, true)]);
    let t = token("dec", &[], 4);
    match ex.execute_token(&t) {
        Err(e @ ExecError::UnknownCommand { line, .. }) => {
            assert_eq!(line, 4);
            assert_eq!(e.message(), "Unknown command 'dec'");
        }
        _ => panic!("expected an unknown-command error"),
    }
}

#[test]
fn print_is_never_looked_up() {
    let ex = executor_with(vec![entry("print", true, true)]);
    let t = token("print", &["text"], 1);
    assert!(matches!(ex.execute_token(&t), Ok(Action::Print(_))));
}

#[test]
fn outcome_of_a_run() {
    assert!(command_outcome(&"inc".to_string(), 3, true).is_ok());
    match command_outcome(&"inc".to_string(), 3, false) {
        Err(e @ ExecError::CommandFailed { line, .. }) => {
            assert_eq!(line, 3);
            assert_eq!(e.message(), "Command 'inc' failed");
        }
        _ => panic!("expected a command-failed error"),
    }
}

#[test]
fn blank_input_detection() {
    assert!(is_blank(""));
    assert!(is_blank(" \t\r\n"));
    assert!(is_blank("\u{00A0}\u{2003}"));
    assert!(!is_blank(" [] "));
    assert_eq!(is_blank("  x"), "  x".trim().is_empty());
    assert_eq!(is_blank("   "), "   ".trim().is_empty());
}
