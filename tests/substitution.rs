use smriti::shell_executor::{finish_run, replace_placeholder, RunError, ShellStatus};
use smriti::template::find_placeholders;

fn strings(v: &[&str]) -> Vec<String> {
    v.iter().map(|s| s.to_string()).collect()
}

#[test]
fn template_without_placeholders_is_unchanged() {
    assert_eq!(replace_placeholder("ls -la | grep x", strings(&[])).unwrap(), "ls -la | grep x");
    assert_eq!(replace_placeholder("ls -la | grep x", strings(&["a", "b"])).unwrap(), "ls -la | grep x");
    assert_eq!(replace_placeholder("echo {} {1x} {a-b}", strings(&["q"])).unwrap(), "echo {} {1x} {a-b}");
}

#[test]
fn two_placeholders_take_two_arguments() {
    assert_eq!(replace_placeholder("echo {a} {b}", strings(&["x", "y"])).unwrap(), "echo x y");
    assert_eq!(
        replace_placeholder("echo {a} {b}", strings(&["x"])),
        Err(RunError::InsufficientArguments { needed: 2, given: 1 })
    );
}

#[test]
fn repeated_placeholder_binds_once() {
    assert_eq!(replace_placeholder("echo {a} {a}", strings(&["z"])).unwrap(), "echo z z");
}

#[test]
fn extra_arguments_are_ignored() {
    assert_eq!(replace_placeholder("cd {dir}", strings(&["/tmp", "extra"])).unwrap(), "cd /tmp");
}

#[test]
fn order_follows_first_occurrence() {
    assert_eq!(
        replace_placeholder("{b}-{a}-{b}-{_c9}", strings(&["1", "2", "3"])).unwrap(),
        "1-2-1-3"
    );
    assert_eq!(find_placeholders("x {b} {a} {b} {{c}}"), strings(&["{b}", "{a}", "{c}"]));
}

#[test]
fn arguments_are_not_substituted_again() {
    assert_eq!(replace_placeholder("echo {a} {b}", strings(&["{b}", "y"])).unwrap(), "echo {b} y");
}

#[test]
fn shell_outcome_is_read() {
    assert_eq!(finish_run(ShellStatus::Exited(0), "out\n".to_string(), String::new()), Ok(Some("out\n".to_string())));
    assert_eq!(finish_run(ShellStatus::Exited(0), String::new(), "warn".to_string()), Ok(None));
    assert_eq!(
        finish_run(ShellStatus::Exited(2), "x".to_string(), "bad".to_string()),
        Err(RunError::ShellFailure { status: ShellStatus::Exited(2), stderr: "bad".to_string() })
    );
    assert_eq!(
        finish_run(ShellStatus::Signaled(9), String::new(), String::new()),
        Err(RunError::ShellFailure { status: ShellStatus::Signaled(9), stderr: String::new() })
    );
}
