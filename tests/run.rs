use smriti::args::{AddCommand, RunCommand, ShowCommand, UpdateCommand, ViewCommand, ViewReply};
use smriti::queries::{insert_command, ListField, Store, StoreError};
use smriti::shell_executor::{finish_run, prepare_run, RunError, ShellStatus};
use subprocess::{Exec, ExitStatus, Redirection};

fn shell_status(s: ExitStatus) -> ShellStatus {
    match s {
        ExitStatus::Exited(c) => ShellStatus::Exited(c),
        ExitStatus::Signaled(n) => ShellStatus::Signaled(n),
        ExitStatus::Other(n) => ShellStatus::Other(n),
        ExitStatus::Undetermined => ShellStatus::Undetermined,
    }
}

#[test]
fn greet_runs_end_to_end() {
    let mut store = Store::new();
    insert_command(&mut store, "echo hello {name}", "greet", "", "demo").unwrap();
    let line = prepare_run(&store, "greet", vec!["world".to_string()]).unwrap();
    assert_eq!(line, "echo hello world");
    let out = Exec::shell(line)
        .stdout(Redirection::Pipe)
        .stderr(Redirection::Pipe)
        .capture()
        .unwrap();
    let outcome = finish_run(shell_status(out.exit_status), out.stdout_str(), out.stderr_str());
    assert_eq!(outcome, Ok(Some("hello world\n".to_string())));
}

#[test]
fn unknown_alias_is_not_run() {
    let store = Store::new();
    assert_eq!(prepare_run(&store, "nope", vec![]), Err(RunError::AliasNotFound));
}

#[test]
fn failing_command_reports_status() {
    let out = Exec::shell("echo oops >&2; exit 3")
        .stdout(Redirection::Pipe)
        .stderr(Redirection::Pipe)
        .capture()
        .unwrap();
    let outcome = finish_run(shell_status(out.exit_status), out.stdout_str(), out.stderr_str());
    assert_eq!(
        outcome,
        Err(RunError::ShellFailure { status: ShellStatus::Exited(3), stderr: "oops\n".to_string() })
    );
}

#[test]
fn subcommands_drive_the_store() {
    let mut store = Store::new();
    let add = AddCommand {
        command: "echo {x}".to_string(),
        alias: "e".to_string(),
        info: None,
        service: "misc".to_string(),
    };
    let rec = add.apply(&mut store).unwrap();
    assert_eq!(rec.id, 1);
    assert_eq!(rec.info, "");
    assert_eq!(add.apply(&mut store).unwrap_err(), StoreError::Duplicate(smriti::queries::UniqueField::Alias));

    let upd = UpdateCommand {
        command: None,
        alias: "e".to_string(),
        info: Some("prints".to_string()),
        service: Some("tools".to_string()),
    };
    let rep = upd.apply(&mut store);
    assert!(rep.command.is_none());
    assert_eq!(rep.service.unwrap().unwrap().service, "tools");
    let after = rep.info.unwrap().unwrap();
    assert_eq!(after.info, "prints");
    assert_eq!(after.service, "tools");

    let show = ShowCommand { alias: Some("e".to_string()), service: Some("tools".to_string()) };
    let found = show.apply(&store);
    assert_eq!(found.alias.unwrap().unwrap().command, "echo {x}");
    assert_eq!(found.service.unwrap().len(), 1);

    match (ViewCommand { all: false, alias: true, service: true }).apply(&store) {
        ViewReply::Column(ListField::Alias, v) => assert_eq!(v, vec!["e".to_string()]),
        _ => panic!("expected the alias column"),
    }

    let run = RunCommand { alias: "e".to_string(), variables: vec![] };
    assert_eq!(run.apply(&store), Err(RunError::InsufficientArguments { needed: 1, given: 0 }));
    let run = RunCommand { alias: "e".to_string(), variables: vec!["hi".to_string()] };
    assert_eq!(run.apply(&store).unwrap(), "echo hi");
}
