use smriti::args::{CliArgs, DeleteCommand, RenameCommand};
use smriti::models::Command;
use smriti::queries::{
    delete_by_alias, delete_by_service, display_by_type, display_commands, from_records, insert_command,
    rename_alias, retrieve_command, retrieve_command_by_alias, retrieve_commands_by_service,
    update_command_by_alias, update_info_by_alias, update_service_by_alias, ListField, Store, StoreError,
    UniqueField,
};

const ALIAS: &str = "init_alias";
const NEW_ALIAS: &str = "new_alias";
const COMMAND: &str = "echo hello";
const SERVICE: &str = "test_service";
const INFO: &str = "test_info";

fn record(id: i64, command: &str, alias: &str, info: &str, service: &str) -> Command {
    Command {
        id,
        command: command.to_string(),
        alias: alias.to_string(),
        info: info.to_string(),
        service: service.to_string(),
    }
}

#[test]
fn test_rename_alias() {
    let mut store = Store::new();

    let matches = CliArgs::Rename(RenameCommand { alias: ALIAS.to_string(), new_alias: NEW_ALIAS.to_string() });
    if let CliArgs::Rename(rename) = matches {
        assert_eq!(rename.alias, ALIAS);
        assert_eq!(rename.new_alias, NEW_ALIAS);
    } else {
        panic!("Expected Rename command");
    }

    insert_command(&mut store, COMMAND, ALIAS, INFO, SERVICE).unwrap();
    rename_alias(&mut store, ALIAS, NEW_ALIAS).unwrap();
    let retrieved_command = retrieve_command_by_alias(&store, NEW_ALIAS).unwrap();
    assert_eq!(retrieved_command.alias, NEW_ALIAS);
}

#[test]
fn test_delete_by_alias() {
    let mut store = Store::new();
    insert_command(&mut store, COMMAND, ALIAS, INFO, SERVICE).unwrap();

    let matches = CliArgs::Delete(DeleteCommand { alias: Some(ALIAS.to_string()), service: None });
    if let CliArgs::Delete(_delete) = matches {
        delete_by_alias(&mut store, ALIAS).unwrap();
        let result = retrieve_command_by_alias(&store, ALIAS);
        assert!(result.is_err(), "Command should be deleted and not retrievable");
    } else {
        panic!("Expected Delete command");
    }
}

#[test]
fn test_delete_by_service() {
    let mut store = Store::new();
    insert_command(&mut store, COMMAND, ALIAS, INFO, SERVICE).unwrap();

    let matches = CliArgs::Delete(DeleteCommand { alias: None, service: Some(SERVICE.to_string()) });
    if let CliArgs::Delete(_delete) = matches {
        delete_by_service(&mut store, SERVICE);
        let result = retrieve_commands_by_service(&store, SERVICE);
        assert!(result.is_empty(), "Commands should be deleted and not retrievable, but found some");
    } else {
        panic!("Expected Delete command");
    }
}

#[test]
fn insert_then_retrieve_gives_command() {
    let mut store = Store::new();
    insert_command(&mut store, "ls -la", "ll", "", "fs").unwrap();
    insert_command(&mut store, "git status", "gs", "status", "git").unwrap();
    assert_eq!(retrieve_command(&store, "ll").unwrap(), "ls -la");
    assert_eq!(retrieve_command(&store, "gs").unwrap(), "git status");
    let r = retrieve_command_by_alias(&store, "gs").unwrap();
    assert_eq!(r.id, 2);
    assert_eq!(r.info, "status");
    assert_eq!(r.service, "git");
}

#[test]
fn duplicate_alias_or_command_is_refused() {
    let mut store = Store::new();
    insert_command(&mut store, "ls", "l", "", "fs").unwrap();
    assert_eq!(
        insert_command(&mut store, "pwd", "l", "", "fs"),
        Err(StoreError::Duplicate(UniqueField::Alias))
    );
    assert_eq!(
        insert_command(&mut store, "ls", "other", "", "fs"),
        Err(StoreError::Duplicate(UniqueField::Command))
    );
    assert_eq!(display_commands(&store).len(), 1);
    assert_eq!(retrieve_command(&store, "other"), Err(StoreError::NotFound));
}

#[test]
fn rename_keeps_record_and_frees_old_alias() {
    let mut store = Store::new();
    insert_command(&mut store, "make build", "b", "build it", "make").unwrap();
    insert_command(&mut store, "make test", "t", "", "make").unwrap();
    let before = retrieve_command_by_alias(&store, "b").unwrap();
    rename_alias(&mut store, "b", "build").unwrap();
    let after = retrieve_command_by_alias(&store, "build").unwrap();
    assert_eq!(after.id, before.id);
    assert_eq!(after.command, before.command);
    assert_eq!(after.info, before.info);
    assert_eq!(after.service, before.service);
    assert_eq!(retrieve_command_by_alias(&store, "b").unwrap_err(), StoreError::NotFound);
}

#[test]
fn rename_refusals() {
    let mut store = Store::new();
    insert_command(&mut store, "a", "x", "", "s").unwrap();
    insert_command(&mut store, "b", "y", "", "s").unwrap();
    assert_eq!(rename_alias(&mut store, "z", "w"), Err(StoreError::NotFound));
    assert_eq!(rename_alias(&mut store, "x", "y"), Err(StoreError::Duplicate(UniqueField::Alias)));
    assert_eq!(rename_alias(&mut store, "x", "x"), Ok(()));
    assert_eq!(retrieve_command(&store, "x").unwrap(), "a");
}

#[test]
fn delete_by_alias_then_lookup_fails() {
    let mut store = Store::new();
    insert_command(&mut store, "ls", "l", "", "fs").unwrap();
    insert_command(&mut store, "pwd", "p", "", "fs").unwrap();
    assert_eq!(delete_by_alias(&mut store, "l"), Ok(()));
    assert_eq!(retrieve_command(&store, "l"), Err(StoreError::NotFound));
    assert_eq!(retrieve_command(&store, "p").unwrap(), "pwd");
    assert_eq!(delete_by_alias(&mut store, "l"), Err(StoreError::NotFound));
}

#[test]
fn delete_by_service_removes_only_that_service() {
    let mut store = Store::new();
    insert_command(&mut store, "docker ps", "dps", "", "docker").unwrap();
    insert_command(&mut store, "git log", "gl", "", "git").unwrap();
    insert_command(&mut store, "docker images", "di", "", "docker").unwrap();
    delete_by_service(&mut store, "docker");
    let left = display_commands(&store);
    assert_eq!(left.len(), 1);
    assert_eq!(left[0].alias, "gl");
    delete_by_service(&mut store, "nothing");
    assert_eq!(display_commands(&store).len(), 1);
}

#[test]
fn ids_keep_growing_after_delete() {
    let mut store = Store::new();
    insert_command(&mut store, "a", "a", "", "s").unwrap();
    insert_command(&mut store, "b", "b", "", "s").unwrap();
    delete_by_alias(&mut store, "b").unwrap();
    insert_command(&mut store, "c", "c", "", "s").unwrap();
    assert_eq!(retrieve_command_by_alias(&store, "c").unwrap().id, 3);
}

#[test]
fn updates_change_one_field() {
    let mut store = Store::new();
    insert_command(&mut store, "ls", "l", "list", "fs").unwrap();
    insert_command(&mut store, "pwd", "p", "", "fs").unwrap();
    update_command_by_alias(&mut store, "l", "ls -la").unwrap();
    update_info_by_alias(&mut store, "l", "long list").unwrap();
    update_service_by_alias(&mut store, "l", "files").unwrap();
    let r = retrieve_command_by_alias(&store, "l").unwrap();
    assert_eq!(r.id, 1);
    assert_eq!(r.command, "ls -la");
    assert_eq!(r.info, "long list");
    assert_eq!(r.service, "files");
    assert_eq!(update_info_by_alias(&mut store, "zz", "x"), Err(StoreError::NotFound));
    assert_eq!(
        update_command_by_alias(&mut store, "l", "pwd"),
        Err(StoreError::Duplicate(UniqueField::Command))
    );
    assert_eq!(update_command_by_alias(&mut store, "l", "ls -la"), Ok(()));
    assert_eq!(retrieve_command(&store, "l").unwrap(), "ls -la");
}

#[test]
fn listing_by_column_and_service() {
    let mut store = Store::new();
    insert_command(&mut store, "a1", "a", "", "one").unwrap();
    insert_command(&mut store, "b1", "b", "", "two").unwrap();
    insert_command(&mut store, "c1", "c", "", "one").unwrap();
    assert_eq!(display_by_type(&store, ListField::Alias), vec!["a", "b", "c"]);
    assert_eq!(display_by_type(&store, ListField::Service), vec!["one", "two", "one"]);
    let one: Vec<String> = retrieve_commands_by_service(&store, "one").into_iter().map(|c| c.alias).collect();
    assert_eq!(one, vec!["a", "c"]);
    assert!(retrieve_commands_by_service(&store, "three").is_empty());
}

#[test]
fn loading_rows_checks_the_table() {
    let store = from_records(vec![record(3, "a", "x", "", "s"), record(7, "b", "y", "", "s")]).unwrap();
    assert_eq!(retrieve_command(&store, "y").unwrap(), "b");
    assert!(from_records(vec![record(3, "a", "x", "", "s"), record(7, "b", "x", "", "s")]).is_none());
    assert!(from_records(vec![record(3, "a", "x", "", "s"), record(7, "a", "y", "", "s")]).is_none());
    assert!(from_records(vec![record(7, "a", "x", "", "s"), record(3, "b", "y", "", "s")]).is_none());
    assert!(from_records(Vec::new()).is_some());
}

#[test]
fn next_id_follows_loaded_rows() {
    let mut store = from_records(vec![record(41, "a", "x", "", "s")]).unwrap();
    insert_command(&mut store, "b", "y", "", "s").unwrap();
    assert_eq!(retrieve_command_by_alias(&store, "y").unwrap().id, 42);
}

#[test]
fn ids_exhausted_is_reported() {
    let mut store = from_records(vec![record(i64::MAX, "a", "x", "", "s")]).unwrap();
    assert_eq!(insert_command(&mut store, "b", "y", "", "s"), Err(StoreError::IdsExhausted));
    assert_eq!(display_commands(&store).len(), 1);
}
