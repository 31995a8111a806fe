//! The subcommands a user can give, with their fields, and what each one does
//! to the store.
use vstd::prelude::*;
use crate::models::{Command, CommandView};
use crate::queries::{
    ListField, Store, StoreError, StoreView, UpdateField, alias_pos, column, has_alias, in_service,
    insert_error, inserted, rename_error, renamed, update_error, updated, views, without,
    delete_by_alias, delete_by_service, display_by_type, display_commands, insert_command,
    rename_alias, retrieve_command_by_alias, retrieve_commands_by_service, update_field,
};
use crate::shell_executor::{RunError, prepare_run};
use crate::laws::{lemma_insert_then_retrieve, lemma_rename_keeps_record};

verus! {

/// A parsed command line.
pub struct SmritiCli {
    pub command: CliArgs,
}

/// The subcommand chosen.
pub enum CliArgs {
    /// Execute a saved command.
    Run(RunCommand),
    /// Add a new command to the saved list.
    Add(AddCommand),
    /// Remove an existing command, or every command of a service.
    Delete(DeleteCommand),
    /// Modify an existing command, its description or its service.
    Update(UpdateCommand),
    /// List all saved commands, aliases or services.
    View(ViewCommand),
    /// Find the command of an alias, or the commands of a service.
    Show(ShowCommand),
    /// Give a saved command another alias.
    Rename(RenameCommand),
}

pub struct RunCommand {
    pub alias: String,
    pub variables: Vec<String>,
}

pub struct AddCommand {
    pub command: String,
    pub alias: String,
    pub info: Option<String>,
    pub service: String,
}

pub struct DeleteCommand {
    pub alias: Option<String>,
    pub service: Option<String>,
}

pub struct UpdateCommand {
    pub command: Option<String>,
    pub alias: String,
    pub info: Option<String>,
    pub service: Option<String>,
}

pub struct ViewCommand {
    pub all: bool,
    pub alias: bool,
    pub service: bool,
}

pub struct ShowCommand {
    pub alias: Option<String>,
    pub service: Option<String>,
}

pub struct RenameCommand {
    pub alias: String,
    pub new_alias: String,
}

/// What a view hands back.
pub enum ViewReply {
    /// Every record.
    All(Vec<Command>),
    /// One column of every record.
    Column(ListField, Vec<String>),
    /// No listing was asked for.
    Nothing,
}

/// What a delete did: the result of deleting by alias, if asked, and whether
/// a service was cleared.
pub struct DeleteReport {
    pub alias: Option<Result<(), StoreError>>,
    pub service: bool,
}

/// For each field an update asked for, the record after the change or why
/// it was refused.
pub struct UpdateReport {
    pub command: Option<Result<Command, StoreError>>,
    pub service: Option<Result<Command, StoreError>>,
    pub info: Option<Result<Command, StoreError>>,
}

/// What a lookup found: the record of the alias and the records of the
/// service, each if asked.
pub struct ShowReport {
    pub alias: Option<Result<Command, StoreError>>,
    pub service: Option<Vec<Command>>,
}

/// An optional string, as an optional character sequence.
pub open spec fn opt_view(o: Option<String>) -> Option<Seq<char>> {
    match o {
        Some(s) => Some(s@),
        None => None,
    }
}

/// The store after setting `field` to `value`, when a value is given and the
/// change is allowed.
pub open spec fn after_update(st: StoreView, a: Seq<char>, field: UpdateField, value: Option<Seq<char>>) -> StoreView {
    match value {
        Some(v) => if update_error(st.records, a, field, v) is None {
            StoreView { records: updated(st.records, a, field, v), ..st }
        } else {
            st
        },
        None => st,
    }
}

/// What one requested field change reports, against the store before it.
pub open spec fn update_reported(
    st: StoreView,
    a: Seq<char>,
    field: UpdateField,
    value: Option<Seq<char>>,
    r: Option<Result<Command, StoreError>>,
) -> bool {
    match value {
        None => r is None,
        Some(v) => match update_error(st.records, a, field, v) {
            Some(e) => r == Some(Err::<Command, StoreError>(e)),
            None => {
                let after = updated(st.records, a, field, v);
                r matches Some(Ok(c)) && c@ == after[alias_pos(after, a)]
            },
        },
    }
}

/// The store after deleting by alias, when asked and the alias exists.
pub open spec fn after_alias_delete(st: StoreView, a: Option<Seq<char>>) -> StoreView {
    match a {
        Some(x) => if has_alias(st.records, x) {
            StoreView { records: without(st.records, ListField::Alias, x), ..st }
        } else {
            st
        },
        None => st,
    }
}

/// The store after deleting a service, when asked.
pub open spec fn after_service_delete(st: StoreView, s: Option<Seq<char>>) -> StoreView {
    match s {
        Some(x) => StoreView { records: without(st.records, ListField::Service, x), ..st },
        None => st,
    }
}

/// Sets one field, when a value is given, and reads the record back.
fn update_one(store: &mut Store, alias: &str, field: UpdateField, value: &Option<String>) -> (r: Option<Result<Command, StoreError>>)
    requires
        old(store).wf(),
    ensures
        final(store).wf(),
        final(store)@ == after_update(old(store)@, alias@, field, opt_view(*value)),
        update_reported(old(store)@, alias@, field, opt_view(*value), r),
{
    match value {
        None => None,
        Some(v) => {
            let ghost rs = store@.records;
            match update_field(store, alias, field, v.as_str()) {
                Err(e) => Some(Err(e)),
                Ok(()) => {
                    proof {
                        let i = alias_pos(rs, alias@);
                        let after = store@.records;
                        assert(0 <= i < rs.len() && rs[i].alias == alias@);
                        assert(after[i].alias == alias@);
                        let p = alias_pos(after, alias@);
                        if p != i {
                            assert(rs[p].alias == alias@);
                            if p < i {
                                assert(rs[p].alias != rs[i].alias);
                            } else {
                                assert(rs[i].alias != rs[p].alias);
                            }
                        }
                    }
                    match retrieve_command_by_alias(store, alias) {
                        Ok(c) => Some(Ok(c)),
                        Err(e) => Some(Err(e)),
                    }
                },
            }
        },
    }
}

impl RunCommand {
    /// The command line to run: the template of the alias with the
    /// variables filled in.
    pub fn apply(self, store: &Store) -> (r: Result<String, RunError>)
        requires
            store.wf(),
        ensures
            ({
                let rs = store@.records;
                let t = rs[alias_pos(rs, self.alias@)].command;
                let n = crate::template::placeholders(t).len();
                &&& !has_alias(rs, self.alias@) ==> r == Err::<String, RunError>(RunError::AliasNotFound)
                &&& has_alias(rs, self.alias@) && n > self.variables@.len() ==> r == Err::<String, RunError>(
                    RunError::InsufficientArguments { needed: n as usize, given: self.variables@.len() as usize },
                )
                &&& has_alias(rs, self.alias@) && n <= self.variables@.len() ==> (r matches Ok(c)
                    && c@ == crate::template::substitute(t, crate::queries::string_views(self.variables@)))
            }),
    {
        prepare_run(store, self.alias.as_str(), self.variables)
    }
}

impl AddCommand {
    /// Saves the command, with an empty description when none is given, and
    /// reads the new record back.
    pub fn apply(&self, store: &mut Store) -> (r: Result<Command, StoreError>)
        requires
            old(store).wf(),
        ensures
            final(store).wf(),
            insert_error(old(store)@, self.command@, self.alias@) matches Some(e)
                ==> r == Err::<Command, StoreError>(e) && final(store)@ == old(store)@,
            insert_error(old(store)@, self.command@, self.alias@) is None ==> (r matches Ok(c) && final(store)@ == (StoreView {
                records: inserted(
                    old(store)@,
                    self.command@,
                    self.alias@,
                    match self.info {
                        Some(i) => i@,
                        None => Seq::<char>::empty(),
                    },
                    self.service@,
                ),
                last_id: old(store)@.last_id + 1,
            }) && c@ == final(store)@.records.last()),
    {
        let ghost before = store@;
        let empty = String::new();
        let info = match &self.info {
            Some(i) => i,
            None => &empty,
        };
        match insert_command(store, self.command.as_str(), self.alias.as_str(), info.as_str(), self.service.as_str()) {
            Err(e) => Err(e),
            Ok(()) => {
                proof {
                    lemma_insert_then_retrieve(before, self.command@, self.alias@, info@, self.service@);
                }
                retrieve_command_by_alias(store, self.alias.as_str())
            },
        }
    }
}

impl DeleteCommand {
    /// Deletes by alias, then by service, as asked.
    pub fn apply(&self, store: &mut Store) -> (r: DeleteReport)
        requires
            old(store).wf(),
        ensures
            final(store).wf(),
            final(store)@ == after_service_delete(
                after_alias_delete(old(store)@, opt_view(self.alias)),
                opt_view(self.service),
            ),
            self.alias is None ==> r.alias is None,
            self.alias matches Some(a) ==> r.alias == Some(
                if has_alias(old(store)@.records, a@) {
                    Ok::<(), StoreError>(())
                } else {
                    Err(StoreError::NotFound)
                },
            ),
            r.service == self.service is Some,
    {
        let alias = match &self.alias {
            Some(a) => Some(delete_by_alias(store, a.as_str())),
            None => None,
        };
        let service = match &self.service {
            Some(s) => {
                delete_by_service(store, s.as_str());
                true
            },
            None => false,
        };
        DeleteReport { alias, service }
    }
}

impl UpdateCommand {
    /// Sets the command, then the service, then the description, as asked,
    /// reading the record back after each change.
    pub fn apply(&self, store: &mut Store) -> (r: UpdateReport)
        requires
            old(store).wf(),
        ensures
            final(store).wf(),
            ({
                let a = self.alias@;
                let s1 = after_update(old(store)@, a, UpdateField::Command, opt_view(self.command));
                let s2 = after_update(s1, a, UpdateField::Service, opt_view(self.service));
                &&& final(store)@ == after_update(s2, a, UpdateField::Info, opt_view(self.info))
                &&& update_reported(old(store)@, a, UpdateField::Command, opt_view(self.command), r.command)
                &&& update_reported(s1, a, UpdateField::Service, opt_view(self.service), r.service)
                &&& update_reported(s2, a, UpdateField::Info, opt_view(self.info), r.info)
            }),
    {
        let alias = self.alias.as_str();
        let command = update_one(store, alias, UpdateField::Command, &self.command);
        let service = update_one(store, alias, UpdateField::Service, &self.service);
        let info = update_one(store, alias, UpdateField::Info, &self.info);
        UpdateReport { command, service, info }
    }
}

impl ViewCommand {
    /// Lists every record, or the aliases, or the services: the first that
    /// is asked for.
    pub fn apply(&self, store: &Store) -> (r: ViewReply)
        ensures
            self.all ==> (r matches ViewReply::All(v) && views(v@) == store@.records),
            !self.all && self.alias ==> (r matches ViewReply::Column(f, v) && f == ListField::Alias
                && crate::queries::string_views(v@) == column(store@.records, ListField::Alias)),
            !self.all && !self.alias && self.service ==> (r matches ViewReply::Column(f, v) && f == ListField::Service
                && crate::queries::string_views(v@) == column(store@.records, ListField::Service)),
            !self.all && !self.alias && !self.service ==> r is Nothing,
    {
        if self.all {
            ViewReply::All(display_commands(store))
        } else if self.alias {
            ViewReply::Column(ListField::Alias, display_by_type(store, ListField::Alias))
        } else if self.service {
            ViewReply::Column(ListField::Service, display_by_type(store, ListField::Service))
        } else {
            ViewReply::Nothing
        }
    }
}

impl ShowCommand {
    /// Looks up the alias and the service, as asked.
    pub fn apply(&self, store: &Store) -> (r: ShowReport)
        requires
            store.wf(),
        ensures
            self.alias is None ==> r.alias is None,
            self.alias matches Some(a) ==> (r.alias matches Some(x) && (x is Ok <==> has_alias(store@.records, a@))
                && (x matches Ok(c) ==> c@ == store@.records[alias_pos(store@.records, a@)])
                && (x matches Err(e) ==> e == StoreError::NotFound)),
            self.service is None ==> r.service is None,
            self.service matches Some(s) ==> (r.service matches Some(v) && views(v@) == in_service(store@.records, s@)),
    {
        let alias = match &self.alias {
            Some(a) => Some(retrieve_command_by_alias(store, a.as_str())),
            None => None,
        };
        let service = match &self.service {
            Some(s) => Some(retrieve_commands_by_service(store, s.as_str())),
            None => None,
        };
        ShowReport { alias, service }
    }
}

impl RenameCommand {
    /// Renames the alias and reads the record back under its new alias.
    pub fn apply(&self, store: &mut Store) -> (r: Result<Command, StoreError>)
        requires
            old(store).wf(),
        ensures
            final(store).wf(),
            rename_error(old(store)@.records, self.alias@, self.new_alias@) matches Some(e)
                ==> r == Err::<Command, StoreError>(e) && final(store)@ == old(store)@,
            rename_error(old(store)@.records, self.alias@, self.new_alias@) is None ==> (r matches Ok(c)
                && final(store)@ == (StoreView {
                    records: renamed(old(store)@.records, self.alias@, self.new_alias@),
                    last_id: old(store)@.last_id,
                })
                && c@ == (CommandView {
                    alias: self.new_alias@,
                    ..old(store)@.records[alias_pos(old(store)@.records, self.alias@)]
                })),
    {
        let ghost before = store@;
        match rename_alias(store, self.alias.as_str(), self.new_alias.as_str()) {
            Err(e) => Err(e),
            Ok(()) => {
                proof {
                    if self.alias@ != self.new_alias@ {
                        lemma_rename_keeps_record(before.records, before.last_id, self.alias@, self.new_alias@);
                    } else {
                        let rs = before.records;
                        let i = alias_pos(rs, self.alias@);
                        let after = store@.records;
                        assert(0 <= i < rs.len() && rs[i].alias == self.alias@);
                        assert(after[i].alias == self.alias@);
                        let p = alias_pos(after, self.alias@);
                        if p != i {
                            assert(rs[p].alias == self.alias@);
                            if p < i {
                                assert(rs[p].alias != rs[i].alias);
                            } else {
                                assert(rs[i].alias != rs[p].alias);
                            }
                        }
                    }
                }
                retrieve_command_by_alias(store, self.new_alias.as_str())
            },
        }
    }
}

} // verus!
