use vstd::prelude::*;

verus! {

/// One stored command: the template, the alias it runs under, a description
/// and the service it is grouped with.
#[derive(Debug)]
pub struct Command {
    pub id: i64,
    pub command: String,
    pub alias: String,
    pub info: String,
    pub service: String,
}

/// What a `Command` holds, as mathematical values.
pub struct CommandView {
    pub id: int,
    pub command: Seq<char>,
    pub alias: Seq<char>,
    pub info: Seq<char>,
    pub service: Seq<char>,
}

impl View for Command {
    type V = CommandView;

    open spec fn view(&self) -> CommandView {
        CommandView {
            id: self.id as int,
            command: self.command@,
            alias: self.alias@,
            info: self.info@,
            service: self.service@,
        }
    }
}

impl Command {
    /// A field-by-field copy.
    pub fn duplicate(&self) -> (r: Command)
        ensures
            r@ == self@,
    {
        Command {
            id: self.id,
            command: self.command.clone(),
            alias: self.alias.clone(),
            info: self.info.clone(),
            service: self.service.clone(),
        }
    }
}

} // verus!
