//! Utility commands: the common error taxonomy and the capability interface
//! every registered command exposes to the dispatch engine.

pub mod admin;
pub mod command;
pub mod regex;
pub mod minecraft;
pub mod temperature;
pub mod timezone;

use vstd::prelude::*;

use crate::config::{chain_ok, Config, ConfigView, Role, RoleView};

verus! {

/// Why a command produced no normal reply. `BadUsage` is semantically out of
/// range input, `InvalidSyntax` is unparseable input, `NoPerms` is a denied
/// permission, and `NoCommand` marks a name with no canned response so that
/// dispatch falls through to the command registry.
#[derive(Debug)]
pub enum CommandError {
    BadUsage(String),
    InvalidSyntax(String),
    NoPerms,
    NoCommand,
}

pub ghost enum CommandErrorView {
    BadUsage(Seq<char>),
    InvalidSyntax(Seq<char>),
    NoPerms,
    NoCommand,
}

impl View for CommandError {
    type V = CommandErrorView;

    open spec fn view(&self) -> CommandErrorView {
        match self {
            CommandError::BadUsage(s) => CommandErrorView::BadUsage(s@),
            CommandError::InvalidSyntax(s) => CommandErrorView::InvalidSyntax(s@),
            CommandError::NoPerms => CommandErrorView::NoPerms,
            CommandError::NoCommand => CommandErrorView::NoCommand,
        }
    }
}

impl CommandError {
    /// Short description of the error class.
    pub fn text(&self) -> (r: &'static str)
        ensures
            self@ is BadUsage ==> r@ == "Bad usage"@,
            self@ is InvalidSyntax ==> r@ == "Invalid syntax"@,
            self@ is NoPerms ==> r@ == "No permission"@,
            self@ is NoCommand ==> r@ == "No such command"@,
    {
        match self {
            CommandError::BadUsage(_) => "Bad usage",
            CommandError::InvalidSyntax(_) => "Invalid syntax",
            CommandError::NoPerms => "No permission",
            CommandError::NoCommand => "No such command",
        }
    }
}

/// The view of a command's result: reply text on success, an error view
/// otherwise.
pub open spec fn result_view(r: Result<String, CommandError>) -> Result<Seq<char>, CommandErrorView> {
    match r {
        Ok(s) => Ok(s@),
        Err(e) => Err(e@),
    }
}

/// The capability set of one utility command: identity, usage strings, and
/// an executable body that re-checks its own fine-grained permission.
pub trait Command {
    /// The command's name as a specification value.
    spec fn name_spec(&self) -> Seq<char>;

    /// The command's usage line as a specification value.
    spec fn usage_spec(&self) -> Seq<char>;

    /// What `execute` promises about its result.
    spec fn execute_ensures(
        &self,
        config: ConfigView,
        role: RoleView,
        input: Seq<char>,
        r: Result<Seq<char>, CommandErrorView>,
    ) -> bool;

    fn name(&self) -> (r: &'static str)
        ensures
            r@ == self.name_spec(),
    ;

    fn usage(&self) -> (r: &'static str)
        ensures
            r@ == self.usage_spec(),
    ;

    fn about(&self) -> &'static str;

    fn execute(&self, config: &Config, role: &Role, input: &String) -> (r: Result<
        String,
        CommandError,
    >)
        requires
            crate::config::patterns_ok(config@),
            chain_ok(config@.roles, role@, config@.roles.len() as nat),
        ensures
            self.execute_ensures(config@, role@, input@, result_view(r)),
    ;
}

} // verus!
