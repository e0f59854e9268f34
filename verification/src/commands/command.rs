//! A trivial command kept around for exercising the dispatch path.

use vstd::prelude::*;

use crate::commands::{Command, CommandError, CommandErrorView};
use crate::config::{Config, ConfigView, Role, RoleView};

verus! {

/// Replies with a fixed marker, for any caller.
pub struct TestCommand;

impl Command for TestCommand {
    open spec fn name_spec(&self) -> Seq<char> {
        "test"@
    }

    open spec fn usage_spec(&self) -> Seq<char> {
        "N/A"@
    }

    open spec fn execute_ensures(
        &self,
        config: ConfigView,
        role: RoleView,
        input: Seq<char>,
        r: Result<Seq<char>, CommandErrorView>,
    ) -> bool {
        r == Ok::<Seq<char>, CommandErrorView>("Testing!!!"@)
    }

    fn name(&self) -> (r: &'static str) {
        "test"
    }

    fn usage(&self) -> (r: &'static str) {
        "N/A"
    }

    fn about(&self) -> &'static str {
        "Replies with a test message"
    }

    fn execute(&self, config: &Config, role: &Role, input: &String) -> (r: Result<
        String,
        CommandError,
    >) {
        Ok("Testing!!!".to_owned())
    }
}

} // verus!
