//! A forced regex check: runs the auto-reply scan on demand, even for
//! callers whose role would bypass it on plain text.

use vstd::prelude::*;

use crate::commands::{Command, CommandError, CommandErrorView};
use crate::config::{Config, ConfigView, Role, RoleView};
use crate::util::perms::{check_permission, has_perm};
use crate::util::regexresponse::{regexresponse, regexresponse_spec};

verus! {

pub struct RegexCommand;

impl Command for RegexCommand {
    open spec fn name_spec(&self) -> Seq<char> {
        "regex"@
    }

    open spec fn usage_spec(&self) -> Seq<char> {
        "<sentence>"@
    }

    open spec fn execute_ensures(
        &self,
        config: ConfigView,
        role: RoleView,
        input: Seq<char>,
        r: Result<Seq<char>, CommandErrorView>,
    ) -> bool {
        if has_perm(config, "cmd.regex"@, role, config.roles.len() as nat) {
            match regexresponse_spec(config.regex_responses, input) {
                Some(p) => r == Ok::<Seq<char>, CommandErrorView>(p.0),
                None => r == Ok::<Seq<char>, CommandErrorView>("No match!"@),
            }
        } else {
            r == Err::<Seq<char>, CommandErrorView>(CommandErrorView::NoPerms)
        }
    }

    fn name(&self) -> (r: &'static str) {
        "regex"
    }

    fn usage(&self) -> (r: &'static str) {
        "<sentence>"
    }

    fn about(&self) -> &'static str {
        "Forces a check for a regex match, even if the user bypasses regex"
    }

    fn execute(&self, config: &Config, role: &Role, input: &String) -> (r: Result<
        String,
        CommandError,
    >) {
        if check_permission(config, "cmd.regex".to_owned(), role) {
            match regexresponse(config, input.clone()) {
                Some(found) => Ok(found.0),
                None => Ok("No match!".to_owned()),
            }
        } else {
            Err(CommandError::NoPerms)
        }
    }
}

} // verus!
