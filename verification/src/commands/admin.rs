//! Administrative commands.

use vstd::prelude::*;

use crate::commands::{Command, CommandError, CommandErrorView};
use crate::config::{Config, ConfigView, Role, RoleView};
use crate::util::perms::{check_permission, has_perm};

verus! {

/// Asks for the configuration snapshot to be reloaded. The command itself
/// only decides: it confirms when the caller holds `admin.reload` and denies
/// otherwise. The process embedding the engine reads the file and installs
/// the new snapshot when it sees the confirmation.
pub struct ReloadCommand;

impl Command for ReloadCommand {
    open spec fn name_spec(&self) -> Seq<char> {
        "reload"@
    }

    open spec fn usage_spec(&self) -> Seq<char> {
        "N/A"@
    }

    open spec fn execute_ensures(
        &self,
        config: ConfigView,
        role: RoleView,
        input: Seq<char>,
        r: Result<Seq<char>, CommandErrorView>,
    ) -> bool {
        if has_perm(config, "admin.reload"@, role, config.roles.len() as nat) {
            r == Ok::<Seq<char>, CommandErrorView>("Config reloaded!"@)
        } else {
            r == Err::<Seq<char>, CommandErrorView>(CommandErrorView::NoPerms)
        }
    }

    fn name(&self) -> (r: &'static str) {
        "reload"
    }

    fn usage(&self) -> (r: &'static str) {
        "N/A"
    }

    fn about(&self) -> &'static str {
        "Reloads the bot's config file"
    }

    fn execute(&self, config: &Config, role: &Role, input: &String) -> (r: Result<
        String,
        CommandError,
    >) {
        if check_permission(config, "admin.reload".to_owned(), role) {
            Ok("Config reloaded!".to_owned())
        } else {
            Err(CommandError::NoPerms)
        }
    }
}

} // verus!
