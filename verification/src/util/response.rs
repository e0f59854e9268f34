//! Canned responses: a command name keyed into the response table, gated by
//! the `response.`-prefixed permission for that name.

use vstd::prelude::*;
use vstd::string::StringExecFns;

use crate::commands::{result_view, CommandError, CommandErrorView};
use crate::config::{chain_ok, Config, ConfigView, Role, RoleView};
use crate::table::{assoc_get, lookup};
use crate::util::perms::{check_permission, has_perm};

verus! {

/// What `response` returns: the template bound to `command` when the caller
/// holds `response.<command>`, a permission denial when it does not, and
/// `NoCommand` when no canned response is bound at all.
pub open spec fn response_spec(
    c: ConfigView,
    role: RoleView,
    command: Seq<char>,
) -> Result<Seq<char>, CommandErrorView> {
    match lookup(c.responses, command) {
        Some(template) => {
            if has_perm(c, "response."@ + command, role, c.roles.len() as nat) {
                Ok(template)
            } else {
                Err(CommandErrorView::NoPerms)
            }
        },
        None => Err(CommandErrorView::NoCommand),
    }
}

/// Looks `command` up among the canned responses and checks the caller's
/// `response.<command>` permission.
pub fn response(config: &Config, role: &Role, command: String) -> (r: Result<String, CommandError>)
    requires
        chain_ok(config@.roles, role@, config@.roles.len() as nat),
    ensures
        result_view(r) == response_spec(config@, role@, command@),
{
    match assoc_get(&config.responses, &command) {
        Some(template) => {
            let mut perm = String::new();
            perm.append("response.");
            perm.append(command.as_str());
            if check_permission(config, perm, role) {
                Ok(template.clone())
            } else {
                Err(CommandError::NoPerms)
            }
        },
        None => Err(CommandError::NoCommand),
    }
}

} // verus!
