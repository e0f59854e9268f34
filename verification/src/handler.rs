//! The dispatch engine: one inbound message in, at most one reply and at
//! most one reaction signal out. A dispatch resolves the caller's role,
//! routes a prefixed message through alias resolution, the cooldown gate,
//! the canned responses and the command registry, and scans a plain message
//! against the auto-reply patterns under their own cooldown.

use vstd::prelude::*;

use crate::commands::admin::ReloadCommand;
use crate::commands::minecraft::{McItemsCommand, McShulkersCommand, McStacksCommand};
use crate::commands::regex::RegexCommand;
use crate::commands::temperature::TemperatureCommand;
use crate::commands::timezone::TimezoneCommand;
use crate::commands::{result_view, Command, CommandError, CommandErrorView};
use crate::config::{chain_ok, config_ok, patterns_ok, Config, ConfigView, Role, RoleView};
use crate::cooldown::{ready_spec, CooldownTracker};
use crate::table::{assoc_get, lemma_lookup_exists, lemma_lookup_found, lookup};
use crate::text::index_of;
use crate::util::regexresponse::{regex_match, try_is_match};

verus! {

/// The emoji signals a dispatch can emit: throttled, permission denied,
/// out-of-range input, unparseable input.
#[derive(Clone, Copy, PartialEq, Eq, Structural, Debug)]
pub enum Reaction {
    Hourglass,
    CrossMark,
    Anger,
    QuestionMark,
}

/// One inbound chat message, as the transport hands it over.
pub struct Message {
    pub author_is_webhook: bool,
    pub author_name: String,
    pub member_role_ids: Vec<u64>,
    pub content: String,
}

pub ghost struct MessageView {
    pub author_is_webhook: bool,
    pub author_name: Seq<char>,
    pub member_role_ids: Seq<u64>,
    pub content: Seq<char>,
}

impl View for Message {
    type V = MessageView;

    open spec fn view(&self) -> MessageView {
        MessageView {
            author_is_webhook: self.author_is_webhook,
            author_name: self.author_name@,
            member_role_ids: self.member_role_ids@,
            content: self.content@,
        }
    }
}

/// What a dispatch decided: at most one reply and the reaction signals, in
/// emission order.
pub struct Outcome {
    pub reply: Option<String>,
    pub reactions: Vec<Reaction>,
}

pub ghost struct OutcomeView {
    pub reply: Option<Seq<char>>,
    pub reactions: Seq<Reaction>,
}

impl View for Outcome {
    type V = OutcomeView;

    open spec fn view(&self) -> OutcomeView {
        OutcomeView {
            reply: match self.reply {
                Some(ref s) => Some(s@),
                None => None,
            },
            reactions: self.reactions@,
        }
    }
}

/// A silent dispatch: no reply, no reaction.
pub open spec fn quiet_outcome() -> OutcomeView {
    OutcomeView { reply: None, reactions: Seq::empty() }
}

/// A dispatch that only reacts.
pub open spec fn react_outcome(r: Reaction) -> OutcomeView {
    OutcomeView { reply: None, reactions: seq![r] }
}

/// A dispatch that only replies.
pub open spec fn reply_outcome(text: Seq<char>) -> OutcomeView {
    OutcomeView { reply: Some(text), reactions: Seq::empty() }
}

/// One entry of the command registry.
pub enum RegisteredCommand {
    McItems(McItemsCommand),
    McStacks(McStacksCommand),
    McShulkers(McShulkersCommand),
    Temperature(TemperatureCommand),
    Timezone(TimezoneCommand),
    Reload(ReloadCommand),
    Regex(RegexCommand),
}

impl RegisteredCommand {
    pub open spec fn name_spec(&self) -> Seq<char> {
        match self {
            RegisteredCommand::McItems(c) => c.name_spec(),
            RegisteredCommand::McStacks(c) => c.name_spec(),
            RegisteredCommand::McShulkers(c) => c.name_spec(),
            RegisteredCommand::Temperature(c) => c.name_spec(),
            RegisteredCommand::Timezone(c) => c.name_spec(),
            RegisteredCommand::Reload(c) => c.name_spec(),
            RegisteredCommand::Regex(c) => c.name_spec(),
        }
    }

    /// What the registered command's `execute` promises, whichever command
    /// it is.
    pub open spec fn execute_ensures(
        &self,
        config: ConfigView,
        role: RoleView,
        input: Seq<char>,
        r: Result<Seq<char>, CommandErrorView>,
    ) -> bool {
        match self {
            RegisteredCommand::McItems(c) => c.execute_ensures(config, role, input, r),
            RegisteredCommand::McStacks(c) => c.execute_ensures(config, role, input, r),
            RegisteredCommand::McShulkers(c) => c.execute_ensures(config, role, input, r),
            RegisteredCommand::Temperature(c) => c.execute_ensures(config, role, input, r),
            RegisteredCommand::Timezone(c) => c.execute_ensures(config, role, input, r),
            RegisteredCommand::Reload(c) => c.execute_ensures(config, role, input, r),
            RegisteredCommand::Regex(c) => c.execute_ensures(config, role, input, r),
        }
    }

    pub fn name(&self) -> (r: &'static str)
        ensures
            r@ == self.name_spec(),
    {
        match self {
            RegisteredCommand::McItems(c) => c.name(),
            RegisteredCommand::McStacks(c) => c.name(),
            RegisteredCommand::McShulkers(c) => c.name(),
            RegisteredCommand::Temperature(c) => c.name(),
            RegisteredCommand::Timezone(c) => c.name(),
            RegisteredCommand::Reload(c) => c.name(),
            RegisteredCommand::Regex(c) => c.name(),
        }
    }

    pub fn execute(&self, config: &Config, role: &Role, input: &String) -> (r: Result<
        String,
        CommandError,
    >)
        requires
            patterns_ok(config@),
            chain_ok(config@.roles, role@, config@.roles.len() as nat),
        ensures
            self.execute_ensures(config@, role@, input@, result_view(r)),
    {
        match self {
            RegisteredCommand::McItems(c) => c.execute(config, role, input),
            RegisteredCommand::McStacks(c) => c.execute(config, role, input),
            RegisteredCommand::McShulkers(c) => c.execute(config, role, input),
            RegisteredCommand::Temperature(c) => c.execute(config, role, input),
            RegisteredCommand::Timezone(c) => c.execute(config, role, input),
            RegisteredCommand::Reload(c) => c.execute(config, role, input),
            RegisteredCommand::Regex(c) => c.execute(config, role, input),
        }
    }
}

/// The first registered command with the given name.
pub open spec fn registry_find(cmds: Seq<RegisteredCommand>, name: Seq<char>) -> Option<
    RegisteredCommand,
>
    decreases cmds.len(),
{
    if cmds.len() == 0 {
        None
    } else if cmds[0].name_spec() == name {
        Some(cmds[0])
    } else {
        registry_find(cmds.drop_first(), name)
    }
}


/// The role name the member's platform roles select: the first configured
/// role whose id the member carries.
pub open spec fn member_role_name(roles: Seq<(Seq<char>, RoleView)>, ids: Seq<u64>) -> Option<
    Seq<char>,
>
    decreases roles.len(),
{
    if roles.len() == 0 {
        None
    } else if ids.contains(roles[0].1.id) {
        Some(roles[0].0)
    } else {
        member_role_name(roles.drop_first(), ids)
    }
}

/// The role name a webhook author's display name selects: the first
/// configured role with a nonempty pattern that matches it.
pub open spec fn webhook_role_name(
    roles: Seq<(Seq<char>, RoleView)>,
    author: Seq<char>,
) -> Option<Seq<char>>
    decreases roles.len(),
{
    if roles.len() == 0 {
        None
    } else if roles[0].1.webhook_regex.len() > 0 && regex_match(roles[0].1.webhook_regex, author) {
        Some(roles[0].0)
    } else {
        webhook_role_name(roles.drop_first(), author)
    }
}

/// The name of the role a message dispatches under; an unmatched message,
/// or one matching only a role with an empty name, falls back to `default`.
pub open spec fn resolved_role_name(c: ConfigView, msg: MessageView) -> Seq<char> {
    let found = if !msg.author_is_webhook {
        member_role_name(c.roles, msg.member_role_ids)
    } else {
        webhook_role_name(c.roles, msg.author_name)
    };
    match found {
        Some(name) => if name.len() == 0 {
            "default"@
        } else {
            name
        },
        None => "default"@,
    }
}

/// The role a message dispatches under.
pub open spec fn resolved_role(c: ConfigView, msg: MessageView) -> RoleView {
    lookup(c.roles, resolved_role_name(c, msg))->0
}




/// Finds the name selecting the message's role, by the member's platform
/// ids or, for a webhook author, by display-name pattern.
fn resolve_role_name(config: &Config, msg: &Message) -> (r: String)
    requires
        config_ok(config@),
    ensures
        r@ == resolved_role_name(config@, msg@),
{
    let ghost rolesv = config@.roles;
    let mut found: Option<&String> = None;
    if !msg.author_is_webhook {
        let mut j: usize = 0;
        proof {
            assert(rolesv.skip(0) =~= rolesv);
        }
        while j < config.roles.len() && found.is_none()
            invariant
                rolesv == config@.roles,
                rolesv.len() == config.roles.len(),
                j <= config.roles.len(),
                match found {
                    Some(name) => member_role_name(rolesv, msg@.member_role_ids) == Some(name@),
                    None => member_role_name(rolesv, msg@.member_role_ids) == member_role_name(
                        rolesv.skip(j as int),
                        msg@.member_role_ids,
                    ),
                },
            decreases config.roles.len() - j,
        {
            proof {
                let jv = j as int;
                assert(rolesv[jv] == (config.roles@[jv].0@, config.roles@[jv].1@));
                assert(rolesv.skip(jv)[0] == rolesv[jv]);
                assert(rolesv.skip(jv).drop_first() =~= rolesv.skip(jv + 1));
            }
            let id = config.roles[j].1.id;
            let mut k: usize = 0;
            while k < msg.member_role_ids.len() && found.is_none()
                invariant
                    rolesv == config@.roles,
                    rolesv.len() == config.roles.len(),
                    j < config.roles.len(),
                    id == rolesv[j as int].1.id,
                    k <= msg.member_role_ids.len(),
                    msg.member_role_ids@.len() == msg.member_role_ids.len(),
                    match found {
                        Some(name) => name@ == rolesv[j as int].0 && msg@.member_role_ids.contains(
                            id,
                        ),
                        None => forall|m: int| 0 <= m < k ==> msg@.member_role_ids[m] != id,
                    },
                decreases msg.member_role_ids.len() - k,
            {
                if msg.member_role_ids[k] == id {
                    found = Some(&config.roles[j].0);
                }
                k += 1;
            }
            proof {
                if found is None {
                    if msg@.member_role_ids.contains(id) {
                        let m = choose|m: int|
                            0 <= m < msg@.member_role_ids.len() && msg@.member_role_ids[m] == id;
                        assert(msg@.member_role_ids[m] != id);
                    }
                }
            }
            j += 1;
        }
        proof {
            if found is None {
                assert(rolesv.skip(rolesv.len() as int) =~= Seq::<(Seq<char>, RoleView)>::empty());
            }
        }
    } else {
        let mut j: usize = 0;
        proof {
            assert(rolesv.skip(0) =~= rolesv);
        }
        while j < config.roles.len() && found.is_none()
            invariant
                config_ok(config@),
                rolesv == config@.roles,
                rolesv.len() == config.roles.len(),
                j <= config.roles.len(),
                match found {
                    Some(name) => webhook_role_name(rolesv, msg@.author_name) == Some(name@),
                    None => webhook_role_name(rolesv, msg@.author_name) == webhook_role_name(
                        rolesv.skip(j as int),
                        msg@.author_name,
                    ),
                },
            decreases config.roles.len() - j,
        {
            proof {
                let jv = j as int;
                assert(rolesv[jv] == (config.roles@[jv].0@, config.roles@[jv].1@));
                assert(rolesv.skip(jv)[0] == rolesv[jv]);
                assert(rolesv.skip(jv).drop_first() =~= rolesv.skip(jv + 1));
            }
            if !config.roles[j].1.webhook_regex.as_str().is_empty() {
                match try_is_match(
                    config.roles[j].1.webhook_regex.as_str(),
                    msg.author_name.as_str(),
                ) {
                    Some(true) => {
                        found = Some(&config.roles[j].0);
                    },
                    Some(false) => {
                    },
                    None => {
                        proof {
                            assert(false);
                        }
                    },
                }
            }
            j += 1;
        }
        proof {
            if found is None {
                assert(rolesv.skip(rolesv.len() as int) =~= Seq::<(Seq<char>, RoleView)>::empty());
            }
        }
    }
    match found {
        Some(name) => {
            if name.as_str().is_empty() {
                "default".to_owned()
            } else {
                name.clone()
            }
        },
        None => "default".to_owned(),
    }
}

/// Resolves the message's role: the named role, or `default` when nothing
/// matched.
fn resolve_role<'a>(config: &'a Config, msg: &Message) -> (r: (String, &'a Role))
    requires
        config_ok(config@),
    ensures
        r.0@ == resolved_role_name(config@, msg@),
        r.1@ == resolved_role(config@, msg@),
        lookup(config@.roles, r.0@) == Some(r.1@),
        chain_ok(config@.roles, r.1@, config@.roles.len() as nat),
{
    let name = resolve_role_name(config, msg);
    proof {
        if name@ == "default"@ {
            assert(lookup(config@.roles, name@) is Some);
        } else {
            // A non-default resolved name was read off a table entry.
            lemma_resolved_name_is_key(config@, msg@);
            lemma_lookup_exists(config@.roles, name@);
        }
    }
    match assoc_get(&config.roles, &name) {
        Some(role) => {
            proof {
                lemma_lookup_found(config@.roles, name@);
                let i = choose|i: int|
                    0 <= i < config@.roles.len() && #[trigger] config@.roles[i] == (
                        name@,
                        lookup(config@.roles, name@)->0,
                    );
                assert(chain_ok(config@.roles, config@.roles[i].1, config@.roles.len() as nat));
            }
            (name, role)
        },
        None => {
            proof {
                assert(false);
            }
            (name, &config.roles[0].1)
        },
    }
}

/// A resolved role name other than `default` is a key of the role table.
proof fn lemma_resolved_name_is_key(c: ConfigView, msg: MessageView)
    ensures
        resolved_role_name(c, msg) != "default"@ ==> exists|i: int|
            0 <= i < c.roles.len() && (#[trigger] c.roles[i]).0 == resolved_role_name(c, msg),
{
    if resolved_role_name(c, msg) != "default"@ {
        if !msg.author_is_webhook {
            lemma_member_role_is_key(c.roles, msg.member_role_ids);
        } else {
            lemma_webhook_role_is_key(c.roles, msg.author_name);
        }
    }
}

proof fn lemma_member_role_is_key(roles: Seq<(Seq<char>, RoleView)>, ids: Seq<u64>)
    ensures
        member_role_name(roles, ids) matches Some(name) ==> exists|i: int|
            0 <= i < roles.len() && (#[trigger] roles[i]).0 == name,
    decreases roles.len(),
{
    if roles.len() > 0 {
        if ids.contains(roles[0].1.id) {
            assert(roles[0].0 == member_role_name(roles, ids)->0);
        } else {
            lemma_member_role_is_key(roles.drop_first(), ids);
            if member_role_name(roles, ids) is Some {
                let name = member_role_name(roles, ids)->0;
                let i = choose|i: int|
                    0 <= i < roles.drop_first().len() && (#[trigger] roles.drop_first()[i]).0
                        == name;
                assert(roles[i + 1].0 == name);
            }
        }
    }
}

proof fn lemma_webhook_role_is_key(roles: Seq<(Seq<char>, RoleView)>, author: Seq<char>)
    ensures
        webhook_role_name(roles, author) matches Some(name) ==> exists|i: int|
            0 <= i < roles.len() && (#[trigger] roles[i]).0 == name,
    decreases roles.len(),
{
    if roles.len() > 0 {
        if roles[0].1.webhook_regex.len() > 0 && regex_match(roles[0].1.webhook_regex, author) {
            assert(roles[0].0 == webhook_role_name(roles, author)->0);
        } else {
            lemma_webhook_role_is_key(roles.drop_first(), author);
            if webhook_role_name(roles, author) is Some {
                let name = webhook_role_name(roles, author)->0;
                let i = choose|i: int|
                    0 <= i < roles.drop_first().len() && (#[trigger] roles.drop_first()[i]).0
                        == name;
                assert(roles[i + 1].0 == name);
            }
        }
    }
}

/// Everything of `s` after its first space, or nothing when it has none.
pub open spec fn after_first_space(s: Seq<char>) -> Seq<char> {
    let i = index_of(s, ' ');
    if i < s.len() {
        s.subrange(i + 1, s.len() as int)
    } else {
        Seq::<char>::empty()
    }
}

/// The word following the prefix: up to the first space after it.
pub open spec fn command_token(c: ConfigView, content: Seq<char>) -> Seq<char>
    recommends
        crate::text::has_prefix(content, c.prefix),
{
    let after = content.subrange(c.prefix.len() as int, content.len() as int);
    after.subrange(0, index_of(after, ' '))
}

/// A canned template with `%username%` and then `%content%` substituted.
pub open spec fn canned_reply(template: Seq<char>, author: Seq<char>, rest: Seq<char>) -> Seq<
    char,
> {
    crate::text::replace_spec(
        crate::text::replace_spec(template, "%username%"@, author),
        "%content%"@,
        rest,
    )
}

/// The outcome and command-cooldown state a registered command's result
/// maps to: a reply and a marked cooldown on success; the message with an
/// anger or question signal on bad or unparseable input; a cross on a
/// denial; silence when the command disowns the name.
pub open spec fn command_outcome(
    r: Result<Seq<char>, CommandErrorView>,
    name: Seq<char>,
    now: u64,
    cmd0: Map<Seq<char>, u64>,
) -> (OutcomeView, Map<Seq<char>, u64>) {
    match r {
        Ok(t) => (reply_outcome(t), cmd0.insert(name, now)),
        Err(CommandErrorView::BadUsage(t)) => (
            OutcomeView { reply: Some(t), reactions: seq![Reaction::Anger] },
            cmd0,
        ),
        Err(CommandErrorView::InvalidSyntax(t)) => (
            OutcomeView { reply: Some(t), reactions: seq![Reaction::QuestionMark] },
            cmd0,
        ),
        Err(CommandErrorView::NoPerms) => (react_outcome(Reaction::CrossMark), cmd0),
        Err(CommandErrorView::NoCommand) => (quiet_outcome(), cmd0),
    }
}

/// The whole dispatch decision, relating one message to its outcome and
/// the cooldown state before and after. Where an outside call decides —
/// a registered command consulting the clock — the relation quantifies
/// over what that command's own contract admits; everything else is
/// pinned exactly.
pub open spec fn message_rel(
    c: ConfigView,
    cmds: Seq<RegisteredCommand>,
    cmd0: Map<Seq<char>, u64>,
    rex0: Map<Seq<char>, u64>,
    msg: MessageView,
    now: u64,
    o: OutcomeView,
    cmd1: Map<Seq<char>, u64>,
    rex1: Map<Seq<char>, u64>,
) -> bool {
    let role = resolved_role(c, msg);
    let content = crate::util::regexresponse::regex_stripped(c.trim_regex, msg.content);
    if crate::text::has_prefix(content, c.prefix) {
        let name = crate::util::alias::resolve_alias_spec(c.aliases, command_token(c, content));
        let rest = after_first_space(content);
        if !ready_spec(cmd0, name, now, c.command_cooldown, role.bypass_cooldown) {
            o == react_outcome(Reaction::Hourglass) && cmd1 == cmd0 && rex1 == rex0
        } else {
            match crate::util::response::response_spec(c, role, name) {
                Ok(template) => o == reply_outcome(canned_reply(template, msg.author_name, rest))
                    && cmd1 == cmd0.insert(name, now) && rex1 == rex0,
                Err(CommandErrorView::NoPerms) => o == react_outcome(Reaction::CrossMark) && cmd1
                    == cmd0 && rex1 == rex0,
                Err(CommandErrorView::NoCommand) => {
                    if c.enabled_utils.contains(name) && registry_find(cmds, name) is Some {
                        let rc = registry_find(cmds, name)->0;
                        exists|r: Result<Seq<char>, CommandErrorView>|
                            #[trigger] rc.execute_ensures(c, role, rest, r) && (o, cmd1)
                                == command_outcome(r, name, now, cmd0) && rex1 == rex0
                    } else {
                        o == quiet_outcome() && cmd1 == cmd0 && rex1 == rex0
                    }
                },
                _ => o == quiet_outcome() && cmd1 == cmd0 && rex1 == rex0,
            }
        }
    } else {
        if role.bypass_regex {
            o == quiet_outcome() && cmd1 == cmd0 && rex1 == rex0
        } else {
            match crate::util::regexresponse::regexresponse_spec(c.regex_responses, content) {
                Some(p) => {
                    if ready_spec(rex0, p.1, now, c.regex_response_cooldown, false) {
                        o == reply_outcome(p.0) && cmd1 == cmd0 && rex1 == rex0.insert(p.1, now)
                    } else {
                        o == quiet_outcome() && cmd1 == cmd0 && rex1 == rex0
                    }
                },
                None => o == quiet_outcome() && cmd1 == cmd0 && rex1 == rex0,
            }
        }
    }
}

/// The commands a fresh engine registers, in registration order.
pub open spec fn default_registry() -> Seq<RegisteredCommand> {
    seq![
        RegisteredCommand::McItems(McItemsCommand),
        RegisteredCommand::McStacks(McStacksCommand),
        RegisteredCommand::McShulkers(McShulkersCommand),
        RegisteredCommand::Temperature(TemperatureCommand),
        RegisteredCommand::Timezone(TimezoneCommand),
        RegisteredCommand::Reload(ReloadCommand),
        RegisteredCommand::Regex(RegexCommand),
    ]
}

/// The dispatch engine: the configuration snapshot, the command registry,
/// and one cooldown tracker each for commands and regex replies.
pub struct Handler {
    pub config: Config,
    pub registered_commands: Vec<RegisteredCommand>,
    pub command_cooldowns: CooldownTracker,
    pub regex_cooldowns: CooldownTracker,
}

impl Handler {
    pub open spec fn wf(&self) -> bool {
        self.command_cooldowns.wf() && self.regex_cooldowns.wf()
    }

    /// Adds a command at the end of the registry. An earlier entry with the
    /// same name keeps precedence: lookup scans in order.
    pub fn register_command(&mut self, command: RegisteredCommand)
        ensures
            final(self).registered_commands@ == old(self).registered_commands@.push(command),
            final(self).config == old(self).config,
            final(self).command_cooldowns == old(self).command_cooldowns,
            final(self).regex_cooldowns == old(self).regex_cooldowns,
    {
        self.registered_commands.push(command);
    }

    /// A fresh engine over `config`: the stock commands registered, no
    /// cooldowns on record.
    pub fn new(config: Config) -> (h: Handler)
        ensures
            h.config == config,
            h.registered_commands@ == default_registry(),
            h.command_cooldowns@ == Map::<Seq<char>, u64>::empty(),
            h.regex_cooldowns@ == Map::<Seq<char>, u64>::empty(),
            h.wf(),
    {
        let mut handler = Handler {
            config,
            registered_commands: Vec::new(),
            command_cooldowns: CooldownTracker::new(),
            regex_cooldowns: CooldownTracker::new(),
        };
        handler.register_command(RegisteredCommand::McItems(McItemsCommand));
        handler.register_command(RegisteredCommand::McStacks(McStacksCommand));
        handler.register_command(RegisteredCommand::McShulkers(McShulkersCommand));
        handler.register_command(RegisteredCommand::Temperature(TemperatureCommand));
        handler.register_command(RegisteredCommand::Timezone(TimezoneCommand));
        handler.register_command(RegisteredCommand::Reload(ReloadCommand));
        handler.register_command(RegisteredCommand::Regex(RegexCommand));
        proof {
            assert(handler.registered_commands@ =~= default_registry());
        }
        handler
    }

    /// Dispatches one inbound message: resolves the role, routes a prefixed
    /// command through alias, cooldown, canned responses and the registry,
    /// or scans a plain message against the auto-reply patterns, and
    /// records any fired cooldown.
    #[verifier::rlimit(100)]
    pub fn message(&mut self, msg: &Message, now: u64) -> (o: Outcome)
        requires
            old(self).wf(),
            config_ok(old(self).config@),
        ensures
            final(self).wf(),
            final(self).config == old(self).config,
            final(self).registered_commands == old(self).registered_commands,
            message_rel(
                old(self).config@,
                old(self).registered_commands@,
                old(self).command_cooldowns@,
                old(self).regex_cooldowns@,
                msg@,
                now,
                o@,
                final(self).command_cooldowns@,
                final(self).regex_cooldowns@,
            ),
    {
        let ghost c = self.config@;
        let ghost cmds = self.registered_commands@;
        let ghost cmd0 = self.command_cooldowns@;
        let ghost rex0 = self.regex_cooldowns@;
        let ghost rrole = resolved_role(c, msg@);

        let (_role_name, role) = resolve_role(&self.config, msg);

        let content_s = match crate::util::regexresponse::try_strip_matches(
            self.config.trim_regex.as_str(),
            msg.content.as_str(),
        ) {
            Some(s) => s,
            None => {
                proof {
                    assert(false);
                }
                String::new()
            },
        };
        let content = crate::text::str_to_chars(content_s.as_str());
        let ghost contentv = crate::util::regexresponse::regex_stripped(c.trim_regex, msg.content@);
        proof {
            assert(content@ == contentv);
        }
        let prefix_chars = crate::text::str_to_chars(self.config.prefix.as_str());

        if crate::text::chars_have_prefix(&content, prefix_chars.as_slice()) {
            // Prefixed: a command invocation.
            let after = crate::text::subvec(&content, prefix_chars.len(), content.len());
            let sp = crate::text::find_char(&after, ' ');
            proof {
                crate::text::lemma_index_of(after@, ' ');
            }
            let token = crate::text::subvec(&after, 0, sp);
            let name = crate::util::alias::resolve_alias(
                &self.config,
                &crate::text::chars_to_string(&token),
            );
            let ghost namev = crate::util::alias::resolve_alias_spec(
                c.aliases,
                command_token(c, contentv),
            );
            proof {
                assert(name@ == namev);
            }
            let spc = crate::text::find_char(&content, ' ');
            proof {
                crate::text::lemma_index_of(content@, ' ');
            }
            let rest_chars = if spc < content.len() {
                crate::text::subvec(&content, spc + 1, content.len())
            } else {
                Vec::new()
            };
            let rest = crate::text::chars_to_string(&rest_chars);
            proof {
                assert(rest@ == after_first_space(contentv));
            }
            if !self.command_cooldowns.is_ready(
                &name,
                now,
                self.config.command_cooldown,
                role.bypass_cooldown,
            ) {
                let mut reactions: Vec<Reaction> = Vec::new();
                reactions.push(Reaction::Hourglass);
                let o = Outcome { reply: None, reactions };
                proof {
                    assert(o@.reactions =~= seq![Reaction::Hourglass]);
                    assert(o@ == react_outcome(Reaction::Hourglass));
                }
                return o;
            }
            match crate::util::response::response(&self.config, role, name.clone()) {
                Ok(template) => {
                    let t_chars = crate::text::str_to_chars(template.as_str());
                    let u_pat = crate::text::str_to_chars("%username%");
                    let c_pat = crate::text::str_to_chars("%content%");
                    proof {
                        reveal_strlit("%username%");
                        reveal_strlit("%content%");
                    }
                    let step1 = crate::text::replace_chars(
                        &t_chars,
                        u_pat.as_slice(),
                        &crate::text::str_to_chars(msg.author_name.as_str()),
                    );
                    let step2 = crate::text::replace_chars(&step1, c_pat.as_slice(), &rest_chars);
                    self.command_cooldowns.mark_fired(&name, now);
                    let o = Outcome {
                        reply: Some(crate::text::chars_to_string(&step2)),
                        reactions: Vec::new(),
                    };
                    proof {
                        assert(o@ == reply_outcome(
                            canned_reply(template@, msg@.author_name, after_first_space(contentv)),
                        ));
                    }
                    o
                },
                Err(CommandError::NoPerms) => {
                    let mut reactions: Vec<Reaction> = Vec::new();
                    reactions.push(Reaction::CrossMark);
                    let o = Outcome { reply: None, reactions };
                    proof {
                        assert(o@.reactions =~= seq![Reaction::CrossMark]);
                        assert(o@ == react_outcome(Reaction::CrossMark));
                    }
                    o
                },
                Err(CommandError::NoCommand) => {
                    if crate::util::alias::list_contains(&self.config.enabled_utils, &name) {
                        let mut found: Option<usize> = None;
                        let mut i: usize = 0;
                        proof {
                            assert(cmds.skip(0) =~= cmds);
                        }
                        while i < self.registered_commands.len() && found.is_none()
                            invariant
                                cmds == self.registered_commands@,
                                i <= self.registered_commands.len(),
                                namev == name@,
                                match found {
                                    Some(k) => k < cmds.len() && registry_find(cmds, namev)
                                        == Some(cmds[k as int]),
                                    None => registry_find(cmds, namev) == registry_find(
                                        cmds.skip(i as int),
                                        namev,
                                    ),
                                },
                            decreases self.registered_commands.len() - i,
                        {
                            proof {
                                assert(cmds.skip(i as int)[0] == cmds[i as int]);
                                assert(cmds.skip(i as int).drop_first() =~= cmds.skip(i + 1));
                            }
                            let cname = self.registered_commands[i].name();
                            let cname_string = cname.to_owned();
                            if cname_string == name {
                                found = Some(i);
                            }
                            i += 1;
                        }
                        proof {
                            if found is None {
                                assert(cmds.skip(cmds.len() as int) =~= Seq::<
                                    RegisteredCommand,
                                >::empty());
                            }
                        }
                        match found {
                            Some(k) => {
                                let rr = self.registered_commands[k].execute(
                                    &self.config,
                                    role,
                                    &rest,
                                );
                                let ghost rrv = result_view(rr);
                                proof {
                                    let rc = registry_find(cmds, namev)->0;
                                    assert(rc.execute_ensures(
                                        c,
                                        rrole,
                                        after_first_space(contentv),
                                        rrv,
                                    ));
                                }
                                match rr {
                                    Ok(t) => {
                                        self.command_cooldowns.mark_fired(&name, now);
                                        let o = Outcome { reply: Some(t), reactions: Vec::new() };
                                        proof {
                                            lemma_rel_witness(
                                                cmds,
                                                namev,
                                                c,
                                                rrole,
                                                after_first_space(contentv),
                                                rrv,
                                                o@,
                                                now,
                                                cmd0,
                                                self.command_cooldowns@,
                                            );
                                        }
                                        o
                                    },
                                    Err(CommandError::BadUsage(t)) => {
                                        let mut reactions: Vec<Reaction> = Vec::new();
                                        reactions.push(Reaction::Anger);
                                        let o = Outcome { reply: Some(t), reactions };
                                        proof {
                                            assert(o@.reactions =~= seq![Reaction::Anger]);
                                            lemma_rel_witness(
                                                cmds,
                                                namev,
                                                c,
                                                rrole,
                                                after_first_space(contentv),
                                                rrv,
                                                o@,
                                                now,
                                                cmd0,
                                                self.command_cooldowns@,
                                            );
                                        }
                                        o
                                    },
                                    Err(CommandError::InvalidSyntax(t)) => {
                                        let mut reactions: Vec<Reaction> = Vec::new();
                                        reactions.push(Reaction::QuestionMark);
                                        let o = Outcome { reply: Some(t), reactions };
                                        proof {
                                            assert(o@.reactions =~= seq![Reaction::QuestionMark]);
                                            lemma_rel_witness(
                                                cmds,
                                                namev,
                                                c,
                                                rrole,
                                                after_first_space(contentv),
                                                rrv,
                                                o@,
                                                now,
                                                cmd0,
                                                self.command_cooldowns@,
                                            );
                                        }
                                        o
                                    },
                                    Err(CommandError::NoPerms) => {
                                        let mut reactions: Vec<Reaction> = Vec::new();
                                        reactions.push(Reaction::CrossMark);
                                        let o = Outcome { reply: None, reactions };
                                        proof {
                                            assert(o@.reactions =~= seq![Reaction::CrossMark]);
                                            lemma_rel_witness(
                                                cmds,
                                                namev,
                                                c,
                                                rrole,
                                                after_first_space(contentv),
                                                rrv,
                                                o@,
                                                now,
                                                cmd0,
                                                self.command_cooldowns@,
                                            );
                                        }
                                        o
                                    },
                                    Err(CommandError::NoCommand) => {
                                        let o = Outcome { reply: None, reactions: Vec::new() };
                                        proof {
                                            lemma_rel_witness(
                                                cmds,
                                                namev,
                                                c,
                                                rrole,
                                                after_first_space(contentv),
                                                rrv,
                                                o@,
                                                now,
                                                cmd0,
                                                self.command_cooldowns@,
                                            );
                                        }
                                        o
                                    },
                                }
                            },
                            None => {
                                let o = Outcome { reply: None, reactions: Vec::new() };
                                proof {
                                    assert(o@ == quiet_outcome());
                                }
                                o
                            },
                        }
                    } else {
                        let o = Outcome { reply: None, reactions: Vec::new() };
                        proof {
                            assert(o@ == quiet_outcome());
                        }
                        o
                    }
                },
                Err(_) => {
                    let o = Outcome { reply: None, reactions: Vec::new() };
                    proof {
                        assert(o@ == quiet_outcome());
                    }
                    o
                },
            }
        } else {
            // Plain text: the auto-reply scan, unless the role bypasses it.
            if role.bypass_regex {
                let o = Outcome { reply: None, reactions: Vec::new() };
                proof {
                    assert(o@ == quiet_outcome());
                }
                return o;
            }
            match crate::util::regexresponse::regexresponse(&self.config, content_s) {
                Some(found) => {
                    if self.regex_cooldowns.is_ready(
                        &found.1,
                        now,
                        self.config.regex_response_cooldown,
                        false,
                    ) {
                        self.regex_cooldowns.mark_fired(&found.1, now);
                        let o = Outcome { reply: Some(found.0), reactions: Vec::new() };
                        proof {
                            let ghost hit = crate::util::regexresponse::regexresponse_spec(
                                c.regex_responses,
                                contentv,
                            )->0;
                            assert(o@ == reply_outcome(hit.0));
                        }
                        o
                    } else {
                        let o = Outcome { reply: None, reactions: Vec::new() };
                        proof {
                            assert(o@ == quiet_outcome());
                        }
                        o
                    }
                },
                None => {
                    let o = Outcome { reply: None, reactions: Vec::new() };
                    proof {
                        assert(o@ == quiet_outcome());
                    }
                    o
                },
            }
        }
    }

    /// Validates the configuration and dispatches: `None` exactly when the
    /// configuration is unsound, in which case nothing changes.
    pub fn try_message(&mut self, msg: &Message, now: u64) -> (r: Option<Outcome>)
        requires
            old(self).wf(),
        ensures
            final(self).wf(),
            final(self).config == old(self).config,
            final(self).registered_commands == old(self).registered_commands,
            r is Some <==> config_ok(old(self).config@),
            match r {
                Some(o) => message_rel(
                    old(self).config@,
                    old(self).registered_commands@,
                    old(self).command_cooldowns@,
                    old(self).regex_cooldowns@,
                    msg@,
                    now,
                    o@,
                    final(self).command_cooldowns@,
                    final(self).regex_cooldowns@,
                ),
                None => final(self).command_cooldowns@ == old(self).command_cooldowns@
                    && final(self).regex_cooldowns@ == old(self).regex_cooldowns@,
            },
    {
        if self.config.validate() {
            Some(self.message(msg, now))
        } else {
            None
        }
    }
}

/// Introduces the registry-execution case of [`message_rel`] from a
/// concrete command result.
proof fn lemma_rel_witness(
    cmds: Seq<RegisteredCommand>,
    name: Seq<char>,
    c: ConfigView,
    role: RoleView,
    rest: Seq<char>,
    r: Result<Seq<char>, CommandErrorView>,
    o: OutcomeView,
    now: u64,
    cmd0: Map<Seq<char>, u64>,
    cmd1: Map<Seq<char>, u64>,
)
    requires
        registry_find(cmds, name) is Some,
        registry_find(cmds, name)->0.execute_ensures(c, role, rest, r),
        (o, cmd1) == command_outcome(r, name, now, cmd0),
    ensures
        exists|rr: Result<Seq<char>, CommandErrorView>|
            #[trigger] (registry_find(cmds, name)->0).execute_ensures(c, role, rest, rr) && (
            o,
            cmd1,
        ) == command_outcome(rr, name, now, cmd0),
{
}



} // verus!
