//! Configuration snapshot: the bot's prefix, cooldown durations, canned
//! responses, regex replies, command aliases, the role table, and the set of
//! enabled utility commands. A snapshot is immutable during a dispatch and
//! replaced wholesale on reload.

use vstd::prelude::*;

use crate::table::{assoc_view, lookup};

verus! {

/// A named permission profile. `perms` entries are capability tokens; a
/// leading `-` denies the capability explicitly. `inherit` names the parent
/// role, or is empty at the root of a chain.
pub struct Role {
    pub id: u64,
    pub webhook_regex: String,
    pub inherit: String,
    pub bypass_cooldown: bool,
    pub bypass_regex: bool,
    pub perms: Vec<String>,
}

pub ghost struct RoleView {
    pub id: u64,
    pub webhook_regex: Seq<char>,
    pub inherit: Seq<char>,
    pub bypass_cooldown: bool,
    pub bypass_regex: bool,
    pub perms: Seq<Seq<char>>,
}

impl View for Role {
    type V = RoleView;

    open spec fn view(&self) -> RoleView {
        RoleView {
            id: self.id,
            webhook_regex: self.webhook_regex@,
            inherit: self.inherit@,
            bypass_cooldown: self.bypass_cooldown,
            bypass_regex: self.bypass_regex,
            perms: self.perms.deep_view(),
        }
    }
}

/// All the options of one configuration snapshot.
pub struct Config {
    pub prefix: String,
    pub trim_regex: String,
    pub command_cooldown: u64,
    pub regex_response_cooldown: u64,
    pub allow_responses_by_default: bool,
    pub enabled_utils: Vec<String>,
    pub responses: Vec<(String, String)>,
    pub regex_responses: Vec<(String, String)>,
    pub aliases: Vec<(String, Vec<String>)>,
    pub roles: Vec<(String, Role)>,
}

pub ghost struct ConfigView {
    pub prefix: Seq<char>,
    pub trim_regex: Seq<char>,
    pub command_cooldown: u64,
    pub regex_response_cooldown: u64,
    pub allow_responses_by_default: bool,
    pub enabled_utils: Seq<Seq<char>>,
    pub responses: Seq<(Seq<char>, Seq<char>)>,
    pub regex_responses: Seq<(Seq<char>, Seq<char>)>,
    pub aliases: Seq<(Seq<char>, Seq<Seq<char>>)>,
    pub roles: Seq<(Seq<char>, RoleView)>,
}

impl View for Config {
    type V = ConfigView;

    open spec fn view(&self) -> ConfigView {
        ConfigView {
            prefix: self.prefix@,
            trim_regex: self.trim_regex@,
            command_cooldown: self.command_cooldown,
            regex_response_cooldown: self.regex_response_cooldown,
            allow_responses_by_default: self.allow_responses_by_default,
            enabled_utils: self.enabled_utils.deep_view(),
            responses: assoc_view(self.responses@),
            regex_responses: assoc_view(self.regex_responses@),
            aliases: self.aliases@.map_values(|p: (String, Vec<String>)| (p.0@, p.1.deep_view())),
            roles: assoc_view(self.roles@),
        }
    }
}

/// The inheritance chain from `role` reaches a root within `fuel` steps, and
/// every parent on the way exists. A valid configuration gives this to every
/// role with fuel equal to the number of roles: a terminating chain never
/// revisits a name, so it cannot be longer.
pub open spec fn chain_ok(roles: Seq<(Seq<char>, RoleView)>, role: RoleView, fuel: nat) -> bool
    decreases fuel,
{
    role.inherit.len() == 0 || (fuel > 0 && match lookup(roles, role.inherit) {
        Some(parent) => chain_ok(roles, parent, (fuel - 1) as nat),
        None => false,
    })
}

/// Every configured role has a terminating inheritance chain, and the
/// fallback role named `default` exists. Dispatch assumes this; it is checked
/// once when a configuration is loaded.
pub open spec fn roles_ok(c: ConfigView) -> bool {
    &&& lookup(c.roles, "default"@) is Some
    &&& forall|i: int|
        0 <= i < c.roles.len() ==> chain_ok(c.roles, (#[trigger] c.roles[i]).1, c.roles.len())
}

/// The capability tokens granted to every role that does not override them.
pub open spec fn default_role_perms() -> Seq<Seq<char>> {
    seq![
        "cmd.regex"@,
        "cmd.mcstacks"@,
        "cmd.mcitems"@,
        "cmd.mcshulkers"@,
        "cmd.temp"@,
        "cmd.timezone"@,
    ]
}

pub open spec fn default_role_view() -> RoleView {
    RoleView {
        id: 0,
        webhook_regex: ""@,
        inherit: ""@,
        bypass_cooldown: false,
        bypass_regex: false,
        perms: default_role_perms(),
    }
}

impl Default for Role {
    /// The profile a configuration falls back to when a role omits a field:
    /// no platform id, no webhook pattern, no parent, no bypasses, and the
    /// standard utility commands granted.
    fn default() -> (r: Role)
        ensures
            r@ == default_role_view(),
    {
        let mut perms: Vec<String> = Vec::new();
        perms.push("cmd.regex".to_owned());
        perms.push("cmd.mcstacks".to_owned());
        perms.push("cmd.mcitems".to_owned());
        perms.push("cmd.mcshulkers".to_owned());
        perms.push("cmd.temp".to_owned());
        perms.push("cmd.timezone".to_owned());
        let r = Role {
            id: 0,
            webhook_regex: "".to_owned(),
            inherit: "".to_owned(),
            bypass_cooldown: false,
            bypass_regex: false,
            perms,
        };
        proof {
            assert(r@.perms =~= default_role_perms());
        }
        r
    }
}

pub open spec fn admin_role_view() -> RoleView {
    RoleView {
        id: 123456781234567812u64,
        webhook_regex: "\\[Admin\\].*"@,
        inherit: "default"@,
        bypass_cooldown: true,
        bypass_regex: true,
        perms: seq!["admin.reload"@],
    }
}

pub open spec fn default_config_view() -> ConfigView {
    ConfigView {
        prefix: "!"@,
        trim_regex: ""@,
        command_cooldown: 15,
        regex_response_cooldown: 45,
        allow_responses_by_default: true,
        enabled_utils: seq![
            "regex"@,
            "mcstacks"@,
            "mcitems"@,
            "mcshulkers"@,
            "temp"@,
            "timezone"@,
        ],
        responses: seq![("ping"@, "Pong!"@), ("pong"@, "Ping!"@)],
        regex_responses: seq![("is the bot (?:here|on|alive|working)"@, "Nope, definitely not"@)],
        aliases: seq![("ping"@, seq!["p"@, "test"@])],
        roles: seq![("default"@, default_role_view()), ("admin"@, admin_role_view())],
    }
}

impl Default for Config {
    /// The configuration written out for a fresh installation: prefix `!`,
    /// the stock cooldowns, a ping/pong pair of canned responses, one regex
    /// reply, the `p`/`test` aliases for `ping`, and a default plus an admin
    /// role.
    fn default() -> (r: Config)
        ensures
            r@ == default_config_view(),
    {
        let mut enabled_utils: Vec<String> = Vec::new();
        enabled_utils.push("regex".to_owned());
        enabled_utils.push("mcstacks".to_owned());
        enabled_utils.push("mcitems".to_owned());
        enabled_utils.push("mcshulkers".to_owned());
        enabled_utils.push("temp".to_owned());
        enabled_utils.push("timezone".to_owned());

        let mut responses: Vec<(String, String)> = Vec::new();
        responses.push(("ping".to_owned(), "Pong!".to_owned()));
        responses.push(("pong".to_owned(), "Ping!".to_owned()));

        let mut regex_responses: Vec<(String, String)> = Vec::new();
        regex_responses.push((
            "is the bot (?:here|on|alive|working)".to_owned(),
            "Nope, definitely not".to_owned(),
        ));

        let mut ping_aliases: Vec<String> = Vec::new();
        ping_aliases.push("p".to_owned());
        ping_aliases.push("test".to_owned());
        let mut aliases: Vec<(String, Vec<String>)> = Vec::new();
        aliases.push(("ping".to_owned(), ping_aliases));

        let mut admin_perms: Vec<String> = Vec::new();
        admin_perms.push("admin.reload".to_owned());
        let admin = Role {
            id: 123456781234567812u64,
            webhook_regex: "\\[Admin\\].*".to_owned(),
            inherit: "default".to_owned(),
            bypass_cooldown: true,
            bypass_regex: true,
            perms: admin_perms,
        };
        proof {
            assert(admin@.perms =~= seq!["admin.reload"@]);
        }

        let mut roles: Vec<(String, Role)> = Vec::new();
        roles.push(("default".to_owned(), Role::default()));
        roles.push(("admin".to_owned(), admin));

        let r = Config {
            prefix: "!".to_owned(),
            trim_regex: "".to_owned(),
            command_cooldown: 15,
            regex_response_cooldown: 45,
            allow_responses_by_default: true,
            enabled_utils,
            responses,
            regex_responses,
            aliases,
            roles,
        };
        proof {
            assert(r@.enabled_utils =~= default_config_view().enabled_utils);
            assert(r@.responses =~= default_config_view().responses);
            assert(r@.regex_responses =~= default_config_view().regex_responses);
            assert(r@.aliases[0].1 =~= seq!["p"@, "test"@]);
            assert(r@.aliases =~= default_config_view().aliases);
            assert(r@.roles =~= default_config_view().roles);
        }
        r
    }
}

/// Every regex the configuration holds compiles: the trim pattern, each
/// reply pattern after lower-casing, and each role's nonempty webhook
/// pattern. Dispatch assumes this; it is checked once at load.
pub open spec fn patterns_ok(c: ConfigView) -> bool {
    &&& crate::util::regexresponse::regex_valid(c.trim_regex)
    &&& crate::util::regexresponse::reply_patterns_ok(c.regex_responses)
    &&& forall|i: int|
        0 <= i < c.roles.len() ==> ((#[trigger] c.roles[i]).1.webhook_regex.len() > 0
            ==> crate::util::regexresponse::regex_valid(c.roles[i].1.webhook_regex))
}

/// A configuration the engine may run on: sound role graph and compiling
/// patterns.
pub open spec fn config_ok(c: ConfigView) -> bool {
    roles_ok(c) && patterns_ok(c)
}

/// Whether the inheritance chain from `role` terminates within `fuel`
/// steps.
fn chain_terminates(roles: &Vec<(String, Role)>, role: &Role, fuel: usize) -> (b: bool)
    ensures
        b == chain_ok(assoc_view(roles@), role@, fuel as nat),
    decreases fuel,
{
    if role.inherit.as_str().is_empty() {
        true
    } else if fuel == 0 {
        false
    } else {
        match crate::table::assoc_get(roles, &role.inherit) {
            Some(parent) => chain_terminates(roles, parent, fuel - 1),
            None => false,
        }
    }
}

impl Config {
    /// Checks what dispatch assumes of a configuration: the `default` role
    /// exists, every inheritance chain terminates, and every configured
    /// pattern compiles.
    pub fn validate(&self) -> (b: bool)
        ensures
            b == config_ok(self@),
    {
        let ghost cv = self@;
        if crate::table::assoc_get(&self.roles, &"default".to_owned()).is_none() {
            return false;
        }
        let mut i: usize = 0;
        while i < self.roles.len()
            invariant
                cv == self@,
                cv.roles.len() == self.roles.len(),
                i <= self.roles.len(),
                forall|j: int|
                    0 <= j < i ==> chain_ok(cv.roles, (#[trigger] cv.roles[j]).1, cv.roles.len()),
                forall|j: int|
                    0 <= j < i ==> ((#[trigger] cv.roles[j]).1.webhook_regex.len() > 0
                        ==> crate::util::regexresponse::regex_valid(cv.roles[j].1.webhook_regex)),
            decreases self.roles.len() - i,
        {
            proof {
                let iv = i as int;
                assert(cv.roles[iv] == (self.roles@[iv].0@, self.roles@[iv].1@));
            }
            if !chain_terminates(&self.roles, &self.roles[i].1, self.roles.len()) {
                return false;
            }
            if !self.roles[i].1.webhook_regex.as_str().is_empty() {
                if !crate::util::regexresponse::regex_compiles(
                    self.roles[i].1.webhook_regex.as_str(),
                ) {
                    return false;
                }
            }
            i += 1;
        }
        if !crate::util::regexresponse::regex_compiles(self.trim_regex.as_str()) {
            return false;
        }
        let mut k: usize = 0;
        while k < self.regex_responses.len()
            invariant
                cv == self@,
                cv.regex_responses.len() == self.regex_responses.len(),
                k <= self.regex_responses.len(),
                forall|j: int|
                    0 <= j < k ==> crate::util::regexresponse::regex_valid(
                        crate::text::lower_chars((#[trigger] cv.regex_responses[j]).0),
                    ),
            decreases self.regex_responses.len() - k,
        {
            proof {
                let kv = k as int;
                assert(cv.regex_responses[kv] == (
                    self.regex_responses@[kv].0@,
                    self.regex_responses@[kv].1@,
                ));
            }
            let lowered = crate::text::chars_to_string(
                &crate::text::to_lower_chars(
                    &crate::text::str_to_chars(self.regex_responses[k].0.as_str()),
                ),
            );
            if !crate::util::regexresponse::regex_compiles(lowered.as_str()) {
                return false;
            }
            k += 1;
        }
        true
    }
}


} // verus!
