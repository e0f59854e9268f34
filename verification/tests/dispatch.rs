use botcore::config::{Config, Role};
use botcore::handler::{Handler, Message, Outcome, Reaction};

fn role(inherit: &str, perms: &[&str]) -> Role {
    Role {
        id: 0,
        webhook_regex: String::new(),
        inherit: inherit.to_string(),
        bypass_cooldown: false,
        bypass_regex: false,
        perms: perms.iter().map(|p| p.to_string()).collect(),
    }
}

fn config_with_default_role(default_role: Role) -> Config {
    let mut c = Config::default();
    c.roles = vec![("default".to_string(), default_role)];
    c
}

fn member_message(content: &str) -> Message {
    Message {
        author_is_webhook: false,
        author_name: "alice".to_string(),
        member_role_ids: Vec::new(),
        content: content.to_string(),
    }
}

fn reply_of(o: &Outcome) -> Option<&str> {
    o.reply.as_deref()
}

#[test]
fn temp_command_end_to_end() {
    let c = config_with_default_role(role("", &["cmd.temp"]));
    let mut h = Handler::new(c);
    let o = h.message(&member_message("!temp 100 F"), 1000);
    assert_eq!(
        reply_of(&o),
        Some("100 in Fahrenheit is 37.78 in Celsius.")
    );
    assert!(o.reactions.is_empty());
}

#[test]
fn temp_without_permission_reacts_with_cross() {
    let c = config_with_default_role(role("", &[]));
    let mut h = Handler::new(c);
    let o = h.message(&member_message("!temp 100 F"), 1000);
    assert_eq!(reply_of(&o), None);
    assert_eq!(o.reactions, vec![Reaction::CrossMark]);
}

#[test]
fn canned_response_through_alias_then_cooldown() {
    let mut c = config_with_default_role(role("", &[]));
    c.responses = vec![("ping".to_string(), "Pong!".to_string())];
    c.aliases = vec![("ping".to_string(), vec!["p".to_string()])];
    let mut h = Handler::new(c);

    let first = h.message(&member_message("!p"), 1000);
    assert_eq!(reply_of(&first), Some("Pong!"));
    assert!(first.reactions.is_empty());

    let second = h.message(&member_message("!p"), 1005);
    assert_eq!(reply_of(&second), None);
    assert_eq!(second.reactions, vec![Reaction::Hourglass]);

    let third = h.message(&member_message("!p"), 1000 + 16);
    assert_eq!(reply_of(&third), Some("Pong!"));
}

#[test]
fn regex_reply_fires_once_then_waits_out_its_cooldown() {
    let mut c = config_with_default_role(role("", &[]));
    c.regex_responses = vec![(
        "is the bot (?:here|on|alive|working)".to_string(),
        "Nope, definitely not".to_string(),
    )];
    let mut h = Handler::new(c);

    let first = h.message(&member_message("is the bot here"), 1000);
    assert_eq!(reply_of(&first), Some("Nope, definitely not"));
    assert!(first.reactions.is_empty());

    let suppressed = h.message(&member_message("is the bot alive"), 1030);
    assert_eq!(reply_of(&suppressed), None);
    assert!(suppressed.reactions.is_empty());

    let again = h.message(&member_message("is the bot working"), 1000 + 46);
    assert_eq!(reply_of(&again), Some("Nope, definitely not"));
}

#[test]
fn regex_match_is_case_insensitive() {
    let mut c = config_with_default_role(role("", &[]));
    c.regex_responses = vec![("hello bot".to_string(), "hi".to_string())];
    let mut h = Handler::new(c);
    let o = h.message(&member_message("HELLO Bot, are you there"), 1000);
    assert_eq!(reply_of(&o), Some("hi"));
}

#[test]
fn placeholders_are_substituted() {
    let mut c = config_with_default_role(role("", &[]));
    c.responses = vec![(
        "greet".to_string(),
        "hello %username%, you said %content%".to_string(),
    )];
    let mut h = Handler::new(c);
    let o = h.message(&member_message("!greet hi there"), 1000);
    assert_eq!(reply_of(&o), Some("hello alice, you said hi there"));
}

#[test]
fn unknown_command_is_silent() {
    let c = config_with_default_role(role("", &[]));
    let mut h = Handler::new(c);
    let o = h.message(&member_message("!nosuchthing"), 1000);
    assert_eq!(reply_of(&o), None);
    assert!(o.reactions.is_empty());
}

#[test]
fn disabled_utility_is_silent_even_with_permission() {
    let mut c = config_with_default_role(role("", &["cmd.temp"]));
    c.enabled_utils = Vec::new();
    let mut h = Handler::new(c);
    let o = h.message(&member_message("!temp 100 F"), 1000);
    assert_eq!(reply_of(&o), None);
    assert!(o.reactions.is_empty());
}

#[test]
fn invalid_syntax_reacts_with_question_mark() {
    let c = config_with_default_role(role("", &["cmd.temp"]));
    let mut h = Handler::new(c);
    let o = h.message(&member_message("!temp what"), 1000);
    assert_eq!(reply_of(&o), Some("Usage: <Degrees> <C|F>"));
    assert_eq!(o.reactions, vec![Reaction::QuestionMark]);
}

#[test]
fn oversized_input_reacts_with_anger() {
    let c = config_with_default_role(role("", &["cmd.temp"]));
    let mut h = Handler::new(c);
    let msg = format!("!temp {} F", "9".repeat(40));
    let o = h.message(&member_message(&msg), 1000);
    assert_eq!(reply_of(&o), Some("I dunno lol"));
    assert_eq!(o.reactions, vec![Reaction::Anger]);
}

#[test]
fn trim_regex_strips_before_dispatch() {
    let mut c = config_with_default_role(role("", &[]));
    c.trim_regex = "\\u{200b}".to_string();
    c.responses = vec![("ping".to_string(), "Pong!".to_string())];
    let mut h = Handler::new(c);
    let o = h.message(&member_message("!pi\u{200b}ng"), 1000);
    assert_eq!(reply_of(&o), Some("Pong!"));
}

#[test]
fn member_role_is_resolved_by_platform_id() {
    let mut c = config_with_default_role(role("", &[]));
    let mut vip = role("default", &["cmd.temp"]);
    vip.id = 42;
    vip.bypass_cooldown = true;
    c.roles.push(("vip".to_string(), vip));
    let mut h = Handler::new(c);
    let msg = Message {
        author_is_webhook: false,
        author_name: "bob".to_string(),
        member_role_ids: vec![7, 42],
        content: "!temp 100 F".to_string(),
    };
    let first = h.message(&msg, 1000);
    assert_eq!(
        reply_of(&first),
        Some("100 in Fahrenheit is 37.78 in Celsius.")
    );
    // bypass_cooldown on the resolved role lets an immediate repeat through
    let second = h.message(&msg, 1001);
    assert_eq!(
        reply_of(&second),
        Some("100 in Fahrenheit is 37.78 in Celsius.")
    );
}

#[test]
fn webhook_author_is_matched_by_name_pattern() {
    let mut c = config_with_default_role(role("", &[]));
    let mut hook = role("default", &[]);
    hook.webhook_regex = "\\[Bridge\\].*".to_string();
    hook.bypass_regex = true;
    c.roles.push(("bridge".to_string(), hook));
    c.regex_responses = vec![("hello".to_string(), "hi".to_string())];
    let mut h = Handler::new(c);
    let bridged = Message {
        author_is_webhook: true,
        author_name: "[Bridge] carol".to_string(),
        member_role_ids: Vec::new(),
        content: "hello there".to_string(),
    };
    let o = h.message(&bridged, 1000);
    // the bridge role bypasses regex replies
    assert_eq!(reply_of(&o), None);
    let plain = Message {
        author_is_webhook: true,
        author_name: "someone else".to_string(),
        member_role_ids: Vec::new(),
        content: "hello there".to_string(),
    };
    let o = h.message(&plain, 1000);
    assert_eq!(reply_of(&o), Some("hi"));
}

#[test]
fn reload_command_end_to_end() {
    let mut c = config_with_default_role(role("", &["admin.reload"]));
    c.enabled_utils.push("reload".to_string());
    let mut h = Handler::new(c);
    let o = h.message(&member_message("!reload"), 1000);
    assert_eq!(reply_of(&o), Some("Config reloaded!"));
}

#[test]
fn stock_configuration_dispatches_ping() {
    let mut h = Handler::new(Config::default());
    let o = h.message(&member_message("!ping"), 1000);
    assert_eq!(reply_of(&o), Some("Pong!"));
    let o = h.message(&member_message("!test"), 1020);
    assert_eq!(reply_of(&o), Some("Pong!"));
}

#[test]
fn validation_gates_dispatch() {
    assert!(Config::default().validate());

    let mut bad_regex = Config::default();
    bad_regex.regex_responses = vec![("(".to_string(), "oops".to_string())];
    assert!(!bad_regex.validate());
    let mut h = Handler::new(bad_regex);
    assert!(h.try_message(&member_message("!ping"), 1000).is_none());

    let mut cyclic = Config::default();
    cyclic.roles = vec![
        ("default".to_string(), role("loop", &[])),
        ("loop".to_string(), role("default", &[])),
    ];
    assert!(!cyclic.validate());

    let mut no_default = Config::default();
    no_default.roles = vec![("admin".to_string(), role("", &[]))];
    assert!(!no_default.validate());

    let mut ok = Handler::new(Config::default());
    let r = ok.try_message(&member_message("!ping"), 1000);
    assert_eq!(r.unwrap().reply.as_deref(), Some("Pong!"));
}

#[test]
fn canned_responses_can_be_made_opt_in() {
    let mut c = config_with_default_role(role("", &[]));
    c.responses = vec![("ping".to_string(), "Pong!".to_string())];
    c.allow_responses_by_default = false;
    let mut h = Handler::new(c);
    let denied = h.message(&member_message("!ping"), 1000);
    assert_eq!(reply_of(&denied), None);
    assert_eq!(denied.reactions, vec![Reaction::CrossMark]);

    let mut c = config_with_default_role(role("", &["response.ping"]));
    c.responses = vec![("ping".to_string(), "Pong!".to_string())];
    c.allow_responses_by_default = false;
    let mut h = Handler::new(c);
    let granted = h.message(&member_message("!ping"), 1000);
    assert_eq!(reply_of(&granted), Some("Pong!"));
}
