use botcore::commands::CommandError;
use botcore::config::{Config, Role};
use botcore::util::regexresponse::regexresponse;
use botcore::util::response::response;

fn role(perms: &[&str]) -> Role {
    Role {
        id: 0,
        webhook_regex: String::new(),
        inherit: String::new(),
        bypass_cooldown: false,
        bypass_regex: false,
        perms: perms.iter().map(|p| p.to_string()).collect(),
    }
}

#[test]
fn response_returns_the_bound_template() {
    let mut c = Config::default();
    c.responses = vec![("ping".to_string(), "Pong!".to_string())];
    let r = role(&[]);
    assert_eq!(response(&c, &r, "ping".to_string()).unwrap(), "Pong!");
}

#[test]
fn response_unknown_name_is_no_command() {
    let c = Config::default();
    let r = role(&[]);
    assert!(matches!(
        response(&c, &r, "nosuchresponse".to_string()),
        Err(CommandError::NoCommand)
    ));
}

#[test]
fn response_denied_by_negation() {
    let mut c = Config::default();
    c.responses = vec![("ping".to_string(), "Pong!".to_string())];
    let r = role(&["-response.ping"]);
    assert!(matches!(
        response(&c, &r, "ping".to_string()),
        Err(CommandError::NoPerms)
    ));
}

#[test]
fn regexresponse_returns_first_match_with_its_pattern() {
    let mut c = Config::default();
    c.regex_responses = vec![
        ("^never$".to_string(), "no".to_string()),
        ("b+".to_string(), "bees".to_string()),
        ("c+".to_string(), "sea".to_string()),
    ];
    let (reply, pattern) = regexresponse(&c, "abc".to_string()).unwrap();
    assert_eq!(reply, "bees");
    assert_eq!(pattern, "b+");
}

#[test]
fn regexresponse_is_case_insensitive_both_ways() {
    let mut c = Config::default();
    c.regex_responses = vec![("HeLLo".to_string(), "hi".to_string())];
    assert!(regexresponse(&c, "say hEllO now".to_string()).is_some());
}

#[test]
fn regexresponse_none_without_match() {
    let mut c = Config::default();
    c.regex_responses = vec![("xyzzy".to_string(), "plugh".to_string())];
    assert!(regexresponse(&c, "nothing here".to_string()).is_none());
}
