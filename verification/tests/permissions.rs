use botcore::config::{Config, Role};
use botcore::util::perms::check_permission;

fn role(inherit: &str, perms: &[&str]) -> Role {
    Role {
        id: 0,
        webhook_regex: String::new(),
        inherit: inherit.to_string(),
        bypass_cooldown: false,
        bypass_regex: false,
        perms: perms.iter().map(|p| p.to_string()).collect(),
    }
}

fn config_with_roles(roles: Vec<(&str, Role)>) -> Config {
    let mut c = Config::default();
    c.roles = roles.into_iter().map(|(n, r)| (n.to_string(), r)).collect();
    c
}

#[test]
fn direct_grant_wins() {
    let r = role("", &["cmd.temp"]);
    let c = config_with_roles(vec![("default", role("", &[]))]);
    assert!(check_permission(&c, "cmd.temp".to_string(), &r));
}

#[test]
fn direct_denial_wins_over_ancestor_grant() {
    let parent = role("", &["cmd.temp"]);
    let child = role("parent", &["-cmd.temp"]);
    let c = config_with_roles(vec![("parent", parent), ("default", role("", &[]))]);
    assert!(!check_permission(&c, "cmd.temp".to_string(), &child));
}

#[test]
fn grant_is_visible_across_two_inheritance_steps() {
    let a = role("", &["cmd.temp"]);
    let b = role("a", &[]);
    let cc = role("b", &[]);
    let c = config_with_roles(vec![("a", a), ("b", b), ("default", role("", &[]))]);
    assert!(check_permission(&c, "cmd.temp".to_string(), &cc));
}

#[test]
fn middle_override_blocks_grandparent_grant() {
    let a = role("", &["cmd.temp"]);
    let b = role("a", &["-cmd.temp"]);
    let cc = role("b", &[]);
    let c = config_with_roles(vec![("a", a), ("b", b), ("default", role("", &[]))]);
    assert!(!check_permission(&c, "cmd.temp".to_string(), &cc));
}

#[test]
fn scan_order_matters_within_one_list() {
    let granted_first = role("", &["cmd.temp", "-cmd.temp"]);
    let denied_first = role("", &["-cmd.temp", "cmd.temp"]);
    let c = config_with_roles(vec![("default", role("", &[]))]);
    assert!(check_permission(&c, "cmd.temp".to_string(), &granted_first));
    assert!(!check_permission(&c, "cmd.temp".to_string(), &denied_first));
}

#[test]
fn response_permissions_default_to_allowed() {
    let r = role("", &[]);
    let c = config_with_roles(vec![("default", role("", &[]))]);
    assert!(check_permission(&c, "response.ping".to_string(), &r));
    assert!(!check_permission(&c, "cmd.ping".to_string(), &r));
}

#[test]
fn response_default_is_negatable() {
    let r = role("", &["-response.ping"]);
    let c = config_with_roles(vec![("default", role("", &[]))]);
    assert!(!check_permission(&c, "response.ping".to_string(), &r));
    assert!(check_permission(&c, "response.pong".to_string(), &r));
}

#[test]
fn root_default_applies_at_end_of_chain() {
    let parent = role("", &[]);
    let child = role("parent", &[]);
    let c = config_with_roles(vec![("parent", parent), ("default", role("", &[]))]);
    assert!(check_permission(&c, "response.hello".to_string(), &child));
    assert!(!check_permission(&c, "cmd.hello".to_string(), &child));
}

#[test]
fn response_default_polarity_off() {
    let r = role("", &[]);
    let mut c = config_with_roles(vec![("default", role("", &[]))]);
    c.allow_responses_by_default = false;
    assert!(!check_permission(&c, "response.ping".to_string(), &r));
    // an explicit grant still works with the default switched off
    let granted = role("", &["response.ping"]);
    assert!(check_permission(&c, "response.ping".to_string(), &granted));
}
