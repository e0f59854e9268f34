use botcore::commands::admin::ReloadCommand;
use botcore::commands::minecraft::{
    pluralize, third_person_ending, McItemsCommand, McShulkersCommand, McStacksCommand,
};
use botcore::commands::regex::RegexCommand;
use botcore::commands::temperature::TemperatureCommand;
use botcore::commands::{Command, CommandError};
use botcore::config::{Config, Role};

fn granting_role(perms: &[&str]) -> Role {
    Role {
        id: 0,
        webhook_regex: String::new(),
        inherit: String::new(),
        bypass_cooldown: false,
        bypass_regex: false,
        perms: perms.iter().map(|p| p.to_string()).collect(),
    }
}

fn base_config() -> Config {
    Config::default()
}

#[test]
fn pluralize_and_verb_forms() {
    assert_eq!(pluralize(1), "");
    assert_eq!(pluralize(0), "s");
    assert_eq!(pluralize(2), "s");
    assert_eq!(third_person_ending(1), "s");
    assert_eq!(third_person_ending(2), "");
}

#[test]
fn mcstacks_breaks_items_into_stacks() {
    let c = base_config();
    let r = granting_role(&["cmd.mcstacks"]);
    let out = McStacksCommand
        .execute(&c, &r, &"130".to_string())
        .unwrap();
    assert_eq!(out, "130 items break down into 2 stacks with 2 items left over");
}

#[test]
fn mcstacks_singular_forms() {
    let c = base_config();
    let r = granting_role(&["cmd.mcstacks"]);
    let out = McStacksCommand.execute(&c, &r, &"1".to_string()).unwrap();
    assert_eq!(out, "1 item breaks down into 0 stacks with 1 item left over");
}

#[test]
fn mcstacks_rejects_unreadable_and_oversized_input() {
    let c = base_config();
    let r = granting_role(&["cmd.mcstacks"]);
    match McStacksCommand.execute(&c, &r, &"no numbers".to_string()) {
        Err(CommandError::InvalidSyntax(m)) => assert_eq!(m, "Usage: <number of items>"),
        other => panic!("unexpected: {:?}", other.map_err(|e| e.text())),
    }
    match McStacksCommand.execute(&c, &r, &"99999999999".to_string()) {
        Err(CommandError::InvalidSyntax(m)) => assert_eq!(m, "Usage: <number of items>"),
        other => panic!("unexpected: {:?}", other.map_err(|e| e.text())),
    }
}

#[test]
fn mcstacks_without_permission() {
    let c = base_config();
    let r = granting_role(&[]);
    assert!(matches!(
        McStacksCommand.execute(&c, &r, &"130".to_string()),
        Err(CommandError::NoPerms)
    ));
}

#[test]
fn mcitems_multiplies_fractional_stacks() {
    let c = base_config();
    let r = granting_role(&["cmd.mcitems"]);
    let out = McItemsCommand.execute(&c, &r, &"1.5".to_string()).unwrap();
    assert_eq!(out, "1.5 stacks break down into 96 items");
}

#[test]
fn mcitems_singular_stack() {
    let c = base_config();
    let r = granting_role(&["cmd.mcitems"]);
    let out = McItemsCommand.execute(&c, &r, &"1".to_string()).unwrap();
    assert_eq!(out, "1 stack breaks down into 64 items");
}

#[test]
fn mcitems_huge_input_is_out_of_range() {
    let c = base_config();
    let r = granting_role(&["cmd.mcitems"]);
    let huge = "9".repeat(40);
    match McItemsCommand.execute(&c, &r, &huge) {
        Err(CommandError::BadUsage(m)) => assert_eq!(m, "I dunno lol"),
        other => panic!("unexpected: {:?}", other.map_err(|e| e.text())),
    }
}

#[test]
fn mcshulkers_full_breakdown() {
    let c = base_config();
    let r = granting_role(&["cmd.mcshulkers"]);
    let out = McShulkersCommand
        .execute(&c, &r, &"3500".to_string())
        .unwrap();
    assert_eq!(
        out,
        "3500 items break down into 2 shulkers plus 0 stacks and 44 items left over"
    );
}

#[test]
fn temp_fahrenheit_to_celsius() {
    let c = base_config();
    let r = granting_role(&["cmd.temp"]);
    let out = TemperatureCommand
        .execute(&c, &r, &"100 F".to_string())
        .unwrap();
    assert_eq!(out, "100 in Fahrenheit is 37.78 in Celsius.");
}

#[test]
fn temp_celsius_to_fahrenheit() {
    let c = base_config();
    let r = granting_role(&["cmd.temp"]);
    let out = TemperatureCommand
        .execute(&c, &r, &"100 C".to_string())
        .unwrap();
    assert_eq!(out, "100 in Celsius is 212 in Fahrenheit.");
}

#[test]
fn temp_negative_and_fractional() {
    let c = base_config();
    let r = granting_role(&["cmd.temp"]);
    let out = TemperatureCommand
        .execute(&c, &r, &"-40 f".to_string())
        .unwrap();
    assert_eq!(out, "-40 in Fahrenheit is -40 in Celsius.");
    let out = TemperatureCommand
        .execute(&c, &r, &"36.6 c".to_string())
        .unwrap();
    assert_eq!(out, "36.6 in Celsius is 97.88 in Fahrenheit.");
}

#[test]
fn temp_requires_a_unit_marker_and_digits() {
    let c = base_config();
    let r = granting_role(&["cmd.temp"]);
    match TemperatureCommand.execute(&c, &r, &"100".to_string()) {
        Err(CommandError::InvalidSyntax(m)) => assert_eq!(m, "Usage: <Degrees> <C|F>"),
        other => panic!("unexpected: {:?}", other.map_err(|e| e.text())),
    }
    match TemperatureCommand.execute(&c, &r, &"F".to_string()) {
        Err(CommandError::InvalidSyntax(m)) => assert_eq!(m, "Usage: <Degrees> <C|F>"),
        other => panic!("unexpected: {:?}", other.map_err(|e| e.text())),
    }
    match TemperatureCommand.execute(&c, &r, &"1.2.3 F".to_string()) {
        Err(CommandError::InvalidSyntax(m)) => assert_eq!(m, "Usage: <Degrees> <C|F>"),
        other => panic!("unexpected: {:?}", other.map_err(|e| e.text())),
    }
}

#[test]
fn temp_huge_input_is_out_of_range() {
    let c = base_config();
    let r = granting_role(&["cmd.temp"]);
    let huge = format!("{} F", "9".repeat(40));
    match TemperatureCommand.execute(&c, &r, &huge) {
        Err(CommandError::BadUsage(m)) => assert_eq!(m, "I dunno lol"),
        other => panic!("unexpected: {:?}", other.map_err(|e| e.text())),
    }
}

#[test]
fn temp_without_permission() {
    let c = base_config();
    let r = granting_role(&[]);
    assert!(matches!(
        TemperatureCommand.execute(&c, &r, &"100 F".to_string()),
        Err(CommandError::NoPerms)
    ));
}

#[test]
fn reload_confirms_for_admins_only() {
    let c = base_config();
    let admin = granting_role(&["admin.reload"]);
    let pleb = granting_role(&[]);
    assert_eq!(
        ReloadCommand.execute(&c, &admin, &String::new()).unwrap(),
        "Config reloaded!"
    );
    assert!(matches!(
        ReloadCommand.execute(&c, &pleb, &String::new()),
        Err(CommandError::NoPerms)
    ));
}

#[test]
fn regex_command_reports_match_or_none() {
    let mut c = base_config();
    c.regex_responses = vec![("^a+$".to_string(), "all a".to_string())];
    let r = granting_role(&["cmd.regex"]);
    assert_eq!(
        RegexCommand.execute(&c, &r, &"AAA".to_string()).unwrap(),
        "all a"
    );
    assert_eq!(
        RegexCommand.execute(&c, &r, &"bbb".to_string()).unwrap(),
        "No match!"
    );
}

#[test]
fn command_error_text() {
    assert_eq!(CommandError::BadUsage("x".to_string()).text(), "Bad usage");
    assert_eq!(
        CommandError::InvalidSyntax("x".to_string()).text(),
        "Invalid syntax"
    );
    assert_eq!(CommandError::NoPerms.text(), "No permission");
    assert_eq!(CommandError::NoCommand.text(), "No such command");
}

#[test]
fn command_identity_strings() {
    assert_eq!(McStacksCommand.name(), "mcstacks");
    assert_eq!(McStacksCommand.usage(), "Usage: <number of items>");
    assert_eq!(McItemsCommand.name(), "mcitems");
    assert_eq!(TemperatureCommand.name(), "temp");
    assert_eq!(TemperatureCommand.usage(), "Usage: <Degrees> <C|F>");
    assert_eq!(ReloadCommand.name(), "reload");
    assert_eq!(RegexCommand.name(), "regex");
    assert!(!McShulkersCommand.about().is_empty());
}
