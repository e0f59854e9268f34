use botcore::commands::timezone::{capitalise_timezone, TimezoneCommand};
use botcore::commands::{Command, CommandError};
use botcore::config::{Config, Role};

fn granting_role(perms: &[&str]) -> Role {
    Role {
        id: 0,
        webhook_regex: String::new(),
        inherit: String::new(),
        bypass_cooldown: false,
        bypass_regex: false,
        perms: perms.iter().map(|p| p.to_string()).collect(),
    }
}

#[test]
fn capitalisation_of_zone_names() {
    assert_eq!(capitalise_timezone("utc".to_string()), "UTC");
    assert_eq!(
        capitalise_timezone("europe/berlin".to_string()),
        "Europe/Berlin"
    );
    assert_eq!(
        capitalise_timezone("america/new_york".to_string()),
        "America/New_York"
    );
}

#[test]
fn timezone_single_zone_links_and_embeds() {
    let c = Config::default();
    let r = granting_role(&["cmd.timezone"]);
    let out = TimezoneCommand
        .execute(&c, &r, &"14:00 utc".to_string())
        .unwrap();
    assert!(
        out.starts_with("14:00 UTC today in your local timezone is <t:"),
        "got: {out}"
    );
    assert!(
        out.ends_with(">, more at https://time.is/compare/1400_in_UTC"),
        "got: {out}"
    );
}

#[test]
fn timezone_conversion_between_equal_zones_is_identity() {
    let c = Config::default();
    let r = granting_role(&["cmd.timezone"]);
    let out = TimezoneCommand
        .execute(&c, &r, &"14:30 utc utc".to_string())
        .unwrap();
    assert_eq!(
        out,
        "14:30 UTC today in UTC is 14:30, more at https://time.is/compare/1430_in_UTC/UTC"
    );
}

#[test]
fn timezone_twelve_hour_times_are_accepted() {
    let c = Config::default();
    let r = granting_role(&["cmd.timezone"]);
    let out = TimezoneCommand
        .execute(&c, &r, &"2:05PM utc utc".to_string())
        .unwrap();
    assert_eq!(
        out,
        "14:05 UTC today in UTC is 14:05, more at https://time.is/compare/1405_in_UTC/UTC"
    );
}

#[test]
fn timezone_hour_only_gets_zero_minutes() {
    let c = Config::default();
    let r = granting_role(&["cmd.timezone"]);
    let out = TimezoneCommand
        .execute(&c, &r, &"9 utc utc".to_string())
        .unwrap();
    assert_eq!(
        out,
        "09:00 UTC today in UTC is 09:00, more at https://time.is/compare/0900_in_UTC/UTC"
    );
}

#[test]
fn timezone_link_uses_last_name_segment() {
    let c = Config::default();
    let r = granting_role(&["cmd.timezone"]);
    let out = TimezoneCommand
        .execute(&c, &r, &"8:00 europe/berlin europe/berlin".to_string())
        .unwrap();
    assert_eq!(
        out,
        "08:00 Europe/Berlin today in Europe/Berlin is 08:00, more at \
         https://time.is/compare/0800_in_Berlin/Berlin"
    );
}

#[test]
fn timezone_rejects_unknown_zone_or_time() {
    let c = Config::default();
    let r = granting_role(&["cmd.timezone"]);
    for bad in ["14:00 nowhere/special", "14:00", "99:99 utc"] {
        match TimezoneCommand.execute(&c, &r, &bad.to_string()) {
            Err(CommandError::InvalidSyntax(m)) => {
                assert_eq!(m, "Usage: <HH:MM(AM/PM)> <TZ> (TZ)")
            }
            other => panic!("unexpected for {bad}: {:?}", other.map_err(|e| e.text())),
        }
    }
}

#[test]
fn timezone_without_permission() {
    let c = Config::default();
    let r = granting_role(&[]);
    assert!(matches!(
        TimezoneCommand.execute(&c, &r, &"14:00 utc".to_string()),
        Err(CommandError::NoPerms)
    ));
}
