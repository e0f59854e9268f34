use botcore::config::Config;
use botcore::cooldown::CooldownTracker;
use botcore::util::alias::resolve_alias;

#[test]
fn fresh_key_is_ready() {
    let t = CooldownTracker::new();
    assert!(t.is_ready(&"temp".to_string(), 100, 15, false));
}

#[test]
fn boundary_fire_is_still_throttled() {
    let mut t = CooldownTracker::new();
    t.mark_fired(&"temp".to_string(), 100);
    assert!(!t.is_ready(&"temp".to_string(), 110, 15, false));
    // exactly `duration` seconds later is still throttled
    assert!(!t.is_ready(&"temp".to_string(), 115, 15, false));
    assert!(t.is_ready(&"temp".to_string(), 116, 15, false));
}

#[test]
fn bypass_ignores_recorded_fires() {
    let mut t = CooldownTracker::new();
    t.mark_fired(&"temp".to_string(), 100);
    assert!(t.is_ready(&"temp".to_string(), 101, 15, true));
}

#[test]
fn asking_twice_gives_the_same_answer() {
    let mut t = CooldownTracker::new();
    t.mark_fired(&"temp".to_string(), 100);
    let first = t.is_ready(&"temp".to_string(), 110, 15, false);
    let second = t.is_ready(&"temp".to_string(), 110, 15, false);
    assert_eq!(first, second);
    assert!(!first);
}

#[test]
fn most_recent_mark_is_authoritative() {
    let mut t = CooldownTracker::new();
    t.mark_fired(&"temp".to_string(), 100);
    t.mark_fired(&"temp".to_string(), 200);
    assert!(!t.is_ready(&"temp".to_string(), 210, 15, false));
    assert!(t.is_ready(&"temp".to_string(), 216, 15, false));
}

#[test]
fn keys_are_independent() {
    let mut t = CooldownTracker::new();
    t.mark_fired(&"temp".to_string(), 100);
    assert!(t.is_ready(&"ping".to_string(), 101, 15, false));
}

fn aliased_config() -> Config {
    let mut c = Config::default();
    c.aliases = vec![(
        "ping".to_string(),
        vec!["p".to_string(), "test".to_string()],
    )];
    c
}

#[test]
fn alias_maps_to_canonical_name() {
    let c = aliased_config();
    assert_eq!(resolve_alias(&c, &"p".to_string()), "ping");
    assert_eq!(resolve_alias(&c, &"test".to_string()), "ping");
}

#[test]
fn alias_lookup_lowercases_first() {
    let c = aliased_config();
    assert_eq!(resolve_alias(&c, &"P".to_string()), "ping");
    assert_eq!(resolve_alias(&c, &"TeSt".to_string()), "ping");
}

#[test]
fn canonical_name_resolves_to_itself() {
    let c = aliased_config();
    assert_eq!(resolve_alias(&c, &"ping".to_string()), "ping");
}

#[test]
fn unknown_name_passes_through_lowercased() {
    let c = aliased_config();
    assert_eq!(resolve_alias(&c, &"Frobnicate".to_string()), "frobnicate");
}

#[test]
fn alias_resolution_is_idempotent_on_examples() {
    let c = aliased_config();
    for typed in ["p", "test", "ping", "other"] {
        let once = resolve_alias(&c, &typed.to_string());
        let twice = resolve_alias(&c, &once);
        assert_eq!(once, twice);
    }
}

#[test]
fn later_alias_entry_wins() {
    let mut c = Config::default();
    c.aliases = vec![
        ("ping".to_string(), vec!["x".to_string()]),
        ("pong".to_string(), vec!["x".to_string()]),
    ];
    assert_eq!(resolve_alias(&c, &"x".to_string()), "pong");
}
