use nagame::config::{Config, OutputConfig, Profile, Transform};
use nagame::profile::matcher::resolve_profile_outputs;
use nagame::profile::{MatchStep, ProfileManager, ProfileMatcher};
use nagame::scale::Scale;
use nagame::wayland::OutputHead;

fn create_test_head(name: &str, make: &str, model: &str, serial: &str) -> OutputHead {
    OutputHead {
        id: 1,
        name: name.to_string(),
        description: format!("{} {}", make, model),
        physical_size: Some((600, 340)),
        position: Some((0, 0)),
        transform: Transform::Normal,
        scale: Scale { bits: 1.0f64.to_bits() },
        enabled: true,
        modes: vec![],
        current_mode: None,
        preferred_mode: None,
        make: make.to_string(),
        model: model.to_string(),
        serial_number: serial.to_string(),
        adaptive_sync: None,
    }
}

fn output(name: &str) -> OutputConfig {
    OutputConfig {
        name: name.to_string(),
        enabled: true,
        mode: None,
        scale: None,
        position: None,
        transform: None,
        adaptive_sync: None,
    }
}

fn profile(name: &str, outputs: &[&str]) -> Profile {
    Profile {
        name: name.to_string(),
        outputs: outputs.iter().map(|selector| output(selector)).collect(),
        commands: vec![],
        wallpaper: None,
        wallpaper_dir: None,
    }
}

#[test]
fn test_glob_match_exact() {
    let matcher = ProfileMatcher::new();

    assert!(matcher.glob_match("HDMI-A-1", "HDMI-A-1"));
    assert!(matcher.glob_match("eDP-1", "eDP-1"));
    assert!(!matcher.glob_match("HDMI-A-1", "HDMI-A-2"));
}

#[test]
fn test_glob_match_star_wildcard() {
    let matcher = ProfileMatcher::new();

    // Star at end
    assert!(matcher.glob_match("HDMI-*", "HDMI-A-1"));
    assert!(matcher.glob_match("HDMI-*", "HDMI-A-2"));
    assert!(matcher.glob_match("HDMI-*", "HDMI-B-1"));
    assert!(!matcher.glob_match("HDMI-*", "eDP-1"));

    // Star at beginning
    assert!(matcher.glob_match("*-A-1", "HDMI-A-1"));
    assert!(matcher.glob_match("*-A-1", "DP-A-1"));
    assert!(!matcher.glob_match("*-A-1", "HDMI-A-2"));

    // Star in middle
    assert!(matcher.glob_match("HDMI-*-1", "HDMI-A-1"));
    assert!(matcher.glob_match("HDMI-*-1", "HDMI-B-1"));
    assert!(!matcher.glob_match("HDMI-*-1", "HDMI-A-2"));

    // Multiple stars
    assert!(matcher.glob_match("*LG*", "LG Electronics"));
    assert!(matcher.glob_match("*LG*", "LG"));
    assert!(matcher.glob_match("*LG*", "My LG Monitor"));
    assert!(!matcher.glob_match("*LG*", "Dell"));

    // Star matches zero characters
    assert!(matcher.glob_match("HDMI*", "HDMI"));
    assert!(matcher.glob_match("HDMI*", "HDMI-A-1"));
}

#[test]
fn test_glob_match_question_wildcard() {
    let matcher = ProfileMatcher::new();

    // Single ?
    assert!(matcher.glob_match("HDMI-A-?", "HDMI-A-1"));
    assert!(matcher.glob_match("HDMI-A-?", "HDMI-A-2"));
    assert!(!matcher.glob_match("HDMI-A-?", "HDMI-A-12"));

    // Multiple ?
    assert!(matcher.glob_match("HDMI-?-?", "HDMI-A-1"));
    assert!(matcher.glob_match("HDMI-?-?", "HDMI-B-2"));
    assert!(!matcher.glob_match("HDMI-?-?", "HDMI-AA-1"));

    // Mix * and ?
    assert!(matcher.glob_match("HDMI-?-*", "HDMI-A-1"));
    assert!(matcher.glob_match("HDMI-?-*", "HDMI-B-12"));
    assert!(!matcher.glob_match("HDMI-?-*", "HDMI-AB-1"));
}

#[test]
fn test_glob_match_edge_cases() {
    let matcher = ProfileMatcher::new();

    // Empty pattern and text
    assert!(matcher.glob_match("", ""));

    // Empty text
    assert!(matcher.glob_match("*", ""));
    assert!(!matcher.glob_match("?", ""));
    assert!(!matcher.glob_match("a", ""));

    // Empty pattern
    assert!(!matcher.glob_match("", "text"));

    // Only wildcards
    assert!(matcher.glob_match("*", "anything"));
    assert!(matcher.glob_match("**", "anything"));
    assert!(matcher.glob_match("***", "anything"));
}

#[test]
fn test_output_matches_head_exact() {
    let matcher = ProfileMatcher::new();
    let head = create_test_head("HDMI-A-2", "LG Electronics", "27GL850", "002NTNH1B719");

    let output = OutputConfig {
        name: "HDMI-A-2".to_string(),
        enabled: true,
        mode: None,
        scale: None,
        position: None,
        transform: None,
        adaptive_sync: None,
    };

    assert!(matcher.output_matches_head(&output, &head));
}

#[test]
fn test_output_matches_head_wildcard() {
    let matcher = ProfileMatcher::new();
    let head = create_test_head("HDMI-A-2", "LG Electronics", "27GL850", "002NTNH1B719");

    assert!(matcher.output_matches_head(&output("*"), &head));
    assert!(matcher.output_matches_head(&output("HDMI-*"), &head));
}

#[test]
fn test_output_matches_head_identifier() {
    let matcher = ProfileMatcher::new();
    let head = create_test_head("HDMI-A-2", "LG Electronics", "27GL850", "002NTNH1B719");

    // Match by model in identifier string
    assert!(matcher.output_matches_head(&output("*27GL850*"), &head));
}

#[test]
fn identifications_are_trimmed() {
    let matcher = ProfileMatcher::new();
    let bare = create_test_head("eDP-1", "BOE", "0x095F", "");
    assert!(matcher.output_matches_head(&output("BOE 0x095F"), &bare));
    assert!(!matcher.output_matches_head(&output("BOE 0x095F "), &bare));
    let full = create_test_head("eDP-1", "BOE", "0x095F", "77");
    assert!(matcher.output_matches_head(&output("BOE 0x095F 77"), &full));
    assert!(matcher.output_matches_head(&output("BOE*77"), &full));
    assert!(!matcher.output_matches_head(&output("BOE"), &full));
    let unknown = create_test_head("X", "", "", "");
    assert!(matcher.output_matches_head(&output(""), &unknown));
    assert!(!matcher.output_matches_head(&output("Y"), &unknown));
}

#[test]
fn test_resolve_profile_outputs_uses_concrete_names() {
    let hdmi = create_test_head("HDMI-A-2", "LG Electronics", "27GL850", "SERIAL-1");
    let display_port = create_test_head("DP-1", "Dell", "U2720Q", "SERIAL-2");
    let heads = vec![&hdmi, &display_port];
    let profile = Profile {
        name: "resolved".to_string(),
        outputs: vec![output("*27GL850*"), output("*")],
        commands: vec![],
        wallpaper: None,
        wallpaper_dir: None,
    };

    let resolved = resolve_profile_outputs(&profile, &heads).unwrap();
    assert_eq!(resolved[0].1, "HDMI-A-2");
    assert_eq!(resolved[1].1, "DP-1");
}

#[test]
fn settings_take_the_first_free_output() {
    let first = create_test_head("DP-1", "A", "B", "1");
    let second = create_test_head("DP-2", "A", "B", "2");
    let heads = vec![&first, &second];
    let wide = profile("wide", &["*", "DP-?"]);
    let resolved = resolve_profile_outputs(&wide, &heads).unwrap();
    assert_eq!(resolved[0].1, "DP-1");
    assert_eq!(resolved[1].1, "DP-2");
    // The first settings take the output that the second ones would need.
    let greedy = profile("greedy", &["*", "DP-1"]);
    assert!(resolve_profile_outputs(&greedy, &heads).is_none());
    let careful = profile("careful", &["DP-1", "*"]);
    assert_eq!(resolve_profile_outputs(&careful, &heads).unwrap()[1].1, "DP-2");
}

#[test]
fn test_profile_matches_single_output() {
    let matcher = ProfileMatcher::new();
    let head = create_test_head("HDMI-A-2", "LG Electronics", "27GL850", "002NTNH1B719");
    let heads = vec![&head];

    let profile = profile("test-profile", &["HDMI-A-2"]);

    assert!(matcher.profile_matches(&profile, &heads));
}

#[test]
fn test_profile_matches_wildcard() {
    let matcher = ProfileMatcher::new();
    let head = create_test_head("HDMI-A-2", "LG Electronics", "27GL850", "002NTNH1B719");
    let heads = vec![&head];

    let profile = profile("wildcard-profile", &["HDMI-*"]);

    assert!(matcher.profile_matches(&profile, &heads));
}

#[test]
fn test_profile_matches_multiple_outputs() {
    let matcher = ProfileMatcher::new();
    let head1 = create_test_head("HDMI-A-2", "LG Electronics", "27GL850", "002NTNH1B719");
    let head2 = create_test_head("eDP-1", "BOE", "0x095F", "");
    let heads = vec![&head1, &head2];

    let profile = profile("dual-monitor", &["HDMI-A-2", "eDP-1"]);

    assert!(matcher.profile_matches(&profile, &heads));
}

#[test]
fn test_profile_no_match_wrong_count() {
    let matcher = ProfileMatcher::new();
    let head = create_test_head("HDMI-A-2", "LG Electronics", "27GL850", "002NTNH1B719");
    let heads = vec![&head];

    // Profile expects 2 outputs but only 1 is connected
    let profile = profile("dual-monitor", &["HDMI-A-2", "eDP-1"]);

    assert!(!matcher.profile_matches(&profile, &heads));
}

#[test]
fn test_profile_no_match_wrong_name() {
    let matcher = ProfileMatcher::new();
    let head = create_test_head("HDMI-A-2", "LG Electronics", "27GL850", "002NTNH1B719");
    let heads = vec![&head];

    let profile = profile("wrong-output", &["DP-1"]);

    assert!(!matcher.profile_matches(&profile, &heads));
}

#[test]
fn test_find_best_match() {
    let matcher = ProfileMatcher::new();
    let head = create_test_head("HDMI-A-2", "LG Electronics", "27GL850", "002NTNH1B719");
    let heads = vec![&head];

    let config = Config {
        profiles: vec![
            profile("wrong-profile", &["DP-1"]),
            profile("correct-profile", &["HDMI-A-2"]),
        ],
    };

    let result = matcher.find_best_match(&config, heads);
    assert!(result.is_some());
    assert_eq!(result.unwrap().name, "correct-profile");
}

#[test]
fn test_find_best_match_none() {
    let matcher = ProfileMatcher::new();
    let head = create_test_head("HDMI-A-2", "LG Electronics", "27GL850", "002NTNH1B719");
    let heads = vec![&head];

    let config = Config {
        profiles: vec![
            profile("wrong-profile-1", &["DP-1"]),
            profile("wrong-profile-2", &["eDP-1"]),
        ],
    };

    let result = matcher.find_best_match(&config, heads);
    assert!(result.is_none());
}

#[test]
fn the_first_of_several_fitting_profiles_is_chosen() {
    let head = create_test_head("DP-1", "A", "B", "C");
    let config = Config { profiles: vec![profile("any", &["*"]), profile("exact", &["DP-1"])] };
    let matcher = ProfileMatcher::default();
    assert_eq!(matcher.find_best_match(&config, vec![&head]).unwrap().name, "any");
    assert_eq!(matcher.find_best_index(&config, vec![&head]), Some(0));
}

#[test]
fn the_manager_activates_a_profile_once() {
    let head = create_test_head("DP-1", "A", "B", "C");
    let config = Config { profiles: vec![profile("other", &["X"]), profile("desk", &["DP-1"])] };
    let mut manager = ProfileManager::new();
    assert_eq!(manager.current_profile(), None);
    assert_eq!(
        manager.match_and_apply(&config, vec![&head]),
        MatchStep::Activate { profile: 1, restore_saved: false, skip_wallpaper: false }
    );
    assert_eq!(manager.activated("desk", false), None);
    assert_eq!(manager.current_profile(), None);
    assert_eq!(manager.activated("desk", true), Some("desk".to_string()));
    assert_eq!(manager.current_profile(), Some(&"desk".to_string()));
    assert_eq!(manager.match_and_apply(&config, vec![&head]), MatchStep::AlreadyActive(1));
    assert_eq!(manager.match_and_apply(&config, vec![&head]), MatchStep::AlreadyActive(1));

    // The outputs are built anew: the remembered wallpaper comes back.
    manager.invalidate_current_profile();
    assert_eq!(
        manager.match_and_apply(&config, vec![&head]),
        MatchStep::Activate { profile: 1, restore_saved: true, skip_wallpaper: true }
    );
    manager.activated("desk", true);

    // No output is connected for a while.
    assert_eq!(manager.match_and_apply(&config, vec![]), MatchStep::NoMatch);
    assert_eq!(manager.current_profile(), None);
    assert_eq!(
        manager.match_and_apply(&config, vec![&head]),
        MatchStep::Activate { profile: 1, restore_saved: true, skip_wallpaper: true }
    );
}

#[test]
fn a_restored_wallpaper_survives_the_first_activation() {
    let head = create_test_head("DP-1", "A", "B", "C");
    let config = Config { profiles: vec![profile("desk", &["DP-1"])] };
    let executor = nagame::profile::ProfileExecutor::new();
    let mut manager = ProfileManager::with_awww(executor, Ok(true));
    assert_eq!(
        manager.match_and_apply(&config, vec![&head]),
        MatchStep::Activate { profile: 0, restore_saved: false, skip_wallpaper: true }
    );
    manager.activated_by_name("other", true);
    assert!(manager.wallpaper_restored);
    manager.activated("desk", true);
    assert!(!manager.wallpaper_restored);
    let executor = nagame::profile::ProfileExecutor::default();
    assert!(!ProfileManager::with_awww(executor, Ok(false)).wallpaper_restored);
    let executor = nagame::profile::ProfileExecutor::default();
    assert!(!ProfileManager::with_awww(executor, Err(())).wallpaper_restored);
}

#[test]
fn profiles_are_found_by_name() {
    let config = Config { profiles: vec![profile("a", &["*"]), profile("b", &["*"])] };
    let manager = ProfileManager::default();
    assert_eq!(manager.apply_profile_by_name(&config, "b"), Ok(1));
    assert_eq!(
        manager.apply_profile_by_name(&config, "c"),
        Err("Profile 'c' not found in configuration".to_string())
    );
}
