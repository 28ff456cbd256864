use nagame::config::{ConfigError, OutputConfigError, ProfileError, Transform};
use nagame::initialize::{initial_config, InitialError};
use nagame::scale::Scale;
use nagame::wayland::output::ProfilePlan;
use nagame::wayland::protocols::{HeadEvent, ManagerEvent, ModeEvent, OutputHead, WaylandState};
use nagame::wayland::{OutputManager, OutputMode};

fn scale(value: f64) -> Scale {
    Scale { bits: value.to_bits() }
}

fn head(name: &str, refresh_mhz: i32) -> OutputHead {
    let mode = OutputMode { width: 2560, height: 1440, refresh_mhz, preferred: true };
    let mut head = OutputHead::unknown(1);
    head.name = name.to_string();
    head.enabled = true;
    head.position = Some((1920, -10));
    head.transform = Transform::Flipped90;
    head.scale = scale(1.5);
    head.modes = vec![mode];
    head.current_mode = Some(mode);
    head.adaptive_sync = Some(false);
    head
}

#[test]
fn the_first_profile_says_what_the_outputs_are() {
    let lit = head("DP-1", 143973);
    let mut dark = OutputHead::unknown(2);
    dark.name = "eDP-1".to_string();
    let config = initial_config(&vec![&lit, &dark]).unwrap();
    assert_eq!(config.profiles.len(), 1);
    let profile = &config.profiles[0];
    assert_eq!(profile.name, "default");
    assert!(profile.commands.is_empty());
    assert!(profile.wallpaper.is_none());
    assert!(profile.wallpaper_dir.is_none());
    assert_eq!(profile.outputs.len(), 2);
    let first = &profile.outputs[0];
    assert_eq!(first.name, "DP-1");
    assert!(first.enabled);
    assert_eq!(first.mode.as_deref(), Some("2560x1440@143.973"));
    assert_eq!(first.scale, Some(scale(1.5)));
    assert_eq!(first.position, Some([1920, -10]));
    assert_eq!(first.transform, Some(Transform::Flipped90));
    assert_eq!(first.adaptive_sync, Some(false));
    let second = &profile.outputs[1];
    assert_eq!(second.name, "eDP-1");
    assert!(!second.enabled);
    assert!(second.mode.is_none());
    assert_eq!(second.scale, Some(scale(1.0)));
    assert!(second.position.is_none());
    assert_eq!(second.transform, Some(Transform::Normal));
    assert!(second.adaptive_sync.is_none());
}

#[test]
fn there_is_no_first_profile_without_outputs_or_modes() {
    assert!(matches!(initial_config(&vec![]), Err(InitialError::NoOutputs)));
    let good = head("DP-1", 60000);
    let mut bad = head("DP-2", 60000);
    bad.current_mode = None;
    match initial_config(&vec![&good, &bad]) {
        Err(InitialError::NoCurrentMode { output }) => assert_eq!(output, "DP-2"),
        other => panic!("{other:?}"),
    }
    bad.enabled = false;
    assert!(initial_config(&vec![&good, &bad]).is_ok());
}

#[test]
fn outputs_that_do_not_go_into_a_configuration_are_refused() {
    let fault = |heads: Vec<&OutputHead>| match initial_config(&heads) {
        Err(InitialError::Invalid(ConfigError::InvalidProfile(0, fault))) => fault,
        other => panic!("{other:?}"),
    };
    let good = head("DP-1", 60000);
    assert_eq!(fault(vec![&good, &good]), ProfileError::DuplicateOutput(1));
    let mut nameless = head("", 60000);
    assert_eq!(
        fault(vec![&good, &nameless]),
        ProfileError::InvalidOutput(1, OutputConfigError::EmptyName)
    );
    nameless.name = "DP-2".to_string();
    nameless.scale = scale(11.0);
    assert_eq!(
        fault(vec![&good, &nameless]),
        ProfileError::InvalidOutput(1, OutputConfigError::ScaleOutOfRange)
    );
    assert!(matches!(
        fault(vec![&head("DP-1", 0)]),
        ProfileError::InvalidOutput(0, OutputConfigError::InvalidMode(_))
    ));
}

#[test]
fn starting_with_the_first_profile_changes_nothing() {
    let mut state = WaylandState::new();
    assert!(state.registry_event("zwlr_output_manager_v1"));
    for (id, name) in [(1, "DP-*"), (2, "*"), (3, "DP-?")] {
        state.manager_event(ManagerEvent::Head);
        state.head_event(id, HeadEvent::Name { name: name.to_string() });
        state.head_event(id, HeadEvent::Mode { mode: 100 * id });
        state.mode_event(100 * id, ModeEvent::Size { width: 1920, height: 1080 });
        state.mode_event(100 * id, ModeEvent::Refresh { refresh: 59951 + id as i32 });
        state.head_event(id, HeadEvent::Enabled { enabled: 1 });
        state.head_event(id, HeadEvent::CurrentMode { mode: 100 * id });
        state.head_event(id, HeadEvent::Position { x: 1920 * id as i32, y: 0 });
    }
    state.manager_event(ManagerEvent::Done { serial: 7 });
    let mut manager = OutputManager { wayland_client: Some(state) };
    let config = initial_config(&manager.get_heads()).unwrap();
    assert!(manager.config_matches_profile(&config.profiles[0]));
    assert!(matches!(
        manager.apply_profile(&config.profiles[0]),
        Ok(ProfilePlan::Settled(true))
    ));
}
