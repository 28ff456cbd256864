use nagame::config::{OutputConfig, Profile, Transform};
use nagame::scale::Scale;
use nagame::wayland::output::{
    find_mode_by_id, parse_mode_string, ConnectAttempt, ModeTextError, OutputError, ProfilePlan, Purpose,
};
use nagame::wayland::persistent::persistent_mode;
use nagame::wayland::protocols::{
    ConfigurationEvent, ConfigurationRequest, HeadEvent, ManagerEvent, ModeEvent, ProtocolError,
    WaylandState,
};
use nagame::wayland::{HeadConfiguration, OutputManager, OutputMode};

fn scale(value: f64) -> Scale {
    Scale { bits: value.to_bits() }
}

fn mode(width: i32, height: i32, refresh_mhz: i32, preferred: bool) -> OutputMode {
    OutputMode { width, height, refresh_mhz, preferred }
}

/// Announces an output with these modes, which have the numbers from `first_mode` on.
fn announce(state: &mut WaylandState, id: u32, name: &str, first_mode: u32, modes: &[OutputMode]) {
    state.manager_event(ManagerEvent::Head);
    state.head_event(id, HeadEvent::Name { name: name.to_string() });
    state.head_event(id, HeadEvent::Description { description: format!("{name} display") });
    state.head_event(id, HeadEvent::PhysicalSize { width: 600, height: 340 });
    for (offset, mode) in modes.iter().enumerate() {
        let mode_id = first_mode + offset as u32;
        state.head_event(id, HeadEvent::Mode { mode: mode_id });
        state.mode_event(
            mode_id,
            ModeEvent::Size { width: mode.width, height: mode.height },
        );
        state.mode_event(mode_id, ModeEvent::Refresh { refresh: mode.refresh_mhz });
        if mode.preferred {
            state.mode_event(mode_id, ModeEvent::Preferred);
        }
    }
    state.head_event(id, HeadEvent::Enabled { enabled: 1 });
    state.head_event(id, HeadEvent::CurrentMode { mode: first_mode });
    state.head_event(id, HeadEvent::Position { x: 10, y: -20 });
    state.head_event(id, HeadEvent::Transform { transform: 5 });
    state.head_event(id, HeadEvent::Scale { scale: scale(1.25) });
    state.head_event(id, HeadEvent::Make { make: "Make".to_string() });
    state.head_event(id, HeadEvent::Model { model: "Model".to_string() });
    state.head_event(id, HeadEvent::SerialNumber { serial_number: format!("S{id}") });
    state.head_event(id, HeadEvent::AdaptiveSync { state: 1 });
    state.head_event(id, HeadEvent::Other);
}

fn modes() -> Vec<OutputMode> {
    vec![
        mode(1920, 1080, 60000, false),
        mode(1920, 1080, 59940, false),
        mode(2560, 1440, 143973, true),
        mode(2560, 1440, 120000, false),
        mode(1920, 1080, 144000, false),
    ]
}

fn connected() -> WaylandState {
    let mut state = WaylandState::new();
    assert!(!state.registry_event("wl_output"));
    assert!(state.registry_event("zwlr_output_manager_v1"));
    announce(&mut state, 1, "DP-2", 1000, &modes());
    announce(&mut state, 2, "DP-1", 2000, &modes()[..1]);
    state.manager_event(ManagerEvent::Done { serial: 7 });
    state
}

fn manager(state: WaylandState) -> OutputManager {
    OutputManager { wayland_client: Some(state) }
}

fn output(name: &str) -> OutputConfig {
    OutputConfig::new(name.to_string())
}

fn profile(outputs: Vec<OutputConfig>) -> Profile {
    Profile {
        name: "desk".to_string(),
        outputs,
        commands: vec![],
        wallpaper: None,
        wallpaper_dir: None,
    }
}

#[test]
fn test_parse_mode_string() {
    let (width, height, refresh) = parse_mode_string("1920x1080@60").unwrap();
    assert_eq!(width, 1920);
    assert_eq!(height, 1080);
    assert_eq!(refresh, Some(60000)); // 60Hz in mHz

    let (width, height, refresh) = parse_mode_string("2560x1440").unwrap();
    assert_eq!(width, 2560);
    assert_eq!(height, 1440);
    assert_eq!(refresh, None);
}

#[test]
fn mode_texts_are_read_leniently() {
    assert_eq!(parse_mode_string("-1x+2"), Ok((-1, 2, None)));
    assert_eq!(parse_mode_string("1x2@60@rest"), Ok((1, 2, Some(60000))));
    assert_eq!(parse_mode_string("1x2@nan"), Ok((1, 2, Some(0))));
    assert_eq!(parse_mode_string("1x2@-inf"), Ok((1, 2, Some(i32::MIN))));
    assert_eq!(parse_mode_string("1x2@1e9"), Ok((1, 2, Some(i32::MAX))));
    assert_eq!(parse_mode_string("1x2@-0.0019"), Ok((1, 2, Some(-2))));
    assert_eq!(parse_mode_string("1x2@0.0004"), Ok((1, 2, Some(0))));
    assert_eq!(parse_mode_string("1920"), Err(ModeTextError::InvalidFormat));
    assert_eq!(parse_mode_string("1x2x3"), Err(ModeTextError::InvalidFormat));
    assert_eq!(parse_mode_string("ax2"), Err(ModeTextError::InvalidWidth));
    assert_eq!(parse_mode_string("1x2147483648"), Err(ModeTextError::InvalidHeight));
    assert_eq!(parse_mode_string("1x2@"), Err(ModeTextError::InvalidRate));
}

#[test]
fn announced_outputs_become_known_when_all_is_said() {
    let mut state = WaylandState::new();
    announce(&mut state, 1, "DP-2", 1000, &modes());
    assert!(state.heads.get("DP-2").is_none());
    state.manager_event(ManagerEvent::Done { serial: 3 });
    let head = state.heads.get("DP-2").unwrap();
    assert_eq!((head.id, head.name.as_str()), (1, "DP-2"));
    assert_eq!(head.description, "DP-2 display");
    assert_eq!(head.physical_size, Some((600, 340)));
    assert_eq!(head.position, Some((10, -20)));
    assert_eq!(head.transform, Transform::Flipped90);
    assert_eq!(head.scale, scale(1.25));
    assert!(head.enabled);
    assert_eq!(head.modes, modes());
    assert_eq!(head.current_mode, Some(modes()[0]));
    assert_eq!(head.preferred_mode, Some(modes()[2]));
    assert_eq!((head.make.as_str(), head.model.as_str()), ("Make", "Model"));
    assert_eq!(head.serial_number, "S1");
    assert_eq!(head.adaptive_sync, Some(true));
    assert_eq!(state.last_serial, Some(3));
    assert_eq!(state.configuration_generation, 1);
    assert!(state.pending_heads.get(1).is_none());
    assert!(state.pending_modes.get(1000).is_none());
    assert!(state.pending_current_modes.get(1).is_none());
}

#[test]
fn an_output_without_a_name_is_dropped() {
    let mut state = connected();
    state.head_event(9, HeadEvent::Enabled { enabled: 1 });
    state.manager_event(ManagerEvent::Done { serial: 8 });
    assert_eq!(manager(state).get_heads().len(), 2);
}

#[test]
fn unknown_numbers_of_the_protocol_have_meanings() {
    let mut state = WaylandState::default();
    state.head_event(1, HeadEvent::Name { name: "A".to_string() });
    state.head_event(1, HeadEvent::Enabled { enabled: -1 });
    state.head_event(1, HeadEvent::Transform { transform: 99 });
    state.head_event(1, HeadEvent::AdaptiveSync { state: 2 });
    state.manager_event(ManagerEvent::Other);
    state.manager_event(ManagerEvent::Done { serial: 1 });
    let head = state.heads.get("A").unwrap();
    assert!(head.enabled);
    assert_eq!(head.transform, Transform::Normal);
    assert_eq!(head.adaptive_sync, Some(false));
    assert_eq!(head.scale, scale(1.0));
    assert!(head.modes.is_empty() && head.current_mode.is_none());
}

#[test]
fn a_disconnected_output_goes_with_its_modes() {
    let mut state = connected();
    state.head_event(1, HeadEvent::Finished);
    assert!(state.heads.get("DP-2").is_none());
    assert!(state.heads.get("DP-1").is_some());
    assert!(state.mode_metadata.get(1000).is_none());
    assert!(state.mode_metadata.get(2000).is_some());
    assert!(!state.mode_proxies.contains(&1004));
    assert!(state.mode_to_head.get(1002).is_none());
    assert!(state.mode_obj_to_data.get(1001).is_none());
    assert_eq!(state.configuration_generation, 2);
    // A second one that was never announced still counts.
    state.head_event(77, HeadEvent::Finished);
    assert_eq!(state.configuration_generation, 3);
    assert_eq!(manager(state).get_heads().len(), 1);
}

#[test]
fn counting_goes_around_the_limit() {
    let mut state = WaylandState::new();
    state.configuration_generation = u64::MAX;
    state.manager_event(ManagerEvent::Done { serial: 1 });
    assert_eq!(state.configuration_generation, 0);
}

#[test]
fn outputs_are_listed_by_name() {
    let manager = manager(connected());
    let names: Vec<&str> = manager.get_heads().iter().map(|head| head.name.as_str()).collect();
    assert_eq!(names, vec!["DP-1", "DP-2"]);
    assert_eq!(manager.get_head("DP-2").unwrap().id, 1);
    assert!(manager.get_head("DP-3").is_none());
    assert!(manager.is_available());
    assert_eq!(manager.configuration_generation(), 1);
    let unconnected = OutputManager::default();
    assert!(!unconnected.is_available());
    assert!(unconnected.get_heads().is_empty());
    assert!(unconnected.get_head("DP-1").is_none());
    assert_eq!(unconnected.configuration_generation(), 0);
}

#[test]
fn output_management_can_end() {
    let mut state = connected();
    state.manager_event(ManagerEvent::Finished);
    assert_eq!(state.create_configuration(), Err(ProtocolError::NoOutputManager));
    assert!(!manager(state).is_available());
}

#[test]
fn the_best_mode_is_found() {
    let manager = manager(connected());
    let find = |text: &str| manager.find_mode("DP-2", text);
    assert_eq!(find("1920x1080@60"), Some(mode(1920, 1080, 60000, false)));
    assert_eq!(find("1920x1080@59.95"), Some(mode(1920, 1080, 59940, false)));
    assert_eq!(find("1920x1080@1000"), Some(mode(1920, 1080, 144000, false)));
    assert_eq!(find("1920x1080"), Some(mode(1920, 1080, 144000, false)));
    assert_eq!(find("2560x1440"), Some(mode(2560, 1440, 143973, true)));
    assert_eq!(find("2560x1440@1"), Some(mode(2560, 1440, 120000, false)));
    assert_eq!(find("2560x1440@-2147483"), Some(mode(2560, 1440, 120000, false)));
    assert_eq!(find("3840x2160"), None);
    assert_eq!(find("nonsense"), None);
    assert_eq!(manager.find_mode("DP-9", "1920x1080"), None);
    assert_eq!(find_mode_by_id(&modes(), "1920x1080@59940mHz"), Some(modes()[1]));
    assert_eq!(find_mode_by_id(&modes(), "1920x1080@60mHz"), None);
}

fn settled_outputs() -> Vec<OutputConfig> {
    let mut wide = output("DP-2");
    wide.mode = Some("1920x1080@57".to_string());
    wide.position = Some([10, -20]);
    wide.scale = Some(scale(1.255));
    wide.adaptive_sync = Some(true);
    vec![wide, output("*")]
}

#[test]
fn a_settled_profile_is_recognized() {
    let manager = manager(connected());
    assert!(manager.config_matches_profile(&profile(settled_outputs())));

    let mut other = settled_outputs();
    other[0].enabled = false;
    assert!(!manager.config_matches_profile(&profile(other)));

    let mut other = settled_outputs();
    other[0].mode = Some("1920x1080@144".to_string());
    assert!(!manager.config_matches_profile(&profile(other)));

    let mut other = settled_outputs();
    other[0].mode = Some("800x600".to_string());
    assert!(!manager.config_matches_profile(&profile(other)));

    let mut other = settled_outputs();
    other[0].position = Some([10, 20]);
    assert!(!manager.config_matches_profile(&profile(other)));

    let mut other = settled_outputs();
    other[0].scale = Some(scale(1.5));
    assert!(!manager.config_matches_profile(&profile(other)));

    let mut other = settled_outputs();
    other[0].adaptive_sync = Some(false);
    assert!(!manager.config_matches_profile(&profile(other)));

    let mut other = settled_outputs();
    other[0].transform = Some(Transform::Normal);
    assert!(!manager.config_matches_profile(&profile(other)));

    let mut other = settled_outputs();
    other[0].transform = Some(Transform::Flipped90);
    assert!(manager.config_matches_profile(&profile(other)));

    assert!(!manager.config_matches_profile(&profile(vec![output("*")])));
}

#[test]
fn a_missing_position_is_the_origin() {
    let mut state = WaylandState::new();
    state.registry_event("zwlr_output_manager_v1");
    state.head_event(1, HeadEvent::Name { name: "A".to_string() });
    state.manager_event(ManagerEvent::Done { serial: 1 });
    let manager = manager(state);
    let mut wanted = output("A");
    wanted.enabled = false;
    wanted.mode = Some("1x1".to_string());
    assert!(manager.config_matches_profile(&profile(vec![wanted])));
    let mut state = manager.wayland_client.unwrap();
    state.head_event(1, HeadEvent::Enabled { enabled: 1 });
    state.manager_event(ManagerEvent::Done { serial: 2 });
    let manager = self::manager(state);
    let mut wanted = output("A");
    wanted.position = Some([0, 0]);
    assert!(manager.config_matches_profile(&profile(vec![wanted.clone()])));
    wanted.position = Some([0, 1]);
    assert!(!manager.config_matches_profile(&profile(vec![wanted.clone()])));
    wanted.position = None;
    wanted.mode = Some("1x1".to_string());
    assert!(!manager.config_matches_profile(&profile(vec![wanted])));
}

#[test]
fn applying_a_settled_profile_submits_nothing() {
    let mut manager = manager(connected());
    let settled = profile(settled_outputs());
    assert!(matches!(manager.apply_profile(&settled), Ok(ProfilePlan::Settled(true))));
    assert!(!manager.wayland_client.as_ref().unwrap().active_config);
    let plan = manager.test_profile(&settled).unwrap();
    assert!(plan.result(true));
    assert!(!plan.result(false));
    assert!(ProfilePlan::Settled(true).result(false));
    match plan {
        ProfilePlan::Submit(submission) => assert_eq!(submission.purpose, Purpose::Test),
        other => panic!("{other:?}"),
    }
    assert!(manager.wayland_client.as_ref().unwrap().active_config);
}

#[test]
fn a_profile_becomes_requests() {
    let mut manager = manager(connected());
    let mut wide = output("DP-2");
    wide.mode = Some("2560x1440@144".to_string());
    wide.position = Some([0, 0]);
    wide.transform = Some(Transform::Rotate90);
    wide.scale = Some(scale(2.0));
    wide.adaptive_sync = Some(false);
    let mut dark = output("*");
    dark.enabled = false;
    dark.mode = Some("9x9".to_string());
    dark.position = Some([5, 5]);
    let plan = manager.apply_profile(&profile(vec![wide, dark]));
    match plan {
        Ok(ProfilePlan::Submit(submission)) => {
            assert_eq!(submission.serial, 7);
            assert_eq!(submission.purpose, Purpose::Apply);
            assert_eq!(
                submission.requests,
                vec![
                    ConfigurationRequest::EnableHead { head: 1 },
                    ConfigurationRequest::SetMode { mode: 1002 },
                    ConfigurationRequest::SetPosition { x: 0, y: 0 },
                    ConfigurationRequest::SetTransform { transform: Transform::Rotate90 },
                    ConfigurationRequest::SetScale { scale: scale(2.0) },
                    ConfigurationRequest::SetAdaptiveSync { enabled: false },
                    ConfigurationRequest::DisableHead { head: 2 },
                ]
            );
        }
        _ => panic!("the profile differs from the live state"),
    }
}

#[test]
fn a_profile_can_fail_to_become_requests() {
    let one = profile(vec![output("*")]);
    let two = profile(vec![output("*"), output("*")]);
    let mut unconnected = OutputManager::new();
    assert!(matches!(unconnected.apply_profile(&one), Err(OutputError::NotInitialized)));
    assert!(matches!(unconnected.test_profile(&one), Err(OutputError::NotInitialized)));

    let mut state = connected();
    state.manager_event(ManagerEvent::Finished);
    let mut unmanaged = manager(state);
    assert!(matches!(unmanaged.apply_profile(&two), Ok(ProfilePlan::Settled(false))));
    assert!(matches!(unmanaged.test_profile(&two), Ok(ProfilePlan::Settled(false))));

    let mut live = manager(connected());
    match live.apply_profile(&one) {
        Err(error @ OutputError::NoLongerMatches) => {
            assert_eq!(error.message(), "Profile no longer matches the connected outputs")
        }
        _ => panic!("one output is left over"),
    }
    let mut greedy = profile(vec![output("DP-2"), output("*")]);
    greedy.outputs[1].mode = Some("3840x2160".to_string());
    match live.apply_profile(&greedy) {
        Err(error @ OutputError::NoSuchMode { .. }) => assert_eq!(
            error.message(),
            "No mode matching '3840x2160' is available for output 'DP-1'"
        ),
        _ => panic!("the mode is not offered"),
    }

    let mut state = connected();
    state.last_serial = None;
    match manager(state).test_profile(&two) {
        Err(error @ OutputError::Protocol { error: ProtocolError::NoSerial, .. }) => assert_eq!(
            error.message(),
            "No completed output configuration serial is available"
        ),
        _ => panic!("there is no serial number"),
    }
    assert_eq!(OutputError::NotInitialized.message(), "Wayland client not initialized");
}

#[test]
fn requests_need_an_open_configuration() {
    let mut state = WaylandState::new();
    assert_eq!(state.create_configuration(), Err(ProtocolError::NoOutputManager));
    state.registry_event("zwlr_output_manager_v1");
    assert_eq!(state.create_configuration(), Err(ProtocolError::NoSerial));
    let asked = HeadConfiguration {
        enabled: true,
        mode: Some(mode(9, 9, 9, false)),
        position: None,
        transform: None,
        scale: None,
        adaptive_sync: Some(true),
    };
    assert_eq!(state.configure_head("DP-1", &asked), Err(ProtocolError::NoConfiguration));
    assert_eq!(state.apply_configuration(), Err(ProtocolError::NothingToApply));
    assert_eq!(state.test_configuration(), Err(ProtocolError::NothingToTest));

    let mut state = connected();
    assert_eq!(state.create_configuration(), Ok(7));
    assert_eq!(state.configure_head("DP-9", &asked), Err(ProtocolError::NoHead));
    assert_eq!(
        state.configure_head("DP-1", &asked),
        Ok(vec![
            ConfigurationRequest::EnableHead { head: 2 },
            ConfigurationRequest::SetAdaptiveSync { enabled: true },
        ])
    );
    assert_eq!(state.apply_configuration(), Ok(()));
    assert_eq!(state.test_configuration(), Ok(()));
    assert_eq!(state.find_mode_proxy("DP-1", &modes()[0]), Some(2000));
    assert_eq!(state.find_mode_proxy("DP-2", &modes()[0]), Some(1000));
    assert_eq!(state.find_mode_proxy("DP-1", &modes()[1]), None);
    state.head_proxies.entries.clear();
    assert_eq!(state.configure_head("DP-1", &asked), Err(ProtocolError::NoHeadProxy));
}

#[test]
fn the_compositor_answers_once() {
    let mut state = connected();
    state.create_configuration().unwrap();
    assert!(!state.has_configuration_outcome());
    assert_eq!(state.poll_configuration_result(false), None);
    state.configuration_event(ConfigurationEvent::Other);
    assert!(state.active_config);
    state.configuration_event(ConfigurationEvent::Succeeded);
    assert!(!state.active_config && state.has_configuration_outcome());
    assert_eq!(state.poll_configuration_result(false), Some(Ok(())));
    assert_eq!(state.poll_configuration_result(true), Some(Err(ProtocolError::NoAnswer)));
    state.configuration_event(ConfigurationEvent::Failed);
    assert_eq!(state.take_configuration_result(), Err(ProtocolError::Failed));
    state.configuration_event(ConfigurationEvent::Cancelled);
    assert_eq!(state.take_configuration_result(), Err(ProtocolError::Cancelled));
    assert_eq!(state.take_configuration_result(), Err(ProtocolError::NoAnswer));
}

#[test]
fn protocol_errors_have_messages() {
    let texts = [
        (ProtocolError::NoOutputManager, "Output manager not available"),
        (ProtocolError::NoSerial, "No completed output configuration serial is available"),
        (ProtocolError::NoConfiguration, "No active configuration"),
        (ProtocolError::NoHead, "Head 'DP-1' not found"),
        (ProtocolError::NoHeadProxy, "Head proxy for 'DP-1' not found"),
        (ProtocolError::NothingToApply, "No active configuration to apply"),
        (ProtocolError::NothingToTest, "No active configuration to test"),
        (ProtocolError::Failed, "Output configuration failed"),
        (ProtocolError::Cancelled, "Output configuration was cancelled"),
        (ProtocolError::NoAnswer, "Compositor did not report an output configuration result"),
    ];
    for (error, text) in texts {
        assert_eq!(error.message("DP-1"), text);
    }
}

#[test]
fn the_live_state_can_be_kept_and_changed() {
    let manager = manager(connected());
    let kept = manager.snapshot_configuration().unwrap();
    assert_eq!(kept.len(), 2);
    assert_eq!((kept[0].0.as_str(), kept[1].0.as_str()), ("DP-1", "DP-2"));
    assert_eq!(
        kept[1].1,
        HeadConfiguration {
            enabled: true,
            mode: Some(modes()[0]),
            position: Some((10, -20)),
            transform: Some(Transform::Flipped90),
            scale: Some(scale(1.25)),
            adaptive_sync: Some(true),
        }
    );
    let changed = manager.candidate_with_mode("DP-2", "2560x1440@143973mHz").unwrap();
    assert_eq!(changed[0].1, kept[0].1);
    assert_eq!(changed[1].1, HeadConfiguration { mode: Some(modes()[2]), ..kept[1].1 });
    match manager.candidate_with_mode("DP-9", "2560x1440@143973mHz") {
        Err(error @ OutputError::NoSuchOutput { .. }) => {
            assert_eq!(error.message(), "Output 'DP-9' is not connected")
        }
        _ => panic!("there is no such output"),
    }
    assert!(matches!(
        manager.candidate_with_mode("DP-1", "2560x1440@143973mHz"),
        Err(OutputError::NoSuchMode { .. })
    ));
    assert!(matches!(
        OutputManager::new().snapshot_configuration(),
        Err(OutputError::NotInitialized)
    ));
}

#[test]
fn an_enabled_output_without_a_mode_cannot_be_kept() {
    let mut state = WaylandState::new();
    state.head_event(1, HeadEvent::Name { name: "A".to_string() });
    state.head_event(1, HeadEvent::Enabled { enabled: 1 });
    state.manager_event(ManagerEvent::Done { serial: 1 });
    match manager(state).snapshot_configuration() {
        Err(error @ OutputError::NoCurrentMode { .. }) => {
            assert_eq!(error.message(), "Output 'A' is enabled without a current mode")
        }
        _ => panic!("the output is in no mode"),
    }
}

#[test]
fn a_kept_state_can_be_submitted_again() {
    let mut manager = manager(connected());
    let kept = manager.snapshot_configuration().unwrap();
    let submission = manager.submit_configuration(&kept, Purpose::Apply).unwrap();
    assert_eq!(submission.serial, 7);
    assert_eq!(submission.requests.len(), 12);
    assert_eq!(submission.requests[0], ConfigurationRequest::EnableHead { head: 2 });
    assert_eq!(submission.requests[1], ConfigurationRequest::SetMode { mode: 2000 });
    let gone = vec![("DP-9".to_string(), kept[0].1)];
    match manager.submit_configuration(&gone, Purpose::Apply) {
        Err(error) => assert_eq!(error.message(), "Head 'DP-9' not found"),
        Ok(_) => panic!("the output is not connected"),
    }
    assert!(matches!(
        OutputManager::new().submit_configuration(&kept, Purpose::Apply),
        Err(OutputError::NotInitialized)
    ));
}

#[test]
fn modes_are_written_as_they_are_read() {
    let written = |refresh: i32| persistent_mode(&mode(2560, 1440, refresh, false));
    assert_eq!(written(144000), "2560x1440@144");
    assert_eq!(written(143973), "2560x1440@143.973");
    assert_eq!(written(59940), "2560x1440@59.94");
    assert_eq!(written(59900), "2560x1440@59.9");
    assert_eq!(written(60005), "2560x1440@60.005");
    assert_eq!(written(5), "2560x1440@0.005");
    assert_eq!(written(0), "2560x1440@0");
    assert_eq!(written(-1), "2560x1440@0.999");
    assert_eq!(written(-1500), "2560x1440@-1.5");
    let reader = output("DP-1");
    for refresh in [1, 999, 23976, 59940, 60000, 119880, 143973, 240001, i32::MAX] {
        assert_eq!(
            reader.parse_mode(&written(refresh)),
            Ok((2560, 1440, Some(refresh as u32)))
        );
    }
}

#[test]
fn a_written_mode_finds_its_mode_again() {
    let rates = [23976, 29970, 47952, 59940, 59951, 74973, 119880, 143973, 164999, 239761];
    let mut state = WaylandState::new();
    let offered: Vec<OutputMode> =
        rates.iter().map(|rate| mode(1920, 1080, *rate, false)).collect();
    announce(&mut state, 1, "A", 100, &offered);
    state.manager_event(ManagerEvent::Done { serial: 1 });
    let manager = manager(state);
    for offered in offered {
        let text = persistent_mode(&offered);
        assert_eq!(manager.find_mode("A", &text), Some(offered), "{text}");
    }
}

#[test]
fn a_written_mode_is_not_mistaken_for_a_neighbour() {
    let found = |rates: &[i32]| {
        let mut state = WaylandState::new();
        let offered: Vec<OutputMode> =
            rates.iter().map(|rate| mode(1920, 1080, *rate, false)).collect();
        announce(&mut state, 1, "A", 100, &offered);
        state.manager_event(ManagerEvent::Done { serial: 1 });
        let text = persistent_mode(&mode(1920, 1080, 32001, false));
        assert_eq!(text, "1920x1080@32.001");
        manager(state).find_mode("A", &text).unwrap().refresh_mhz
    };
    assert_eq!(found(&[31000, 32001, 33000]), 32001);
    assert_eq!(found(&[32001, 32000]), 32001);
    assert_eq!(found(&[32000, 31999, 32001, 32002]), 32001);
}

#[test]
fn updates_reach_known_outputs() {
    let mut state = connected();
    let before = state.heads.get("DP-2").unwrap().clone();
    let other = format!("{:?}", state.heads.get("DP-1").unwrap());
    let mut expected = before.clone();
    let mut check = |state: &mut WaylandState, expected: &nagame::wayland::OutputHead| {
        state.manager_event(ManagerEvent::Done { serial: 8 });
        assert_eq!(format!("{:?}", state.heads.get("DP-2").unwrap()), format!("{expected:?}"));
        assert_eq!(format!("{:?}", state.heads.get("DP-1").unwrap()), other);
    };

    state.head_event(1, HeadEvent::Position { x: 3, y: 4 });
    expected.position = Some((3, 4));
    check(&mut state, &expected);
    state.head_event(1, HeadEvent::Scale { scale: scale(2.0) });
    state.head_event(1, HeadEvent::Transform { transform: 1 });
    expected.scale = scale(2.0);
    expected.transform = Transform::Rotate90;
    check(&mut state, &expected);
    state.head_event(1, HeadEvent::CurrentMode { mode: 1002 });
    expected.current_mode = Some(modes()[2]);
    check(&mut state, &expected);
    state.head_event(1, HeadEvent::CurrentMode { mode: 9999 });
    check(&mut state, &expected);
    state.head_event(1, HeadEvent::AdaptiveSync { state: 0 });
    state.head_event(1, HeadEvent::Name { name: "DP-2".to_string() });
    expected.adaptive_sync = Some(false);
    check(&mut state, &expected);
    state.head_event(1, HeadEvent::Enabled { enabled: 0 });
    assert!(state.heads.get("DP-2").unwrap().enabled);
    expected.enabled = false;
    check(&mut state, &expected);

    let added = mode(800, 600, 60000, false);
    state.head_event(1, HeadEvent::Mode { mode: 1500 });
    state.mode_event(1500, ModeEvent::Size { width: 800, height: 600 });
    state.mode_event(1500, ModeEvent::Refresh { refresh: 60000 });
    expected.modes.push(added);
    check(&mut state, &expected);
    assert_eq!(before.modes.len() + 1, expected.modes.len());
}

#[test]
fn updates_reach_the_entry_of_the_last_name() {
    let mut state = connected();
    state.head_event(1, HeadEvent::Name { name: "DP-9".to_string() });
    state.manager_event(ManagerEvent::Done { serial: 8 });
    let old = format!("{:?}", state.heads.get("DP-2").unwrap());
    let mut expected = state.heads.get("DP-9").unwrap().clone();
    assert_eq!(expected.id, 1);

    state.head_event(1, HeadEvent::Position { x: 30, y: 40 });
    state.manager_event(ManagerEvent::Done { serial: 9 });
    expected.position = Some((30, 40));
    assert_eq!(format!("{:?}", state.heads.get("DP-9").unwrap()), format!("{expected:?}"));
    assert_eq!(format!("{:?}", state.heads.get("DP-2").unwrap()), old);
}

#[test]
fn connecting_is_tried_five_times() {
    let mut attempt = ConnectAttempt::first();
    let mut waits = vec![];
    while let Some((wait, next)) = attempt.failed() {
        waits.push(wait);
        attempt = next;
    }
    assert_eq!(waits, vec![500, 1000, 2000, 4000]);
}
