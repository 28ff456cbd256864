use nagame::config::persistence::revision;
use nagame::config::{Config, OutputConfig, Profile};
use nagame::daemon::{
    heartbeat_seconds, mentions_path, output_identities, wayland_connection_lost, FileStep,
    Incoming, OutputChange, OutputStep, OutputsSeen, PreviewRequest, Reply, ShutdownStep, Step, Task, Turn,
};
use nagame::ipc::{ClientRequest, ServerEvent};
use nagame::profile::ProfileManager;
use nagame::wayland::protocols::{
    ConfigurationRequest, HeadEvent, ManagerEvent, ModeEvent, WaylandState,
};
use nagame::wayland::output::Purpose;
use nagame::wayland::OutputManager;
use nagame::NagameDaemon;

const SOURCE: &str = r#"# displays
[[profile]]
name = "desk"

  [[profile.output]]
  name = "DP-1"
  mode = "1920x1080@60" # usual

  [[profile.output]]
  name = "*"
"#;

const OWNER: u64 = 11;
const OTHER: u64 = 22;

fn output(name: &str, mode: Option<&str>) -> OutputConfig {
    let mut output = OutputConfig::new(name.to_string());
    output.mode = mode.map(str::to_string);
    output
}

fn config(mode: &str) -> Config {
    Config {
        profiles: vec![Profile {
            name: "desk".to_string(),
            outputs: vec![output("DP-1", Some(mode)), output("*", None)],
            commands: vec![],
            wallpaper: None,
            wallpaper_dir: None,
        }],
    }
}

fn announce(state: &mut WaylandState, id: u32, name: &str) {
    state.head_event(id, HeadEvent::Name { name: name.to_string() });
    for (offset, refresh) in [60000, 59940, 143973].iter().enumerate() {
        let mode = 1000 * id + offset as u32;
        state.head_event(id, HeadEvent::Mode { mode });
        state.mode_event(mode, ModeEvent::Size { width: 1920, height: 1080 });
        state.mode_event(mode, ModeEvent::Refresh { refresh: *refresh });
    }
    state.head_event(id, HeadEvent::Enabled { enabled: 1 });
    state.head_event(id, HeadEvent::CurrentMode { mode: 1000 * id });
}

fn connected() -> OutputManager {
    let mut state = WaylandState::new();
    state.registry_event("zwlr_output_manager_v1");
    announce(&mut state, 1, "DP-1");
    announce(&mut state, 2, "DP-2");
    state.manager_event(ManagerEvent::Done { serial: 40 });
    OutputManager { wayland_client: Some(state) }
}

fn daemon() -> NagameDaemon {
    let mut daemon = NagameDaemon::new(
        "/config.toml".to_string(),
        config("1920x1080@60"),
        SOURCE,
        connected(),
        ProfileManager::new(),
    );
    daemon.profile_manager.activated("desk", true);
    daemon
}

fn request(mode_id: &str) -> PreviewRequest {
    PreviewRequest {
        client: OWNER,
        output: "DP-1".to_string(),
        mode_id: mode_id.to_string(),
        profile: "desk".to_string(),
        revision: revision(SOURCE),
    }
}

fn asks_preview(mode_id: &str) -> Incoming {
    let PreviewRequest { client, output, mode_id, profile, revision } = request(mode_id);
    Incoming::Request {
        client,
        request: ClientRequest::Preview { output, mode_id, profile, revision },
    }
}

fn confirms(client: u64, id: &str) -> Incoming {
    Incoming::Request {
        client,
        request: ClientRequest::Confirm { transaction_id: id.to_string() },
    }
}

fn reverts(client: u64, id: &str) -> Incoming {
    Incoming::Request {
        client,
        request: ClientRequest::Revert { transaction_id: id.to_string() },
    }
}

fn line(reply: &Reply) -> String {
    let text = match &reply.event {
        ServerEvent::Outputs { outputs, active_profile, supported, .. } => {
            format!("outputs {} {:?} {}", outputs.len(), active_profile, supported)
        }
        ServerEvent::PreviewStarted { transaction_id, remaining_ms } => {
            format!("started {transaction_id} {remaining_ms}")
        }
        ServerEvent::PreviewReverted { transaction_id, reason } => {
            format!("reverted {transaction_id} {reason}")
        }
        ServerEvent::PreviewConfirmed { transaction_id, .. } => format!("confirmed {transaction_id}"),
        ServerEvent::ConfirmCompleted { transaction_id, .. } => format!("kept {transaction_id}"),
        ServerEvent::RevertCompleted { transaction_id } => format!("undone {transaction_id}"),
        ServerEvent::Error { code, message } => format!("{code}: {message}"),
    };
    format!("{}: {}", reply.client, text)
}

fn lines(step: &Step) -> Vec<String> {
    step.replies.iter().map(line).collect()
}

fn answers(step: &Step) -> Vec<String> {
    assert!(matches!(step.task, Task::Idle), "{:?}", step.task);
    lines(step)
}

/// Previews a mode on a daemon without previews, and returns the name of the transaction.
fn preview(daemon: &mut NagameDaemon, now: u64) -> String {
    let step = daemon.handle_display_request(asks_preview("1920x1080@143973mHz"), now);
    let Task::ReadForPreview(request) = step.task else { panic!("the file is read first") };
    let step = daemon.preview_read(request, Ok(SOURCE.to_string()));
    let Task::TestPreview(candidate, submission) = step.task else { panic!("then it is tested") };
    assert_eq!(submission.serial, 40);
    assert_eq!(submission.purpose, Purpose::Test);
    assert_eq!(
        submission.requests[..2],
        [
            ConfigurationRequest::EnableHead { head: 1 },
            ConfigurationRequest::SetMode { mode: 1002 },
        ]
    );
    let step = daemon.preview_tested(candidate, Ok(()));
    let Task::ApplyPreview(candidate, submission) = step.task else { panic!("then applied") };
    assert_eq!(submission.purpose, Purpose::Apply);
    assert_eq!(submission.requests[1], ConfigurationRequest::SetMode { mode: 1002 });
    let step = daemon.preview_applied(candidate, Ok(()), now);
    let Task::AnnouncePreview(reply, id) = step.task else { panic!("then announced") };
    assert_eq!(line(&reply), format!("11: started {id} 15000"));
    assert!(answers(&daemon.preview_announced(&id, true, now)).is_empty());
    assert_eq!(daemon.previews.deadline(), Some(now + 15000));
    id
}

/// The step that restores the outputs is asked for, and succeeds.
fn restored(daemon: &mut NagameDaemon, step: Step, now: u64) -> Vec<String> {
    assert!(step.replies.is_empty());
    let Task::Restore(restoration, submission) = step.task else { panic!("{:?}", step.task) };
    assert_eq!(submission.purpose, Purpose::Apply);
    assert_eq!(
        submission.requests[..2],
        [
            ConfigurationRequest::EnableHead { head: 1 },
            ConfigurationRequest::SetMode { mode: 1000 },
        ]
    );
    let step = daemon.restored(restoration, Ok(()), now);
    answers(&step)
}

#[test]
fn outputs_are_listed_for_clients() {
    let mut daemon = daemon();
    let step = daemon.handle_display_request(
        Incoming::Request { client: OTHER, request: ClientRequest::Outputs },
        0,
    );
    assert_eq!(answers(&step), vec!["22: outputs 2 Some(\"desk\") true"]);
    let ServerEvent::Outputs { outputs, revision: shown, .. } = &step.replies[0].event else {
        panic!("outputs are listed")
    };
    assert_eq!(*shown, revision(SOURCE));
    assert_eq!(outputs[0].connector, "DP-1");
    assert_eq!(outputs[0].current_mode_id.as_deref(), Some("1920x1080@60000mHz"));
    assert_eq!(outputs[0].modes.len(), 3);
}

#[test]
fn a_preview_that_is_not_confirmed_ends_in_time() {
    let mut daemon = daemon();
    let id = preview(&mut daemon, 100);
    assert_eq!(id, "preview-1");
    assert!(answers(&daemon.preview_timeout(15099)).is_empty());
    assert!(daemon.previews.is_pending());
    let step = daemon.preview_timeout(15100);
    assert_eq!(restored(&mut daemon, step, 15100), vec!["11: reverted preview-1 timeout"]);
    assert!(!daemon.previews.is_pending());
    let step = daemon.handle_display_request(reverts(OTHER, "preview-1"), 15200);
    assert_eq!(answers(&step), vec!["22: undone preview-1"]);
    let step = daemon.handle_display_request(confirms(OTHER, "preview-1"), 15200);
    assert_eq!(
        answers(&step),
        vec!["22: no_pending_preview: There is no pending display preview"]
    );
    assert_eq!(preview(&mut daemon, 20000), "preview-2");
}

#[test]
fn only_one_preview_is_pending() {
    let mut daemon = daemon();
    preview(&mut daemon, 0);
    let step = daemon.handle_display_request(asks_preview("1920x1080@59940mHz"), 1);
    assert_eq!(
        answers(&step),
        vec!["11: preview_busy: Another display preview is already pending"]
    );
    for incoming in [reverts(OTHER, "preview-7"), confirms(OTHER, "preview-7")] {
        let step = daemon.handle_display_request(incoming, 1);
        assert_eq!(
            answers(&step),
            vec!["22: transaction_mismatch: The display preview transaction no longer matches"]
        );
    }
    assert!(daemon.previews.is_pending());
}

#[test]
fn a_preview_is_reverted_on_request() {
    let mut daemon = daemon();
    let id = preview(&mut daemon, 0);
    let step = daemon.handle_display_request(reverts(OTHER, &id), 5);
    assert_eq!(
        restored(&mut daemon, step, 6),
        vec!["11: reverted preview-1 manual", "22: undone preview-1"]
    );
}

#[test]
fn a_preview_ends_with_its_client() {
    let mut daemon = daemon();
    preview(&mut daemon, 0);
    let step = daemon.handle_display_request(Incoming::Disconnected(OTHER), 5);
    assert!(answers(&step).is_empty());
    let step = daemon.handle_display_request(Incoming::Disconnected(OWNER), 5);
    assert_eq!(
        restored(&mut daemon, step, 6),
        vec!["11: reverted preview-1 client_disconnected"]
    );
    let step = daemon.handle_display_request(Incoming::Disconnected(OWNER), 7);
    assert!(answers(&step).is_empty());
}

#[test]
fn a_preview_that_cannot_be_announced_is_reverted() {
    let mut daemon = daemon();
    let id = preview(&mut daemon, 0);
    assert!(answers(&daemon.preview_announced("preview-9", false, 1)).is_empty());
    let step = daemon.preview_announced(&id, false, 1);
    assert_eq!(
        restored(&mut daemon, step, 1),
        vec!["11: reverted preview-1 client_disconnected"]
    );
}

#[test]
fn a_failed_revert_is_tried_again_after_a_second() {
    let mut daemon = daemon();
    let id = preview(&mut daemon, 0);
    let step = daemon.handle_display_request(reverts(OTHER, &id), 100);
    let Task::Restore(restoration, _) = step.task else { panic!("the outputs are restored") };
    let step = daemon.restored(restoration, Err("Output configuration failed".to_string()), 200);
    assert_eq!(
        answers(&step),
        vec![
            "11: revert_failed: Output configuration failed",
            "22: revert_failed: Output configuration failed",
        ]
    );
    assert_eq!(daemon.previews.deadline(), Some(1200));
    let step = daemon.preview_timeout(1200);
    assert_eq!(restored(&mut daemon, step, 1201), vec!["11: reverted preview-1 timeout"]);

    preview(&mut daemon, 2000);
    daemon.output_manager.wayland_client.as_mut().unwrap().available = false;
    let step = daemon.revert_pending_preview("daemon_shutdown", 3000);
    assert_eq!(answers(&step), vec!["11: revert_failed: Output manager not available"]);
    assert_eq!(daemon.previews.deadline(), Some(4000));
    assert!(daemon.previews.is_pending());
}

#[test]
fn every_refusal_of_a_preview_has_its_code() {
    let refused = |daemon: &mut NagameDaemon, request: PreviewRequest, content: &str| {
        let step = daemon.preview_read(request, Ok(content.to_string()));
        answers(&step).remove(0)
    };
    let wanted = "1920x1080@143973mHz";
    let changed = "The display configuration changed elsewhere. Refresh and try again.";
    let mut daemon = daemon();
    let step = daemon.preview_read(request(wanted), Err("gone".to_string()));
    assert_eq!(answers(&step), vec!["11: config_read_failed: gone"]);
    assert_eq!(
        refused(&mut daemon, request(wanted), "other"),
        format!("11: config_conflict: {changed}")
    );
    let mut stale = request(wanted);
    stale.revision = revision("other");
    assert_eq!(
        refused(&mut daemon, stale, "other"),
        format!("11: config_conflict: {changed}")
    );
    let mut other = request(wanted);
    other.profile = "lap".to_string();
    assert_eq!(
        refused(&mut daemon, other, SOURCE),
        "11: profile_changed: The active display profile changed. Refresh and try again."
    );
    let mut other = request(wanted);
    other.output = "DP-3".to_string();
    assert_eq!(
        refused(&mut daemon, other, SOURCE),
        "11: invalid_profile_target: Output 'DP-3' is not part of active profile 'desk'"
    );
    assert_eq!(
        refused(&mut daemon, request("1x1@1mHz"), SOURCE),
        "11: invalid_profile_target: Mode '1x1@1mHz' is not advertised by output 'DP-1'"
    );
    daemon.config.profiles[0].name = "renamed".to_string();
    assert_eq!(
        refused(&mut daemon, request(wanted), SOURCE),
        "11: invalid_profile_target: Profile 'desk' no longer exists"
    );
    daemon.config = config("1920x1080@60");
    daemon.output_manager.wayland_client.as_mut().unwrap().available = false;
    assert_eq!(
        refused(&mut daemon, request(wanted), SOURCE),
        "11: compositor_test_failed: Output manager not available"
    );
    let state = daemon.output_manager.wayland_client.as_mut().unwrap();
    state.available = true;
    state.heads.entries[1].1.current_mode = None;
    assert_eq!(
        refused(&mut daemon, request(wanted), SOURCE),
        "11: invalid_live_state: Output 'DP-2' is enabled without a current mode"
    );
    assert!(!daemon.previews.is_pending());
}

#[test]
fn the_compositor_can_refuse_a_preview() {
    let mut daemon = daemon();
    let step = daemon.preview_read(request("1920x1080@143973mHz"), Ok(SOURCE.to_string()));
    let Task::TestPreview(candidate, _) = step.task else { panic!("it is tested") };
    let again = candidate.clone();
    let step = daemon.preview_tested(candidate, Err("no".to_string()));
    assert_eq!(answers(&step), vec!["11: compositor_test_failed: no"]);
    let step = daemon.preview_applied(again, Err("never".to_string()), 0);
    assert_eq!(answers(&step), vec!["11: compositor_apply_failed: never"]);
    assert!(!daemon.previews.is_pending());
}

#[test]
fn the_target_of_a_preview_is_found_by_position() {
    let daemon = daemon();
    let target = |output: &str, mode: &str| {
        daemon.preview_persistence_target("desk", output, mode)
    };
    assert_eq!(
        target("DP-1", "1920x1080@143973mHz"),
        Ok((0, "1920x1080@143.973".to_string()))
    );
    assert_eq!(target("DP-2", "1920x1080@60000mHz"), Ok((1, "1920x1080@60".to_string())));
}

/// Asks for a preview to be kept and returns the text that the file is to be replaced by.
fn changed_text(daemon: &mut NagameDaemon, id: &str, now: u64) -> (nagame::daemon::Confirmation, String) {
    let step = daemon.handle_display_request(confirms(OTHER, id), now);
    let Task::ReadForConfirm(confirmation) = step.task else { panic!("the file is read") };
    let step = daemon.confirm_read(confirmation, Ok(SOURCE.to_string()), now);
    let Task::DecodeForConfirm(confirmation, text) = step.task else { panic!("it is changed") };
    (confirmation, text)
}

#[test]
fn a_confirmed_preview_is_written_down() {
    let mut daemon = daemon();
    let id = preview(&mut daemon, 0);
    let (confirmation, text) = changed_text(&mut daemon, &id, 10);
    assert_eq!(text, SOURCE.replace("1920x1080@60", "1920x1080@143.973"));
    let decoded = config("1920x1080@143.973");
    let step = daemon.confirm_decoded(confirmation, text.clone(), Some(decoded), 11);
    let Task::WriteForConfirm(confirmation, written, decoded) = step.task else {
        panic!("it is written")
    };
    assert_eq!(written, text);
    let step = daemon.confirm_written(confirmation, written, decoded, Ok(()), 12);
    assert_eq!(answers(&step), vec!["11: confirmed preview-1", "22: kept preview-1"]);
    assert_eq!(daemon.config_revision, revision(&text));
    assert_eq!(daemon.config.profiles[0].outputs[0].mode.as_deref(), Some("1920x1080@143.973"));
    assert!(!daemon.previews.is_pending());
    assert!(matches!(daemon.config_file_changed(&Some(text), 13), FileStep::Unchanged));
    assert!(matches!(daemon.preview_timeout(20000).task, Task::Idle));
    let step = daemon.handle_display_request(confirms(OTHER, &id), 13);
    assert_eq!(answers(&step), vec!["22: kept preview-1"]);
    let step = daemon.handle_display_request(reverts(OTHER, &id), 13);
    assert_eq!(
        answers(&step),
        vec!["22: no_pending_preview: There is no pending display preview"]
    );
}

#[test]
fn a_newer_configuration_wins_over_a_preview() {
    let mut daemon = daemon();
    let id = preview(&mut daemon, 0);
    let step = daemon.handle_display_request(confirms(OTHER, &id), 5);
    let Task::ReadForConfirm(confirmation) = step.task else { panic!("the file is read") };
    let step = daemon.confirm_read(confirmation, Ok("# newer".to_string()), 6);
    assert_eq!(
        restored(&mut daemon, step, 7),
        vec![
            "11: reverted preview-1 configuration_changed",
            "22: config_conflict: The display configuration changed elsewhere. \
             The newer configuration won.",
        ]
    );
    assert_eq!(daemon.config_revision, revision(SOURCE));
}

#[test]
fn every_failure_to_write_a_preview_down_has_its_code() {
    let mut daemon = daemon();
    let id = preview(&mut daemon, 0);
    let step = daemon.handle_display_request(confirms(OTHER, &id), 5);
    let Task::ReadForConfirm(confirmation) = step.task else { panic!("the file is read") };
    let step = daemon.confirm_read(confirmation, Err("gone".to_string()), 6);
    assert_eq!(
        restored(&mut daemon, step, 7),
        vec!["11: reverted preview-1 persistence_failed", "22: config_read_failed: gone"]
    );

    let id = preview(&mut daemon, 100);
    let step = daemon.handle_display_request(confirms(OTHER, &id), 105);
    let Task::ReadForConfirm(mut confirmation) = step.task else { panic!("the file is read") };
    confirmation.preview.payload.output_index = 5;
    let step = daemon.confirm_read(confirmation, Ok(SOURCE.to_string()), 106);
    assert_eq!(
        restored(&mut daemon, step, 107),
        vec![
            "11: reverted preview-2 persistence_failed",
            "22: config_update_failed: Output index 5 no longer exists in profile 'desk'",
        ]
    );

    for decoded in [None, Some(Config { profiles: vec![] })] {
        let id = preview(&mut daemon, 200);
        let (confirmation, text) = changed_text(&mut daemon, &id, 201);
        let step = daemon.confirm_decoded(confirmation, text, decoded, 202);
        assert_eq!(
            restored(&mut daemon, step, 203)[1],
            "22: config_update_failed: Updated configuration is invalid"
        );
    }

    let id = preview(&mut daemon, 300);
    let (confirmation, text) = changed_text(&mut daemon, &id, 301);
    let decoded = config("1920x1080@143.973");
    let step =
        daemon.confirm_written(confirmation, text, decoded, Err("full".to_string()), 302);
    let Task::Restore(restoration, _) = step.task else { panic!("the outputs are restored") };
    let step = daemon.restored(restoration, Err("no".to_string()), 303);
    assert_eq!(
        answers(&step),
        vec![
            "11: revert_failed: no",
            "22: revert_failed: full; the preview also failed to revert: no",
        ]
    );
    assert_eq!(daemon.config_revision, revision(SOURCE));
    assert!(daemon.previews.is_pending());
}

fn seen(daemon: &NagameDaemon) -> OutputsSeen {
    OutputsSeen {
        generation: daemon.output_manager.configuration_generation(),
        outputs: output_identities(&daemon.output_manager),
    }
}

#[test]
fn changes_of_outputs_cancel_a_preview() {
    let mut daemon = daemon();
    let mut seen = seen(&daemon);
    assert_eq!(seen.outputs, vec![("DP-1".to_string(), 1), ("DP-2".to_string(), 2)]);
    assert!(matches!(daemon.apply_output_changes(&mut seen), OutputStep::Nothing));
    preview(&mut daemon, 0);
    daemon.output_manager.wayland_client.as_mut().unwrap().head_event(2, HeadEvent::Finished);
    let OutputStep::Changed { change, replies } = daemon.apply_output_changes(&mut seen) else {
        panic!("an output has gone")
    };
    assert_eq!(change, OutputChange::Changed);
    assert_eq!(replies.iter().map(line).collect::<Vec<_>>(), vec![
        "11: reverted preview-1 outputs_changed"
    ]);
    assert_eq!(seen.outputs, vec![("DP-1".to_string(), 1)]);
    assert_eq!(daemon.profile_manager.current_profile(), None);
    assert!(!daemon.previews.is_pending());
    let step = daemon.handle_display_request(reverts(OTHER, "preview-1"), 9);
    assert_eq!(answers(&step), vec!["22: undone preview-1"]);
}

#[test]
fn changes_of_outputs_are_told_apart() {
    let mut daemon = daemon();
    let mut seen = seen(&daemon);
    let state = daemon.output_manager.wayland_client.as_mut().unwrap();
    state.head_event(1, HeadEvent::Finished);
    announce(state, 5, "DP-1");
    state.manager_event(ManagerEvent::Done { serial: 41 });
    assert!(matches!(
        daemon.events_handled(&mut seen, Ok(true)),
        Turn::Outputs(OutputStep::Changed { change: OutputChange::Rebuilt, .. })
    ));
    let state = daemon.output_manager.wayland_client.as_mut().unwrap();
    state.manager_event(ManagerEvent::Done { serial: 42 });
    assert!(matches!(
        daemon.events_handled(&mut seen, Ok(true)),
        Turn::Outputs(OutputStep::Nothing)
    ));
    daemon.profile_manager.activated("desk", true);
    let state = daemon.output_manager.wayland_client.as_mut().unwrap();
    state.head_event(5, HeadEvent::Finished);
    state.head_event(2, HeadEvent::Finished);
    assert!(matches!(
        daemon.events_handled(&mut seen, Ok(true)),
        Turn::Outputs(OutputStep::Changed { change: OutputChange::AllDisconnected, .. })
    ));
    assert!(daemon.profile_manager.current_profile().is_some());
    let state = daemon.output_manager.wayland_client.as_mut().unwrap();
    announce(state, 6, "HDMI-1");
    state.manager_event(ManagerEvent::Done { serial: 43 });
    assert!(matches!(
        daemon.events_handled(&mut seen, Ok(true)),
        Turn::Outputs(OutputStep::Changed { change: OutputChange::Connected, .. })
    ));
    let state = daemon.output_manager.wayland_client.as_mut().unwrap();
    state.head_event(7, HeadEvent::Name { name: "X".to_string() });
    state.head_event(7, HeadEvent::Enabled { enabled: 1 });
    state.manager_event(ManagerEvent::Done { serial: 44 });
    assert!(matches!(
        daemon.events_handled(&mut seen, Ok(true)),
        Turn::Outputs(OutputStep::Restart)
    ));
}

#[test]
fn a_lost_connection_is_recognized() {
    let mut daemon = daemon();
    let mut seen = seen(&daemon);
    let mut turn = |outcome: Result<bool, String>| daemon.events_handled(&mut seen, outcome);
    assert!(matches!(turn(Ok(false)), Turn::Nothing));
    assert!(matches!(turn(Err("Broken pipe (os error 32)".to_string())), Turn::Lost));
    assert!(matches!(turn(Err("read: Connection reset by peer".to_string())), Turn::Lost));
    assert!(matches!(turn(Err("Protocol error".to_string())), Turn::Nothing));
    assert!(wayland_connection_lost("Broken pipe"));
    assert!(!wayland_connection_lost("broken pipe"));
    assert_eq!((heartbeat_seconds(true), heartbeat_seconds(false)), (60, 1));
}

#[test]
fn a_changed_file_is_reloaded_once() {
    let mut daemon = daemon();
    let same = Some(SOURCE.to_string());
    assert!(matches!(daemon.config_file_changed(&same, 0), FileStep::Unchanged));
    for content in [None, Some("# other".to_string())] {
        let FileStep::Reload(step) = daemon.config_file_changed(&content, 0) else {
            panic!("the file has changed")
        };
        assert!(answers(&step).is_empty());
    }
    preview(&mut daemon, 0);
    let FileStep::Reload(step) = daemon.config_file_changed(&None, 5) else {
        panic!("the file has changed")
    };
    assert_eq!(
        restored(&mut daemon, step, 6),
        vec!["11: reverted preview-1 configuration_changed"]
    );
    assert!(!daemon.reload_config("# other", None));
    assert!(!daemon.reload_config("# other", Some(Config { profiles: vec![] })));
    assert_eq!(daemon.config_revision, revision(SOURCE));
    assert!(daemon.reload_config("# other", Some(config("1920x1080"))));
    assert_eq!(daemon.config_revision, revision("# other"));
    assert_eq!(daemon.config.profiles[0].outputs[0].mode.as_deref(), Some("1920x1080"));
    assert_eq!(daemon.profile_manager.current_profile(), None);
    assert_eq!(daemon.profile_manager.last_applied_profile.as_deref(), Some("desk"));
}

#[test]
fn only_the_configuration_file_matters() {
    let paths = vec!["/a".to_string(), "/config.toml".to_string()];
    assert!(mentions_path(&paths, "/config.toml"));
    assert!(!mentions_path(&paths, "/config"));
    assert!(!mentions_path(&vec![], "/config.toml"));
}

#[test]
fn shutting_down_reverts_then_remembers_then_ends() {
    let mut daemon = daemon();
    let id = preview(&mut daemon, 0);
    let first = daemon.shut_down(10);
    for success in [true, false] {
        let second = first.done(success);
        assert!(matches!(second, ShutdownStep::SaveWallpaper));
        assert!(matches!(second.done(success), ShutdownStep::End));
        assert!(matches!(ShutdownStep::End.done(success), ShutdownStep::End));
    }
    let ShutdownStep::Revert(step) = first else { panic!("{first:?}") };
    let told = restored(&mut daemon, step, 10);
    assert_eq!(told, vec![format!("11: reverted {id} daemon_shutdown")]);
    let ShutdownStep::Revert(step) = daemon.shut_down(11) else { panic!("first") };
    assert!(matches!(step.task, Task::Idle));
    assert!(step.replies.is_empty());
}

#[test]
fn a_preview_restores_what_the_compositor_said_last() {
    let mut daemon = daemon();
    let mut state = daemon.output_manager.wayland_client.take().unwrap();
    state.head_event(1, HeadEvent::Position { x: 77, y: -5 });
    state.manager_event(ManagerEvent::Done { serial: 40 });
    daemon.output_manager.wayland_client = Some(state);
    preview(&mut daemon, 0);
    let step = daemon.revert_pending_preview("manual", 1);
    let Task::Restore(_, submission) = step.task else { panic!("restored") };
    assert!(submission.requests.contains(&ConfigurationRequest::SetPosition { x: 77, y: -5 }));
}
