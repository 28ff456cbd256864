//! The daemon: previews of display modes, changes of outputs, and changes of the configuration.
//!
//! What touches the machine is not done here. Each function says what is to be done next, and another
//! one is handed the outcome.

use crate::config::persistence::{
    hex, mode_target, revision, sha256, toml_content, update_message, update_output_mode, with_mode,
};
use crate::config::{valid_config, Config};
use crate::ipc::{is_error, shows_head, ClientRequest, DisplayOutput, ServerEvent};
use crate::preview::{
    transaction_text, Completion, ConfirmRequest, Finding, PendingPreview, PreviewState,
    RevertRequest,
};
use crate::profile::matcher::{
    a_resolution_pairs_outputs, head_views, resolution, resolve_profile_outputs,
};
use crate::profile::{find_profile, is_named, profile_named, ProfileManager};
use crate::text::{contains_text, holds_text, quoted, same_text};
use crate::wayland::output::{
    configuration_view, first_modeless, live_configuration, mode_with_id, find_mode_by_id,
    with_output_mode, OutputManager, Purpose, Submission,
};
use crate::wayland::persistent::{persistent_mode, persistent_text};
use crate::wayland::protocols::{HeadConfiguration, HeadView, OutputMode};
use vstd::prelude::*;

verus! {

// ---------------------------------------------------------------------------------------------
// The state
// ---------------------------------------------------------------------------------------------

/// What is needed to end a preview.
#[derive(Clone, Debug)]
pub struct PreviewPayload {
    /// The configuration of the outputs before the preview.
    pub before: Vec<(String, HeadConfiguration)>,
    /// The revision of the configuration file that the preview was asked for.
    pub config_revision: String,
    /// The mode as it is to be written down.
    pub mode: String,
    /// The place of the output in the profile.
    pub output_index: usize,
    /// The profile.
    pub profile: String,
}

/// The last outputs that the daemon has acted on.
#[derive(Clone, Debug)]
pub struct OutputsSeen {
    /// The count of configurations and disconnections then.
    pub generation: u64,
    /// Names and numbers of the outputs, sorted.
    pub outputs: Vec<(String, u32)>,
}

/// The daemon.
pub struct NagameDaemon {
    pub config_path: String,
    pub config: Config,
    pub config_revision: String,
    pub output_manager: OutputManager,
    pub profile_manager: ProfileManager,
    pub previews: PreviewState<PreviewPayload>,
}

/// An event for the client with this number.
#[derive(Clone, Debug)]
pub struct Reply {
    pub client: u64,
    pub event: ServerEvent,
}

/// What a client wants to preview.
#[derive(Clone, Debug)]
pub struct PreviewRequest {
    pub client: u64,
    pub output: String,
    pub mode_id: String,
    pub profile: String,
    pub revision: String,
}

/// A preview that is being tried at the compositor.
#[derive(Clone, Debug)]
pub struct Candidate {
    pub client: u64,
    /// What is asked of the outputs.
    pub configuration: Vec<(String, HeadConfiguration)>,
    pub payload: PreviewPayload,
}

/// A preview that is being written down, and who has asked for that.
#[derive(Clone, Debug)]
pub struct Confirmation {
    pub client: u64,
    pub preview: PendingPreview<PreviewPayload>,
}

/// What follows once outputs are restored, or could not be.
#[derive(Clone, Debug)]
pub enum AfterRestore {
    /// Nothing.
    Nothing,
    /// This client is told that the transaction is reverted.
    Answer { client: u64, transaction_id: String },
    /// This client is told of an error. If the outputs could not be restored, that is added to the
    /// message or takes its place.
    Report { client: u64, code: String, message: String, combined: bool },
}

/// A preview whose outputs are being restored, for this reason.
#[derive(Clone, Debug)]
pub struct Restoration {
    pub preview: PendingPreview<PreviewPayload>,
    pub reason: String,
    pub next: AfterRestore,
}

/// What is to be done at the machine, before anything else is handled.
#[derive(Clone, Debug)]
pub enum Task {
    /// Nothing.
    Idle,
    /// Read the configuration file.
    ReadForPreview(PreviewRequest),
    /// Test a configuration.
    TestPreview(Candidate, Submission),
    /// Apply a configuration.
    ApplyPreview(Candidate, Submission),
    /// Tell a client that the transaction has started.
    AnnouncePreview(Reply, String),
    /// Read the configuration file.
    ReadForConfirm(Confirmation),
    /// Decode a configuration.
    DecodeForConfirm(Confirmation, String),
    /// Replace the configuration file by this text, which is that of this configuration.
    WriteForConfirm(Confirmation, String, Config),
    /// Apply the configuration from before a preview.
    Restore(Restoration, Submission),
}

/// Events to send, and what is to be done then.
#[derive(Clone, Debug)]
pub struct Step {
    pub replies: Vec<Reply>,
    pub task: Task,
}

/// What comes from a client.
#[derive(Clone, Debug)]
pub enum Incoming {
    Request { client: u64, request: ClientRequest },
    /// The client with this number has gone.
    Disconnected(u64),
}

/// How long a preview lasts, in milliseconds.
pub const PREVIEW_MS: u64 = 15000;

/// How long after a failure the outputs are restored again, in milliseconds.
pub const RESTORE_RETRY_MS: u64 = 1000;

/// How often outputs are looked at even if the compositor says nothing, in seconds.
pub const HEARTBEAT_SECS: u64 = 60;

/// How often a connection to the compositor is tried, in seconds.
pub const RECONNECT_SECS: u64 = 1;

/// How often to look at the outputs, in seconds.
pub open spec fn heartbeat(connected: bool) -> u64 {
    if connected {
        HEARTBEAT_SECS
    } else {
        RECONNECT_SECS
    }
}

/// How often to look at the outputs, in seconds.
pub fn heartbeat_seconds(connected: bool) -> (seconds: u64)
    ensures
        seconds == heartbeat(connected),
{
    if connected {
        HEARTBEAT_SECS
    } else {
        RECONNECT_SECS
    }
}

/// Whether the connection to the compositor is lost, by the message of an error.
pub open spec fn means_lost(message: Seq<char>) -> bool {
    holds_text(message, "Broken pipe"@) || holds_text(message, "Connection reset"@)
}

/// Whether the connection to the compositor is lost, by the message of an error. The daemon ends then,
/// to be started anew with a fresh connection.
pub fn wayland_connection_lost(message: &str) -> (lost: bool)
    ensures
        lost == means_lost(message@),
{
    contains_text(message, "Broken pipe") || contains_text(message, "Connection reset")
}

/// Whether one of the paths is that of the configuration file.
pub fn mentions_path(paths: &Vec<String>, config_path: &str) -> (found: bool)
    ensures
        found == exists|i: int| 0 <= i < paths@.len() && (#[trigger] paths@[i])@ == config_path@,
{
    for i in 0..paths.len()
        invariant
            forall|j: int| 0 <= j < i ==> (#[trigger] paths@[j])@ != config_path@,
    {
        if same_text(paths[i].as_str(), config_path) {
            return true;
        }
    }
    false
}

// ---------------------------------------------------------------------------------------------
// Where a previewed mode is to be written down
// ---------------------------------------------------------------------------------------------

/// The first of the settings from `from` on that are for the output of this name.
pub open spec fn settings_for(
    chosen: Seq<int>,
    heads: Seq<HeadView>,
    output: Seq<char>,
    from: int,
) -> Option<int>
    decreases chosen.len() - from,
{
    if from < 0 || from >= chosen.len() {
        None
    } else if heads[chosen[from]].name == output {
        Some(from)
    } else {
        settings_for(chosen, heads, output, from + 1)
    }
}

impl NagameDaemon {
    /// The state of the outputs is well formed.
    pub open spec fn wf(self) -> bool {
        self.output_manager.wf()
    }

    /// Where and how a previewed mode is to be written down: the place of the output in the profile,
    /// and the mode. The error says why it cannot be.
    pub open spec fn target(
        self,
        profile_name: Seq<char>,
        output_name: Seq<char>,
        mode_id: Seq<char>,
    ) -> Result<(int, Seq<char>), Seq<char>> {
        match profile_named(self.config.profiles@, profile_name, 0) {
            None => Err("Profile '"@ + profile_name + "' no longer exists"@),
            Some(p) => {
                let heads = self.output_manager.listed();
                let place = match resolution(self.config.profiles@[p], heads) {
                    Some(chosen) => settings_for(chosen, heads, output_name, 0),
                    None => None,
                };
                let mode = match self.output_manager.named(output_name) {
                    Some(head) => mode_with_id(head.modes, mode_id),
                    None => None,
                };
                match (place, mode) {
                    (None, _) => Err(
                        "Output '"@ + output_name + "' is not part of active profile '"@
                            + profile_name + "'"@,
                    ),
                    (Some(_), None) => Err(
                        "Mode '"@ + mode_id + "' is not advertised by output '"@ + output_name
                            + "'"@,
                    ),
                    (Some(place), Some(mode)) => Ok((place, persistent_text(mode))),
                }
            },
        }
    }

    /// Where and how a previewed mode is to be written down.
    pub fn preview_persistence_target(
        &self,
        profile_name: &str,
        output_name: &str,
        mode_id: &str,
    ) -> (target: Result<(usize, String), String>)
        ensures
            match self.target(profile_name@, output_name@, mode_id@) {
                Ok((place, mode)) => target matches Ok((index, text)) && index == place && text@
                    == mode,
                Err(message) => target matches Err(text) && text@ == message,
            },
    {
        let p: usize = match find_profile(&self.config, profile_name) {
            Some(p) => p,
            None => {
                return Err(quoted("Profile '", profile_name, "' no longer exists"));
            },
        };
        let profile = &self.config.profiles[p];
        let heads = self.output_manager.get_heads();
        let ghost views = self.output_manager.listed();
        let mut place: Option<usize> = None;
        if let Some(resolved) = resolve_profile_outputs(profile, heads.as_slice()) {
            let ghost chosen = resolution(*profile, views)->0;
            proof {
                a_resolution_pairs_outputs(*profile, views);
            }
            let mut i: usize = 0;
            while i < resolved.len() && !same_text(resolved[i].1.as_str(), output_name)
                invariant
                    i <= resolved@.len(),
                    head_views(heads@) == views,
                    resolved@.len() == chosen.len() == views.len(),
                    forall|k: int|
                        0 <= k < chosen.len() ==> 0 <= #[trigger] chosen[k] < views.len(),
                    forall|k: int|
                        0 <= k < chosen.len() ==> (#[trigger] resolved@[k]).1@
                            == heads@[chosen[k]].name@,
                    settings_for(chosen, views, output_name@, 0) == settings_for(
                        chosen,
                        views,
                        output_name@,
                        i as int,
                    ),
                decreases resolved@.len() - i,
            {
                assert(views[chosen[i as int]] == heads@[chosen[i as int]]@);
                i = i + 1;
            }
            if i < resolved.len() {
                assert(views[chosen[i as int]] == heads@[chosen[i as int]]@);
                place = Some(i);
            }
        }
        let place: usize = match place {
            Some(place) => place,
            None => {
                let mut text = quoted(
                    "Output '",
                    output_name,
                    "' is not part of active profile '",
                );
                text.append(profile_name);
                text.append("'");
                return Err(text);
            },
        };
        let mode: Option<OutputMode> = match self.output_manager.get_head(output_name) {
            Some(head) => find_mode_by_id(&head.modes, mode_id),
            None => None,
        };
        match mode {
            Some(mode) => Ok((place, persistent_mode(&mode))),
            None => {
                let mut text = quoted("Mode '", mode_id, "' is not advertised by output '");
                text.append(output_name);
                text.append("'");
                Err(text)
            },
        }
    }
}

// ---------------------------------------------------------------------------------------------
// Steps
// ---------------------------------------------------------------------------------------------

/// The client is told of this error, and nothing else is to be done.
pub open spec fn refuses(step: Step, client: u64, code: Seq<char>, message: Seq<char>) -> bool {
    &&& step.task is Idle
    &&& step.replies@.len() == 1
    &&& step.replies@[0].client == client
    &&& is_error(step.replies@[0].event, code, message)
}

/// Nothing is sent and nothing is to be done.
pub open spec fn does_nothing(step: Step) -> bool {
    step.task is Idle && step.replies@.len() == 0
}

/// The daemons differ in their outputs and previews only.
pub open spec fn same_rest(before: NagameDaemon, after: NagameDaemon) -> bool {
    &&& after.config_path == before.config_path
    &&& after.config == before.config
    &&& after.config_revision == before.config_revision
    &&& after.profile_manager == before.profile_manager
}

fn idle() -> (step: Step)
    ensures
        does_nothing(step),
{
    Step { replies: Vec::new(), task: Task::Idle }
}

fn with_task(task: Task) -> (step: Step)
    ensures
        step.replies@.len() == 0,
        step.task == task,
{
    Step { replies: Vec::new(), task }
}

fn told(client: u64, event: ServerEvent) -> (step: Step)
    ensures
        step.task is Idle,
        step.replies@ == seq![Reply { client, event }],
{
    let mut replies: Vec<Reply> = Vec::new();
    replies.push(Reply { client, event });
    assert(replies@ =~= seq![Reply { client, event }]);
    Step { replies, task: Task::Idle }
}

fn refusal(client: u64, code: &str, message: &str) -> (step: Step)
    ensures
        refuses(step, client, code@, message@),
{
    told(client, ServerEvent::error(code, message))
}

// ---------------------------------------------------------------------------------------------
// Restoring
// ---------------------------------------------------------------------------------------------

/// What is told when the outputs could not be restored, for this reason: the owner of the preview gets
/// an error, and so does whoever else waits for it.
pub open spec fn failure_told(
    replies: Seq<Reply>,
    owner: u64,
    next: AfterRestore,
    fault: Seq<char>,
) -> bool {
    &&& replies.len() == if next is Nothing {
        1int
    } else {
        2
    }
    &&& replies[0].client == owner
    &&& is_error(replies[0].event, "revert_failed"@, fault)
    &&& match next {
        AfterRestore::Nothing => true,
        AfterRestore::Answer { client, .. } => replies[1].client == client && is_error(
            replies[1].event,
            "revert_failed"@,
            fault,
        ),
        AfterRestore::Report { client, message, combined, .. } => replies[1].client == client
            && is_error(
            replies[1].event,
            "revert_failed"@,
            if combined {
                message@ + "; the preview also failed to revert: "@ + fault
            } else {
                fault
            },
        ),
    }
}

/// The event says that the transaction was reverted for this reason.
pub open spec fn says_reverted(
    event: ServerEvent,
    transaction_id: Seq<char>,
    reason: Seq<char>,
) -> bool {
    event matches ServerEvent::PreviewReverted { transaction_id: id, reason: why } && id@
        == transaction_id && why@ == reason
}

/// The event answers a request to revert the transaction.
pub open spec fn says_revert_completed(event: ServerEvent, transaction_id: Seq<char>) -> bool {
    event matches ServerEvent::RevertCompleted { transaction_id: id } && id@ == transaction_id
}

/// The event answers a request to confirm the transaction.
pub open spec fn says_confirm_completed(
    event: ServerEvent,
    transaction_id: Seq<char>,
    revision: Seq<char>,
) -> bool {
    event matches ServerEvent::ConfirmCompleted { transaction_id: id, revision: r } && id@
        == transaction_id && r@ == revision
}

/// The event says that the transaction was confirmed.
pub open spec fn says_confirmed(
    event: ServerEvent,
    transaction_id: Seq<char>,
    revision: Seq<char>,
) -> bool {
    event matches ServerEvent::PreviewConfirmed { transaction_id: id, revision: r } && id@
        == transaction_id && r@ == revision
}

/// What is told when the outputs were restored: the owner of the preview hears of it, and whoever else
/// waits for it gets an answer.
pub open spec fn success_told(
    replies: Seq<Reply>,
    preview: PendingPreview<PreviewPayload>,
    reason: Seq<char>,
    next: AfterRestore,
) -> bool {
    &&& replies.len() == if next is Nothing {
        1int
    } else {
        2
    }
    &&& replies[0].client == preview.client_id
    &&& says_reverted(replies[0].event, preview.id@, reason)
    &&& match next {
        AfterRestore::Nothing => true,
        AfterRestore::Answer { client, transaction_id } => replies[1].client == client
            && says_revert_completed(replies[1].event, transaction_id@),
        AfterRestore::Report { client, code, message, .. } => replies[1].client == client
            && is_error(replies[1].event, code@, message@),
    }
}

/// The outputs could not be restored: the preview is pending again, to be restored a second later, and
/// that is told.
pub open spec fn restore_failed(
    before: PreviewState<PreviewPayload>,
    preview: PendingPreview<PreviewPayload>,
    next: AfterRestore,
    fault: Seq<char>,
    now: u64,
    step: Step,
    after: PreviewState<PreviewPayload>,
) -> bool {
    &&& step.task is Idle
    &&& failure_told(step.replies@, preview.client_id, next, fault)
    &&& after == (PreviewState {
        pending: Some(
            PendingPreview { deadline: (now + RESTORE_RETRY_MS) as u64, ..preview },
        ),
        ..before
    })
}

/// The outputs of a preview that was taken are being restored: the configuration from before it is to
/// be applied, unless the compositor cannot even be asked.
pub open spec fn restoring(
    before: NagameDaemon,
    preview: PendingPreview<PreviewPayload>,
    reason: Seq<char>,
    next: AfterRestore,
    now: u64,
    step: Step,
    after: NagameDaemon,
) -> bool {
    let asked = configuration_view(preview.payload.before@);
    &&& same_rest(before, after)
    &&& before.output_manager.has_submitted(after.output_manager)
    &&& match before.output_manager.submission_fault(asked) {
        None => {
            &&& step.replies@.len() == 0
            &&& after.previews == before.previews
            &&& step.task matches Task::Restore(restoration, submission)
            &&& restoration.preview == preview
            &&& restoration.reason@ == reason
            &&& restoration.next == next
            &&& before.output_manager.submits(asked, Purpose::Apply, submission)
        },
        Some(fault) => restore_failed(
            before.previews,
            preview,
            next,
            fault,
            now,
            step,
            after.previews,
        ),
    }
}

/// What comes of restoring the outputs of a preview.
pub open spec fn ends_restoration(
    before: NagameDaemon,
    restoration: Restoration,
    outcome: Result<(), String>,
    now: u64,
    step: Step,
    after: NagameDaemon,
) -> bool {
    &&& same_rest(before, after)
    &&& after.output_manager == before.output_manager
    &&& match outcome {
        Err(fault) => restore_failed(
            before.previews,
            restoration.preview,
            restoration.next,
            fault@,
            now,
            step,
            after.previews,
        ),
        Ok(()) => {
            &&& step.task is Idle
            &&& success_told(
                step.replies@,
                restoration.preview,
                restoration.reason@,
                restoration.next,
            )
            &&& after.previews == (PreviewState {
                last_completed: Some((restoration.preview.id, Completion::Reverted)),
                ..before.previews
            })
        },
    }
}

/// A pending preview, if there is one, is being reverted for this reason.
pub open spec fn reverts_pending(
    before: NagameDaemon,
    reason: Seq<char>,
    now: u64,
    step: Step,
    after: NagameDaemon,
) -> bool {
    match before.previews.pending {
        None => does_nothing(step) && after == before,
        Some(preview) => restoring(
            NagameDaemon { previews: before.previews.idle(), ..before },
            preview,
            reason,
            AfterRestore::Nothing,
            now,
            step,
            after,
        ),
    }
}

/// A pending preview is being reverted if its time is up.
pub open spec fn times_out(
    before: NagameDaemon,
    now: u64,
    step: Step,
    after: NagameDaemon,
) -> bool {
    match before.previews.pending {
        Some(preview) if preview.deadline <= now => restoring(
            NagameDaemon { previews: before.previews.idle(), ..before },
            preview,
            "timeout"@,
            AfterRestore::Nothing,
            now,
            step,
            after,
        ),
        _ => does_nothing(step) && after == before,
    }
}

/// A pending preview, if there is one, is given up for this reason.
pub open spec fn cancels(
    before: NagameDaemon,
    reason: Seq<char>,
    replies: Seq<Reply>,
    after: NagameDaemon,
) -> bool {
    &&& same_rest(before, after)
    &&& after.output_manager == before.output_manager
    &&& match before.previews.pending {
        None => replies.len() == 0 && after.previews == before.previews,
        Some(preview) => {
            &&& replies.len() == 1
            &&& replies[0].client == preview.client_id
            &&& says_reverted(replies[0].event, preview.id@, reason)
            &&& after.previews == (PreviewState::<PreviewPayload> {
                pending: None,
                last_completed: Some((preview.id, Completion::Reverted)),
                next_transaction: before.previews.next_transaction,
            })
        },
    }
}

impl NagameDaemon {
    fn restore_preview(
        &mut self,
        preview: PendingPreview<PreviewPayload>,
        reason: &str,
        next: AfterRestore,
        now: u64,
    ) -> (step: Step)
        requires
            old(self).wf(),
            old(self).previews.pending is None,
            now + RESTORE_RETRY_MS <= u64::MAX,
        ensures
            final(self).wf(),
            restoring(*old(self), preview, reason@, next, now, step, *final(self)),
    {
        match self.output_manager.submit_configuration(&preview.payload.before, Purpose::Apply) {
            Ok(submission) => with_task(
                Task::Restore(Restoration { preview, reason: reason.to_owned(), next }, submission),
            ),
            Err(error) => {
                let fault = error.message();
                self.keep_preview(preview, next, fault.as_str(), now)
            },
        }
    }

    fn keep_preview(
        &mut self,
        preview: PendingPreview<PreviewPayload>,
        next: AfterRestore,
        fault: &str,
        now: u64,
    ) -> (step: Step)
        requires
            old(self).previews.pending is None,
            now + RESTORE_RETRY_MS <= u64::MAX,
        ensures
            same_rest(*old(self), *final(self)),
            final(self).output_manager == old(self).output_manager,
            restore_failed(
                old(self).previews,
                preview,
                next,
                fault@,
                now,
                step,
                final(self).previews,
            ),
    {
        let owner: u64 = preview.client_id;
        let mut again = preview;
        again.deadline = now + RESTORE_RETRY_MS;
        self.previews.retry(again);
        let mut replies: Vec<Reply> = Vec::new();
        replies.push(Reply { client: owner, event: ServerEvent::error("revert_failed", fault) });
        match next {
            AfterRestore::Nothing => {},
            AfterRestore::Answer { client, .. } => {
                replies.push(Reply { client, event: ServerEvent::error("revert_failed", fault) });
            },
            AfterRestore::Report { client, message, combined, .. } => {
                let text = if combined {
                    quoted(message.as_str(), "; the preview also failed to revert: ", fault)
                } else {
                    fault.to_owned()
                };
                replies.push(
                    Reply { client, event: ServerEvent::error("revert_failed", text.as_str()) },
                );
            },
        }
        Step { replies, task: Task::Idle }
    }

    /// Goes on after the configuration from before a preview was applied, or was refused with this
    /// message.
    pub fn restored(
        &mut self,
        restoration: Restoration,
        outcome: Result<(), String>,
        now: u64,
    ) -> (step: Step)
        requires
            old(self).wf(),
            old(self).previews.pending is None,
            now + RESTORE_RETRY_MS <= u64::MAX,
        ensures
            final(self).wf(),
            ends_restoration(*old(self), restoration, outcome, now, step, *final(self)),
    {
        let Restoration { preview, reason, next } = restoration;
        match outcome {
            Err(fault) => self.keep_preview(preview, next, fault.as_str(), now),
            Ok(()) => {
                let mut replies: Vec<Reply> = Vec::new();
                replies.push(
                    Reply {
                        client: preview.client_id,
                        event: ServerEvent::PreviewReverted {
                            transaction_id: preview.id.clone(),
                            reason,
                        },
                    },
                );
                match next {
                    AfterRestore::Nothing => {},
                    AfterRestore::Answer { client, transaction_id } => {
                        replies.push(
                            Reply { client, event: ServerEvent::RevertCompleted { transaction_id } },
                        );
                    },
                    AfterRestore::Report { client, code, message, .. } => {
                        replies.push(Reply { client, event: ServerEvent::Error { code, message } });
                    },
                }
                self.previews.complete(preview.id, Completion::Reverted);
                Step { replies, task: Task::Idle }
            },
        }
    }

    /// Begins to revert the pending preview, if there is one, for this reason.
    pub fn revert_pending_preview(&mut self, reason: &str, now: u64) -> (step: Step)
        requires
            old(self).wf(),
            now + RESTORE_RETRY_MS <= u64::MAX,
        ensures
            final(self).wf(),
            reverts_pending(*old(self), reason@, now, step, *final(self)),
    {
        match self.previews.take_pending() {
            None => idle(),
            Some(preview) => self.restore_preview(preview, reason, AfterRestore::Nothing, now),
        }
    }

    /// Begins to revert the pending preview if its time is up.
    pub fn preview_timeout(&mut self, now: u64) -> (step: Step)
        requires
            old(self).wf(),
            now + RESTORE_RETRY_MS <= u64::MAX,
        ensures
            final(self).wf(),
            times_out(*old(self), now, step, *final(self)),
    {
        match self.previews.take_if_expired(now) {
            None => idle(),
            Some(preview) => self.restore_preview(preview, "timeout", AfterRestore::Nothing, now),
        }
    }

    /// Gives the pending preview up, if there is one, for this reason. The outputs are left as they are:
    /// they are no longer those that the preview was of.
    pub fn cancel_pending_preview(&mut self, reason: &str) -> (replies: Vec<Reply>)
        ensures
            cancels(*old(self), reason@, replies@, *final(self)),
    {
        let mut replies: Vec<Reply> = Vec::new();
        if let Some(preview) = self.previews.take_pending() {
            replies.push(
                Reply {
                    client: preview.client_id,
                    event: ServerEvent::PreviewReverted {
                        transaction_id: preview.id.clone(),
                        reason: reason.to_owned(),
                    },
                },
            );
            self.previews.complete(preview.id, Completion::Reverted);
        }
        replies
    }
}

// ---------------------------------------------------------------------------------------------
// Requests
// ---------------------------------------------------------------------------------------------

/// The event lists the connected outputs, with the active profile and the revision.
pub open spec fn lists_outputs(event: ServerEvent, daemon: NagameDaemon) -> bool {
    event matches ServerEvent::Outputs { outputs, active_profile, revision, supported } && {
        let heads = daemon.output_manager.listed();
        &&& outputs@.len() == heads.len()
        &&& forall|i: int|
            0 <= i < heads.len() ==> shows_head(#[trigger] outputs@[i], heads[i])
        &&& match (active_profile, daemon.profile_manager.current_profile) {
            (Some(shown), Some(active)) => shown@ == active@,
            (None, None) => true,
            _ => false,
        }
        &&& revision@ == daemon.config_revision@
        &&& supported == daemon.output_manager.available()
    }
}

/// The code and the message of the answer to a request about a transaction that is not pending.
pub open spec fn absence_told(step: Step, client: u64, found: Finding) -> bool {
    if found == Finding::Nothing {
        refuses(step, client, "no_pending_preview"@, "There is no pending display preview"@)
    } else {
        refuses(
            step,
            client,
            "transaction_mismatch"@,
            "The display preview transaction no longer matches"@,
        )
    }
}

/// What comes of something that a client sends.
pub open spec fn answers(
    before: NagameDaemon,
    incoming: Incoming,
    now: u64,
    step: Step,
    after: NagameDaemon,
) -> bool {
    match incoming {
        Incoming::Disconnected(client) => match before.previews.pending {
            Some(preview) if preview.client_id == client => restoring(
                NagameDaemon { previews: before.previews.idle(), ..before },
                preview,
                "client_disconnected"@,
                AfterRestore::Nothing,
                now,
                step,
                after,
            ),
            _ => does_nothing(step) && after == before,
        },
        Incoming::Request { client, request } => match request {
            ClientRequest::Outputs => {
                &&& after == before
                &&& step.task is Idle
                &&& step.replies@.len() == 1
                &&& step.replies@[0].client == client
                &&& lists_outputs(step.replies@[0].event, before)
            },
            ClientRequest::Preview { output, mode_id, profile, revision } => {
                &&& after == before
                &&& if before.previews.pending is Some {
                    refuses(
                        step,
                        client,
                        "preview_busy"@,
                        "Another display preview is already pending"@,
                    )
                } else {
                    step.replies@.len() == 0 && step.task == Task::ReadForPreview(
                        PreviewRequest { client, output, mode_id, profile, revision },
                    )
                }
            },
            ClientRequest::Confirm { transaction_id } => {
                let found = before.previews.finding(
                    transaction_id@,
                    Completion::Confirmed,
                );
                match found {
                    Finding::Pending => {
                        &&& after == (NagameDaemon {
                            previews: before.previews.idle(),
                            ..before
                        })
                        &&& step.replies@.len() == 0
                        &&& step.task == Task::ReadForConfirm(
                            Confirmation { client, preview: before.previews.pending->0 },
                        )
                    },
                    Finding::Ended => {
                        &&& after == before
                        &&& step.task is Idle
                        &&& step.replies@.len() == 1
                        &&& step.replies@[0].client == client
                        &&& says_confirm_completed(
                            step.replies@[0].event,
                            transaction_id@,
                            before.config_revision@,
                        )
                    },
                    _ => after == before && absence_told(step, client, found),
                }
            },
            ClientRequest::Revert { transaction_id } => {
                let found = before.previews.finding(
                    transaction_id@,
                    Completion::Reverted,
                );
                match found {
                    Finding::Pending => restoring(
                        NagameDaemon { previews: before.previews.idle(), ..before },
                        before.previews.pending->0,
                        "manual"@,
                        AfterRestore::Answer { client, transaction_id },
                        now,
                        step,
                        after,
                    ),
                    Finding::Ended => {
                        &&& after == before
                        &&& step.task is Idle
                        &&& step.replies@.len() == 1
                        &&& step.replies@[0].client == client
                        &&& says_revert_completed(step.replies@[0].event, transaction_id@)
                    },
                    _ => after == before && absence_told(step, client, found),
                }
            },
        },
    }
}

impl NagameDaemon {
    /// Handles what comes from a client.
    pub fn handle_display_request(&mut self, incoming: Incoming, now: u64) -> (step: Step)
        requires
            old(self).wf(),
            now + RESTORE_RETRY_MS <= u64::MAX,
        ensures
            final(self).wf(),
            answers(*old(self), incoming, now, step, *final(self)),
    {
        let (client, request): (u64, ClientRequest) = match incoming {
            Incoming::Request { client, request } => (client, request),
            Incoming::Disconnected(client) => {
                return match self.previews.take_for_client(client) {
                    None => idle(),
                    Some(preview) => self.restore_preview(
                        preview,
                        "client_disconnected",
                        AfterRestore::Nothing,
                        now,
                    ),
                };
            },
        };
        match request {
            ClientRequest::Outputs => told(client, self.list_outputs()),
            ClientRequest::Preview { output, mode_id, profile, revision } => {
                if self.previews.is_pending() {
                    return refusal(
                        client,
                        "preview_busy",
                        "Another display preview is already pending",
                    );
                }
                with_task(
                    Task::ReadForPreview(
                        PreviewRequest { client, output, mode_id, profile, revision },
                    ),
                )
            },
            ClientRequest::Confirm { transaction_id } => {
                match self.previews.request_confirm(transaction_id.as_str()) {
                    ConfirmRequest::Persist(preview) => with_task(
                        Task::ReadForConfirm(Confirmation { client, preview }),
                    ),
                    ConfirmRequest::AlreadyConfirmed => told(
                        client,
                        ServerEvent::ConfirmCompleted {
                            transaction_id,
                            revision: self.config_revision.clone(),
                        },
                    ),
                    ConfirmRequest::NoPending => refusal(
                        client,
                        "no_pending_preview",
                        "There is no pending display preview",
                    ),
                    ConfirmRequest::Mismatch => refusal(
                        client,
                        "transaction_mismatch",
                        "The display preview transaction no longer matches",
                    ),
                }
            },
            ClientRequest::Revert { transaction_id } => {
                match self.previews.request_revert(transaction_id.as_str()) {
                    RevertRequest::Restore(preview) => self.restore_preview(
                        preview,
                        "manual",
                        AfterRestore::Answer { client, transaction_id },
                        now,
                    ),
                    RevertRequest::AlreadyReverted => told(
                        client,
                        ServerEvent::RevertCompleted { transaction_id },
                    ),
                    RevertRequest::NoPending => refusal(
                        client,
                        "no_pending_preview",
                        "There is no pending display preview",
                    ),
                    RevertRequest::Mismatch => refusal(
                        client,
                        "transaction_mismatch",
                        "The display preview transaction no longer matches",
                    ),
                }
            },
        }
    }

    fn list_outputs(&self) -> (event: ServerEvent)
        ensures
            lists_outputs(event, *self),
    {
        let heads = self.output_manager.get_heads();
        let ghost views = self.output_manager.listed();
        let mut outputs: Vec<DisplayOutput> = Vec::new();
        for i in 0..heads.len()
            invariant
                head_views(heads@) == views,
                outputs@.len() == i,
                forall|k: int| 0 <= k < i ==> shows_head(#[trigger] outputs@[k], views[k]),
        {
            assert(views[i as int] == heads@[i as int]@);
            outputs.push(DisplayOutput::from(heads[i]));
        }
        let active_profile: Option<String> = match self.profile_manager.current_profile() {
            Some(name) => Some(name.clone()),
            None => None,
        };
        ServerEvent::Outputs {
            outputs,
            active_profile,
            revision: self.config_revision.clone(),
            supported: self.output_manager.is_available(),
        }
    }
}

// ---------------------------------------------------------------------------------------------
// Previews
// ---------------------------------------------------------------------------------------------

/// Why a preview is refused before the compositor is asked: code and message.
pub open spec fn preview_fault(
    daemon: NagameDaemon,
    request: PreviewRequest,
    content: Result<String, String>,
) -> Option<(Seq<char>, Seq<char>)> {
    if content is Err {
        Some(("config_read_failed"@, content->Err_0@))
    } else if request.revision@ != daemon.config_revision@ || request.revision@ != hex(
        sha256(content->Ok_0@),
    ) {
        Some(
            (
                "config_conflict"@,
                "The display configuration changed elsewhere. Refresh and try again."@,
            ),
        )
    } else if !is_named(daemon.profile_manager.current_profile, request.profile@) {
        Some(
            (
                "profile_changed"@,
                "The active display profile changed. Refresh and try again."@,
            ),
        )
    } else {
        match daemon.target(request.profile@, request.output@, request.mode_id@) {
            Err(message) => Some(("invalid_profile_target"@, message)),
            Ok(_) => None,
        }
    }
}

/// `payload` is what is needed to end a preview of this.
pub open spec fn payload_fits(
    daemon: NagameDaemon,
    request: PreviewRequest,
    payload: PreviewPayload,
) -> bool {
    let target = daemon.target(request.profile@, request.output@, request.mode_id@);
    &&& configuration_view(payload.before@) == live_configuration(daemon.output_manager.listed())
    &&& payload.config_revision@ == request.revision@
    &&& payload.profile@ == request.profile@
    &&& target matches Ok((place, mode)) && payload.output_index == place && payload.mode@ == mode
}

/// The configuration that a preview asks for: the live one with the mode of one output replaced.
pub open spec fn preview_configuration(daemon: NagameDaemon, request: PreviewRequest) -> Seq<
    (Seq<char>, HeadConfiguration),
> {
    with_output_mode(
        live_configuration(daemon.output_manager.listed()),
        request.output@,
        mode_with_id(
            daemon.output_manager.named(request.output@)->0.modes,
            request.mode_id@,
        )->0,
    )
}

/// What comes of a preview once the configuration file was read.
pub open spec fn goes_on_reading(
    before: NagameDaemon,
    request: PreviewRequest,
    content: Result<String, String>,
    step: Step,
    after: NagameDaemon,
) -> bool {
    &&& same_rest(before, after)
    &&& after.previews == before.previews
    &&& match preview_fault(before, request, content) {
        Some((code, message)) => refuses(step, request.client, code, message)
            && after.output_manager == before.output_manager,
        None => match first_modeless(before.output_manager.listed(), 0) {
            Some(i) => refuses(
                step,
                request.client,
                "invalid_live_state"@,
                "Output '"@ + before.output_manager.listed()[i].name
                    + "' is enabled without a current mode"@,
            ) && after.output_manager == before.output_manager,
            None => {
                let asked = preview_configuration(before, request);
                &&& before.output_manager.has_submitted(after.output_manager)
                &&& match before.output_manager.submission_fault(asked) {
                    Some(fault) => refuses(
                        step,
                        request.client,
                        "compositor_test_failed"@,
                        fault,
                    ),
                    None => {
                        &&& step.replies@.len() == 0
                        &&& step.task matches Task::TestPreview(candidate, submission)
                        &&& candidate.client == request.client
                        &&& configuration_view(candidate.configuration@) == asked
                        &&& payload_fits(before, request, candidate.payload)
                        &&& before.output_manager.submits(asked, Purpose::Test, submission)
                    },
                }
            },
        },
    }
}

/// What comes of a preview once the compositor has tested it.
pub open spec fn goes_on_tested(
    before: NagameDaemon,
    candidate: Candidate,
    outcome: Result<(), String>,
    step: Step,
    after: NagameDaemon,
) -> bool {
    &&& same_rest(before, after)
    &&& after.previews == before.previews
    &&& match outcome {
        Err(error) => refuses(
            step,
            candidate.client,
            "compositor_test_failed"@,
            error@,
        ) && after.output_manager == before.output_manager,
        Ok(()) => {
            let asked = configuration_view(candidate.configuration@);
            &&& before.output_manager.has_submitted(after.output_manager)
            &&& match before.output_manager.submission_fault(asked) {
                Some(fault) => refuses(
                    step,
                    candidate.client,
                    "compositor_apply_failed"@,
                    fault,
                ),
                None => {
                    &&& step.replies@.len() == 0
                    &&& step.task matches Task::ApplyPreview(same, submission)
                    &&& same == candidate
                    &&& before.output_manager.submits(asked, Purpose::Apply, submission)
                },
            }
        },
    }
}

/// What comes of a preview once the compositor has applied it.
pub open spec fn goes_on_applied(
    before: NagameDaemon,
    candidate: Candidate,
    outcome: Result<(), String>,
    now: u64,
    step: Step,
    after: NagameDaemon,
) -> bool {
    &&& same_rest(before, after)
    &&& after.output_manager == before.output_manager
    &&& match outcome {
        Err(error) => refuses(
            step,
            candidate.client,
            "compositor_apply_failed"@,
            error@,
        ) && after.previews == before.previews,
        Ok(()) => {
            &&& step.replies@.len() == 0
            &&& step.task matches Task::AnnouncePreview(reply, id)
            &&& id@ == transaction_text(before.previews.next_transaction as nat)
            &&& reply.client == candidate.client
            &&& reply.event matches ServerEvent::PreviewStarted {
                transaction_id,
                remaining_ms,
            }
            &&& transaction_id@ == id@
            &&& remaining_ms == PREVIEW_MS
            &&& after.previews == (PreviewState {
                pending: Some(
                    PendingPreview {
                        id,
                        client_id: candidate.client,
                        deadline: (now + PREVIEW_MS) as u64,
                        payload: candidate.payload,
                    },
                ),
                last_completed: before.previews.last_completed,
                next_transaction: (before.previews.next_transaction + 1) as u64,
            })
        },
    }
}

/// What comes of a preview once its client was told of it.
pub open spec fn goes_on_announced(
    before: NagameDaemon,
    id: Seq<char>,
    delivered: bool,
    now: u64,
    step: Step,
    after: NagameDaemon,
) -> bool {
    match before.previews.pending {
        Some(preview) if !delivered && preview.id@ == id => restoring(
            NagameDaemon { previews: before.previews.idle(), ..before },
            preview,
            "client_disconnected"@,
            AfterRestore::Nothing,
            now,
            step,
            after,
        ),
        _ => does_nothing(step) && after == before,
    }
}

impl NagameDaemon {
    /// Goes on with a preview after the configuration file was read, or could not be for the reason
    /// given.
    pub fn preview_read(&mut self, request: PreviewRequest, content: Result<String, String>) -> (step:
        Step)
        requires
            old(self).wf(),
        ensures
            final(self).wf(),
            goes_on_reading(*old(self), request, content, step, *final(self)),
    {
        let PreviewRequest { client, output, mode_id, profile, revision: asked_revision } = request;
        let content: String = match content {
            Ok(content) => content,
            Err(error) => {
                return refusal(client, "config_read_failed", error.as_str());
            },
        };
        let disk_revision = revision(content.as_str());
        if !same_text(asked_revision.as_str(), self.config_revision.as_str()) || !same_text(
            asked_revision.as_str(),
            disk_revision.as_str(),
        ) {
            return refusal(
                client,
                "config_conflict",
                "The display configuration changed elsewhere. Refresh and try again.",
            );
        }
        let active = match self.profile_manager.current_profile() {
            Some(name) => same_text(name.as_str(), profile.as_str()),
            None => false,
        };
        if !active {
            return refusal(
                client,
                "profile_changed",
                "The active display profile changed. Refresh and try again.",
            );
        }
        let (output_index, mode): (usize, String) = match self.preview_persistence_target(
            profile.as_str(),
            output.as_str(),
            mode_id.as_str(),
        ) {
            Ok(target) => target,
            Err(error) => {
                return refusal(client, "invalid_profile_target", error.as_str());
            },
        };
        let before = match self.output_manager.snapshot_configuration() {
            Ok(configuration) => configuration,
            Err(error) => {
                let text = error.message();
                return refusal(client, "invalid_live_state", text.as_str());
            },
        };
        let configuration = match self.output_manager.candidate_with_mode(
            output.as_str(),
            mode_id.as_str(),
        ) {
            Ok(configuration) => configuration,
            Err(error) => {
                let text = error.message();
                return refusal(client, "invalid_mode", text.as_str());
            },
        };
        match self.output_manager.submit_configuration(&configuration, Purpose::Test) {
            Err(error) => {
                let text = error.message();
                refusal(client, "compositor_test_failed", text.as_str())
            },
            Ok(submission) => with_task(
                Task::TestPreview(
                    Candidate {
                        client,
                        configuration,
                        payload: PreviewPayload {
                            before,
                            config_revision: asked_revision,
                            mode,
                            output_index,
                            profile,
                        },
                    },
                    submission,
                ),
            ),
        }
    }

    /// Goes on with a preview after the compositor has tested it, or has refused it with this message.
    pub fn preview_tested(&mut self, candidate: Candidate, outcome: Result<(), String>) -> (step: Step)
        requires
            old(self).wf(),
        ensures
            final(self).wf(),
            goes_on_tested(*old(self), candidate, outcome, step, *final(self)),
    {
        if let Err(error) = outcome {
            return refusal(candidate.client, "compositor_test_failed", error.as_str());
        }
        match self.output_manager.submit_configuration(&candidate.configuration, Purpose::Apply) {
            Err(error) => {
                let text = error.message();
                refusal(candidate.client, "compositor_apply_failed", text.as_str())
            },
            Ok(submission) => with_task(Task::ApplyPreview(candidate, submission)),
        }
    }

    /// Goes on with a preview after the compositor has applied it, or has refused it with this message.
    /// An applied one is pending from now on, and the client is to be told.
    pub fn preview_applied(
        &mut self,
        candidate: Candidate,
        outcome: Result<(), String>,
        now: u64,
    ) -> (step: Step)
        requires
            old(self).wf(),
            old(self).previews.pending is None,
            old(self).previews.next_transaction < u64::MAX,
            now + PREVIEW_MS <= u64::MAX,
        ensures
            final(self).wf(),
            goes_on_applied(*old(self), candidate, outcome, now, step, *final(self)),
    {
        let Candidate { client, payload, .. } = candidate;
        if let Err(error) = outcome {
            return refusal(client, "compositor_apply_failed", error.as_str());
        }
        match self.previews.start(client, now + PREVIEW_MS, payload) {
            Some(id) => with_task(
                Task::AnnouncePreview(
                    Reply {
                        client,
                        event: ServerEvent::PreviewStarted {
                            transaction_id: id.clone(),
                            remaining_ms: PREVIEW_MS,
                        },
                    },
                    id,
                ),
            ),
            None => idle(),
        }
    }

    /// Goes on with a preview after the client was told of it, or could not be reached.
    pub fn preview_announced(&mut self, id: &str, delivered: bool, now: u64) -> (step: Step)
        requires
            old(self).wf(),
            now + RESTORE_RETRY_MS <= u64::MAX,
        ensures
            final(self).wf(),
            goes_on_announced(*old(self), id@, delivered, now, step, *final(self)),
    {
        if delivered {
            return idle();
        }
        match self.previews.request_revert(id) {
            RevertRequest::Restore(preview) => self.restore_preview(
                preview,
                "client_disconnected",
                AfterRestore::Nothing,
                now,
            ),
            _ => idle(),
        }
    }
}

// ---------------------------------------------------------------------------------------------
// Confirming
// ---------------------------------------------------------------------------------------------

/// A preview that was to be written down is reverted instead, for this reason, and the client who has
/// asked for it is told of this error.
pub open spec fn gives_up(
    before: NagameDaemon,
    confirmation: Confirmation,
    reason: Seq<char>,
    code: Seq<char>,
    message: Seq<char>,
    combined: bool,
    now: u64,
    step: Step,
    after: NagameDaemon,
) -> bool {
    exists|next: AfterRestore|
        (#[trigger] is_report(next, confirmation.client, code, message, combined)) && restoring(
            before,
            confirmation.preview,
            reason,
            next,
            now,
            step,
            after,
        )
}

/// `next` is that this client is told of an error.
pub open spec fn is_report(
    next: AfterRestore,
    client: u64,
    code: Seq<char>,
    message: Seq<char>,
    combined: bool,
) -> bool {
    next matches AfterRestore::Report { client: c, code: k, message: m, combined: both } && c == client
        && k@ == code && m@ == message && both == combined
}

/// A preview is kept: its configuration, of which this is the text, counts from now on, and both the
/// client of the preview and the one who has asked for this are told.
pub open spec fn keeps(
    before: NagameDaemon,
    confirmation: Confirmation,
    source: Seq<char>,
    config: Config,
    step: Step,
    after: NagameDaemon,
) -> bool {
    let id = confirmation.preview.id;
    let written = hex(sha256(source));
    &&& after.config == config
    &&& after.config_revision@ == written
    &&& after.config_path == before.config_path
    &&& after.profile_manager == before.profile_manager
    &&& after.output_manager == before.output_manager
    &&& after.previews == (PreviewState {
        last_completed: Some((id, Completion::Confirmed)),
        ..before.previews
    })
    &&& step.task is Idle
    &&& step.replies@.len() == 2
    &&& step.replies@[0].client == confirmation.preview.client_id
    &&& says_confirmed(step.replies@[0].event, id@, written)
    &&& step.replies@[1].client == confirmation.client
    &&& says_confirm_completed(step.replies@[1].event, id@, written)
}

/// What comes of a confirmation once the configuration file was read.
pub open spec fn confirms_reading(
    before: NagameDaemon,
    confirmation: Confirmation,
    content: Result<String, String>,
    now: u64,
    step: Step,
    after: NagameDaemon,
) -> bool {
    match content {
        Err(error) => gives_up(
            before,
            confirmation,
            "persistence_failed"@,
            "config_read_failed"@,
            error@,
            true,
            now,
            step,
            after,
        ),
        Ok(source) => {
            let payload = confirmation.preview.payload;
            if hex(sha256(source@)) != payload.config_revision@ {
                gives_up(
                    before,
                    confirmation,
                    "configuration_changed"@,
                    "config_conflict"@,
                    "The display configuration changed elsewhere. The newer configuration won."@,
                    false,
                    now,
                    step,
                    after,
                )
            } else {
                match mode_target(
                    toml_content(source@),
                    payload.profile@,
                    payload.output_index as nat,
                    payload.mode@,
                ) {
                    Err(error) => gives_up(
                        before,
                        confirmation,
                        "persistence_failed"@,
                        "config_update_failed"@,
                        update_message(
                            error,
                            payload.profile@,
                            payload.output_index as nat,
                        ),
                        true,
                        now,
                        step,
                        after,
                    ),
                    Ok(place) => {
                        &&& after == before
                        &&& step.replies@.len() == 0
                        &&& step.task matches Task::DecodeForConfirm(same, updated)
                        &&& same == confirmation
                        &&& toml_content(updated@) == Some(
                            with_mode(
                                toml_content(source@)->0,
                                place,
                                payload.output_index as int,
                                payload.mode@,
                            ),
                        )
                    },
                }
            }
        },
    }
}

/// What comes of a confirmation once the changed configuration was decoded.
pub open spec fn confirms_decoded(
    before: NagameDaemon,
    confirmation: Confirmation,
    source: String,
    decoded: Option<Config>,
    now: u64,
    step: Step,
    after: NagameDaemon,
) -> bool {
    if decoded is Some && valid_config(decoded->0) {
        &&& after == before
        &&& step.replies@.len() == 0
        &&& step.task == Task::WriteForConfirm(confirmation, source, decoded->0)
    } else {
        gives_up(
            before,
            confirmation,
            "persistence_failed"@,
            "config_update_failed"@,
            "Updated configuration is invalid"@,
            true,
            now,
            step,
            after,
        )
    }
}

/// What comes of a confirmation once the configuration file was replaced.
pub open spec fn confirms_written(
    before: NagameDaemon,
    confirmation: Confirmation,
    source: String,
    config: Config,
    outcome: Result<(), String>,
    now: u64,
    step: Step,
    after: NagameDaemon,
) -> bool {
    match outcome {
        Err(error) => gives_up(
            before,
            confirmation,
            "persistence_failed"@,
            "config_write_failed"@,
            error@,
            true,
            now,
            step,
            after,
        ),
        Ok(()) => keeps(before, confirmation, source@, config, step, after),
    }
}

impl NagameDaemon {
    fn give_up(
        &mut self,
        confirmation: Confirmation,
        reason: &str,
        code: &str,
        message: &str,
        combined: bool,
        now: u64,
    ) -> (step: Step)
        requires
            old(self).wf(),
            old(self).previews.pending is None,
            now + RESTORE_RETRY_MS <= u64::MAX,
        ensures
            final(self).wf(),
            gives_up(
                *old(self),
                confirmation,
                reason@,
                code@,
                message@,
                combined,
                now,
                step,
                *final(self),
            ),
    {
        let Confirmation { client, preview } = confirmation;
        let next = AfterRestore::Report {
            client,
            code: code.to_owned(),
            message: message.to_owned(),
            combined,
        };
        assert(is_report(next, client, code@, message@, combined));
        self.restore_preview(preview, reason, next, now)
    }

    /// Goes on with writing a preview down after the configuration file was read, or could not be for
    /// the reason given. A file that has changed since the preview was asked for wins.
    pub fn confirm_read(
        &mut self,
        confirmation: Confirmation,
        content: Result<String, String>,
        now: u64,
    ) -> (step: Step)
        requires
            old(self).wf(),
            old(self).previews.pending is None,
            now + RESTORE_RETRY_MS <= u64::MAX,
        ensures
            final(self).wf(),
            confirms_reading(*old(self), confirmation, content, now, step, *final(self)),
    {
        let source: String = match content {
            Ok(source) => source,
            Err(error) => {
                return self.give_up(
                    confirmation,
                    "persistence_failed",
                    "config_read_failed",
                    error.as_str(),
                    true,
                    now,
                );
            },
        };
        let disk_revision = revision(source.as_str());
        if !same_text(
            disk_revision.as_str(),
            confirmation.preview.payload.config_revision.as_str(),
        ) {
            return self.give_up(
                confirmation,
                "configuration_changed",
                "config_conflict",
                "The display configuration changed elsewhere. The newer configuration won.",
                false,
                now,
            );
        }
        match update_output_mode(
            source.as_str(),
            confirmation.preview.payload.profile.as_str(),
            confirmation.preview.payload.output_index,
            confirmation.preview.payload.mode.as_str(),
        ) {
            Err(error) => {
                let text = error.message(
                    confirmation.preview.payload.profile.as_str(),
                    confirmation.preview.payload.output_index,
                );
                self.give_up(
                    confirmation,
                    "persistence_failed",
                    "config_update_failed",
                    text.as_str(),
                    true,
                    now,
                )
            },
            Ok(updated) => with_task(Task::DecodeForConfirm(confirmation, updated)),
        }
    }

    /// Goes on with writing a preview down after the changed configuration was decoded, or could not be.
    /// Only a valid one is written.
    pub fn confirm_decoded(
        &mut self,
        confirmation: Confirmation,
        source: String,
        decoded: Option<Config>,
        now: u64,
    ) -> (step: Step)
        requires
            old(self).wf(),
            old(self).previews.pending is None,
            now + RESTORE_RETRY_MS <= u64::MAX,
        ensures
            final(self).wf(),
            confirms_decoded(*old(self), confirmation, source, decoded, now, step, *final(self)),
    {
        if let Some(config) = decoded {
            if let Ok(config) = config.checked() {
                return with_task(Task::WriteForConfirm(confirmation, source, config));
            }
        }
        self.give_up(
            confirmation,
            "persistence_failed",
            "config_update_failed",
            "Updated configuration is invalid",
            true,
            now,
        )
    }

    /// Goes on with writing a preview down after the configuration file was replaced, or could not be
    /// for the reason given. From then on the new configuration counts.
    pub fn confirm_written(
        &mut self,
        confirmation: Confirmation,
        source: String,
        config: Config,
        outcome: Result<(), String>,
        now: u64,
    ) -> (step: Step)
        requires
            old(self).wf(),
            old(self).previews.pending is None,
            now + RESTORE_RETRY_MS <= u64::MAX,
        ensures
            final(self).wf(),
            confirms_written(*old(self), confirmation, source, config, outcome, now, step, *final(self)),
    {
        if let Err(error) = outcome {
            return self.give_up(
                confirmation,
                "persistence_failed",
                "config_write_failed",
                error.as_str(),
                true,
                now,
            );
        }
        self.config_revision = revision(source.as_str());
        self.config = config;
        let Confirmation { client, preview } = confirmation;
        let mut replies: Vec<Reply> = Vec::new();
        replies.push(
            Reply {
                client: preview.client_id,
                event: ServerEvent::PreviewConfirmed {
                    transaction_id: preview.id.clone(),
                    revision: self.config_revision.clone(),
                },
            },
        );
        replies.push(
            Reply {
                client,
                event: ServerEvent::ConfirmCompleted {
                    transaction_id: preview.id.clone(),
                    revision: self.config_revision.clone(),
                },
            },
        );
        self.previews.complete(preview.id, Completion::Confirmed);
        Step { replies, task: Task::Idle }
    }
}

// ---------------------------------------------------------------------------------------------
// Shutting down
// ---------------------------------------------------------------------------------------------

/// One thing to do when the daemon is to end.
#[derive(Clone, Debug)]
pub enum ShutdownStep {
    /// Revert a pending preview, as the step says.
    Revert(Step),
    /// Remember the wallpaper that is shown.
    SaveWallpaper,
    /// End.
    End,
}

impl ShutdownStep {
    /// What is to be done next, whether this has succeeded or not.
    pub open spec fn following(self) -> ShutdownStep {
        match self {
            ShutdownStep::Revert(_) => ShutdownStep::SaveWallpaper,
            ShutdownStep::SaveWallpaper => ShutdownStep::End,
            ShutdownStep::End => ShutdownStep::End,
        }
    }

    /// What is to be done next, whether this has succeeded or not.
    pub fn done(&self, _success: bool) -> (next: ShutdownStep)
        ensures
            next == self.following(),
    {
        match self {
            ShutdownStep::Revert(_) => ShutdownStep::SaveWallpaper,
            ShutdownStep::SaveWallpaper => ShutdownStep::End,
            ShutdownStep::End => ShutdownStep::End,
        }
    }
}

impl NagameDaemon {
    /// Begins to shut down: a pending preview is reverted before anything else.
    pub fn shut_down(&mut self, now: u64) -> (first: ShutdownStep)
        requires
            old(self).wf(),
            now + RESTORE_RETRY_MS <= u64::MAX,
        ensures
            final(self).wf(),
            first matches ShutdownStep::Revert(step) && reverts_pending(
                *old(self),
                "daemon_shutdown"@,
                now,
                step,
                *final(self),
            ),
    {
        ShutdownStep::Revert(self.revert_pending_preview("daemon_shutdown", now))
    }
}

// ---------------------------------------------------------------------------------------------
// Changes of outputs
// ---------------------------------------------------------------------------------------------

/// Names and numbers of outputs.
pub open spec fn identities(heads: Seq<HeadView>) -> Seq<(Seq<char>, u32)> {
    Seq::new(heads.len(), |i: int| (heads[i].name, heads[i].id))
}

/// Names and numbers as mathematical values.
pub open spec fn identity_views(outputs: Seq<(String, u32)>) -> Seq<(Seq<char>, u32)> {
    Seq::new(outputs.len(), |i: int| (outputs[i].0@, outputs[i].1))
}

/// The names alone.
pub open spec fn names_of(outputs: Seq<(Seq<char>, u32)>) -> Seq<Seq<char>> {
    Seq::new(outputs.len(), |i: int| outputs[i].0)
}

/// Whether an output is enabled and offers no mode, which no sound state of the protocol has.
pub open spec fn is_broken(heads: Seq<HeadView>) -> bool {
    exists|i: int| 0 <= i < heads.len() && (#[trigger] heads[i]).enabled && heads[i].modes.len() == 0
}

/// In what way outputs have changed.
#[derive(Clone, Copy, PartialEq, Eq, Debug, Structural)]
pub enum OutputChange {
    /// None is connected any more.
    AllDisconnected,
    /// The first ones were connected.
    Connected,
    /// The same names belong to new outputs.
    Rebuilt,
    Changed,
}

/// In what way the outputs have changed.
pub open spec fn change_of(
    before: Seq<(Seq<char>, u32)>,
    after: Seq<(Seq<char>, u32)>,
) -> OutputChange {
    if after.len() == 0 {
        OutputChange::AllDisconnected
    } else if before.len() == 0 {
        OutputChange::Connected
    } else if names_of(before) == names_of(after) {
        OutputChange::Rebuilt
    } else {
        OutputChange::Changed
    }
}

/// What to do about outputs.
#[derive(Clone, Debug)]
pub enum OutputStep {
    /// Nothing.
    Nothing,
    /// Remember the wallpaper and end, to be started anew.
    Restart,
    /// Send these events. Then, unless no output is connected, choose and activate a profile.
    Changed { change: OutputChange, replies: Vec<Reply> },
}

/// Names and numbers of the connected outputs, sorted.
pub fn output_identities(manager: &OutputManager) -> (outputs: Vec<(String, u32)>)
    ensures
        identity_views(outputs@) == identities(manager.listed()),
{
    let heads = manager.get_heads();
    let ghost views = manager.listed();
    let mut outputs: Vec<(String, u32)> = Vec::new();
    for i in 0..heads.len()
        invariant
            head_views(heads@) == views,
            outputs@.len() == i,
            forall|k: int|
                0 <= k < i ==> (#[trigger] outputs@[k]).0@ == views[k].name && outputs@[k].1
                    == views[k].id,
    {
        assert(views[i as int] == heads@[i as int]@);
        outputs.push((heads[i].name.clone(), heads[i].id));
    }
    assert(identity_views(outputs@) =~= identities(views));
    outputs
}

fn same_names(left: &Vec<(String, u32)>, right: &Vec<(String, u32)>) -> (same: bool)
    ensures
        same == (names_of(identity_views(left@)) == names_of(identity_views(right@))),
{
    let ghost a = names_of(identity_views(left@));
    let ghost b = names_of(identity_views(right@));
    if left.len() != right.len() {
        assert(a.len() != b.len());
        return false;
    }
    for i in 0..left.len()
        invariant
            left@.len() == right@.len(),
            a == names_of(identity_views(left@)),
            b == names_of(identity_views(right@)),
            forall|k: int| 0 <= k < i ==> #[trigger] a[k] == b[k],
    {
        if !same_text(left[i].0.as_str(), right[i].0.as_str()) {
            assert(a[i as int] != b[i as int]);
            return false;
        }
    }
    assert(a =~= b);
    true
}

fn same_identities(left: &Vec<(String, u32)>, right: &Vec<(String, u32)>) -> (same: bool)
    ensures
        same == (identity_views(left@) == identity_views(right@)),
{
    let ghost a = identity_views(left@);
    let ghost b = identity_views(right@);
    if left.len() != right.len() {
        assert(a.len() != b.len());
        return false;
    }
    for i in 0..left.len()
        invariant
            left@.len() == right@.len(),
            a == identity_views(left@),
            b == identity_views(right@),
            forall|k: int| 0 <= k < i ==> #[trigger] a[k] == b[k],
    {
        if left[i].1 != right[i].1 || !same_text(left[i].0.as_str(), right[i].0.as_str()) {
            assert(a[i as int] != b[i as int]);
            return false;
        }
    }
    assert(a =~= b);
    true
}

fn broken(manager: &OutputManager) -> (broken: bool)
    ensures
        broken == is_broken(manager.listed()),
{
    let heads = manager.get_heads();
    let ghost views = manager.listed();
    for i in 0..heads.len()
        invariant
            views == manager.listed(),
            head_views(heads@) == views,
            forall|k: int|
                0 <= k < i ==> !((#[trigger] views[k]).enabled && views[k].modes.len() == 0),
    {
        assert(views[i as int] == heads@[i as int]@);
        if heads[i].enabled && heads[i].modes.len() == 0 {
            return true;
        }
    }
    false
}

/// The count of configurations and disconnections of a manager.
pub open spec fn generation_of(manager: OutputManager) -> u64 {
    match manager.wayland_client {
        Some(state) => state@.configuration_generation,
        None => 0,
    }
}

/// `step` is what is to be done about the outputs of the daemon `before`, of which `seen` were seen
/// last; `after` and `now_seen` are what they are then.
pub open spec fn is_output_step(
    before: NagameDaemon,
    seen: OutputsSeen,
    step: OutputStep,
    after: NagameDaemon,
    now_seen: OutputsSeen,
) -> bool {
    let heads = before.output_manager.listed();
    let was = identity_views(seen.outputs@);
    if generation_of(before.output_manager) == seen.generation {
        step is Nothing && after == before && now_seen == seen
    } else {
        &&& now_seen.generation == generation_of(before.output_manager)
        &&& if is_broken(heads) {
            step is Restart && after == before && now_seen.outputs == seen.outputs
        } else if identities(heads) == was {
            step is Nothing && after == before && now_seen.outputs == seen.outputs
        } else {
            &&& identity_views(now_seen.outputs@) == identities(heads)
            &&& step matches OutputStep::Changed { change, replies }
            &&& change == change_of(was, identities(heads))
            &&& after.config_path == before.config_path
            &&& after.config == before.config
            &&& after.config_revision == before.config_revision
            &&& after.output_manager == before.output_manager
            &&& after.profile_manager == if heads.len() == 0 {
                before.profile_manager
            } else {
                (ProfileManager { current_profile: None, ..before.profile_manager })
            }
            &&& match before.previews.pending {
                None => replies@.len() == 0 && after.previews == before.previews,
                Some(preview) => {
                    &&& replies@.len() == 1
                    &&& replies@[0].client == preview.client_id
                    &&& says_reverted(replies@[0].event, preview.id@, "outputs_changed"@)
                    &&& after.previews == (PreviewState::<PreviewPayload> {
                        pending: None,
                        last_completed: Some((preview.id, Completion::Reverted)),
                        next_transaction: before.previews.next_transaction,
                    })
                },
            }
        }
    }
}

/// What to do after events of the compositor were handled.
#[derive(Clone, Debug)]
pub enum Turn {
    /// Go on waiting.
    Nothing,
    /// The connection is lost: remember the wallpaper and end.
    Lost,
    /// Act on the outputs.
    Outputs(OutputStep),
}

/// What comes of events of the compositor that were handled.
pub open spec fn handles_events(
    before: NagameDaemon,
    seen: OutputsSeen,
    outcome: Result<bool, String>,
    turn: Turn,
    after: NagameDaemon,
    now_seen: OutputsSeen,
) -> bool {
    match outcome {
        Ok(true) => turn matches Turn::Outputs(step) && is_output_step(
            before,
            seen,
            step,
            after,
            now_seen,
        ),
        Ok(false) => turn is Nothing && after == before && now_seen == seen,
        Err(message) => {
            &&& after == before
            &&& now_seen == seen
            &&& if means_lost(message@) {
                turn is Lost
            } else {
                turn is Nothing
            }
        },
    }
}

impl NagameDaemon {
    /// Decides what to do about the outputs of a complete configuration. A preview does not survive a
    /// change of outputs, and the profile is activated again even if it is the same.
    pub fn apply_output_changes(&mut self, seen: &mut OutputsSeen) -> (step: OutputStep)
        requires
            old(self).wf(),
        ensures
            final(self).wf(),
            is_output_step(*old(self), *old(seen), step, *final(self), *final(seen)),
    {
        let generation: u64 = self.output_manager.configuration_generation();
        if generation == seen.generation {
            return OutputStep::Nothing;
        }
        seen.generation = generation;
        if broken(&self.output_manager) {
            return OutputStep::Restart;
        }
        let current = output_identities(&self.output_manager);
        if same_identities(&current, &seen.outputs) {
            return OutputStep::Nothing;
        }
        let change = if current.len() == 0 {
            OutputChange::AllDisconnected
        } else if seen.outputs.len() == 0 {
            OutputChange::Connected
        } else if same_names(&seen.outputs, &current) {
            OutputChange::Rebuilt
        } else {
            OutputChange::Changed
        };
        let any = current.len() > 0;
        seen.outputs = current;
        let replies = self.cancel_pending_preview("outputs_changed");
        if any {
            self.profile_manager.invalidate_current_profile();
        }
        OutputStep::Changed { change, replies }
    }

    /// Decides what to do after events of the compositor were handled. The outcome is whether anything
    /// may have changed, or the message of the error that came up.
    pub fn events_handled(&mut self, seen: &mut OutputsSeen, outcome: Result<bool, String>) -> (turn:
        Turn)
        requires
            old(self).wf(),
        ensures
            final(self).wf(),
            handles_events(*old(self), *old(seen), outcome, turn, *final(self), *final(seen)),
    {
        match outcome {
            Ok(changed) => {
                if changed {
                    Turn::Outputs(self.apply_output_changes(seen))
                } else {
                    Turn::Nothing
                }
            },
            Err(message) => {
                if wayland_connection_lost(message.as_str()) {
                    Turn::Lost
                } else {
                    Turn::Nothing
                }
            },
        }
    }
}

// ---------------------------------------------------------------------------------------------
// Changes of the configuration file
// ---------------------------------------------------------------------------------------------

/// What to do about a change of the configuration file.
#[derive(Clone, Debug)]
pub enum FileStep {
    /// It is the text that counts already.
    Unchanged,
    /// Revert a pending preview first, as the step says, then read the file and reload it.
    Reload(Step),
}

/// The daemon has this configuration, of which this is the text, and no previews.
pub open spec fn begins(
    config_path: String,
    config: Config,
    content: Seq<char>,
    output_manager: OutputManager,
    profile_manager: ProfileManager,
    daemon: NagameDaemon,
) -> bool {
    &&& daemon.config_path == config_path
    &&& daemon.config == config
    &&& daemon.config_revision@ == hex(sha256(content))
    &&& daemon.output_manager == output_manager
    &&& daemon.profile_manager == profile_manager
    &&& daemon.previews == (PreviewState::<PreviewPayload> {
        pending: None,
        last_completed: None,
        next_transaction: 1,
    })
}

/// What comes of a change of the configuration file.
pub open spec fn sees_file(
    before: NagameDaemon,
    content: Option<String>,
    now: u64,
    step: FileStep,
    after: NagameDaemon,
) -> bool {
    if content is Some && before.counts(content->0@) {
        step is Unchanged && after == before
    } else {
        step matches FileStep::Reload(first) && reverts_pending(
            before,
            "configuration_changed"@,
            now,
            first,
            after,
        )
    }
}

/// What comes of a configuration that was read and decoded.
pub open spec fn reloads(
    before: NagameDaemon,
    content: Seq<char>,
    decoded: Option<Config>,
    reloaded: bool,
    after: NagameDaemon,
) -> bool {
    &&& reloaded == (decoded is Some && valid_config(decoded->0))
    &&& !reloaded ==> after == before
    &&& reloaded ==> {
        &&& after.config == decoded->0
        &&& after.config_revision@ == hex(sha256(content))
        &&& after.config_path == before.config_path
        &&& after.output_manager == before.output_manager
        &&& after.previews == before.previews
        &&& after.profile_manager == (ProfileManager {
            current_profile: None,
            ..before.profile_manager
        })
    }
}

impl NagameDaemon {
    /// Whether the configuration that counts has this text.
    pub open spec fn counts(self, content: Seq<char>) -> bool {
        hex(sha256(content)) == self.config_revision@
    }

    /// A daemon without previews.
    pub fn new(
        config_path: String,
        config: Config,
        content: &str,
        output_manager: OutputManager,
        profile_manager: ProfileManager,
    ) -> (daemon: NagameDaemon)
        requires
            output_manager.wf(),
        ensures
            daemon.wf(),
            begins(config_path, config, content@, output_manager, profile_manager, daemon),
    {
        NagameDaemon {
            config_path,
            config,
            config_revision: revision(content),
            output_manager,
            profile_manager,
            previews: PreviewState::default(),
        }
    }

    /// Decides what to do about a change of the configuration file, of which this is the text if it can
    /// be read. What the daemon has written itself is no change.
    pub fn config_file_changed(&mut self, content: &Option<String>, now: u64) -> (step: FileStep)
        requires
            old(self).wf(),
            now + RESTORE_RETRY_MS <= u64::MAX,
        ensures
            final(self).wf(),
            sees_file(*old(self), *content, now, step, *final(self)),
    {
        if let Some(content) = content {
            let disk_revision = revision(content.as_str());
            if same_text(disk_revision.as_str(), self.config_revision.as_str()) {
                return FileStep::Unchanged;
            }
        }
        FileStep::Reload(self.revert_pending_preview("configuration_changed", now))
    }

    /// Takes a configuration over that was read and decoded, if it is valid. A profile is to be chosen
    /// and activated then, even if it is the active one.
    pub fn reload_config(&mut self, content: &str, decoded: Option<Config>) -> (reloaded: bool)
        requires
            old(self).wf(),
        ensures
            final(self).wf(),
            reloads(*old(self), content@, decoded, reloaded, *final(self)),
    {
        if let Some(config) = decoded {
            if let Ok(config) = config.checked() {
                self.config = config;
                self.config_revision = revision(content);
                self.profile_manager.invalidate_current_profile();
                return true;
            }
        }
        false
    }
}

} // verus!
