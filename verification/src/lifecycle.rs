//! What holds of previews and configurations over several steps of the daemon.

use crate::config::persistence::{
    a_target_is_there, an_update_changes_one_mode, hex, sha256, toml_content, update_target,
    TomlEntry,
};
use crate::config::{read_mode, valid_config, Config, Profile};
use crate::daemon::{
    answers, begins, confirms_decoded, confirms_reading, confirms_written, ends_restoration,
    goes_on_announced, goes_on_applied, goes_on_reading, goes_on_tested, payload_fits, reloads,
    handles_events, heartbeat, is_output_step, restoring, reverts_pending, sees_file, times_out,
    AfterRestore, Candidate, Confirmation, FileStep, Incoming, NagameDaemon, OutputsSeen,
    PreviewPayload, PreviewRequest, Restoration, ShutdownStep, Step, Task, Turn,
};
use crate::ipc::{mode_id_text, shows_head, ClientRequest, ServerEvent};
use crate::preview::{
    transaction_text, transactions_have_different_names, Completion, PendingPreview,
};
use crate::profile::{match_step, ProfileManager};
use crate::table::{lookup, without};
use crate::text::{stands_at, text_less};
use crate::wayland::effects::{
    a_preview_changes_one_live_mode, a_snapshot_brings_the_outputs_back, carried_out, has_object,
    told_apart, when_a_configuration_can_be_asked_for,
};
use crate::wayland::output::{
    a_listed_output_is_found_by_name, configuration_view, first_modeless, live_configuration,
    mode_with_id, modes_are_found_by_id, names_are_listed_once, opened, sorting_keeps_the_outputs,
    OutputManager,
};
use crate::wayland::protocols::{same_picture, HeadView, OutputMode};
use vstd::prelude::*;

verus! {

// ---------------------------------------------------------------------------------------------
// Trying a preview
// ---------------------------------------------------------------------------------------------

/// A preview is tried only for a client that knows the configuration which counts and which the file
/// holds, and only for the active profile. Otherwise the client, and nobody else, gets an error, and
/// nothing changes.
pub proof fn a_preview_is_tried_only_on_what_the_client_knows(
    before: NagameDaemon,
    request: PreviewRequest,
    content: Result<String, String>,
    step: Step,
    after: NagameDaemon,
)
    requires
        goes_on_reading(before, request, content, step, after),
    ensures
        step.task is Idle || step.task is TestPreview,
        step.task is TestPreview ==> {
            &&& step.replies@.len() == 0
            &&& content matches Ok(text) && before.counts(text@)
            &&& request.revision@ == before.config_revision@
            &&& before.profile_manager.current_profile matches Some(active) && active@
                == request.profile@
            &&& step.task->TestPreview_0.client == request.client
            &&& step.task->TestPreview_0.payload.config_revision@ == request.revision@
            &&& step.task->TestPreview_0.payload.profile@ == request.profile@
            &&& step.task->TestPreview_1.purpose is Test
            &&& before.output_manager.wayland_client is Some
            &&& before.output_manager.wayland_client->0@.last_serial == Some(
                step.task->TestPreview_1.serial,
            )
        },
        step.task is Idle ==> step.replies@.len() == 1 && step.replies@[0].client == request.client
            && step.replies@[0].event is Error,
        content is Err || request.revision@ != before.config_revision@ || !before.counts(
            content->Ok_0@,
        ) ==> step.task is Idle,
        before.profile_manager.current_profile is None
            || before.profile_manager.current_profile->0@ != request.profile@ ==> step.task is Idle,
        after.previews == before.previews && after.config == before.config
            && after.profile_manager == before.profile_manager,
{
}

/// What the compositor is asked to test for a preview puts the named output into the mode with the
/// requested identifier, which it offers, and changes nothing else about any output. What is kept for
/// the end of the preview is everything that is live about every output.
pub proof fn a_preview_asks_for_one_mode_and_keeps_the_rest(
    before: NagameDaemon,
    request: PreviewRequest,
    content: Result<String, String>,
    step: Step,
    after: NagameDaemon,
    i: int,
)
    requires
        before.wf(),
        goes_on_reading(before, request, content, step, after),
        step.task is TestPreview,
        told_apart(
            before.output_manager.listed(),
            before.output_manager.wayland_client->0@.head_proxies,
        ),
        0 <= i < before.output_manager.listed().len(),
    ensures
        ({
            let s = before.output_manager.wayland_client->0@;
            let head = before.output_manager.listed()[i];
            let payload = step.task->TestPreview_0.payload;
            let (name, kept) = payload.before@[i];
            let then = carried_out(
                head,
                head.id,
                s.mode_metadata,
                step.task->TestPreview_1.requests@,
            );
            &&& payload.before@.len() == before.output_manager.listed().len()
            &&& name@ == head.name
            &&& kept.enabled == head.enabled
            &&& kept.mode == head.current_mode
            &&& kept.position == head.position
            &&& kept.transform == Some(head.transform)
            &&& kept.scale == Some(head.scale)
            &&& kept.adaptive_sync == head.adaptive_sync
            &&& then == (HeadView { current_mode: then.current_mode, ..head })
            &&& !head.enabled ==> then == head
            &&& head.name != request.output@ && head.enabled && head.current_mode is Some
                && has_object(s, head.id, head.current_mode->0) ==> (
            then.current_mode matches Some(shown) && same_picture(shown, head.current_mode->0))
            &&& head.name == request.output@ ==> exists|mode: OutputMode|
                head.modes.contains(mode) && #[trigger] mode_id_text(mode) == request.mode_id@ && (
                head.enabled && has_object(s, head.id, mode) ==> (
                then.current_mode matches Some(shown) && same_picture(shown, mode)))
        }),
{
    let s = before.output_manager.wayland_client->0@;
    let heads = before.output_manager.listed();
    let head = heads[i];
    let payload = step.task->TestPreview_0.payload;
    let live = live_configuration(heads);
    let view = configuration_view(payload.before@);
    assert(view.len() == live.len());
    assert(view[i] == (payload.before@[i].0@, payload.before@[i].1));
    assert(view[i] == live[i]);
    let named = before.output_manager.named(request.output@)->0;
    let mode = mode_with_id(named.modes, request.mode_id@)->0;
    modes_are_found_by_id(named.modes, request.mode_id@, 0);
    a_preview_changes_one_live_mode(s, request.output@, mode, i);
    a_listed_output_is_found_by_name(s, i);
    if head.name == request.output@ {
        assert(named == head);
        assert(mode_id_text(mode) == request.mode_id@);
    }
}

/// Only what the compositor has accepted in a test is applied, and exactly that. What it has refused is
/// not applied: the client gets an error, and no preview becomes pending.
pub proof fn only_a_tested_preview_is_applied(
    before: NagameDaemon,
    candidate: Candidate,
    outcome: Result<(), String>,
    step: Step,
    after: NagameDaemon,
)
    requires
        goes_on_tested(before, candidate, outcome, step, after),
    ensures
        step.task is Idle || step.task is ApplyPreview,
        step.task is ApplyPreview ==> {
            &&& outcome is Ok
            &&& step.task->ApplyPreview_0 == candidate
            &&& step.task->ApplyPreview_1.purpose is Apply
            &&& before.output_manager.wayland_client is Some
            &&& before.output_manager.wayland_client->0@.last_serial == Some(
                step.task->ApplyPreview_1.serial,
            )
            &&& step.replies@.len() == 0
        },
        step.task is Idle ==> step.replies@.len() == 1 && step.replies@[0].client
            == candidate.client && step.replies@[0].event is Error,
        outcome is Err ==> step.task is Idle && after.output_manager == before.output_manager,
        after.previews == before.previews,
{
}

/// What is applied for a preview is request for request what was tested, as long as the compositor has said
/// nothing new in between.
pub proof fn what_was_tested_is_applied(
    before: NagameDaemon,
    request: PreviewRequest,
    content: Result<String, String>,
    tested: Step,
    between: NagameDaemon,
    step: Step,
    after: NagameDaemon,
)
    requires
        goes_on_reading(before, request, content, tested, between),
        tested.task is TestPreview,
        goes_on_tested(between, tested.task->TestPreview_0, Ok(()), step, after),
    ensures
        step.task is ApplyPreview,
        step.task->ApplyPreview_0 == tested.task->TestPreview_0,
        step.task->ApplyPreview_1.requests@ == tested.task->TestPreview_1.requests@,
        step.task->ApplyPreview_1.serial == tested.task->TestPreview_1.serial,
{
    let s = before.output_manager.wayland_client->0@;
    let t = between.output_manager.wayland_client->0@;
    let asked = configuration_view(tested.task->TestPreview_0.configuration@);
    assert(opened(t) =~= opened(s));
    when_a_configuration_can_be_asked_for(before.output_manager, asked);
    when_a_configuration_can_be_asked_for(between.output_manager, asked);
    assert forall|i: int| 0 <= i < asked.len() implies between.output_manager.named(
        (#[trigger] asked[i]).0,
    ) is Some by {
        assert(before.output_manager.named(asked[i].0) is Some);
    }
}

// ---------------------------------------------------------------------------------------------
// A pending preview
// ---------------------------------------------------------------------------------------------

/// A preview that was applied is pending for fifteen seconds, under a name that no later one gets. Its
/// client is told of the transaction and of that time. Before the time is up, looking at the clock does nothing; from then on, it ends the
/// preview.
pub proof fn a_preview_lasts_fifteen_seconds(
    before: NagameDaemon,
    candidate: Candidate,
    now: u64,
    step: Step,
    after: NagameDaemon,
    later: u64,
    next: Step,
    last: NagameDaemon,
)
    requires
        goes_on_applied(before, candidate, Ok(()), now, step, after),
        times_out(after, later, next, last),
        now + 15000 <= u64::MAX,
        later + 1000 <= u64::MAX,
        before.previews.next_transaction < u64::MAX,
    ensures
        after.previews.next_transaction > before.previews.next_transaction,
        after.previews.pending matches Some(preview) && preview.id@ == transaction_text(
            before.previews.next_transaction as nat,
        ) && preview.id@ != transaction_text(after.previews.next_transaction as nat),
        after.previews.last_completed == before.previews.last_completed,
        after.previews.pending matches Some(preview) && {
            &&& preview.client_id == candidate.client
            &&& preview.payload == candidate.payload
            &&& step.task matches Task::AnnouncePreview(reply, id) && reply.client
                == candidate.client && id@ == preview.id@ && (
            reply.event matches ServerEvent::PreviewStarted { transaction_id, remaining_ms }
                && transaction_id@ == preview.id@ && remaining_ms == 15000)
            &&& later < now + 15000 ==> next.task is Idle && next.replies@.len() == 0 && last
                == after
            &&& later >= now + 15000 ==> is_ending(next, last, preview, later)
        },
{
    transactions_have_different_names(
        before.previews.next_transaction as nat,
        after.previews.next_transaction as nat,
    );
}

/// A preview that has ended, unless the compositor could not be asked: its outputs are being restored, and
/// it is not pending; or else its client gets an error, and it is pending for one second more.
pub open spec fn is_ending(
    step: Step,
    after: NagameDaemon,
    preview: PendingPreview<PreviewPayload>,
    now: u64,
) -> bool {
    ||| {
        &&& step.task matches Task::Restore(restoration, submission)
        &&& restoration.preview == preview
        &&& submission.purpose is Apply
        &&& step.replies@.len() == 0
        &&& after.previews.pending is None
    }
    ||| {
        &&& step.task is Idle
        &&& step.replies@.len() > 0
        &&& step.replies@[0].client == preview.client_id
        &&& step.replies@[0].event is Error
        &&& after.previews.pending matches Some(again)
        &&& again.id == preview.id
        &&& again.client_id == preview.client_id
        &&& again.payload == preview.payload
        &&& again.deadline == now + 1000
    }
}

/// A pending preview ends when its client goes, when its transaction is reverted, when the daemon ends
/// and when the configuration file changes; it does not end because another client goes.
pub proof fn what_ends_a_preview(
    before: NagameDaemon,
    preview: PendingPreview<PreviewPayload>,
    client: u64,
    transaction: String,
    reason: Seq<char>,
    now: u64,
    step: Step,
    after: NagameDaemon,
)
    requires
        before.previews.pending == Some(preview),
        now + 1000 <= u64::MAX,
    ensures
        answers(before, Incoming::Disconnected(client), now, step, after) ==> if client
            == preview.client_id {
            is_ending(step, after, preview, now)
        } else {
            step.task is Idle && step.replies@.len() == 0 && after == before
        },
        answers(
            before,
            Incoming::Request {
                client,
                request: ClientRequest::Revert { transaction_id: transaction },
            },
            now,
            step,
            after,
        ) && transaction@ == preview.id@ ==> is_ending(step, after, preview, now),
        reverts_pending(before, reason, now, step, after) ==> is_ending(step, after, preview, now),
        forall|content: Option<String>|
            #[trigger] sees_file(before, content, now, FileStep::Reload(step), after) ==> is_ending(
                step,
                after,
                preview,
                now,
            ),
        forall|delivered: bool| #[trigger]
            goes_on_announced(before, preview.id@, delivered, now, step, after) ==> if delivered {
                step.task is Idle && step.replies@.len() == 0 && after == before
            } else {
                is_ending(step, after, preview, now)
            },
{
}

/// While a preview is pending, nothing that a client asks for disturbs it but a request about its own
/// transaction: another preview is refused, and so are requests about other transactions. The client
/// who has asked, and nobody else, gets the answer.
pub proof fn a_pending_preview_is_not_disturbed(
    before: NagameDaemon,
    client: u64,
    request: ClientRequest,
    now: u64,
    step: Step,
    after: NagameDaemon,
)
    requires
        answers(before, Incoming::Request { client, request }, now, step, after),
        before.previews.pending is Some,
        request matches ClientRequest::Confirm { transaction_id } ==> transaction_id@
            != before.previews.pending->0.id@,
        request matches ClientRequest::Revert { transaction_id } ==> transaction_id@
            != before.previews.pending->0.id@,
    ensures
        after == before,
        step.task is Idle,
        step.replies@.len() == 1 && step.replies@[0].client == client,
        request is Preview ==> step.replies@[0].event is Error,
        request is Outputs ==> step.replies@[0].event is Outputs,
{
}

/// Without a pending preview, a request for one is taken up as it is; a request about a transaction finds
/// nothing but the one that ended last, in the way that is asked for, and gets an error otherwise.
pub proof fn requests_without_a_preview(
    before: NagameDaemon,
    client: u64,
    request: ClientRequest,
    now: u64,
    step: Step,
    after: NagameDaemon,
)
    requires
        answers(before, Incoming::Request { client, request }, now, step, after),
        before.previews.pending is None,
    ensures
        after == before,
        request matches ClientRequest::Preview { output, mode_id, profile, revision } ==> {
            &&& step.replies@.len() == 0
            &&& step.task matches Task::ReadForPreview(taken)
            &&& taken.client == client
            &&& taken.output == output
            &&& taken.mode_id == mode_id
            &&& taken.profile == profile
            &&& taken.revision == revision
        },
        !(request is Preview) ==> step.task is Idle && step.replies@.len() == 1
            && step.replies@[0].client == client,
        request matches ClientRequest::Confirm { transaction_id } ==> if before.has_ended(
            transaction_id@,
            Completion::Confirmed,
        ) {
            step.replies@[0].event matches ServerEvent::ConfirmCompleted {
                transaction_id: id,
                revision,
            } && id@ == transaction_id@ && revision@ == before.config_revision@
        } else {
            step.replies@[0].event is Error
        },
        request matches ClientRequest::Revert { transaction_id } ==> if before.has_ended(
            transaction_id@,
            Completion::Reverted,
        ) {
            step.replies@[0].event matches ServerEvent::RevertCompleted { transaction_id: id } && id@
                == transaction_id@
        } else {
            step.replies@[0].event is Error
        },
{
}

impl NagameDaemon {
    /// Whether this transaction ended last, and in this way.
    pub open spec fn has_ended(self, transaction: Seq<char>, way: Completion) -> bool {
        self.previews.last_completed matches Some((id, how)) && id@ == transaction && how == way
    }
}

// ---------------------------------------------------------------------------------------------
// Reverting
// ---------------------------------------------------------------------------------------------

/// However a preview is reverted, once the compositor has carried that out every output is as it was when
/// the preview was asked for, whatever has become of it meanwhile: disabled if it was disabled, and
/// otherwise enabled, in a mode of the same size and rate, at the same place, with the same transform,
/// scale and adaptive sync.
pub proof fn a_reverted_preview_leaves_the_outputs_as_they_were(
    asked: NagameDaemon,
    request: PreviewRequest,
    preview: PendingPreview<PreviewPayload>,
    before: NagameDaemon,
    reason: Seq<char>,
    next: AfterRestore,
    now: u64,
    step: Step,
    after: NagameDaemon,
    current: HeadView,
    i: int,
)
    requires
        payload_fits(asked, request, preview.payload),
        before.wf(),
        restoring(before, preview, reason, next, now, step, after),
        step.task is Restore,
        told_apart(
            asked.output_manager.listed(),
            before.output_manager.wayland_client->0@.head_proxies,
        ),
        0 <= i < asked.output_manager.listed().len(),
    ensures
        ({
            let head = asked.output_manager.listed()[i];
            let s = before.output_manager.wayland_client->0@;
            let then = carried_out(
                current,
                head.id,
                s.mode_metadata,
                step.task->Restore_1.requests@,
            );
            &&& step.task->Restore_1.purpose is Apply
            &&& then.enabled == head.enabled
            &&& head.enabled ==> {
                &&& head.position is Some ==> then.position == head.position
                &&& then.transform == head.transform
                &&& then.scale == head.scale
                &&& head.adaptive_sync is Some ==> then.adaptive_sync == head.adaptive_sync
                &&& head.current_mode matches Some(mode) ==> (lookup(s.heads, head.name) is Some
                    && lookup(s.heads, head.name)->0.id == head.id && has_object(
                    opened(s),
                    head.id,
                    mode,
                ) ==> (then.current_mode matches Some(back) && same_picture(back, mode)))
            }
            &&& !head.enabled ==> then == (HeadView { enabled: false, ..current })
        }),
{
    let s = before.output_manager.wayland_client->0@;
    assert(opened(s).wf());
    a_snapshot_brings_the_outputs_back(
        asked.output_manager.listed(),
        opened(s),
        current,
        i,
    );
}

/// A preview whose outputs were restored is over: its client hears that it was reverted and why, whoever
/// has asked for that hears that it is done, it is not pending, and asking for it again gets the same
/// answer.
pub proof fn a_restored_preview_is_over(
    before: NagameDaemon,
    restoration: Restoration,
    now: u64,
    step: Step,
    after: NagameDaemon,
)
    requires
        ends_restoration(before, restoration, Ok(()), now, step, after),
        before.previews.pending is None,
    ensures
        step.task is Idle,
        step.replies@.len() > 0 && step.replies@[0].client == restoration.preview.client_id && (
        step.replies@[0].event matches ServerEvent::PreviewReverted { transaction_id, reason }
            && transaction_id@ == restoration.preview.id@ && reason@ == restoration.reason@),
        restoration.next matches AfterRestore::Answer { client, transaction_id } ==> (
        step.replies@.len() == 2 && step.replies@[1].client == client && (
        step.replies@[1].event matches ServerEvent::RevertCompleted { transaction_id: id } && id@
            == transaction_id@)),
        restoration.next matches AfterRestore::Report { client, code, message, .. } ==> (
        step.replies@.len() == 2 && step.replies@[1].client == client && (
        step.replies@[1].event matches ServerEvent::Error { code: c, message: m } && c@ == code@
            && m@ == message@)),
        restoration.next is Nothing ==> step.replies@.len() == 1,
        after.previews.pending is None,
        after.has_ended(restoration.preview.id@, Completion::Reverted),
        after.config == before.config && after.profile_manager == before.profile_manager
            && after.output_manager == before.output_manager,
{
}

// ---------------------------------------------------------------------------------------------
// Confirming
// ---------------------------------------------------------------------------------------------

/// A request to keep the pending preview begins with reading the configuration file, for that preview;
/// time cannot end it any more meanwhile.
pub proof fn confirming_takes_the_pending_preview(
    before: NagameDaemon,
    client: u64,
    transaction: String,
    now: u64,
    step: Step,
    after: NagameDaemon,
)
    requires
        answers(
            before,
            Incoming::Request {
                client,
                request: ClientRequest::Confirm { transaction_id: transaction },
            },
            now,
            step,
            after,
        ),
        before.previews.pending matches Some(preview) && preview.id@ == transaction@,
    ensures
        step.replies@.len() == 0,
        step.task matches Task::ReadForConfirm(confirmation) && confirmation.client == client
            && Some(confirmation.preview) == before.previews.pending,
        after.previews.pending is None,
        after.config == before.config && after.output_manager == before.output_manager,
{
}

/// A file that is not the one which the preview was asked for is never written over, and neither is one in
/// which the mode has no place: the preview is reverted instead.
pub proof fn a_changed_file_wins_over_a_preview(
    before: NagameDaemon,
    confirmation: Confirmation,
    content: Result<String, String>,
    now: u64,
    step: Step,
    after: NagameDaemon,
)
    requires
        confirms_reading(before, confirmation, content, now, step, after),
        before.previews.pending is None,
        now + 1000 <= u64::MAX,
    ensures
        content is Err || hex(sha256(content->Ok_0@))
            != confirmation.preview.payload.config_revision@ ==> is_ending(
            step,
            after,
            confirmation.preview,
            now,
        ),
        step.task is DecodeForConfirm || is_ending(step, after, confirmation.preview, now),
        after.config == before.config && after.config_revision == before.config_revision,
{
}

/// The text that a confirmed preview is written as differs from the file in one mode: that of the output
/// at the place that was found when the preview was asked for, in the first profile of the name, which is
/// now the mode that was found then. Every other entry, every other output, every other profile and every
/// comment is what it was.
pub proof fn a_confirmed_preview_changes_one_mode_of_the_file(
    before: NagameDaemon,
    confirmation: Confirmation,
    source: String,
    now: u64,
    step: Step,
    after: NagameDaemon,
    i: int,
    j: int,
)
    requires
        confirms_reading(before, confirmation, Ok(source), now, step, after),
        step.task is DecodeForConfirm,
        0 <= i < toml_content(source@)->0.profiles->0.len(),
    ensures
        toml_content(source@) is Some && toml_content(step.task->DecodeForConfirm_1@) is Some,
        ({
            let payload = confirmation.preview.payload;
            let old_file = toml_content(source@)->0;
            let new_file = toml_content(step.task->DecodeForConfirm_1@)->0;
            let was = old_file.profiles->0;
            let is = new_file.profiles->0;
            let here = payload.output_index as int;
            &&& step.task->DecodeForConfirm_0 == confirmation
            &&& hex(sha256(source@)) == payload.config_revision@
            &&& read_mode(payload.mode@) is Ok
            &&& new_file.entries == old_file.entries
            &&& new_file.headers == old_file.headers
            &&& new_file.comments == old_file.comments
            &&& is.len() == was.len()
            &&& is[i].entries == was[i].entries
            &&& exists|p: int|
                0 <= p < was.len() && #[trigger] has_name(was[p].name(), payload.profile@) && (
                forall|q: int|
                    0 <= q < p ==> !#[trigger] has_name(was[q].name(), payload.profile@)) && here
                    < is[p].outputs->0.len() && (lookup(
                    is[p].outputs->0[here],
                    "mode"@,
                ) matches Some(TomlEntry::Text { text, .. }) && text == payload.mode@) && without(
                    is[p].outputs->0[here],
                    seq!["mode"@],
                ) == without(was[p].outputs->0[here], seq!["mode"@]) && (was[i].outputs is Some && 0
                    <= j < was[i].outputs->0.len() && (i != p || j != here) ==> is[i].outputs is Some
                    && is[i].outputs->0[j] == was[i].outputs->0[j])
        }),
{
    let payload = confirmation.preview.payload;
    let document = toml_content(source@)->0;
    let here = payload.output_index as int;
    a_target_is_there(document, payload.profile@, payload.output_index as nat);
    let p = update_target(
        Some(document),
        payload.profile@,
        payload.output_index as nat,
    )->Ok_0;
    an_update_changes_one_mode(document, p, here, payload.mode@, i, j);
    assert(has_name(document.profiles->0[p].name(), payload.profile@));
}

/// Whether the name there is, if there is one, is this one.
pub open spec fn has_name(name: Option<Seq<char>>, wanted: Seq<char>) -> bool {
    name == Some(wanted)
}

/// Only a valid configuration is written, and it is the one that was decoded from the text that is
/// written. Otherwise the preview is reverted.
pub proof fn only_a_valid_configuration_is_written(
    before: NagameDaemon,
    confirmation: Confirmation,
    source: String,
    decoded: Option<Config>,
    now: u64,
    step: Step,
    after: NagameDaemon,
)
    requires
        confirms_decoded(before, confirmation, source, decoded, now, step, after),
        before.previews.pending is None,
        now + 1000 <= u64::MAX,
    ensures
        match step.task {
            Task::WriteForConfirm(same, text, config) => same == confirmation && text == source
                && decoded == Some(config) && valid_config(config) && after == before,
            _ => is_ending(step, after, confirmation.preview, now) && !(decoded is Some
                && valid_config(decoded->0)),
        },
        after.config == before.config,
{
}

/// Once a confirmed preview was written, the configuration that was written counts, both clients hear of
/// its revision, nothing is pending, and confirming again gets the same answer. When the change of the
/// file is noticed, it is the daemon's own, and nothing is done. A file that could not be written leaves
/// the configuration as it was, and the preview is reverted.
pub proof fn a_written_preview_counts(
    before: NagameDaemon,
    confirmation: Confirmation,
    source: String,
    config: Config,
    outcome: Result<(), String>,
    now: u64,
    step: Step,
    after: NagameDaemon,
    noticed: FileStep,
    later: u64,
    last: NagameDaemon,
)
    requires
        confirms_written(before, confirmation, source, config, outcome, now, step, after),
        before.previews.pending is None,
        now + 1000 <= u64::MAX,
        sees_file(after, Some(source), later, noticed, last),
    ensures
        outcome is Ok ==> {
            &&& after.config == config
            &&& after.counts(source@)
            &&& after.previews.pending is None
            &&& after.has_ended(confirmation.preview.id@, Completion::Confirmed)
            &&& after.output_manager == before.output_manager
            &&& after.profile_manager == before.profile_manager
            &&& step.task is Idle
            &&& step.replies@.len() == 2
            &&& step.replies@[0].client == confirmation.preview.client_id
            &&& step.replies@[0].event matches ServerEvent::PreviewConfirmed {
                transaction_id,
                revision,
            } && transaction_id@ == confirmation.preview.id@ && revision@
                == after.config_revision@
            &&& step.replies@[1].client == confirmation.client
            &&& step.replies@[1].event matches ServerEvent::ConfirmCompleted {
                transaction_id,
                revision,
            } && transaction_id@ == confirmation.preview.id@ && revision@
                == after.config_revision@
            &&& noticed is Unchanged
            &&& last == after
        },
        outcome is Err ==> after.config == before.config && after.config_revision
            == before.config_revision && is_ending(step, after, confirmation.preview, now),
{
}

// ---------------------------------------------------------------------------------------------
// The configuration
// ---------------------------------------------------------------------------------------------

/// A changed file is taken over if it holds a valid configuration, and only then; the one that counts
/// stays valid. A file that was taken over is no change any more, and no profile is active, so that one
/// is activated even if it has the same name.
pub proof fn a_valid_file_is_taken_over(
    before: NagameDaemon,
    content: String,
    decoded: Option<Config>,
    reloaded: bool,
    after: NagameDaemon,
    now: u64,
    noticed: FileStep,
    last: NagameDaemon,
    profiles: Seq<Profile>,
    heads: Seq<HeadView>,
)
    requires
        reloads(before, content@, decoded, reloaded, after),
        sees_file(after, Some(content), now, noticed, last),
    ensures
        reloaded <==> decoded is Some && valid_config(decoded->0),
        reloaded ==> {
            &&& decoded == Some(after.config)
            &&& after.counts(content@)
            &&& noticed is Unchanged
            &&& after.profile_manager.current_profile is None
            &&& after.profile_manager.last_applied_profile
                == before.profile_manager.last_applied_profile
            &&& !(match_step(
                after.profile_manager.current_profile,
                after.profile_manager.last_applied_profile,
                after.profile_manager.wallpaper_restored,
                profiles,
                heads,
            ) is AlreadyActive)
        },
        !reloaded ==> after == before,
        valid_config(before.config) ==> valid_config(after.config),
        after.previews == before.previews && after.output_manager == before.output_manager,
{
}

/// A file that holds the configuration which counts is no change: nothing is done, and a pending preview
/// stays. Any other text, or one that cannot be read, ends a pending preview before it is looked at.
pub proof fn only_another_text_is_a_change(
    before: NagameDaemon,
    content: Option<String>,
    now: u64,
    step: FileStep,
    after: NagameDaemon,
)
    requires
        sees_file(before, content, now, step, after),
        now + 1000 <= u64::MAX,
    ensures
        step is Unchanged <==> content is Some && before.counts(content->0@),
        step is Unchanged ==> after == before,
        step matches FileStep::Reload(first) ==> match before.previews.pending {
            Some(preview) => is_ending(first, after, preview, now),
            None => first.task is Idle && first.replies@.len() == 0 && after == before,
        },
{
}

// ---------------------------------------------------------------------------------------------
// The course of the daemon
// ---------------------------------------------------------------------------------------------

/// The clock has to be looked at exactly when a preview is pending and its time is up.
pub proof fn the_alarm_is_set_for_the_end_of_a_preview(
    before: NagameDaemon,
    now: u64,
    step: Step,
    after: NagameDaemon,
)
    requires
        times_out(before, now, step, after),
        now + 1000 <= u64::MAX,
    ensures
        before.previews.ends_at() is Some <==> before.previews.pending is Some,
        match before.previews.ends_at() {
            Some(end) if end <= now => is_ending(step, after, before.previews.pending->0, now),
            _ => step.task is Idle && step.replies@.len() == 0 && after == before,
        },
{
}

/// When the daemon ends, a pending preview is reverted, then the wallpaper is remembered, then it ends,
/// whatever of this fails.
pub proof fn the_wallpaper_is_remembered_before_the_end(step: Step)
    ensures
        ShutdownStep::Revert(step).following() is SaveWallpaper,
        ShutdownStep::Revert(step).following().following() is End,
        ShutdownStep::End.following() is End,
{
}

/// Connected, the daemon looks at the outputs once a minute even if the compositor says nothing; without
/// a connection it tries to connect every second.
pub proof fn how_often_outputs_are_looked_at()
    ensures
        heartbeat(true) == 60,
        heartbeat(false) == 1,
{
}

/// A message that speaks of a broken pipe or of a reset connection, anywhere, means that the connection is
/// lost. Then, and after any other error, nothing changes; without an error the outputs are looked at if
/// anything may have changed.
pub proof fn a_lost_connection_is_noticed(
    before: NagameDaemon,
    seen: OutputsSeen,
    outcome: Result<bool, String>,
    turn: Turn,
    after: NagameDaemon,
    now_seen: OutputsSeen,
    front: Seq<char>,
    back: Seq<char>,
)
    requires
        handles_events(before, seen, outcome, turn, after, now_seen),
    ensures
        turn is Lost ==> outcome is Err,
        outcome is Err && (outcome->Err_0@ == front + "Broken pipe"@ + back || outcome->Err_0@
            == front + "Connection reset"@ + back) ==> turn is Lost,
        turn is Outputs <==> outcome == Ok::<bool, String>(true),
        !(turn is Outputs) ==> after == before && now_seen == seen,
        turn matches Turn::Outputs(step) ==> is_output_step(before, seen, step, after, now_seen),
{
    if let Err(message) = outcome {
        if message@ == front + "Broken pipe"@ + back {
            let at = front.len() as int;
            assert(message@.subrange(at, at + "Broken pipe"@.len()) =~= "Broken pipe"@);
            assert(stands_at(message@, "Broken pipe"@, front.len() as int));
        }
        if message@ == front + "Connection reset"@ + back {
            let at = front.len() as int;
            assert(message@.subrange(at, at + "Connection reset"@.len()) =~= "Connection reset"@);
            assert(stands_at(message@, "Connection reset"@, front.len() as int));
        }
    }
}

/// A client that asks for the outputs is shown every connected output once, by name in order, together with
/// the active profile and the revision that a preview has to name; nothing changes.
pub proof fn a_client_sees_the_connected_outputs(
    before: NagameDaemon,
    client: u64,
    now: u64,
    step: Step,
    after: NagameDaemon,
    i: int,
)
    requires
        before.wf(),
        answers(
            before,
            Incoming::Request { client, request: ClientRequest::Outputs },
            now,
            step,
            after,
        ),
    ensures
        after == before && step.task is Idle,
        step.replies@.len() == 1 && step.replies@[0].client == client,
        step.replies@[0].event matches ServerEvent::Outputs {
            outputs,
            active_profile,
            revision,
            supported,
        } && {
            let heads = before.output_manager.listed();
            &&& outputs@.len() == heads.len()
            &&& 0 <= i < heads.len() ==> {
                &&& outputs@[i].connector@ == heads[i].name
                &&& outputs@[i].enabled == heads[i].enabled
                &&& before.output_manager.named(outputs@[i].connector@) == Some(heads[i])
            }
            &&& 0 < i < heads.len() ==> !text_less(outputs@[i].connector@, outputs@[i - 1].connector@)
                && outputs@[i].connector@ != outputs@[i - 1].connector@
            &&& revision@ == before.config_revision@
            &&& active_profile is Some <==> before.profile_manager.current_profile is Some
            &&& active_profile is Some ==> active_profile->0@
                == before.profile_manager.current_profile->0@
            &&& supported <==> before.output_manager.wayland_client is Some
                && before.output_manager.wayland_client->0@.available
        },
{
    let heads = before.output_manager.listed();
    if let ServerEvent::Outputs { outputs, .. } = step.replies@[0].event {
        if 0 <= i < heads.len() {
            let s = before.output_manager.wayland_client->0@;
            assert(shows_head(outputs@[i], heads[i]));
            a_listed_output_is_found_by_name(s, i);
            if 0 < i {
                assert(shows_head(outputs@[i - 1], heads[i - 1]));
                names_are_listed_once(s);
                sorting_keeps_the_outputs(s.heads, heads[i]);
                assert(!text_less(heads[i].name, heads[i - 1].name));
                assert(heads[i - 1].name != heads[i].name);
            }
        }
    }
}

// ---------------------------------------------------------------------------------------------
// Reasons
// ---------------------------------------------------------------------------------------------

/// Whether the outputs of a preview are being restored for this reason, and who waits for it.
pub open spec fn restores_because(step: Step, reason: Seq<char>, next: AfterRestore) -> bool {
    step.task matches Task::Restore(restoration, _) ==> restoration.reason@ == reason
        && restoration.next == next
}

/// A preview that is reverted says why: its time is up, its client has gone, it was asked for, the daemon
/// ends, or the configuration has changed. Whoever asked for it waits for the answer.
pub proof fn reverted_previews_say_why(
    before: NagameDaemon,
    preview: PendingPreview<PreviewPayload>,
    client: u64,
    transaction: String,
    now: u64,
    step: Step,
    after: NagameDaemon,
)
    requires
        before.previews.pending == Some(preview),
    ensures
        times_out(before, now, step, after) ==> restores_because(
            step,
            "timeout"@,
            AfterRestore::Nothing,
        ),
        answers(before, Incoming::Disconnected(client), now, step, after) ==> restores_because(
            step,
            "client_disconnected"@,
            AfterRestore::Nothing,
        ),
        answers(
            before,
            Incoming::Request {
                client,
                request: ClientRequest::Revert { transaction_id: transaction },
            },
            now,
            step,
            after,
        ) ==> restores_because(
            step,
            "manual"@,
            AfterRestore::Answer { client, transaction_id: transaction },
        ),
        goes_on_announced(before, preview.id@, false, now, step, after) ==> restores_because(
            step,
            "client_disconnected"@,
            AfterRestore::Nothing,
        ),
        forall|content: Option<String>|
            #[trigger] sees_file(before, content, now, FileStep::Reload(step), after)
                ==> restores_because(step, "configuration_changed"@, AfterRestore::Nothing),
{
}

/// Outputs that could not be restored are told of to the owner of the preview and to whoever waits for it,
/// as an error each.
pub proof fn a_failed_revert_is_told_to_everyone(
    before: NagameDaemon,
    restoration: Restoration,
    fault: String,
    now: u64,
    step: Step,
    after: NagameDaemon,
)
    requires
        ends_restoration(before, restoration, Err(fault), now, step, after),
        now + 1000 <= u64::MAX,
    ensures
        is_ending(step, after, restoration.preview, now),
        restoration.next is Nothing <==> step.replies@.len() == 1,
        restoration.next matches AfterRestore::Answer { client, .. } ==> step.replies@.len() == 2
            && step.replies@[1].client == client && step.replies@[1].event is Error,
        restoration.next matches AfterRestore::Report { client, .. } ==> step.replies@.len() == 2
            && step.replies@[1].client == client && step.replies@[1].event is Error,
        after.config == before.config && after.output_manager == before.output_manager,
        after.previews.last_completed == before.previews.last_completed,
{
}

/// The code of an error.
pub open spec fn code_of(event: ServerEvent) -> Seq<char> {
    match event {
        ServerEvent::Error { code, .. } => code@,
        _ => Seq::empty(),
    }
}

/// A preview that is not tried says why: the file cannot be read, the configuration has changed, another
/// profile is active, the mode has no place in it, an output is in no mode, or the compositor cannot be
/// asked, in this order.
pub proof fn refused_previews_say_why(
    before: NagameDaemon,
    request: PreviewRequest,
    content: Result<String, String>,
    step: Step,
    after: NagameDaemon,
)
    requires
        goes_on_reading(before, request, content, step, after),
    ensures
        step.task is Idle ==> code_of(step.replies@[0].event) == {
            if content is Err {
                "config_read_failed"@
            } else if request.revision@ != before.config_revision@ || !before.counts(
                content->Ok_0@,
            ) {
                "config_conflict"@
            } else if before.profile_manager.current_profile is None
                || before.profile_manager.current_profile->0@ != request.profile@ {
                "profile_changed"@
            } else if before.target(request.profile@, request.output@, request.mode_id@) is Err {
                "invalid_profile_target"@
            } else if first_modeless(before.output_manager.listed(), 0) is Some {
                "invalid_live_state"@
            } else {
                "compositor_test_failed"@
            }
        },
{
}

/// A request that finds no such transaction says why: nothing is pending, or another preview is. A preview
/// is refused while another is pending.
pub proof fn refused_requests_say_why(
    before: NagameDaemon,
    client: u64,
    request: ClientRequest,
    now: u64,
    step: Step,
    after: NagameDaemon,
)
    requires
        answers(before, Incoming::Request { client, request }, now, step, after),
        step.task is Idle,
        step.replies@.len() == 1,
        step.replies@[0].event is Error,
        request is Confirm || request is Revert ==> after == before,
    ensures
        request is Preview ==> before.previews.pending is Some && code_of(step.replies@[0].event)
            == "preview_busy"@,
        (request matches ClientRequest::Confirm { transaction_id } && (before.previews.pending is None
            || before.previews.pending->0.id@ != transaction_id@)) || (
        request matches ClientRequest::Revert { transaction_id } && (before.previews.pending is None
            || before.previews.pending->0.id@ != transaction_id@)) ==> code_of(
            step.replies@[0].event,
        ) == if before.previews.pending is Some {
            "transaction_mismatch"@
        } else {
            "no_pending_preview"@
        },
{
}

/// A confirmation that comes to nothing says why, to its client, once the outputs are restored: the file
/// cannot be read, it has changed, it has no place for the mode, what would be written is not valid, or it
/// cannot be written.
pub proof fn failed_confirmations_say_why(
    before: NagameDaemon,
    confirmation: Confirmation,
    content: Result<String, String>,
    source: String,
    config: Config,
    decoded: Option<Config>,
    fault: String,
    now: u64,
    step: Step,
    after: NagameDaemon,
)
    requires
        step.task is Restore,
    ensures
        confirms_reading(before, confirmation, content, now, step, after) ==> reports(
            step,
            confirmation.client,
            if content is Err {
                "config_read_failed"@
            } else if hex(sha256(content->Ok_0@)) != confirmation.preview.payload.config_revision@ {
                "config_conflict"@
            } else {
                "config_update_failed"@
            },
        ),
        confirms_decoded(before, confirmation, source, decoded, now, step, after) ==> reports(
            step,
            confirmation.client,
            "config_update_failed"@,
        ),
        confirms_written(before, confirmation, source, config, Err(fault), now, step, after)
            ==> reports(step, confirmation.client, "config_write_failed"@),
{
}

/// Once outputs are restored, this client is told of an error with this code.
pub open spec fn reports(step: Step, client: u64, code: Seq<char>) -> bool {
    step.task matches Task::Restore(restoration, _) && (
    restoration.next matches AfterRestore::Report { client: who, code: k, .. } && who == client && k@
        == code)
}

/// A daemon begins with the configuration it was given: the text of it counts, and nothing is pending.
pub proof fn a_daemon_begins_with_its_configuration(
    config_path: String,
    config: Config,
    content: Seq<char>,
    output_manager: OutputManager,
    profile_manager: ProfileManager,
    daemon: NagameDaemon,
    noticed: String,
    now: u64,
    step: FileStep,
    after: NagameDaemon,
)
    requires
        begins(config_path, config, content, output_manager, profile_manager, daemon),
        noticed@ == content,
        sees_file(daemon, Some(noticed), now, step, after),
    ensures
        step is Unchanged && after == daemon,
        daemon.config == config && daemon.config_path == config_path,
        daemon.output_manager == output_manager && daemon.profile_manager == profile_manager,
        daemon.previews.pending is None && daemon.previews.last_completed is None,
{
}

} // verus!
