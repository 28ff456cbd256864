//! What holds of a preview from its request to its end.

use crate::config::persistence::{
    a_target_is_there, an_update_changes_one_mode, an_update_keeps_its_target, mode_target,
    update_target, with_mode, TomlDocument, TomlEntry, UpdateError,
};
use crate::config::{mode_reading, read_mode, Config, ModeError, ModeReading, OutputConfig};
use crate::daemon::{
    keeps, payload_fits, restore_failed, restoring, settings_for, AfterRestore, Confirmation,
    NagameDaemon, PreviewPayload, PreviewRequest, Step, Task,
};
use crate::ipc::{
    listed_modes, listed_modes_are_the_offered_ones, mode_id_text, mode_ids_tell_modes_apart,
    pictured,
};
use crate::preview::{Completion, PendingPreview, PreviewState};
use crate::profile::matcher::{a_resolution_pairs_outputs, resolution, selects};
use crate::profile::{profile_named, the_first_profile_of_a_name_is_found};
use crate::table::lookup;
use crate::wayland::output::{
    a_listed_output_is_found_by_name, all_requests, asked, live_configuration, mode_with_id,
    modes_are_found_by_id, names_are_listed_once, opened, sorted_heads,
};
use crate::wayland::persistent::persistent_text;
use crate::wayland::protocols::{same_picture, HeadView, OutputMode, StateView};
use crate::wayland::readback::{a_written_mode_is_found_again, a_written_mode_is_read_back};
use vstd::prelude::*;

verus! {

/// However a preview ends without being confirmed, the compositor is asked for the configuration that
/// was live when the preview was asked for, if it can be asked at all.
pub proof fn a_reverted_preview_restores_what_was_live(
    asked: NagameDaemon,
    request: PreviewRequest,
    preview: PendingPreview<PreviewPayload>,
    before: NagameDaemon,
    reason: Seq<char>,
    next: AfterRestore,
    now: u64,
    step: Step,
    after: NagameDaemon,
)
    requires
        payload_fits(asked, request, preview.payload),
        restoring(before, preview, reason, next, now, step, after),
        before.output_manager.submission_fault(
            live_configuration(asked.output_manager.listed()),
        ) is None,
    ensures
        step.task matches Task::Restore(_, submission) && submission.purpose is Apply
            && submission.requests@ == all_requests(
            opened(before.output_manager.wayland_client->0@),
            live_configuration(asked.output_manager.listed()),
        ),
{
}

/// A preview whose outputs could not be restored, whether the compositor could not be asked or has
/// refused, is not given up: it is pending again, with everything that is needed to restore them, and
/// its time is up a second later.
pub proof fn a_failed_revert_is_tried_again(
    before: PreviewState<PreviewPayload>,
    preview: PendingPreview<PreviewPayload>,
    next: AfterRestore,
    fault: Seq<char>,
    now: u64,
    step: Step,
    after: PreviewState<PreviewPayload>,
)
    requires
        restore_failed(before, preview, next, fault, now, step, after),
        now + 1000 <= u64::MAX,
    ensures
        after.pending matches Some(again) && again.id == preview.id && again.client_id
            == preview.client_id && again.payload == preview.payload && again.deadline == now + 1000,
{
}

/// The identifiers that a client is shown for an output are exactly those by which one of its modes
/// can be previewed.
pub proof fn shown_identifiers_are_the_accepted_ones(modes: Seq<OutputMode>, id: Seq<char>)
    ensures
        mode_with_id(modes, id) is Some <==> exists|i: int|
            0 <= i < listed_modes(modes).len() && mode_id_text(#[trigger] listed_modes(modes)[i])
                == id,
{
    let listed = listed_modes(modes);
    listed_modes_are_the_offered_ones(modes);
    modes_are_found_by_id(modes, id, 0);
    if mode_with_id(modes, id) is Some {
        let mode = mode_with_id(modes, id)->0;
        let k = choose|k: int| 0 <= k < modes.len() && modes[k] == mode;
        assert(pictured(listed, modes[k]));
        let i = choose|i: int| 0 <= i < listed.len() && same_picture(#[trigger] listed[i], mode);
        mode_ids_tell_modes_apart(listed[i], mode);
    }
    if exists|i: int| 0 <= i < listed.len() && mode_id_text(#[trigger] listed[i]) == id {
        let i = choose|i: int| 0 <= i < listed.len() && mode_id_text(#[trigger] listed[i]) == id;
        assert(modes.contains(listed[i]));
        let k = choose|k: int| 0 <= k < modes.len() && modes[k] == listed[i];
        modes_are_found_by_id(modes, id, k);
    }
}

/// What is written down when a preview is confirmed says, when it is read again, the width, the height
/// and the rate of the mode that was previewed.
pub proof fn a_confirmed_mode_is_the_previewed_one(
    daemon: NagameDaemon,
    request: PreviewRequest,
    payload: PreviewPayload,
    mode: OutputMode,
)
    requires
        payload_fits(daemon, request, payload),
        mode_with_id(
            daemon.output_manager.named(request.output@)->0.modes,
            request.mode_id@,
        ) == Some(mode),
        mode.width > 0,
        mode.height > 0,
        mode.refresh_mhz > 0,
    ensures
        mode_id_text(mode) == request.mode_id@,
        read_mode(payload.mode@) == Ok::<ModeReading, ModeError>(
            mode_reading(mode.width as u32, mode.height as u32, Some(mode.refresh_mhz as u32)),
        ),
{
    modes_are_found_by_id(
        daemon.output_manager.named(request.output@)->0.modes,
        request.mode_id@,
        0,
    );
    a_written_mode_is_read_back(mode);
}

/// The file that a confirmed preview is written to, when it is read again, has the previewed mode at the
/// output that the preview was of, and that output is found where it was.
pub proof fn a_confirmed_mode_stands_in_the_file(
    daemon: NagameDaemon,
    request: PreviewRequest,
    payload: PreviewPayload,
    mode: OutputMode,
    document: TomlDocument,
    place: int,
)
    requires
        payload_fits(daemon, request, payload),
        mode_with_id(
            daemon.output_manager.named(request.output@)->0.modes,
            request.mode_id@,
        ) == Some(mode),
        mode.width > 0,
        mode.height > 0,
        mode.refresh_mhz > 0,
        update_target(Some(document), payload.profile@, payload.output_index as nat) == Ok::<
            int,
            UpdateError,
        >(place),
    ensures
        ({
            let written = with_mode(document, place, payload.output_index as int, payload.mode@);
            let output = written.profiles->0[place].outputs->0[payload.output_index as int];
            &&& mode_target(
                Some(written),
                payload.profile@,
                payload.output_index as nat,
                payload.mode@,
            ) == Ok::<int, UpdateError>(place)
            &&& lookup(output, "mode"@) matches Some(TomlEntry::Text { text, .. }) && read_mode(text)
                == Ok::<
                ModeReading,
                ModeError,
            >(mode_reading(mode.width as u32, mode.height as u32, Some(mode.refresh_mhz as u32)))
        }),
{
    a_confirmed_mode_is_the_previewed_one(daemon, request, payload, mode);
    a_target_is_there(document, payload.profile@, payload.output_index as nat);
    an_update_changes_one_mode(
        document,
        place,
        payload.output_index as int,
        payload.mode@,
        place,
        0,
    );
    an_update_keeps_its_target(
        document,
        place,
        payload.output_index as int,
        payload.mode@,
        payload.profile@,
        payload.output_index as nat,
    );
}

/// A preview that was kept is not reverted any more: it is not pending, and the file that was written
/// for it counts as the configuration that is known.
pub proof fn a_kept_preview_stays(
    before: NagameDaemon,
    confirmation: Confirmation,
    source: Seq<char>,
    config: Config,
    step: Step,
    after: NagameDaemon,
)
    requires
        keeps(before, confirmation, source, config, step, after),
        before.previews.pending is None,
    ensures
        after.previews.pending is None,
        after.counts(source),
        after.previews.last_completed == Some((confirmation.preview.id, Completion::Confirmed)),
{
}

/// Where a previewed mode is to be written down is the place of the settings that the profile has for the
/// output of the preview and for no other: the profile is the first one of its name, it fits the connected
/// outputs, the settings at that place are for the connected output of that name, and they select it. What
/// is to be written down is one of the modes that this very output offers, the one with the identifier.
pub proof fn a_previewed_mode_is_written_at_its_own_output(
    daemon: NagameDaemon,
    profile_name: Seq<char>,
    output: Seq<char>,
    mode_id: Seq<char>,
)
    requires
        daemon.wf(),
    ensures
        daemon.target(profile_name, output, mode_id) matches Ok((place, text)) ==> exists|
            p: int,
            mode: OutputMode,
        | #[trigger]
            is_target(daemon, p, place, output, mode) && daemon.config.profiles@[p].name@
                == profile_name && (forall|q: int|
                0 <= q < p ==> (#[trigger] daemon.config.profiles@[q]).name@ != profile_name)
                && mode_id_text(mode) == mode_id && text == persistent_text(mode),
{
    let profiles = daemon.config.profiles@;
    let heads = daemon.output_manager.listed();
    the_first_profile_of_a_name_is_found(profiles, profile_name, 0);
    if let Ok((place, text)) = daemon.target(profile_name, output, mode_id) {
        let p = profile_named(profiles, profile_name, 0)->0;
        let chosen = resolution(profiles[p], heads)->0;
        let mode = mode_with_id(daemon.output_manager.named(output)->0.modes, mode_id)->0;
        a_resolution_pairs_outputs(profiles[p], heads);
        lemma_settings_for(chosen, heads, output, 0);
        a_listed_output_is_found_by_name(
            daemon.output_manager.wayland_client->0@,
            chosen[place],
        );
        modes_are_found_by_id(heads[chosen[place]].modes, mode_id, 0);
        assert(is_target(daemon, p, place, output, mode));
    }
}

/// The settings at this place of a profile are for the connected output of this name, which offers this
/// mode.
pub open spec fn is_target(
    daemon: NagameDaemon,
    profile: int,
    place: int,
    output: Seq<char>,
    mode: OutputMode,
) -> bool {
    let profiles = daemon.config.profiles@;
    let heads = daemon.output_manager.listed();
    &&& 0 <= profile < profiles.len()
    &&& 0 <= place < profiles[profile].outputs@.len()
    &&& resolution(profiles[profile], heads) matches Some(chosen) && {
        &&& 0 <= chosen[place] < heads.len()
        &&& heads[chosen[place]].name == output
        &&& selects(profiles[profile].outputs@[place].name@, heads[chosen[place]])
        &&& heads[chosen[place]].modes.contains(mode)
    }
}

/// A mode can be written down whenever the first profile of the name fits the connected outputs and
/// the named output, which is one of them, offers a mode with the identifier. It goes to the only place
/// with settings for that output.
pub proof fn a_mode_of_a_fitting_profile_can_be_written(
    daemon: NagameDaemon,
    profile_name: Seq<char>,
    output: Seq<char>,
    mode_id: Seq<char>,
    p: int,
    place: int,
    mode: OutputMode,
)
    requires
        daemon.wf(),
        is_target(daemon, p, place, output, mode),
        daemon.config.profiles@[p].name@ == profile_name,
        forall|q: int|
            0 <= q < p ==> (#[trigger] daemon.config.profiles@[q]).name@ != profile_name,
        mode_id_text(mode) == mode_id,
    ensures
        daemon.target(profile_name, output, mode_id) matches Ok((at, text)) && at == place
            && text == persistent_text(mode),
{
    let profiles = daemon.config.profiles@;
    let heads = daemon.output_manager.listed();
    let state = daemon.output_manager.wayland_client->0@;
    the_first_profile_of_a_name_is_found(profiles, profile_name, 0);
    let found = profile_named(profiles, profile_name, 0)->0;
    assert(profiles[p].name@ == profile_name);
    assert(found == p) by {
        if found < p {
            assert(profiles[found].name@ != profile_name);
        }
    }
    let chosen = resolution(profiles[p], heads)->0;
    a_resolution_pairs_outputs(profiles[p], heads);
    lemma_settings_for(chosen, heads, output, 0);
    assert(heads[chosen[place]].name == output);
    let at = settings_for(chosen, heads, output, 0)->0;
    a_listed_output_is_found_by_name(state, chosen[place]);
    a_listed_output_is_found_by_name(state, chosen[at]);
    lemma_listed_once(state, chosen[at], chosen[place]);
    assert(at == place) by {
        if at != place {
            assert(chosen[at] != chosen[place]);
        }
    }
    let modes = heads[chosen[place]].modes;
    let k = choose|k: int| 0 <= k < modes.len() && modes[k] == mode;
    modes_are_found_by_id(modes, mode_id, k);
    let first = mode_with_id(modes, mode_id)->0;
    assert(same_picture(first, mode));
}

proof fn lemma_listed_once(s: StateView, i: int, j: int)
    requires
        s.wf(),
        0 <= i < sorted_heads(s.heads).len(),
        0 <= j < sorted_heads(s.heads).len(),
        sorted_heads(s.heads)[i].name == sorted_heads(s.heads)[j].name,
    ensures
        i == j,
{
    names_are_listed_once(s);
    if i < j {
        assert(sorted_heads(s.heads)[i].name != sorted_heads(s.heads)[j].name);
    }
    if j < i {
        assert(sorted_heads(s.heads)[j].name != sorted_heads(s.heads)[i].name);
    }
}

proof fn lemma_settings_for(chosen: Seq<int>, heads: Seq<HeadView>, output: Seq<char>, from: int)
    requires
        0 <= from,
    ensures
        settings_for(chosen, heads, output, from) matches Some(place) ==> from <= place
            < chosen.len() && heads[chosen[place]].name == output,
        settings_for(chosen, heads, output, from) is None ==> forall|k: int|
            from <= k < chosen.len() ==> heads[#[trigger] chosen[k]].name != output,
    decreases chosen.len() - from,
{
    if from < chosen.len() {
        lemma_settings_for(chosen, heads, output, from + 1);
    }
}

/// Settings that have the mode which was written down for a preview ask, from then on, for the size and
/// the rate of the previewed mode, as long as the output offers it.
pub proof fn a_confirmed_mode_is_asked_for_from_then_on(
    daemon: NagameDaemon,
    request: PreviewRequest,
    payload: PreviewPayload,
    mode: OutputMode,
    settings: OutputConfig,
    head: HeadView,
)
    requires
        payload_fits(daemon, request, payload),
        mode_with_id(
            daemon.output_manager.named(request.output@)->0.modes,
            request.mode_id@,
        ) == Some(mode),
        mode.width > 0,
        mode.height > 0,
        mode.refresh_mhz > 0,
        settings.enabled,
        settings.mode matches Some(text) && text@ == payload.mode@,
        head.modes.contains(mode),
    ensures
        asked(settings, head).mode matches Some(wanted) && same_picture(wanted, mode),
{
    a_written_mode_is_found_again(head.modes, mode);
}

} // verus!
