//! What holds of outputs and profiles from a change of outputs to the activation of a profile.

use crate::config::Profile;
use crate::daemon::{
    generation_of, identities, identity_views, is_output_step, names_of, NagameDaemon, OutputChange,
    OutputStep, OutputsSeen,
};
use crate::ipc::ServerEvent;
use crate::preview::Completion;
use crate::profile::matcher::resolution;
use crate::profile::{
    another_profile_shows_its_own_wallpaper, match_step, the_first_fitting_profile_becomes_active, MatchStep, ProfileManager,
};
use crate::wayland::protocols::HeadView;
use vstd::prelude::*;

verus! {

// ---------------------------------------------------------------------------------------------
// Noticing changes
// ---------------------------------------------------------------------------------------------

/// Whether the outputs that were seen are the ones that are connected: the same names and numbers in
/// the same order.
pub open spec fn still_seen(seen: OutputsSeen, heads: Seq<HeadView>) -> bool {
    &&& seen.outputs@.len() == heads.len()
    &&& forall|i: int|
        0 <= i < heads.len() ==> (#[trigger] seen.outputs@[i]).0@ == heads[i].name
            && seen.outputs@[i].1 == heads[i].id
}

/// Whether the outputs that were seen have the names of the ones that are connected.
pub open spec fn names_still_seen(seen: OutputsSeen, heads: Seq<HeadView>) -> bool {
    &&& seen.outputs@.len() == heads.len()
    &&& forall|i: int| 0 <= i < heads.len() ==> (#[trigger] seen.outputs@[i]).0@ == heads[i].name
}

proof fn lemma_still_seen(seen: OutputsSeen, heads: Seq<HeadView>)
    ensures
        still_seen(seen, heads) <==> identities(heads) == identity_views(seen.outputs@),
        names_still_seen(seen, heads) <==> names_of(identity_views(seen.outputs@)) == names_of(
            identities(heads),
        ),
{
    let now = identities(heads);
    let was = identity_views(seen.outputs@);
    if still_seen(seen, heads) {
        assert forall|i: int| 0 <= i < now.len() implies now[i] == was[i] by {
            assert(seen.outputs@[i].0@ == heads[i].name);
        }
        assert(now =~= was);
    }
    if now == was {
        assert(now.len() == heads.len() && was.len() == seen.outputs@.len());
        assert forall|i: int| 0 <= i < heads.len() implies (#[trigger] seen.outputs@[i]).0@
            == heads[i].name && seen.outputs@[i].1 == heads[i].id by {
            assert(now[i] == was[i]);
        }
    }
    if names_still_seen(seen, heads) {
        assert forall|i: int| 0 <= i < now.len() implies names_of(now)[i] == names_of(was)[i] by {
            assert(seen.outputs@[i].0@ == heads[i].name);
        }
        assert(names_of(now) =~= names_of(was));
    }
    if names_of(was) == names_of(now) {
        assert(names_of(now).len() == heads.len() && names_of(was).len() == seen.outputs@.len());
        assert forall|i: int| 0 <= i < heads.len() implies (#[trigger] seen.outputs@[i]).0@
            == heads[i].name by {
            assert(names_of(now)[i] == names_of(was)[i]);
        }
    }
}

/// Nothing is done as long as the compositor has completed no other configuration. After one that has an
/// enabled output without modes, the daemon is started anew. Otherwise something is done exactly when
/// the connected outputs are not the ones that were seen, and from then on they are.
pub proof fn changes_of_outputs_are_noticed(
    before: NagameDaemon,
    seen: OutputsSeen,
    step: OutputStep,
    after: NagameDaemon,
    now_seen: OutputsSeen,
)
    requires
        is_output_step(before, seen, step, after, now_seen),
    ensures
        ({
            let heads = before.output_manager.listed();
            let fresh = generation_of(before.output_manager) != seen.generation;
            let broken = exists|i: int|
                0 <= i < heads.len() && (#[trigger] heads[i]).enabled && heads[i].modes.len() == 0;
            &&& step is Restart <==> fresh && broken
            &&& step is Changed <==> fresh && !broken && !still_seen(seen, heads)
            &&& !(step is Changed) ==> after == before && now_seen.outputs == seen.outputs
            &&& step is Changed ==> still_seen(now_seen, heads)
            &&& now_seen.generation == generation_of(before.output_manager)
        }),
{
    lemma_still_seen(seen, before.output_manager.listed());
    lemma_still_seen(now_seen, before.output_manager.listed());
}

/// What kind of change it is: whether no output is connected any more, the first ones were connected, the
/// same names belong to new outputs, or anything else.
pub proof fn changes_of_outputs_are_named(
    before: NagameDaemon,
    seen: OutputsSeen,
    step: OutputStep,
    after: NagameDaemon,
    now_seen: OutputsSeen,
)
    requires
        is_output_step(before, seen, step, after, now_seen),
    ensures
        step matches OutputStep::Changed { change, .. } ==> {
            let heads = before.output_manager.listed();
            &&& change == OutputChange::AllDisconnected <==> heads.len() == 0
            &&& change == OutputChange::Connected <==> heads.len() > 0 && seen.outputs@.len() == 0
            &&& change == OutputChange::Rebuilt <==> heads.len() > 0 && names_still_seen(seen, heads)
        },
{
    lemma_still_seen(seen, before.output_manager.listed());
}

/// A change is acted on once: looking again before the compositor completes another configuration does
/// nothing.
pub proof fn a_change_is_acted_on_once(
    before: NagameDaemon,
    seen: OutputsSeen,
    step: OutputStep,
    after: NagameDaemon,
    now_seen: OutputsSeen,
    again: OutputStep,
    last: NagameDaemon,
    last_seen: OutputsSeen,
)
    requires
        is_output_step(before, seen, step, after, now_seen),
        is_output_step(after, now_seen, again, last, last_seen),
    ensures
        again is Nothing && last == after && last_seen == now_seen,
{
}

// ---------------------------------------------------------------------------------------------
// Activating again
// ---------------------------------------------------------------------------------------------

/// What to do about the connected outputs of a manager, by what its keeper of profiles keeps.
pub open spec fn match_of(
    manager: ProfileManager,
    profiles: Seq<Profile>,
    heads: Seq<HeadView>,
) -> MatchStep {
    match_step(
        manager.current_profile,
        manager.last_applied_profile,
        manager.wallpaper_restored,
        profiles,
        heads,
    )
}

/// Whenever outputs have changed and some are connected, no profile is active any more, so that matching
/// activates one whatever was active before. No preview survives, and the client of one is told so; the
/// outputs and the configuration are left alone, and what was applied last is kept.
pub proof fn changed_outputs_leave_no_profile_active(
    before: NagameDaemon,
    seen: OutputsSeen,
    step: OutputStep,
    after: NagameDaemon,
    now_seen: OutputsSeen,
    profiles: Seq<Profile>,
    heads: Seq<HeadView>,
)
    requires
        is_output_step(before, seen, step, after, now_seen),
        step is Changed,
    ensures
        before.output_manager.listed().len() > 0 ==> after.profile_manager.current_profile is None
            && !(match_of(after.profile_manager, profiles, heads) is AlreadyActive),
        before.output_manager.listed().len() == 0 ==> after.profile_manager.current_profile
            == before.profile_manager.current_profile,
        after.profile_manager.last_applied_profile == before.profile_manager.last_applied_profile,
        after.profile_manager.wallpaper_restored == before.profile_manager.wallpaper_restored,
        after.previews.pending is None,
        match before.previews.pending {
            Some(preview) => {
                let replies = step->Changed_replies@;
                &&& replies.len() == 1
                &&& replies[0].client == preview.client_id
                &&& replies[0].event matches ServerEvent::PreviewReverted { transaction_id, reason }
                    && transaction_id@ == preview.id@ && reason@ == "outputs_changed"@
                &&& after.has_ended(preview.id@, Completion::Reverted)
            },
            None => step->Changed_replies@.len() == 0 && after.previews == before.previews,
        },
        after.output_manager == before.output_manager,
        after.config == before.config,
{
}

/// After outputs were built anew, as after sleep, the profile that was active on them is activated again:
/// the displays are configured anew, the remembered wallpaper is restored, and that of the profile is not
/// shown over it.
pub proof fn rebuilt_outputs_get_their_profile_back(
    before: NagameDaemon,
    seen: OutputsSeen,
    step: OutputStep,
    after: NagameDaemon,
    now_seen: OutputsSeen,
    i: int,
)
    requires
        is_output_step(before, seen, step, after, now_seen),
        step matches OutputStep::Changed { change, .. } && change == OutputChange::Rebuilt,
        0 <= i < before.config.profiles@.len(),
        resolution(before.config.profiles@[i], before.output_manager.listed()) is Some,
        forall|k: int|
            0 <= k < i ==> resolution(
                #[trigger] before.config.profiles@[k],
                before.output_manager.listed(),
            ) is None,
        before.profile_manager.last_applied_profile matches Some(name) && name@
            == before.config.profiles@[i].name@,
    ensures
        match_of(after.profile_manager, after.config.profiles@, after.output_manager.listed())
            == (MatchStep::Activate {
            profile: i as usize,
            restore_saved: true,
            skip_wallpaper: true,
        }),
{
    let manager = after.profile_manager;
    assert(before.config.profiles@.len() == before.config.profiles.len());
    changes_of_outputs_are_named(before, seen, step, after, now_seen);
    another_profile_shows_its_own_wallpaper(
        manager.current_profile,
        manager.last_applied_profile,
        manager.wallpaper_restored,
        before.config.profiles@,
        before.output_manager.listed(),
    );
    the_first_fitting_profile_becomes_active(
        manager.current_profile,
        manager.last_applied_profile,
        manager.wallpaper_restored,
        before.config.profiles@,
        before.output_manager.listed(),
        i,
    );
}

} // verus!
