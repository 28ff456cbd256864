//! What configurations do to the outputs of a compositor that carries their requests out.

use crate::config::{OutputConfig, Profile};
use crate::profile::matcher::{a_resolution_pairs_outputs, resolution, selects};
use crate::scale::apart_is_symmetric;
use crate::table::{has_key, lemma_place_unique, lookup, place, place_is_the_first};
use crate::wayland::laws::a_mode_object_fits;
use crate::wayland::output::{
    a_listed_output_is_found_by_name, all_requests, asked, configuration_view, first_absent,
    first_lacking, first_modeless, gap, has_size, is_modeless, is_plan, is_snapshot, live_configuration, opened,
    output_settled, profile_configuration, read_mode_text, sorted_heads, the_best_mode_is_offered,
    wanted_mode, with_output_mode, OutputError, OutputManager, ProfilePlan, Purpose,
};
use crate::wayland::protocols::{
    same_picture, ConfigurationRequest, HeadConfiguration, HeadView, OutputMode, StateView,
};
use vstd::prelude::*;

verus! {

// ---------------------------------------------------------------------------------------------
// Carrying requests out
// ---------------------------------------------------------------------------------------------

/// The output that the last of these requests is about: the one that was enabled or disabled last.
pub open spec fn subject(requests: Seq<ConfigurationRequest>) -> Option<u32>
    decreases requests.len(),
{
    if requests.len() == 0 {
        None
    } else {
        match requests.last() {
            ConfigurationRequest::EnableHead { head } => Some(head),
            ConfigurationRequest::DisableHead { head } => Some(head),
            _ => subject(requests.drop_last()),
        }
    }
}

/// What an output is after a request about it was carried out, given what the mode objects stand for.
pub open spec fn obeying(
    head: HeadView,
    modes: Seq<(u32, OutputMode)>,
    request: ConfigurationRequest,
) -> HeadView {
    match request {
        ConfigurationRequest::EnableHead { .. } => HeadView { enabled: true, ..head },
        ConfigurationRequest::DisableHead { .. } => HeadView { enabled: false, ..head },
        ConfigurationRequest::SetMode { mode } => HeadView {
            current_mode: lookup(modes, mode),
            ..head
        },
        ConfigurationRequest::SetPosition { x, y } => HeadView { position: Some((x, y)), ..head },
        ConfigurationRequest::SetTransform { transform } => HeadView { transform, ..head },
        ConfigurationRequest::SetScale { scale } => HeadView { scale, ..head },
        ConfigurationRequest::SetAdaptiveSync { enabled } => HeadView {
            adaptive_sync: Some(enabled),
            ..head
        },
    }
}

/// What the output with this number is once the requests were carried out in order.
pub open spec fn carried_out(
    head: HeadView,
    id: u32,
    modes: Seq<(u32, OutputMode)>,
    requests: Seq<ConfigurationRequest>,
) -> HeadView
    decreases requests.len(),
{
    if requests.len() == 0 {
        head
    } else {
        let earlier = carried_out(head, id, modes, requests.drop_last());
        if subject(requests) == Some(id) {
            obeying(earlier, modes, requests.last())
        } else {
            earlier
        }
    }
}

/// Whether a request says which output the following ones are about.
spec fn names_output(request: ConfigurationRequest) -> bool {
    request is EnableHead || request is DisableHead
}

proof fn lemma_join(
    head: HeadView,
    id: u32,
    modes: Seq<(u32, OutputMode)>,
    front: Seq<ConfigurationRequest>,
    back: Seq<ConfigurationRequest>,
)
    requires
        back.len() > 0 ==> names_output(back[0]),
    ensures
        back.len() > 0 ==> subject(front + back) == subject(back),
        carried_out(head, id, modes, front + back) == carried_out(
            carried_out(head, id, modes, front),
            id,
            modes,
            back,
        ),
    decreases back.len(),
{
    let all = front + back;
    if back.len() == 0 {
        assert(all =~= front);
    } else {
        assert(all.drop_last() =~= front + back.drop_last());
        assert(all.last() == back.last());
        lemma_join(head, id, modes, front, back.drop_last());
        if back.len() == 1 {
            assert(back.last() == back[0]);
        }
    }
}

/// One more request about the same output, or none.
proof fn lemma_more(
    head: HeadView,
    id: u32,
    modes: Seq<(u32, OutputMode)>,
    front: Seq<ConfigurationRequest>,
    more: Seq<ConfigurationRequest>,
)
    requires
        more.len() <= 1,
        more.len() == 1 ==> !names_output(more[0]),
    ensures
        subject(front + more) == subject(front),
        carried_out(head, id, modes, front + more) == if more.len() == 1 && subject(front) == Some(
            id,
        ) {
            obeying(carried_out(head, id, modes, front), modes, more[0])
        } else {
            carried_out(head, id, modes, front)
        },
{
    if more.len() == 0 {
        assert(front + more =~= front);
    } else {
        assert((front + more).drop_last() =~= front);
        assert((front + more).last() == more[0]);
    }
}

proof fn lemma_first_request(
    head: HeadView,
    id: u32,
    modes: Seq<(u32, OutputMode)>,
    request: ConfigurationRequest,
)
    requires
        names_output(request),
    ensures
        subject(seq![request]) == Some(
            match request {
                ConfigurationRequest::EnableHead { head } => head,
                ConfigurationRequest::DisableHead { head } => head,
                _ => 0,
            },
        ),
        carried_out(head, id, modes, seq![request]) == if subject(seq![request]) == Some(id) {
            obeying(head, modes, request)
        } else {
            head
        },
{
    let one = seq![request];
    assert(one.last() == request);
    assert(one.drop_last() =~= Seq::empty());
    assert(carried_out(head, id, modes, one.drop_last()) == head);
}

/// The mode that an output is asked for, by its object, or the one it is in if there is none.
spec fn mode_then(s: StateView, name: Seq<char>, wanted: Option<OutputMode>, head: HeadView) -> Option<
    OutputMode,
> {
    match wanted {
        Some(mode) => match s.mode_object(name, mode) {
            Some(id) => lookup(s.mode_metadata, id),
            None => head.current_mode,
        },
        None => head.current_mode,
    }
}

proof fn lemma_head_requests(
    s: StateView,
    name: Seq<char>,
    config: HeadConfiguration,
    head: HeadView,
    id: u32,
)
    ensures
        ({
            let requests = s.head_requests(name, config);
            let then = carried_out(head, id, s.mode_metadata, requests);
            let object = lookup(s.head_proxies, name)->0;
            &&& requests.len() > 0
            &&& names_output(requests[0])
            &&& subject(requests) == Some(object)
            &&& id != object ==> then == head
            &&& id == object && !config.enabled ==> then == (HeadView { enabled: false, ..head })
            &&& id == object && config.enabled ==> then == (HeadView {
                enabled: true,
                current_mode: mode_then(s, name, config.mode, head),
                position: if config.position is Some {
                    config.position
                } else {
                    head.position
                },
                transform: match config.transform {
                    Some(transform) => transform,
                    None => head.transform,
                },
                scale: match config.scale {
                    Some(scale) => scale,
                    None => head.scale,
                },
                adaptive_sync: if config.adaptive_sync is Some {
                    config.adaptive_sync
                } else {
                    head.adaptive_sync
                },
                ..head
            })
        }),
{
    let object = lookup(s.head_proxies, name)->0;
    let modes = s.mode_metadata;
    if config.enabled {
        let a = seq![ConfigurationRequest::EnableHead { head: object }];
        let mode = match config.mode {
            Some(wanted) => s.mode_object(name, wanted),
            None => None,
        };
        let m1 = match mode {
            Some(mode) => seq![ConfigurationRequest::SetMode { mode }],
            None => seq![],
        };
        let m2 = match config.position {
            Some((x, y)) => seq![ConfigurationRequest::SetPosition { x, y }],
            None => seq![],
        };
        let m3 = match config.transform {
            Some(transform) => seq![ConfigurationRequest::SetTransform { transform }],
            None => seq![],
        };
        let m4 = match config.scale {
            Some(scale) => seq![ConfigurationRequest::SetScale { scale }],
            None => seq![],
        };
        let m5 = match config.adaptive_sync {
            Some(enabled) => seq![ConfigurationRequest::SetAdaptiveSync { enabled }],
            None => seq![],
        };
        let b = a + m1;
        let c = b + m2;
        let d = c + m3;
        let e = d + m4;
        let f = e + m5;
        lemma_first_request(head, id, modes, a[0]);
        lemma_more(head, id, modes, a, m1);
        lemma_more(head, id, modes, b, m2);
        lemma_more(head, id, modes, c, m3);
        lemma_more(head, id, modes, d, m4);
        lemma_more(head, id, modes, e, m5);
        assert(s.head_requests(name, config) == f);
        assert(f[0] == a[0]);
    } else {
        lemma_first_request(head, id, modes, ConfigurationRequest::DisableHead { head: object });
    }
}

/// Whether every one of these outputs is the object of its number, and no two have the same number.
pub open spec fn told_apart(heads: Seq<HeadView>, proxies: Seq<(Seq<char>, u32)>) -> bool {
    &&& forall|i: int|
        0 <= i < heads.len() ==> lookup(proxies, (#[trigger] heads[i]).name) == Some(heads[i].id)
    &&& forall|i: int, j: int|
        #![trigger heads[i], heads[j]]
        0 <= i < j < heads.len() ==> heads[i].id != heads[j].id
}

/// In a configuration that speaks of every object once, only what it says of an output counts for it.
proof fn lemma_own_requests(
    s: StateView,
    configuration: Seq<(Seq<char>, HeadConfiguration)>,
    head: HeadView,
    id: u32,
    i: int,
)
    requires
        forall|k: int|
            0 <= k < configuration.len() && k != i ==> lookup(
                s.head_proxies,
                (#[trigger] configuration[k]).0,
            )->0 != id,
    ensures
        carried_out(head, id, s.mode_metadata, all_requests(s, configuration)) == if 0 <= i
            < configuration.len() {
            carried_out(
                head,
                id,
                s.mode_metadata,
                s.head_requests(configuration[i].0, configuration[i].1),
            )
        } else {
            head
        },
    decreases configuration.len(),
{
    if configuration.len() > 0 {
        let shorter = configuration.drop_last();
        let (name, config) = configuration.last();
        let last = configuration.len() - 1;
        assert forall|k: int| 0 <= k < shorter.len() && k != i implies lookup(
            s.head_proxies,
            (#[trigger] shorter[k]).0,
        )->0 != id by {
            assert(shorter[k] == configuration[k]);
        }
        lemma_own_requests(s, shorter, head, id, i);
        let before = carried_out(head, id, s.mode_metadata, all_requests(s, shorter));
        lemma_head_requests(s, name, config, before, id);
        lemma_join(
            head,
            id,
            s.mode_metadata,
            all_requests(s, shorter),
            s.head_requests(name, config),
        );
        assert(configuration[last] == configuration.last());
        if i == last {
            assert(before == head);
        }
    }
}

// ---------------------------------------------------------------------------------------------
// Modes
// ---------------------------------------------------------------------------------------------

/// Whether a mode of this size and rate was announced for the output with this number, size included.
pub open spec fn has_object(s: StateView, id: u32, mode: OutputMode) -> bool {
    exists|k: int|
        0 <= k < s.mode_metadata.len() && same_picture((#[trigger] s.mode_metadata[k]).1, mode)
            && s.mode_proxies.contains(s.mode_metadata[k].0) && lookup(
            s.mode_to_head,
            s.mode_metadata[k].0,
        ) == Some(id)
}

/// Whether every mode that an output offers was announced for it.
pub open spec fn offers_objects(s: StateView, head: HeadView) -> bool {
    forall|j: int| 0 <= j < head.modes.len() ==> has_object(s, head.id, #[trigger] head.modes[j])
}

proof fn lemma_mode_then(s: StateView, head: HeadView, mode: OutputMode, now: HeadView)
    requires
        s.wf(),
        lookup(s.heads, head.name) == Some(head),
        has_object(s, head.id, mode),
    ensures
        mode_then(s, head.name, Some(mode), now) matches Some(then) && same_picture(then, mode),
{
    let k = choose|k: int|
        0 <= k < s.mode_metadata.len() && same_picture((#[trigger] s.mode_metadata[k]).1, mode)
            && s.mode_proxies.contains(s.mode_metadata[k].0) && lookup(
            s.mode_to_head,
            s.mode_metadata[k].0,
        ) == Some(head.id);
    a_mode_object_fits(s, head.name, mode, k);
    let id = s.mode_object(head.name, mode)->0;
    let at = choose|at: int|
        0 <= at < s.mode_metadata.len() && (#[trigger] s.mode_metadata[at]).0 == id
            && same_picture(s.mode_metadata[at].1, mode);
    assert forall|j: int| 0 <= j < at implies (#[trigger] s.mode_metadata[j]).0 != id by {
        assert(s.mode_metadata[j].0 != s.mode_metadata[at].0);
    }
    lemma_place_unique(s.mode_metadata, id, at);
}

proof fn lemma_mode_then_is_offered(s: StateView, head: HeadView, output: OutputConfig, text: Seq<char>)
    requires
        s.wf(),
        lookup(s.heads, head.name) == Some(head),
        offers_objects(s, head),
        output.mode matches Some(mode) && mode@ == text,
        wanted_mode(output, head) is Some,
    ensures
        mode_then(s, head.name, wanted_mode(output, head), head) matches Some(mode) && same_picture(
            mode,
            wanted_mode(output, head)->0,
        ),
        mode_then(s, head.name, wanted_mode(output, head), head) is Some && is_best_offer(
            head.modes,
            text,
            mode_then(s, head.name, wanted_mode(output, head), head)->0,
        ),
{
    let wanted = wanted_mode(output, head)->0;
    the_best_mode_is_offered(head.modes, text);
    let j = choose|j: int| 0 <= j < head.modes.len() && head.modes[j] == wanted;
    assert(has_object(s, head.id, head.modes[j]));
    lemma_mode_then(s, head, wanted, head);
    assert(same_picture(head.modes[j], mode_then(s, head.name, Some(wanted), head)->0));
}

/// Whether a mode is offered, has the size that the text asks for, and, if the text asks for a rate, no
/// offered mode of that size is nearer to it. Without a rate it is preferred, or no offered mode of that
/// size is preferred or faster.
pub open spec fn is_best_offer(modes: Seq<OutputMode>, text: Seq<char>, mode: OutputMode) -> bool {
    read_mode_text(text) matches Ok((width, height, rate)) && {
        &&& mode.width == width
        &&& mode.height == height
        &&& exists|j: int|
            0 <= j < modes.len() && same_picture(#[trigger] modes[j], mode) && forall|k: int|
                0 <= k < modes.len() && (#[trigger] modes[k]).width == width && modes[k].height
                    == height ==> match rate {
                    Some(rate) => gap(mode.refresh_mhz as int, rate) <= gap(
                        modes[k].refresh_mhz as int,
                        rate,
                    ),
                    None => modes[j].preferred || (!modes[k].preferred && mode.refresh_mhz
                        >= modes[k].refresh_mhz),
                }
    }
}

// ---------------------------------------------------------------------------------------------
// Profiles
// ---------------------------------------------------------------------------------------------

/// Once what a profile asks for was carried out, every output is as the settings that select it say: it
/// is enabled or disabled, stands at the place `[x, y]` of the settings, and has their transform, scale
/// and adaptive sync. It is in the best of the modes it offers for the mode of the settings. What the
/// settings leave open stays, and so does everything about a disabled output.
pub proof fn an_applied_profile_is_in_force(
    s: StateView,
    profile: Profile,
    purpose: Purpose,
    plan: Result<ProfilePlan, OutputError>,
    t: StateView,
    i: int,
)
    requires
        s.wf(),
        told_apart(sorted_heads(s.heads), s.head_proxies),
        is_plan(s, profile, purpose, plan, t),
        plan matches Ok(ProfilePlan::Submit(_)),
        0 <= i < profile.outputs@.len(),
    ensures
        resolution(profile, sorted_heads(s.heads)) matches Some(chosen) && {
            let submission = plan->Ok_0->Submit_0;
            let output = profile.outputs@[i];
            let head = sorted_heads(s.heads)[chosen[i]];
            let then = carried_out(head, head.id, s.mode_metadata, submission.requests@);
            &&& submission.purpose == purpose
            &&& s.last_serial == Some(submission.serial)
            &&& selects(output.name@, head)
            &&& then.enabled == output.enabled
            &&& then == (HeadView {
                enabled: then.enabled,
                current_mode: then.current_mode,
                position: then.position,
                transform: then.transform,
                scale: then.scale,
                adaptive_sync: then.adaptive_sync,
                ..head
            })
            &&& output.enabled ==> {
                &&& output.position matches Some(place) ==> then.position == Some(
                    (place@[0], place@[1]),
                )
                &&& output.position is None ==> then.position == head.position
                &&& output.transform matches Some(transform) ==> then.transform == transform
                &&& output.transform is None ==> then.transform == head.transform
                &&& output.scale matches Some(scale) ==> then.scale == scale
                &&& output.scale is None ==> then.scale == head.scale
                &&& output.adaptive_sync is Some ==> then.adaptive_sync == output.adaptive_sync
                &&& output.adaptive_sync is None ==> then.adaptive_sync == head.adaptive_sync
                &&& output.mode is None ==> then.current_mode == head.current_mode
                &&& output.mode is Some && offers_objects(s, head) ==> then.current_mode is Some
                    && is_best_offer(head.modes, output.mode->0@, then.current_mode->0)
            }
            &&& !output.enabled ==> then == (HeadView { enabled: false, ..head })
            &&& offers_objects(s, head) ==> output_settled(output, then)
        },
{
    let heads = sorted_heads(s.heads);
    let chosen = resolution(profile, heads)->0;
    let output = profile.outputs@[i];
    let head = heads[chosen[i]];
    a_resolution_pairs_outputs(profile, heads);
    a_listed_output_is_found_by_name(s, chosen[i]);
    let u = opened(s);
    let configuration = profile_configuration(profile, heads, chosen);
    assert forall|k: int| 0 <= k < configuration.len() && k != i implies lookup(
        u.head_proxies,
        (#[trigger] configuration[k]).0,
    )->0 != head.id by {
        assert(chosen[k] != chosen[i]);
        assert(heads[chosen[k]].id != heads[chosen[i]].id);
        assert(lookup(s.head_proxies, heads[chosen[k]].name) == Some(heads[chosen[k]].id));
    }
    lemma_own_requests(u, configuration, head, head.id, i);
    lemma_head_requests(u, head.name, asked(output, head), head, head.id);
    assert(lookup(s.head_proxies, head.name) == Some(head.id));
    assert(configuration[i] == (head.name, asked(output, head)));
    lemma_first_lacking(profile, heads, chosen, 0, i);
    let then = carried_out(head, head.id, s.mode_metadata, plan->Ok_0->Submit_0.requests@);
    if output.enabled && output.scale is Some {
        apart_is_symmetric(then.scale, then.scale);
    }
    if output.enabled && output.mode is Some && offers_objects(s, head) {
        assert(offers_objects(u, head)) by {
            assert forall|j: int| 0 <= j < head.modes.len() implies has_object(
                u,
                head.id,
                #[trigger] head.modes[j],
            ) by {
                lemma_same_objects(s, head.id, head.modes[j]);
            }
        }
        assert(u.wf());
        lemma_mode_then_is_offered(u, head, output, output.mode->0@);
    }
}

/// Opening a configuration leaves the mode objects as they are.
proof fn lemma_same_objects(s: StateView, id: u32, mode: OutputMode)
    ensures
        has_object(opened(s), id, mode) <==> has_object(s, id, mode),
{
    let u = opened(s);
    if has_object(s, id, mode) {
        let k = choose|k: int|
            0 <= k < s.mode_metadata.len() && same_picture((#[trigger] s.mode_metadata[k]).1, mode)
                && s.mode_proxies.contains(s.mode_metadata[k].0) && lookup(
                s.mode_to_head,
                s.mode_metadata[k].0,
            ) == Some(id);
        assert(same_picture(u.mode_metadata[k].1, mode));
    }
    if has_object(u, id, mode) {
        let k = choose|k: int|
            0 <= k < u.mode_metadata.len() && same_picture((#[trigger] u.mode_metadata[k]).1, mode)
                && u.mode_proxies.contains(u.mode_metadata[k].0) && lookup(
                u.mode_to_head,
                u.mode_metadata[k].0,
            ) == Some(id);
        assert(same_picture(s.mode_metadata[k].1, mode));
    }
}

proof fn lemma_first_lacking(
    profile: Profile,
    heads: Seq<HeadView>,
    chosen: Seq<int>,
    from: int,
    i: int,
)
    requires
        0 <= from <= i < profile.outputs@.len(),
        first_lacking(profile.outputs@, heads, chosen, from) is None,
    ensures
        profile.outputs@[i].enabled && profile.outputs@[i].mode is Some ==> wanted_mode(
            profile.outputs@[i],
            heads[chosen[i]],
        ) is Some,
    decreases i - from,
{
    if from < i {
        lemma_first_lacking(profile, heads, chosen, from + 1, i);
    }
}

/// Applying a profile is left out exactly when every output is as the settings that select it say: it is
/// enabled or disabled as they say and, if it is to be enabled, is in a mode of the size of the best offer
/// and at most five hertz off its rate, stands at the place `[x, y]` of the settings, where an output of
/// unknown place counts as standing at the origin, and has their transform, their adaptive sync, and
/// their scale but for one hundredth.
pub proof fn a_profile_in_force_is_not_applied_again(
    s: StateView,
    profile: Profile,
    plan: Result<ProfilePlan, OutputError>,
    t: StateView,
)
    requires
        s.available,
        is_plan(s, profile, Purpose::Apply, plan, t),
    ensures
        (plan matches Ok(ProfilePlan::Settled(_))) <==> (resolution(
            profile,
            sorted_heads(s.heads),
        ) matches Some(chosen) && forall|i: int|
            0 <= i < profile.outputs@.len() ==> is_as_written(
                #[trigger] profile.outputs@[i],
                sorted_heads(s.heads)[chosen[i]],
            )),
        plan matches Ok(ProfilePlan::Settled(result)) ==> result && t == s,
{
    let heads = sorted_heads(s.heads);
    if let Some(chosen) = resolution(profile, heads) {
        assert forall|i: int| 0 <= i < profile.outputs@.len() implies is_as_written(
            #[trigger] profile.outputs@[i],
            heads[chosen[i]],
        ) == output_settled(profile.outputs@[i], heads[chosen[i]]) by {
            lemma_as_written(profile.outputs@[i], heads[chosen[i]]);
        }
    }
}

/// Whether an output is as its settings say, up to five hertz and one hundredth of scale.
pub open spec fn is_as_written(output: OutputConfig, head: HeadView) -> bool {
    if !output.enabled {
        !head.enabled
    } else {
        let (x, y) = match head.position {
            Some((x, y)) => (x, y),
            None => (0i32, 0i32),
        };
        &&& head.enabled
        &&& output.mode matches Some(text) ==> (head.current_mode matches Some(current) && exists|
            j: int,
        |
            0 <= j < head.modes.len() && wanted_mode(output, head) == Some(
                #[trigger] head.modes[j],
            ) && is_best_offer(head.modes, text@, head.modes[j]) && current.width
                == head.modes[j].width && current.height == head.modes[j].height && -5000
                <= current.refresh_mhz - head.modes[j].refresh_mhz <= 5000)
        &&& output.position matches Some(place) ==> x == place@[0] && y == place@[1]
        &&& output.transform is Some ==> output.transform == Some(head.transform)
        &&& output.scale matches Some(scale) ==> !scale.apart(head.scale)
        &&& output.adaptive_sync is Some ==> output.adaptive_sync == head.adaptive_sync
    }
}

proof fn lemma_as_written(output: OutputConfig, head: HeadView)
    ensures
        is_as_written(output, head) == output_settled(output, head),
{
    if output.enabled {
        if output.scale is Some {
            apart_is_symmetric(output.scale->0, head.scale);
        }
        if output.mode is Some && wanted_mode(output, head) is Some {
            let text = output.mode->0@;
            let wanted = wanted_mode(output, head)->0;
            the_best_mode_is_offered(head.modes, text);
            let j = choose|j: int| 0 <= j < head.modes.len() && head.modes[j] == wanted;
            assert(same_picture(head.modes[j], wanted));
            assert(is_best_offer(head.modes, text, head.modes[j]));
        }
    }
}

// ---------------------------------------------------------------------------------------------
// Snapshots and previews
// ---------------------------------------------------------------------------------------------

/// A snapshot has one entry for each output, in order, which keeps everything that is live about it:
/// whether it is enabled, mode, place, transform, scale and adaptive sync. There is no snapshot only if
/// some output is enabled and in no mode.
pub proof fn a_snapshot_keeps_what_is_live(
    heads: Seq<HeadView>,
    r: Result<Vec<(String, HeadConfiguration)>, OutputError>,
    i: int,
)
    requires
        is_snapshot(heads, r),
        0 <= i < heads.len(),
    ensures
        r is Err <==> exists|k: int|
            0 <= k < heads.len() && (#[trigger] heads[k]).enabled && heads[k].current_mode is None,
        r matches Ok(entries) ==> {
            let (name, kept) = entries@[i];
            &&& entries@.len() == heads.len()
            &&& name@ == heads[i].name
            &&& kept.enabled == heads[i].enabled
            &&& kept.mode == heads[i].current_mode
            &&& kept.position == heads[i].position
            &&& kept.transform == Some(heads[i].transform)
            &&& kept.scale == Some(heads[i].scale)
            &&& kept.adaptive_sync == heads[i].adaptive_sync
        },
{
    lemma_first_modeless(heads, 0);
    if let Ok(entries) = r {
        let view = configuration_view(entries@);
        assert(view.len() == heads.len());
        assert(view[i] == (entries@[i].0@, entries@[i].1));
        assert(view[i] == live_configuration(heads)[i]);
    }
}

proof fn lemma_first_modeless(heads: Seq<HeadView>, from: int)
    requires
        0 <= from,
    ensures
        first_modeless(heads, from) matches Some(i) ==> from <= i < heads.len() && is_modeless(
            heads[i],
        ),
        first_modeless(heads, from) is None ==> forall|i: int|
            from <= i < heads.len() ==> !is_modeless(#[trigger] heads[i]),
    decreases heads.len() - from,
{
    if from < heads.len() {
        lemma_first_modeless(heads, from + 1);
    }
}

/// Once the configuration of a snapshot was carried out, whatever the outputs were by then, every output
/// is as it was when the snapshot was taken: a disabled one is disabled, and an enabled one is enabled, in
/// a mode of the same size and rate, at the same place, with the same transform, scale and adaptive sync.
pub proof fn a_snapshot_brings_the_outputs_back(
    heads: Seq<HeadView>,
    u: StateView,
    now: HeadView,
    i: int,
)
    requires
        u.wf(),
        told_apart(heads, u.head_proxies),
        0 <= i < heads.len(),
    ensures
        ({
            let head = heads[i];
            let then = carried_out(
                now,
                head.id,
                u.mode_metadata,
                all_requests(u, live_configuration(heads)),
            );
            &&& then.enabled == head.enabled
            &&& head.enabled ==> {
                &&& head.position is Some ==> then.position == head.position
                &&& then.transform == head.transform
                &&& then.scale == head.scale
                &&& head.adaptive_sync is Some ==> then.adaptive_sync == head.adaptive_sync
                &&& head.current_mode matches Some(mode) ==> (lookup(u.heads, head.name) is Some
                    && lookup(u.heads, head.name)->0.id == head.id && has_object(u, head.id, mode)
                    ==> (then.current_mode matches Some(back) && same_picture(back, mode)))
            }
            &&& !head.enabled ==> then == (HeadView { enabled: false, ..now })
        }),
{
    let head = heads[i];
    let live = live_configuration(heads);
    lemma_live_objects(heads, u, live, i);
    lemma_own_requests(u, live, now, head.id, i);
    lemma_head_requests(u, head.name, live[i].1, now, head.id);
    if head.enabled && head.current_mode is Some && lookup(u.heads, head.name) is Some && lookup(
        u.heads,
        head.name,
    )->0.id == head.id && has_object(u, head.id, head.current_mode->0) {
        let known = lookup(u.heads, head.name)->0;
        lemma_known_name(u, head.name);
        lemma_mode_then(u, known, head.current_mode->0, now);
    }
}

proof fn lemma_known_name(s: StateView, name: Seq<char>)
    requires
        s.wf(),
        lookup(s.heads, name) is Some,
    ensures
        lookup(s.heads, name)->0.name == name,
{
    place_is_the_first(s.heads, name);
    assert(s.heads[place(s.heads, name)].1.name == name);
}

proof fn lemma_live_objects(
    heads: Seq<HeadView>,
    u: StateView,
    configuration: Seq<(Seq<char>, HeadConfiguration)>,
    i: int,
)
    requires
        told_apart(heads, u.head_proxies),
        0 <= i < heads.len() == configuration.len(),
        forall|k: int|
            0 <= k < configuration.len() ==> (#[trigger] configuration[k]).0 == heads[k].name,
    ensures
        lookup(u.head_proxies, heads[i].name) == Some(heads[i].id),
        forall|k: int|
            0 <= k < configuration.len() && k != i ==> lookup(
                u.head_proxies,
                (#[trigger] configuration[k]).0,
            )->0 != heads[i].id,
{
    assert forall|k: int| 0 <= k < configuration.len() && k != i implies lookup(
        u.head_proxies,
        (#[trigger] configuration[k]).0,
    )->0 != heads[i].id by {
        assert(heads[k].id != heads[i].id);
        assert(lookup(u.head_proxies, heads[k].name) == Some(heads[k].id));
    }
}

/// Once a preview was carried out, the output that it is of is in a mode of the size and rate of the
/// previewed one, if it is enabled. Nothing else has changed: every other output is as it was, whether
/// it is enabled or not, and so is everything else about this one.
pub proof fn a_preview_changes_one_live_mode(
    s: StateView,
    output: Seq<char>,
    mode: OutputMode,
    i: int,
)
    requires
        s.wf(),
        told_apart(sorted_heads(s.heads), s.head_proxies),
        0 <= i < sorted_heads(s.heads).len(),
    ensures
        ({
            let head = sorted_heads(s.heads)[i];
            let then = carried_out(
                head,
                head.id,
                s.mode_metadata,
                all_requests(
                    opened(s),
                    with_output_mode(live_configuration(sorted_heads(s.heads)), output, mode),
                ),
            );
            let wanted = if head.name == output {
                Some(mode)
            } else {
                head.current_mode
            };
            &&& then == (HeadView { current_mode: then.current_mode, ..head })
            &&& !head.enabled ==> then == head
            &&& wanted is None ==> then == head
            &&& head.enabled && wanted is Some && has_object(s, head.id, wanted->0) ==> (
            then.current_mode matches Some(shown) && same_picture(shown, wanted->0))
        }),
{
    let heads = sorted_heads(s.heads);
    let head = heads[i];
    let u = opened(s);
    let live = live_configuration(heads);
    let candidate = with_output_mode(live, output, mode);
    assert forall|k: int| 0 <= k < candidate.len() implies (#[trigger] candidate[k]).0
        == heads[k].name by {
        assert(live[k].0 == heads[k].name);
    }
    lemma_live_objects(heads, u, candidate, i);
    lemma_own_requests(u, candidate, head, head.id, i);
    lemma_head_requests(u, head.name, candidate[i].1, head, head.id);
    a_listed_output_is_found_by_name(s, i);
    assert(live[i].0 == head.name);
    if head.enabled {
        let wanted = candidate[i].1.mode;
        if wanted is Some && has_object(s, head.id, wanted->0) {
            lemma_same_objects(s, head.id, wanted->0);
            assert(u.wf());
            lemma_mode_then(u, head, wanted->0, head);
        }
    }
}

// ---------------------------------------------------------------------------------------------
// When something is asked of the compositor
// ---------------------------------------------------------------------------------------------

/// A profile is submitted exactly if the compositor offers output management and has completed a
/// configuration, the profile fits the connected outputs, every mode that it asks for is offered, and,
/// unless it is only to be tested, something is not yet as it says.
pub proof fn when_a_profile_is_submitted(
    s: StateView,
    profile: Profile,
    purpose: Purpose,
    plan: Result<ProfilePlan, OutputError>,
    t: StateView,
)
    requires
        is_plan(s, profile, purpose, plan, t),
    ensures
        (plan matches Ok(ProfilePlan::Submit(_))) <==> {
            &&& s.available
            &&& s.last_serial is Some
            &&& resolution(profile, sorted_heads(s.heads)) matches Some(chosen) && {
                &&& forall|i: int|
                    0 <= i < profile.outputs@.len() && (#[trigger] profile.outputs@[i]).enabled
                        && profile.outputs@[i].mode is Some ==> offers_size(
                        sorted_heads(s.heads)[chosen[i]].modes,
                        profile.outputs@[i].mode->0@,
                    )
                &&& purpose is Test || exists|i: int|
                    0 <= i < profile.outputs@.len() && !is_as_written(
                        #[trigger] profile.outputs@[i],
                        sorted_heads(s.heads)[chosen[i]],
                    )
            }
        },
        s.available && resolution(profile, sorted_heads(s.heads)) is None ==> plan == Err::<
            ProfilePlan,
            OutputError,
        >(OutputError::NoLongerMatches),
        !s.available ==> plan == Ok::<ProfilePlan, OutputError>(ProfilePlan::Settled(false)),
        t == s || (t == opened(s) && (plan matches Ok(ProfilePlan::Submit(_)))),
{
    let heads = sorted_heads(s.heads);
    if let Some(chosen) = resolution(profile, heads) {
        let outputs = profile.outputs@;
        assert forall|i: int| 0 <= i < outputs.len() implies is_as_written(
            #[trigger] outputs[i],
            heads[chosen[i]],
        ) == output_settled(outputs[i], heads[chosen[i]]) by {
            lemma_as_written(outputs[i], heads[chosen[i]]);
        }
        assert forall|i: int|
            0 <= i < outputs.len() && (#[trigger] outputs[i]).enabled && outputs[i].mode
                is Some implies (wanted_mode(outputs[i], heads[chosen[i]]) is Some <==> offers_size(
            heads[chosen[i]].modes,
            outputs[i].mode->0@,
        )) by {
            lemma_offers_size(outputs[i], heads[chosen[i]]);
        }
        lemma_none_lacking(profile, heads, chosen, 0);
        if first_lacking(outputs, heads, chosen, 0) is None {
            assert forall|i: int|
                0 <= i < outputs.len() && (#[trigger] outputs[i]).enabled && outputs[i].mode
                    is Some implies offers_size(heads[chosen[i]].modes, outputs[i].mode->0@) by {
                lemma_first_lacking(profile, heads, chosen, 0, i);
            }
        }
    }
}

/// Whether one of these modes has the size that a text asks for.
pub open spec fn offers_size(modes: Seq<OutputMode>, text: Seq<char>) -> bool {
    read_mode_text(text) matches Ok((width, height, _)) && exists|j: int|
        0 <= j < modes.len() && (#[trigger] modes[j]).width == width && modes[j].height == height
}

proof fn lemma_offers_size(output: OutputConfig, head: HeadView)
    requires
        output.mode is Some,
    ensures
        wanted_mode(output, head) is Some <==> offers_size(head.modes, output.mode->0@),
{
    let text = output.mode->0@;
    the_best_mode_is_offered(head.modes, text);
    if let Some(wanted) = wanted_mode(output, head) {
        let j = choose|j: int| 0 <= j < head.modes.len() && head.modes[j] == wanted;
        assert(head.modes[j].width == wanted.width);
    }
    if offers_size(head.modes, text) {
        if let Ok((width, height, _)) = read_mode_text(text) {
            let j = choose|j: int|
                0 <= j < head.modes.len() && (#[trigger] head.modes[j]).width == width
                    && head.modes[j].height == height;
            assert(has_size(head.modes[j], width, height));
        }
    }
}

proof fn lemma_none_lacking(profile: Profile, heads: Seq<HeadView>, chosen: Seq<int>, from: int)
    requires
        0 <= from,
    ensures
        first_lacking(profile.outputs@, heads, chosen, from) matches Some(i) ==> from <= i
            < profile.outputs@.len() && profile.outputs@[i].enabled && profile.outputs@[i].mode is Some
            && wanted_mode(profile.outputs@[i], heads[chosen[i]]) is None,
    decreases profile.outputs@.len() - from,
{
    if from < profile.outputs@.len() {
        lemma_none_lacking(profile, heads, chosen, from + 1);
    }
}

/// A configuration can be asked of the compositor exactly if there is one that offers output management and
/// has completed a configuration, and every output that it speaks of is connected.
pub proof fn when_a_configuration_can_be_asked_for(
    manager: OutputManager,
    configuration: Seq<(Seq<char>, HeadConfiguration)>,
)
    ensures
        manager.submission_fault(configuration) is None <==> {
            &&& manager.wayland_client is Some
            &&& manager.wayland_client->0@.available
            &&& manager.wayland_client->0@.last_serial is Some
            &&& forall|i: int|
                0 <= i < configuration.len() ==> manager.named(
                    (#[trigger] configuration[i]).0,
                ) is Some
        },
{
    if let Some(state) = manager.wayland_client {
        lemma_first_absent(state@, configuration, 0);
        if first_absent(state@, configuration, 0) is None {
            assert forall|i: int| 0 <= i < configuration.len() implies manager.named(
                (#[trigger] configuration[i]).0,
            ) is Some by {
                assert(has_key(state@.heads, configuration[i].0));
            }
        }
    }
}

proof fn lemma_first_absent(
    s: StateView,
    configuration: Seq<(Seq<char>, HeadConfiguration)>,
    from: int,
)
    requires
        0 <= from,
    ensures
        first_absent(s, configuration, from) matches Some(i) ==> from <= i < configuration.len()
            && !has_key(s.heads, configuration[i].0),
        first_absent(s, configuration, from) is None ==> forall|i: int|
            from <= i < configuration.len() ==> has_key(s.heads, (#[trigger] configuration[i]).0),
    decreases configuration.len() - from,
{
    if from < configuration.len() {
        lemma_first_absent(s, configuration, from + 1);
    }
}

/// A profile that asks for a mode of a size which its output does not offer is not applied, and the error
/// names such a mode and its output.
pub proof fn a_mode_that_is_not_offered_is_named(
    s: StateView,
    profile: Profile,
    purpose: Purpose,
    plan: Result<ProfilePlan, OutputError>,
    t: StateView,
)
    requires
        is_plan(s, profile, purpose, plan, t),
    ensures
        plan matches Err(OutputError::NoSuchMode { mode, output }) ==> resolution(
            profile,
            sorted_heads(s.heads),
        ) is Some && exists|i: int|
            0 <= i < profile.outputs@.len() && (#[trigger] profile.outputs@[i]).enabled && (
            profile.outputs@[i].mode matches Some(text) && text@ == mode@) && sorted_heads(
                s.heads,
            )[resolution(profile, sorted_heads(s.heads))->0[i]].name == output@ && !offers_size(
                sorted_heads(s.heads)[resolution(profile, sorted_heads(s.heads))->0[i]].modes,
                mode@,
            ),
{
    let heads = sorted_heads(s.heads);
    if plan matches Err(OutputError::NoSuchMode { .. }) {
        let chosen = resolution(profile, heads)->0;
        lemma_none_lacking(profile, heads, chosen, 0);
        let i = first_lacking(profile.outputs@, heads, chosen, 0)->0;
        lemma_offers_size(profile.outputs@[i], heads[chosen[i]]);
        assert(profile.outputs@[i].enabled);
    }
}

} // verus!
