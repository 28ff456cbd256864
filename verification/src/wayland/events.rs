//! What the events of a compositor say of its outputs, modes and configurations.

use crate::config::Transform;
use crate::table::{lemma_place_unique, lookup, place, place_is_the_first, put_then_lookup};
use crate::wayland::laws::nothing_stays_pending;
use crate::wayland::output::opened;
use crate::wayland::protocols::{
    first_with_id, lemma_first_with_id, lemma_without_head, polled, told, unknown_head, verdict,
    without_head, ConfigurationEvent, HeadEvent, HeadView, ManagerEvent, ModeEvent, OutputHead,
    OutputMode, StateView,
};
use vstd::prelude::*;

verus! {

// ---------------------------------------------------------------------------------------------
// Outputs
// ---------------------------------------------------------------------------------------------

/// An output after these events, in order.
pub open spec fn all_told(head: HeadView, events: Seq<HeadEvent>) -> HeadView
    decreases events.len(),
{
    if events.len() == 0 {
        head
    } else {
        told(all_told(head, events.drop_last()), events.last())
    }
}

/// The events that tell everything about an output but its modes, if its size, its place and its adaptive
/// sync are known. Any number but zero says that it is enabled.
pub open spec fn description_of(head: OutputHead, on: i32) -> Seq<HeadEvent> {
    seq![
        HeadEvent::Name { name: head.name },
        HeadEvent::Description { description: head.description },
        HeadEvent::PhysicalSize {
            width: (head.physical_size->0).0,
            height: (head.physical_size->0).1,
        },
        HeadEvent::Enabled {
            enabled: if head.enabled {
                on
            } else {
                0
            },
        },
        HeadEvent::Position { x: (head.position->0).0, y: (head.position->0).1 },
        HeadEvent::Transform { transform: head.transform.wayland_value() },
        HeadEvent::Scale { scale: head.scale },
        HeadEvent::Make { make: head.make },
        HeadEvent::Model { model: head.model },
        HeadEvent::SerialNumber { serial_number: head.serial_number },
        HeadEvent::AdaptiveSync {
            state: if head.adaptive_sync->0 {
                1
            } else {
                0
            },
        },
    ]
}

/// An output that the compositor describes is taken for what it is: whatever was thought of it before,
/// after the events that describe it everything but its modes is as they say.
pub proof fn a_described_output_is_taken_for_what_it_is(
    before: HeadView,
    head: OutputHead,
    on: i32,
)
    requires
        before.id == head.id,
        on != 0,
        head.physical_size is Some,
        head.position is Some,
        head.adaptive_sync is Some,
    ensures
        all_told(before, description_of(head, on)) == (HeadView {
            modes: before.modes,
            current_mode: before.current_mode,
            preferred_mode: before.preferred_mode,
            ..head@
        }),
{
    let events = description_of(head, on);
    assert(events.take(11) =~= events);
    assert(events.take(11).drop_last() =~= events.take(10));
    assert(events.take(10).drop_last() =~= events.take(9));
    assert(events.take(9).drop_last() =~= events.take(8));
    assert(events.take(8).drop_last() =~= events.take(7));
    assert(events.take(7).drop_last() =~= events.take(6));
    assert(events.take(6).drop_last() =~= events.take(5));
    assert(events.take(5).drop_last() =~= events.take(4));
    assert(events.take(4).drop_last() =~= events.take(3));
    assert(events.take(3).drop_last() =~= events.take(2));
    assert(events.take(2).drop_last() =~= events.take(1));
    assert(events.take(1).drop_last() =~= Seq::empty());
    assert(all_told(before, events.take(1).drop_last()) == before);
    let h1 = told(before, events[0]);
    assert(all_told(before, events.take(1)) == h1);
    let h2 = told(h1, events[1]);
    assert(all_told(before, events.take(2)) == h2);
    let h3 = told(h2, events[2]);
    assert(all_told(before, events.take(3)) == h3);
    let h4 = told(h3, events[3]);
    assert(all_told(before, events.take(4)) == h4);
    let h5 = told(h4, events[4]);
    assert(all_told(before, events.take(5)) == h5);
    let h6 = told(h5, events[5]);
    assert(all_told(before, events.take(6)) == h6);
    let h7 = told(h6, events[6]);
    assert(all_told(before, events.take(7)) == h7);
    let h8 = told(h7, events[7]);
    assert(all_told(before, events.take(8)) == h8);
    let h9 = told(h8, events[8]);
    assert(all_told(before, events.take(9)) == h9);
    let h10 = told(h9, events[9]);
    assert(all_told(before, events.take(10)) == h10);
    let h11 = told(h10, events[10]);
    assert(all_told(before, events.take(11)) == h11);
}

/// Each event is about one property of an output and leaves every other one as it is. Events about modes
/// leave all of them.
pub proof fn an_event_is_about_one_property(head: HeadView, event: HeadEvent)
    ensures
        ({
            let then = told(head, event);
            &&& then.id == head.id
            &&& !(event is Name) ==> then.name == head.name
            &&& !(event is Description) ==> then.description == head.description
            &&& !(event is PhysicalSize) ==> then.physical_size == head.physical_size
            &&& !(event is Enabled) ==> then.enabled == head.enabled
            &&& !(event is Position) ==> then.position == head.position
            &&& !(event is Transform) ==> then.transform == head.transform
            &&& !(event is Scale) ==> then.scale == head.scale
            &&& !(event is Make) ==> then.make == head.make
            &&& !(event is Model) ==> then.model == head.model
            &&& !(event is SerialNumber) ==> then.serial_number == head.serial_number
            &&& !(event is AdaptiveSync) ==> then.adaptive_sync == head.adaptive_sync
            &&& then.modes == head.modes
            &&& then.current_mode == head.current_mode
            &&& then.preferred_mode == head.preferred_mode
        }),
{
}

/// An output of which nothing was said is disabled, has no place and offers nothing; it has no name, so it
/// does not become known.
pub proof fn nothing_is_assumed_of_an_output(id: u32)
    ensures
        ({
            let head = unknown_head(id);
            &&& head.id == id
            &&& !head.enabled
            &&& head.name.len() == 0
            &&& head.position is None
            &&& head.current_mode is None
            &&& head.modes.len() == 0
            &&& head.adaptive_sync is None
            &&& head.transform == Transform::Normal
        }),
{
}

/// A disconnection takes out the output with the number and leaves every other output as it is.
pub proof fn a_disconnection_leaves_the_other_outputs(s: StateView, head_id: u32, name: Seq<char>)
    requires
        s.wf(),
    ensures
        lookup(s.heads, name) matches Some(head) && head.id != head_id ==> lookup(
            s.head_finished(head_id).heads,
            name,
        ) == lookup(s.heads, name),
        lookup(s.heads, name) is None ==> lookup(s.head_finished(head_id).heads, name) is None,
        (forall|i: int, j: int|
            #![trigger s.heads[i], s.heads[j]]
            0 <= i < j < s.heads.len() ==> s.heads[i].1.id != s.heads[j].1.id) && (lookup(
            s.heads,
            name,
        ) matches Some(head) && head.id == head_id) ==> lookup(
            s.head_finished(head_id).heads,
            name,
        ) is None,
        s.head_finished(head_id).heads.len() + 1 >= s.heads.len(),
{
    let heads = s.heads;
    let at = first_with_id(heads, head_id);
    lemma_first_with_id(heads, head_id);
    lemma_without_head(heads, head_id, at);
    let rest = without_head(heads, head_id);
    place_is_the_first(heads, name);
    let k = place(heads, name);
    if at < heads.len() {
        assert forall|j: int| 0 <= j < rest.len() implies rest[j] == if j < at {
            heads[j]
        } else {
            heads[j + 1]
        } by {}
        if k < heads.len() && k != at {
            let then = if k < at {
                k
            } else {
                k - 1
            };
            assert forall|j: int| 0 <= j < then implies (#[trigger] rest[j]).0 != name by {
                let from = if j < at {
                    j
                } else {
                    j + 1
                };
                assert(heads[from].0 != heads[k].0);
            }
            assert(rest[then] == heads[k]);
            lemma_place_unique(rest, name, then);
        } else {
            assert forall|j: int| 0 <= j < rest.len() implies (#[trigger] rest[j]).0 != name by {
                let from = if j < at {
                    j
                } else {
                    j + 1
                };
                assert(rest[j] == heads[from]);
                if k < heads.len() {
                    if from < k {
                        assert(heads[from].0 != heads[k].0);
                    } else {
                        assert(heads[k].0 != heads[from].0);
                    }
                }
            }
            lemma_place_unique(rest, name, rest.len() as int);
        }
        if k < heads.len() && k != at && heads[k].1.id == head_id {
            if k < at {
                assert(heads[k].1.id != head_id);
            } else {
                assert(heads[at].1.id == head_id);
            }
        }
    }
}

// ---------------------------------------------------------------------------------------------
// Modes
// ---------------------------------------------------------------------------------------------

/// A mode that is announced by its size and its rate, in either order, and perhaps as preferred, is that
/// mode, and no other mode and no output is affected.
pub proof fn an_announced_mode_is_taken_for_what_it_is(
    s: StateView,
    id: u32,
    mode: OutputMode,
    other: u32,
)
    requires
        lookup(s.pending_modes, id) is None,
        other != id,
    ensures
        ({
            let size = ModeEvent::Size { width: mode.width, height: mode.height };
            let rate = ModeEvent::Refresh { refresh: mode.refresh_mhz };
            let one = s.after_mode_event(id, size).after_mode_event(id, rate);
            let two = s.after_mode_event(id, rate).after_mode_event(id, size);
            let preferred = one.after_mode_event(id, ModeEvent::Preferred);
            &&& lookup(one.pending_modes, id) == Some(OutputMode { preferred: false, ..mode })
            &&& lookup(two.pending_modes, id) == lookup(one.pending_modes, id)
            &&& lookup(preferred.pending_modes, id) == Some(OutputMode { preferred: true, ..mode })
            &&& one.mode_proxies.contains(id) && two.mode_proxies.contains(id)
            &&& lookup(preferred.pending_modes, other) == lookup(s.pending_modes, other)
            &&& preferred.heads == s.heads
            &&& preferred.pending_heads == s.pending_heads
        }),
{
    let size = ModeEvent::Size { width: mode.width, height: mode.height };
    let rate = ModeEvent::Refresh { refresh: mode.refresh_mhz };
    let unknown = OutputMode { width: 0, height: 0, refresh_mhz: 0, preferred: false };
    let sized = OutputMode { width: mode.width, height: mode.height, ..unknown };
    let rated = OutputMode { refresh_mhz: mode.refresh_mhz, ..unknown };
    let both = OutputMode { preferred: false, ..mode };
    let a = s.after_mode_event(id, size);
    let b = s.after_mode_event(id, rate);
    put_then_lookup(s.pending_modes, id, sized, other);
    put_then_lookup(s.pending_modes, id, rated, other);
    assert(lookup(a.pending_modes, id) == Some(sized));
    assert(lookup(b.pending_modes, id) == Some(rated));
    put_then_lookup(a.pending_modes, id, both, other);
    put_then_lookup(b.pending_modes, id, both, other);
    let one = a.after_mode_event(id, rate);
    let two = b.after_mode_event(id, size);
    assert(lookup(one.pending_modes, id) == Some(both));
    put_then_lookup(one.pending_modes, id, OutputMode { preferred: true, ..mode }, other);
    assert(a.mode_proxies.contains(id)) by {
        if !s.mode_proxies.contains(id) {
            assert(a.mode_proxies[s.mode_proxies.len() as int] == id);
        }
    }
    assert(two.mode_proxies.contains(id)) by {
        if !b.mode_proxies.contains(id) {
            assert(two.mode_proxies[b.mode_proxies.len() as int] == id);
        }
    }
}

// ---------------------------------------------------------------------------------------------
// Configurations
// ---------------------------------------------------------------------------------------------

/// A configuration has succeeded exactly if the compositor says so. An answer from before the
/// configuration was made does not count, other events are no answer, and as long as there is no answer
/// and the time is not up, none is reported.
pub proof fn only_the_compositor_accepts_a_configuration(
    s: StateView,
    event: ConfigurationEvent,
    expired: bool,
)
    ensures
        ({
            let made = opened(s);
            let then = made.after_configuration_event(event);
            &&& made.active_config && polled(made.configuration_outcome, false) is None
            &&& verdict(made.configuration_outcome) is Err
            &&& verdict(then.configuration_outcome) is Ok <==> event is Succeeded
            &&& polled(then.configuration_outcome, expired) is Some <==> expired || !(event is Other)
            &&& polled(then.configuration_outcome, expired) matches Some(answer) ==> (answer is Ok
                <==> event is Succeeded)
            &&& then.active_config <==> event is Other
            &&& then.heads == s.heads && then.last_serial == s.last_serial
        }),
{
}

/// A complete configuration brings its serial number, which the next request is made with. Without the
/// output manager no request can be made.
pub proof fn a_complete_configuration_brings_its_serial(s: StateView, serial: u32)
    requires
        s.wf(),
    ensures
        s.after_manager_event(ManagerEvent::Done { serial }).last_serial == Some(serial),
        s.after_manager_event(ManagerEvent::Done { serial }).available == s.available,
        !s.after_manager_event(ManagerEvent::Finished).available,
        s.after_manager_event(ManagerEvent::Finished).heads == s.heads,
{
    nothing_stays_pending(StateView { last_serial: Some(serial), ..s });
}

/// An output that takes a name is the one that requests under that name are about, and other names keep
/// their outputs.
pub proof fn a_name_belongs_to_who_took_it_last(
    s: StateView,
    id: u32,
    name: String,
    other: Seq<char>,
)
    requires
        other != name@,
    ensures
        ({
            let t = s.after_head_event(id, HeadEvent::Name { name });
            &&& lookup(t.head_proxies, name@) == Some(id)
            &&& lookup(t.head_proxies, other) == lookup(s.head_proxies, other)
            &&& lookup(t.head_id_to_name, id) == Some(name@)
            &&& t.heads == s.heads
        }),
{
    put_then_lookup(s.head_proxies, name@, id, other);
    put_then_lookup(s.head_id_to_name, id, name@, id);
}

} // verus!
