//! What holds of the compositor's outputs over several events.

use crate::table::{
    distinct, has_key, lemma_place_unique, lookup, place, place_is_the_first, put_then_lookup,
    without_then_lookup,
};
use crate::wayland::protocols::{
    lemma_head_told_wf, lemma_known_place, modes_of, same_picture, told, with_mode, HeadEvent,
    HeadView, ManagerEvent, OutputMode, StateView,
};
use vstd::prelude::*;

verus! {

// ---------------------------------------------------------------------------------------------
// Becoming known
// ---------------------------------------------------------------------------------------------

/// The announced modes that belong to an output, in the order of their announcement.
pub open spec fn offered(s: StateView, modes: Seq<(u32, OutputMode)>, head_id: u32) -> Seq<
    OutputMode,
>
    decreases modes.len(),
{
    if modes.len() == 0 {
        Seq::empty()
    } else {
        let rest = offered(s, modes.drop_last(), head_id);
        let (id, mode) = modes.last();
        if s.mode_proxies.contains(id) && lookup(s.mode_to_head, id) == Some(head_id) {
            rest.push(mode)
        } else {
            rest
        }
    }
}

/// The last preferred one of these modes, or this one.
pub open spec fn last_preferred(modes: Seq<OutputMode>, before: Option<OutputMode>) -> Option<
    OutputMode,
>
    decreases modes.len(),
{
    if modes.len() == 0 {
        before
    } else if modes.last().preferred {
        Some(modes.last())
    } else {
        last_preferred(modes.drop_last(), before)
    }
}

/// A mode as it is known once everything announced has become known.
pub open spec fn known_mode(s: StateView, mode_id: u32) -> Option<OutputMode> {
    if s.mode_proxies.contains(mode_id) && has_key(s.pending_modes, mode_id) {
        lookup(s.pending_modes, mode_id)
    } else {
        lookup(s.mode_obj_to_data, mode_id)
    }
}

/// The mode that an output is in once everything announced has become known.
pub open spec fn resolved_mode(s: StateView, head_id: u32, before: Option<OutputMode>) -> Option<
    OutputMode,
> {
    match lookup(s.pending_current_modes, head_id) {
        Some(mode_id) => match known_mode(s, mode_id) {
            Some(mode) => Some(mode),
            None => before,
        },
        None => before,
    }
}

/// The two states differ in nothing but outputs and the data of modes.
spec fn same_frame(s: StateView, t: StateView) -> bool {
    &&& t.pending_modes == s.pending_modes
    &&& t.pending_current_modes == s.pending_current_modes
    &&& t.mode_proxies == s.mode_proxies
    &&& t.mode_to_head == s.mode_to_head
    &&& t.head_id_to_name == s.head_id_to_name
    &&& t.head_proxies == s.head_proxies
    &&& t.configuration_generation == s.configuration_generation
    &&& t.last_serial == s.last_serial
    &&& t.available == s.available
    &&& t.active_config == s.active_config
    &&& t.configuration_outcome == s.configuration_outcome
}

proof fn lemma_modes_done(s: StateView, modes: Seq<(u32, OutputMode)>, head_id: u32)
    ensures
        same_frame(s, s.modes_done(modes)),
        has_key(s.modes_done(modes).pending_heads, head_id) <==> has_key(
            s.pending_heads,
            head_id,
        ),
        has_key(s.pending_heads, head_id) ==> lookup(s.modes_done(modes).pending_heads, head_id)
            == Some(
            HeadView {
                modes: lookup(s.pending_heads, head_id)->0.modes + offered(s, modes, head_id),
                preferred_mode: last_preferred(
                    offered(s, modes, head_id),
                    lookup(s.pending_heads, head_id)->0.preferred_mode,
                ),
                ..lookup(s.pending_heads, head_id)->0
            },
        ),
        s.modes_done(modes).pending_heads.len() == s.pending_heads.len(),
        forall|i: int|
            0 <= i < s.pending_heads.len() ==> (
            #[trigger] s.modes_done(modes).pending_heads[i]).0 == s.pending_heads[i].0
                && s.modes_done(modes).pending_heads[i].1.name == s.pending_heads[i].1.name,
    decreases modes.len(),
{
    if modes.len() == 0 {
        if has_key(s.pending_heads, head_id) {
            let head = lookup(s.pending_heads, head_id)->0;
            assert(head.modes + Seq::<OutputMode>::empty() =~= head.modes);
        }
    } else {
        let shorter = modes.drop_last();
        let (id, mode) = modes.last();
        lemma_modes_done(s, shorter, head_id);
        let t = s.modes_done(shorter);
        let u = s.modes_done(modes);
        if t.mode_proxies.contains(id) && lookup(t.mode_to_head, id) is Some {
            let owner = lookup(t.mode_to_head, id)->0;
            if has_key(t.pending_heads, owner) {
                let grown = with_mode(lookup(t.pending_heads, owner)->0, mode);
                put_then_lookup(t.pending_heads, owner, grown, head_id);
                place_is_the_first(t.pending_heads, owner);
                if owner == head_id {
                    let head = lookup(s.pending_heads, head_id)->0;
                    let list = offered(s, modes, head_id);
                    assert(list.drop_last() =~= offered(s, shorter, head_id));
                    assert((head.modes + offered(s, shorter, head_id)).push(mode) =~= head.modes
                        + list);
                }
            }
        }
    }
}

proof fn lemma_mode_data(s: StateView, modes: Seq<(u32, OutputMode)>, mode_id: u32)
    requires
        distinct(modes),
    ensures
        lookup(s.modes_done(modes).mode_obj_to_data, mode_id) == if s.mode_proxies.contains(mode_id)
            && has_key(modes, mode_id) {
            lookup(modes, mode_id)
        } else {
            lookup(s.mode_obj_to_data, mode_id)
        },
    decreases modes.len(),
{
    place_is_the_first(modes, mode_id);
    if modes.len() > 0 {
        let shorter = modes.drop_last();
        let (id, mode) = modes.last();
        assert(distinct(shorter)) by {
            assert forall|i: int, j: int|
                #![trigger shorter[i], shorter[j]]
                0 <= i < j < shorter.len() implies shorter[i].0 != shorter[j].0 by {
                assert(shorter[i] == modes[i] && shorter[j] == modes[j]);
            }
        }
        lemma_mode_data(s, shorter, mode_id);
        lemma_modes_done(s, shorter, 0);
        let t = s.modes_done(shorter);
        put_then_lookup(t.mode_obj_to_data, id, mode, mode_id);
        place_is_the_first(shorter, mode_id);
        if has_key(shorter, mode_id) {
            assert(shorter[place(shorter, mode_id)] == modes[place(shorter, mode_id)]);
            assert forall|j: int| 0 <= j < place(shorter, mode_id) implies (
            #[trigger] modes[j]).0 != mode_id by {
                assert(modes[j] == shorter[j]);
            }
            lemma_place_unique(modes, mode_id, place(shorter, mode_id));
            assert(id != mode_id);
        } else {
            assert forall|j: int| 0 <= j < shorter.len() implies (#[trigger] modes[j]).0
                != mode_id by {
                assert(modes[j] == shorter[j]);
            }
            if id == mode_id {
                lemma_place_unique(modes, mode_id, shorter.len() as int);
            } else {
                lemma_place_unique(modes, mode_id, modes.len() as int);
            }
        }
    }
}

proof fn lemma_currents_done(s: StateView, currents: Seq<(u32, u32)>, head_id: u32)
    requires
        distinct(currents),
    ensures
        same_frame(s, s.currents_done(currents)),
        s.currents_done(currents).mode_obj_to_data == s.mode_obj_to_data,
        has_key(s.currents_done(currents).pending_heads, head_id) <==> has_key(
            s.pending_heads,
            head_id,
        ),
        has_key(s.pending_heads, head_id) ==> lookup(
            s.currents_done(currents).pending_heads,
            head_id,
        ) == Some(
            HeadView {
                current_mode: match lookup(currents, head_id) {
                    Some(mode_id) => match lookup(s.mode_obj_to_data, mode_id) {
                        Some(mode) => Some(mode),
                        None => lookup(s.pending_heads, head_id)->0.current_mode,
                    },
                    None => lookup(s.pending_heads, head_id)->0.current_mode,
                },
                ..lookup(s.pending_heads, head_id)->0
            },
        ),
        s.currents_done(currents).pending_heads.len() == s.pending_heads.len(),
        forall|i: int|
            0 <= i < s.pending_heads.len() ==> (
            #[trigger] s.currents_done(currents).pending_heads[i]).0 == s.pending_heads[i].0
                && s.currents_done(currents).pending_heads[i].1.name == s.pending_heads[i].1.name,
    decreases currents.len(),
{
    place_is_the_first(currents, head_id);
    if currents.len() > 0 {
        let shorter = currents.drop_last();
        let (owner, mode_id) = currents.last();
        assert(distinct(shorter)) by {
            assert forall|i: int, j: int|
                #![trigger shorter[i], shorter[j]]
                0 <= i < j < shorter.len() implies shorter[i].0 != shorter[j].0 by {
                assert(shorter[i] == currents[i] && shorter[j] == currents[j]);
            }
        }
        lemma_currents_done(s, shorter, head_id);
        let t = s.currents_done(shorter);
        place_is_the_first(shorter, head_id);
        if has_key(shorter, head_id) {
            assert(shorter[place(shorter, head_id)] == currents[place(shorter, head_id)]);
            assert forall|j: int| 0 <= j < place(shorter, head_id) implies (
            #[trigger] currents[j]).0 != head_id by {
                assert(currents[j] == shorter[j]);
            }
            lemma_place_unique(currents, head_id, place(shorter, head_id));
            assert(owner != head_id);
        } else {
            assert forall|j: int| 0 <= j < shorter.len() implies (#[trigger] currents[j]).0
                != head_id by {
                assert(currents[j] == shorter[j]);
            }
            if owner == head_id {
                lemma_place_unique(currents, head_id, shorter.len() as int);
            } else {
                lemma_place_unique(currents, head_id, currents.len() as int);
            }
        }
        if lookup(t.mode_obj_to_data, mode_id) is Some && has_key(t.pending_heads, owner) {
            let head = HeadView {
                current_mode: lookup(t.mode_obj_to_data, mode_id),
                ..lookup(t.pending_heads, owner)->0
            };
            put_then_lookup(t.pending_heads, owner, head, head_id);
            place_is_the_first(t.pending_heads, owner);
        }
    }
}

proof fn lemma_heads_done(s: StateView, heads: Seq<(u32, HeadView)>)
    ensures
        s.heads_done(heads).pending_heads == s.pending_heads,
        s.heads_done(heads).pending_modes == s.pending_modes,
        s.heads_done(heads).pending_current_modes == s.pending_current_modes,
        s.heads_done(heads).configuration_generation == s.configuration_generation,
        s.heads_done(heads).last_serial == s.last_serial,
        s.heads_done(heads).available == s.available,
    decreases heads.len(),
{
    if heads.len() > 0 {
        lemma_heads_done(s, heads.drop_last());
    }
}

proof fn lemma_last_head_stays(s: StateView, heads: Seq<(u32, HeadView)>, k: int)
    requires
        0 <= k < heads.len(),
        heads[k].1.name.len() > 0,
        forall|j: int|
            k < j < heads.len() ==> (#[trigger] heads[j]).1.name != heads[k].1.name && heads[j].0
                != heads[k].0,
    ensures
        lookup(s.heads_done(heads).heads, heads[k].1.name) == Some(heads[k].1),
        lookup(s.heads_done(heads).head_id_to_name, heads[k].0) == Some(heads[k].1.name),
    decreases heads.len(),
{
    let shorter = heads.drop_last();
    let t = s.heads_done(shorter);
    let (id, head) = heads.last();
    let name = heads[k].1.name;
    if head.name.len() > 0 {
        put_then_lookup(t.heads, head.name, head, name);
        put_then_lookup(t.head_id_to_name, id, head.name, heads[k].0);
    }
    if k < shorter.len() {
        assert forall|j: int| k < j < shorter.len() implies (#[trigger] shorter[j]).1.name
            != shorter[k].1.name && shorter[j].0 != shorter[k].0 by {
            assert(shorter[j] == heads[j]);
        }
        lemma_last_head_stays(s, shorter, k);
        assert(heads.last() == heads[heads.len() - 1]);
    }
}

/// Once a configuration is complete, nothing is pending any more.
pub proof fn nothing_stays_pending(s: StateView)
    requires
        s.wf(),
    ensures
        s.finalized().pending_modes.len() == 0,
        s.finalized().pending_current_modes.len() == 0,
        s.finalized().pending_heads.len() == 0,
        s.finalized().configuration_generation == s.configuration_generation,
        s.finalized().last_serial == s.last_serial,
        s.finalized().available == s.available,
{
    let start = StateView { pending_modes: Seq::empty(), ..s };
    lemma_modes_done(start, s.pending_modes, 0);
    let first = start.modes_done(s.pending_modes);
    let middle = StateView { pending_current_modes: Seq::empty(), ..first };
    lemma_currents_done(middle, first.pending_current_modes, 0);
    let second = middle.currents_done(first.pending_current_modes);
    let last = StateView { pending_heads: Seq::empty(), ..second };
    lemma_heads_done(last, second.pending_heads);
}

/// An announced output that has a name, which no output announced later takes, is known under that
/// name, and by its number, once the configuration is complete. It offers the modes announced for it, in order, behind
/// those it offered before, and it is in the mode that was announced for it.
pub proof fn an_announced_output_becomes_known(s: StateView, k: int)
    requires
        s.wf(),
        0 <= k < s.pending_heads.len(),
        s.pending_heads[k].1.name.len() > 0,
        forall|j: int|
            k < j < s.pending_heads.len() ==> (#[trigger] s.pending_heads[j]).1.name
                != s.pending_heads[k].1.name,
    ensures
        ({
            let (id, head) = s.pending_heads[k];
            let list = offered(s, s.pending_modes, id);
            &&& lookup(s.finalized().heads, head.name) == Some(
                HeadView {
                    modes: head.modes + list,
                    preferred_mode: last_preferred(list, head.preferred_mode),
                    current_mode: resolved_mode(s, id, head.current_mode),
                    ..head
                },
            )
            &&& s.finalized().known(id) == lookup(s.finalized().heads, head.name)
        }),
{
    let (id, head) = s.pending_heads[k];
    let start = StateView { pending_modes: Seq::empty(), ..s };
    lemma_offered_frame(s, start, s.pending_modes, id);
    lemma_modes_done(start, s.pending_modes, id);
    let first = start.modes_done(s.pending_modes);
    if lookup(s.pending_current_modes, id) is Some {
        lemma_mode_data(start, s.pending_modes, lookup(s.pending_current_modes, id)->0);
    }
    let middle = StateView { pending_current_modes: Seq::empty(), ..first };
    lemma_currents_done(middle, first.pending_current_modes, id);
    let second = middle.currents_done(first.pending_current_modes);
    let last = StateView { pending_heads: Seq::empty(), ..second };
    lemma_place_unique(s.pending_heads, id, k);
    assert forall|j: int| 0 <= j < second.pending_heads.len() implies (
    #[trigger] second.pending_heads[j]).0 == s.pending_heads[j].0
        && second.pending_heads[j].1.name == s.pending_heads[j].1.name by {
        assert(middle.pending_heads[j].0 == s.pending_heads[j].0);
    }
    assert forall|j: int| 0 <= j < k implies (#[trigger] second.pending_heads[j]).0 != id by {
        assert(s.pending_heads[j].0 != id);
    }
    lemma_place_unique(second.pending_heads, id, k);
    assert forall|j: int| k < j < second.pending_heads.len() implies (
    #[trigger] second.pending_heads[j]).1.name != second.pending_heads[k].1.name
        && second.pending_heads[j].0 != second.pending_heads[k].0 by {
        assert(s.pending_heads[j].0 != s.pending_heads[k].0);
    }
    lemma_last_head_stays(last, second.pending_heads, k);
    place_is_the_first(s.finalized().heads, head.name);
}

/// What an event says of a known output counts once the configuration is complete, together with the
/// modes that were announced for it; everything else that was known of it stays.
pub proof fn an_update_reaches_a_known_output(s: StateView, head_id: u32, event: HeadEvent)
    requires
        s.wf(),
        s.known(head_id) is Some,
        !has_key(s.pending_heads, head_id),
        !(event is Finished),
        forall|j: int|
            0 <= j < s.pending_heads.len() ==> (#[trigger] s.pending_heads[j]).1.name != told(
                s.known(head_id)->0,
                event,
            ).name,
        told(s.known(head_id)->0, event).name.len() > 0,
    ensures
        ({
            let head = told(s.known(head_id)->0, event);
            let next = s.head_told(head_id, event);
            let list = offered(next, next.pending_modes, head_id);
            lookup(next.finalized().heads, head.name) == Some(
                HeadView {
                    modes: head.modes + list,
                    preferred_mode: last_preferred(list, head.preferred_mode),
                    current_mode: resolved_mode(next, head_id, head.current_mode),
                    ..head
                },
            )
        }),
{
    let head = told(s.known(head_id)->0, event);
    let next = s.head_told(head_id, event);
    let k = s.pending_heads.len() as int;
    place_is_the_first(s.pending_heads, head_id);
    lemma_head_told_wf(s, head_id, event);
    assert(next.pending_heads[k] == (head_id, head));
    an_announced_output_becomes_known(next, k);
}

/// The mode that an event puts an output in, once the configuration is complete.
pub open spec fn mode_after(s: StateView, head: HeadView, event: HeadEvent) -> Option<OutputMode> {
    match event {
        HeadEvent::CurrentMode { mode } => match lookup(s.mode_obj_to_data, mode) {
            Some(known) => Some(known),
            None => head.current_mode,
        },
        _ => head.current_mode,
    }
}

/// When nothing is pending, an event of a known output and a complete configuration change what the
/// event is about and nothing else: the output keeps every other property, its modes among them, and
/// every other output stays as it is.
pub proof fn an_update_changes_one_output(
    s: StateView,
    head_id: u32,
    event: HeadEvent,
    serial: u32,
    other: Seq<char>,
)
    requires
        s.wf(),
        s.pending_heads.len() == 0,
        s.pending_modes.len() == 0,
        s.pending_current_modes.len() == 0,
        s.known(head_id) is Some,
        !(event is Finished),
        !(event is Name),
    ensures
        ({
            let head = s.known(head_id)->0;
            let after = s.after_head_event(head_id, event).after_manager_event(
                ManagerEvent::Done { serial },
            );
            &&& lookup(after.heads, head.name) == Some(
                HeadView { current_mode: mode_after(s, head, event), ..told(head, event) },
            )
            &&& other != head.name ==> lookup(after.heads, other) == lookup(s.heads, other)
        }),
{
    let head = s.known(head_id)->0;
    let at = s.known_place(head_id);
    lemma_known_place(s, head_id);
    assert(s.heads[at].1 == head);
    let next = StateView { last_serial: Some(serial), ..s.head_told(head_id, event) };
    let base = StateView { last_serial: Some(serial), ..s };
    assert(base.wf());
    assert(base.known(head_id) == s.known(head_id));
    assert(next =~= base.head_told(head_id, event));
    an_update_reaches_a_known_output(base, head_id, event);
    let list = offered(next, next.pending_modes, head_id);
    assert(list =~= Seq::empty());
    assert(told(head, event).modes + list =~= told(head, event).modes);
    assert(last_preferred(list, told(head, event).preferred_mode) == told(
        head,
        event,
    ).preferred_mode);
    if other != head.name {
        lemma_head_told_wf(base, head_id, event);
        lemma_single_pending(next, head_id, other);
    }
    if let HeadEvent::CurrentMode { mode } = event {
        put_then_lookup(s.pending_current_modes, head_id, mode, head_id);
        assert(next.pending_modes =~= s.pending_modes);
        place_is_the_first(next.pending_modes, mode);
        assert(known_mode(next, mode) == lookup(s.mode_obj_to_data, mode));
    }
}

proof fn lemma_single_pending(s: StateView, head_id: u32, other: Seq<char>)
    requires
        s.wf(),
        s.pending_modes.len() == 0,
        s.pending_heads.len() == 1,
        s.pending_heads[0].0 == head_id,
        s.pending_current_modes.len() == 0 || (s.pending_current_modes.len() == 1
            && s.pending_current_modes[0].0 == head_id),
        other != s.pending_heads[0].1.name,
    ensures
        lookup(s.finalized().heads, other) == lookup(s.heads, other),
{
    let first = StateView { pending_modes: Seq::empty(), ..s };
    assert(first.modes_done(s.pending_modes) == first);
    let currents = first.pending_current_modes;
    let middle = StateView { pending_current_modes: Seq::empty(), ..first };
    let second = middle.currents_done(currents);
    lemma_currents_done(middle, currents, head_id);
    lemma_place_unique(s.pending_heads, head_id, 0);
    assert(second.heads == s.heads) by {
        reveal_with_fuel(StateView::currents_done, 2);
    }
    let heads = second.pending_heads;
    assert(heads[0].1.name == s.pending_heads[0].1.name);
    let last = StateView { pending_heads: Seq::empty(), ..second };
    assert(last.heads_done(heads) == last.head_done(heads[0].0, heads[0].1)) by {
        reveal_with_fuel(StateView::heads_done, 2);
    }
    put_then_lookup(s.heads, heads[0].1.name, heads[0].1, other);
}

proof fn lemma_offered_frame(
    s: StateView,
    t: StateView,
    modes: Seq<(u32, OutputMode)>,
    head_id: u32,
)
    requires
        t.mode_proxies == s.mode_proxies,
        t.mode_to_head == s.mode_to_head,
    ensures
        offered(s, modes, head_id) == offered(t, modes, head_id),
    decreases modes.len(),
{
    if modes.len() > 0 {
        lemma_offered_frame(s, t, modes.drop_last(), head_id);
    }
}

/// Every complete configuration has another count than the state before it, and so has every
/// disconnection.
pub proof fn changes_are_counted(s: StateView, serial: u32, head_id: u32)
    requires
        s.wf(),
    ensures
        s.after_manager_event(ManagerEvent::Done { serial }).configuration_generation
            != s.configuration_generation,
        s.head_finished(head_id).configuration_generation != s.configuration_generation,
{
    nothing_stays_pending(StateView { last_serial: Some(serial), ..s });
}

// ---------------------------------------------------------------------------------------------
// Disconnecting
// ---------------------------------------------------------------------------------------------

proof fn lemma_modes_of(owners: Seq<(u32, u32)>, head_id: u32, mode_id: u32)
    requires
        distinct(owners),
    ensures
        modes_of(owners, head_id).contains(mode_id) <==> lookup(owners, mode_id) == Some(head_id),
    decreases owners.len(),
{
    place_is_the_first(owners, mode_id);
    if owners.len() > 0 {
        let shorter = owners.drop_last();
        let (id, owner) = owners.last();
        assert(distinct(shorter)) by {
            assert forall|i: int, j: int|
                #![trigger shorter[i], shorter[j]]
                0 <= i < j < shorter.len() implies shorter[i].0 != shorter[j].0 by {
                assert(shorter[i] == owners[i] && shorter[j] == owners[j]);
            }
        }
        lemma_modes_of(shorter, head_id, mode_id);
        place_is_the_first(shorter, mode_id);
        let rest = modes_of(shorter, head_id);
        if owner == head_id {
            let list = rest.push(id);
            if rest.contains(mode_id) {
                let k = choose|k: int| 0 <= k < rest.len() && rest[k] == mode_id;
                assert(list[k] == mode_id);
            }
            assert(list[rest.len() as int] == id);
            if list.contains(mode_id) {
                let k = choose|k: int| 0 <= k < list.len() && list[k] == mode_id;
                if k < rest.len() {
                    assert(rest[k] == mode_id);
                    assert(rest.contains(mode_id));
                }
            }
        }
        if has_key(shorter, mode_id) {
            assert(shorter[place(shorter, mode_id)] == owners[place(shorter, mode_id)]);
            assert forall|j: int| 0 <= j < place(shorter, mode_id) implies (
            #[trigger] owners[j]).0 != mode_id by {
                assert(owners[j] == shorter[j]);
            }
            lemma_place_unique(owners, mode_id, place(shorter, mode_id));
        } else {
            assert forall|j: int| 0 <= j < shorter.len() implies (#[trigger] owners[j]).0
                != mode_id by {
                assert(owners[j] == shorter[j]);
            }
            if id == mode_id {
                lemma_place_unique(owners, mode_id, shorter.len() as int);
            } else {
                lemma_place_unique(owners, mode_id, owners.len() as int);
            }
        }
    }
}

/// After a disconnection nothing is announced or known of the output by its number, no mode belongs
/// to it, and the modes of every other output belong to it and are known as before.
pub proof fn a_disconnected_output_is_gone(s: StateView, head_id: u32, mode_id: u32)
    requires
        s.wf(),
    ensures
        s.head_finished(head_id).head(head_id) is None,
        lookup(s.head_finished(head_id).pending_current_modes, head_id) is None,
        lookup(s.head_finished(head_id).mode_to_head, mode_id) != Some(head_id),
        lookup(s.mode_to_head, mode_id) != Some(head_id) ==> {
            let t = s.head_finished(head_id);
            &&& lookup(t.mode_to_head, mode_id) == lookup(s.mode_to_head, mode_id)
            &&& lookup(t.mode_metadata, mode_id) == lookup(s.mode_metadata, mode_id)
            &&& lookup(t.mode_obj_to_data, mode_id) == lookup(s.mode_obj_to_data, mode_id)
            &&& lookup(t.pending_modes, mode_id) == lookup(s.pending_modes, mode_id)
        },
{
    let owned = modes_of(s.mode_to_head, head_id);
    let sized = s.mode_proxies.filter(|mode: u32| owned.contains(mode));
    assert(seq![head_id].contains(head_id)) by {
        assert(seq![head_id][0] == head_id);
    }
    without_then_lookup(s.pending_heads, seq![head_id], head_id);
    without_then_lookup(s.head_id_to_name, seq![head_id], head_id);
    without_then_lookup(s.pending_current_modes, seq![head_id], head_id);
    lemma_modes_of(s.mode_to_head, head_id, mode_id);
    without_then_lookup(s.mode_to_head, owned, mode_id);
    without_then_lookup(s.mode_obj_to_data, owned, mode_id);
    without_then_lookup(s.mode_metadata, sized, mode_id);
    without_then_lookup(s.pending_modes, sized, mode_id);
    lemma_picked(s.mode_proxies, owned, mode_id);
}

proof fn lemma_picked(modes: Seq<u32>, owned: Seq<u32>, mode_id: u32)
    ensures
        modes.filter(|mode: u32| owned.contains(mode)).contains(mode_id) ==> owned.contains(
            mode_id,
        ),
    decreases modes.len(),
{
    reveal(Seq::filter);
    if modes.len() > 0 {
        lemma_picked(modes.drop_last(), owned, mode_id);
        let kept = modes.drop_last().filter(|mode: u32| owned.contains(mode));
        let list = modes.filter(|mode: u32| owned.contains(mode));
        if list.contains(mode_id) {
            let k = choose|k: int| 0 <= k < list.len() && list[k] == mode_id;
            if k < kept.len() {
                assert(kept[k] == mode_id);
            }
        }
    }
}

// ---------------------------------------------------------------------------------------------
// Configuring
// ---------------------------------------------------------------------------------------------

/// While a configuration is open, every known output can be configured.
pub proof fn known_outputs_can_be_configured(s: StateView, name: Seq<char>)
    requires
        s.wf(),
        s.active_config,
        has_key(s.heads, name),
    ensures
        s.configure_fault(name) is None,
{
    place_is_the_first(s.heads, name);
    assert(s.heads[place(s.heads, name)].0 == name);
}

/// The mode object that is asked for has the size and rate of the wanted mode and belongs to the
/// output, and there is one if any announced mode of the output fits.
pub proof fn a_mode_object_fits(s: StateView, name: Seq<char>, wanted: OutputMode, i: int)
    requires
        s.wf(),
        has_key(s.heads, name),
    ensures
        s.mode_object(name, wanted) matches Some(id) ==> {
            &&& lookup(s.mode_to_head, id) == Some(lookup(s.heads, name)->0.id)
            &&& s.mode_proxies.contains(id)
            &&& exists|k: int|
                0 <= k < s.mode_metadata.len() && (#[trigger] s.mode_metadata[k]).0 == id
                    && same_picture(s.mode_metadata[k].1, wanted)
        },
        0 <= i < s.mode_metadata.len() && same_picture(s.mode_metadata[i].1, wanted)
            && s.mode_proxies.contains(s.mode_metadata[i].0) && lookup(
            s.mode_to_head,
            s.mode_metadata[i].0,
        ) == Some(lookup(s.heads, name)->0.id) ==> s.mode_object(name, wanted) is Some,
{
    lemma_first_fitting(s, s.mode_metadata, lookup(s.heads, name)->0.id, wanted, i);
}

proof fn lemma_first_fitting(
    s: StateView,
    modes: Seq<(u32, OutputMode)>,
    head_id: u32,
    wanted: OutputMode,
    i: int,
)
    ensures
        s.first_fitting(modes, head_id, wanted) matches Some(id) ==> {
            &&& lookup(s.mode_to_head, id) == Some(head_id)
            &&& s.mode_proxies.contains(id)
            &&& exists|k: int|
                0 <= k < modes.len() && (#[trigger] modes[k]).0 == id && same_picture(
                    modes[k].1,
                    wanted,
                )
        },
        0 <= i < modes.len() && same_picture(modes[i].1, wanted) && s.mode_proxies.contains(
            modes[i].0,
        ) && lookup(s.mode_to_head, modes[i].0) == Some(head_id) ==> s.first_fitting(
            modes,
            head_id,
            wanted,
        ) is Some,
    decreases modes.len(),
{
    if modes.len() > 0 {
        let rest = modes.skip(1);
        lemma_first_fitting(s, rest, head_id, wanted, i - 1);
        if same_picture(modes[0].1, wanted) && s.mode_proxies.contains(modes[0].0) && lookup(
            s.mode_to_head,
            modes[0].0,
        ) == Some(head_id) {
        } else if s.first_fitting(rest, head_id, wanted) is Some {
            let id = s.first_fitting(rest, head_id, wanted)->0;
            let k = choose|k: int|
                0 <= k < rest.len() && (#[trigger] rest[k]).0 == id && same_picture(
                    rest[k].1,
                    wanted,
                );
            assert(modes[k + 1] == rest[k]);
        }
        if i > 0 && i < modes.len() {
            assert(rest[i - 1] == modes[i]);
        }
    }
}

} // verus!
