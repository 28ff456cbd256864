//! Finds outputs and their modes, and plans the configurations that profiles ask for.

use crate::config::{OutputConfig, Profile};
use crate::ipc::{mode_id, mode_id_text, mode_ids_tell_modes_apart};
use crate::number::{parse_i32, read_i32};
use crate::profile::matcher::{
    a_resolution_pairs_outputs, head_views, resolution, resolve_profile_outputs,
};
use crate::rate::{parse_rate_rounded, rounded_millihertz};
use crate::table::{
    distinct, has_key, lemma_place_unique, lookup, place, place_is_the_first,
};
use crate::text::{
    after, before, chars_of, quoted, same_text, split_once, text_before, text_less, text_order_is_total,
    text_order_is_transitive,
};
use crate::wayland::laws::known_outputs_can_be_configured;
use crate::wayland::protocols::{
    protocol_message, same_picture, ConfigurationRequest, HeadConfiguration, HeadView, OutputHead, OutputMode,
    ProtocolError, StateView, WaylandState,
};
use vstd::prelude::*;

verus! {

// ---------------------------------------------------------------------------------------------
// Modes
// ---------------------------------------------------------------------------------------------

/// What is wrong with the text of a mode.
#[derive(Clone, Copy, PartialEq, Eq, Debug, Structural)]
pub enum ModeTextError {
    /// The resolution is not two numbers with an `x` between them.
    InvalidFormat,
    InvalidWidth,
    InvalidHeight,
    InvalidRate,
}

/// What the text of a mode, such as `1920x1080@60`, asks for: width, height, and the rate in
/// millihertz if the text has one.
pub open spec fn read_mode_text(text: Seq<char>) -> Result<
    (int, int, Option<int>),
    ModeTextError,
> {
    let size = before(text, '@');
    let tail = after(text, '@');
    let height = after(size, 'x');
    if height is None || height->0.contains('x') {
        Err(ModeTextError::InvalidFormat)
    } else if read_i32(before(size, 'x')) is None {
        Err(ModeTextError::InvalidWidth)
    } else if read_i32(height->0) is None {
        Err(ModeTextError::InvalidHeight)
    } else if tail is Some && rounded_millihertz(before(tail->0, '@')) is None {
        Err(ModeTextError::InvalidRate)
    } else {
        Ok(
            (
                read_i32(before(size, 'x'))->0,
                read_i32(height->0)->0,
                match tail {
                    Some(rate) => rounded_millihertz(before(rate, '@')),
                    None => None,
                },
            ),
        )
    }
}

/// Reads the text of a mode: width, height, and the rate in millihertz.
pub fn parse_mode_string(mode_str: &str) -> (r: Result<(i32, i32, Option<i32>), ModeTextError>)
    ensures
        match r {
            Ok((width, height, rate)) => read_mode_text(mode_str@) == Ok::<
                (int, int, Option<int>),
                ModeTextError,
            >(
                (
                    width as int,
                    height as int,
                    match rate {
                        Some(millihertz) => Some(millihertz as int),
                        None => None,
                    },
                ),
            ),
            Err(error) => read_mode_text(mode_str@) == Err::<
                (int, int, Option<int>),
                ModeTextError,
            >(error),
        },
{
    let chars = chars_of(mode_str);
    let (size, tail) = split_once(&chars, '@');
    let (width_text, rest) = split_once(&size, 'x');
    let height_text = match rest {
        Some(height_text) => height_text,
        None => {
            return Err(ModeTextError::InvalidFormat);
        },
    };
    let (_, more) = split_once(&height_text, 'x');
    if more.is_some() {
        return Err(ModeTextError::InvalidFormat);
    }
    let width: i32 = match parse_i32(&width_text) {
        Some(width) => width,
        None => {
            return Err(ModeTextError::InvalidWidth);
        },
    };
    let height: i32 = match parse_i32(&height_text) {
        Some(height) => height,
        None => {
            return Err(ModeTextError::InvalidHeight);
        },
    };
    match tail {
        None => Ok((width, height, None)),
        Some(tail) => {
            let (rate_text, _) = split_once(&tail, '@');
            match parse_rate_rounded(&rate_text) {
                Some(rate) => Ok((width, height, Some(rate))),
                None => Err(ModeTextError::InvalidRate),
            }
        },
    }
}

/// How far two numbers are from each other.
pub open spec fn gap(a: int, b: int) -> int {
    if a < b {
        b - a
    } else {
        a - b
    }
}

/// Whether a mode has this size.
pub open spec fn has_size(mode: OutputMode, width: int, height: int) -> bool {
    mode.width == width && mode.height == height
}

/// The mode of this size whose rate is nearest, the first one of several.
pub open spec fn nearest_mode(modes: Seq<OutputMode>, width: int, height: int, rate: int) -> Option<
    OutputMode,
>
    decreases modes.len(),
{
    if modes.len() == 0 {
        None
    } else {
        let earlier = nearest_mode(modes.drop_last(), width, height, rate);
        let mode = modes.last();
        if has_size(mode, width, height) && (earlier is None || gap(mode.refresh_mhz as int, rate)
            < gap(earlier->0.refresh_mhz as int, rate)) {
            Some(mode)
        } else {
            earlier
        }
    }
}

/// The first mode of this size that the output prefers.
pub open spec fn preferred_mode(modes: Seq<OutputMode>, width: int, height: int) -> Option<
    OutputMode,
>
    decreases modes.len(),
{
    if modes.len() == 0 {
        None
    } else {
        let earlier = preferred_mode(modes.drop_last(), width, height);
        let mode = modes.last();
        if earlier is None && has_size(mode, width, height) && mode.preferred {
            Some(mode)
        } else {
            earlier
        }
    }
}

/// The mode of this size with the highest rate, the first one of several.
pub open spec fn fastest_mode(modes: Seq<OutputMode>, width: int, height: int) -> Option<OutputMode>
    decreases modes.len(),
{
    if modes.len() == 0 {
        None
    } else {
        let earlier = fastest_mode(modes.drop_last(), width, height);
        let mode = modes.last();
        if has_size(mode, width, height) && (earlier is None || mode.refresh_mhz
            > earlier->0.refresh_mhz) {
            Some(mode)
        } else {
            earlier
        }
    }
}

/// The best of the offered modes for what a text asks for. With a rate it is the nearest one;
/// without, it is the preferred one or else the fastest one.
pub open spec fn best_mode(modes: Seq<OutputMode>, text: Seq<char>) -> Option<OutputMode> {
    match read_mode_text(text) {
        Ok((width, height, Some(rate))) => nearest_mode(modes, width, height, rate),
        Ok((width, height, None)) => if preferred_mode(modes, width, height) is Some {
            preferred_mode(modes, width, height)
        } else {
            fastest_mode(modes, width, height)
        },
        Err(_) => None,
    }
}

/// The best of the offered modes for what a text asks for.
fn choose_mode(modes: &Vec<OutputMode>, mode_str: &str) -> (mode: Option<OutputMode>)
    ensures
        mode == best_mode(modes@, mode_str@),
{
    let (width, height, rate): (i32, i32, Option<i32>) = match parse_mode_string(mode_str) {
        Ok(parts) => parts,
        Err(_) => {
            return None;
        },
    };
    let mut best: Option<OutputMode> = None;
    for i in 0..modes.len()
        invariant
            match rate {
                Some(rate) => best == nearest_mode(
                    modes@.take(i as int),
                    width as int,
                    height as int,
                    rate as int,
                ),
                None => {
                    &&& preferred_mode(modes@.take(i as int), width as int, height as int) is None
                    &&& best == fastest_mode(modes@.take(i as int), width as int, height as int)
                },
            },
            match rate {
                Some(rate) => read_mode_text(mode_str@) == Ok::<
                    (int, int, Option<int>),
                    ModeTextError,
                >((width as int, height as int, Some(rate as int))),
                None => read_mode_text(mode_str@) == Ok::<(int, int, Option<int>), ModeTextError>(
                    (width as int, height as int, None),
                ),
            },
    {
        let mode: OutputMode = modes[i];
        assert(modes@.take(i + 1).drop_last() =~= modes@.take(i as int));
        if mode.width == width && mode.height == height {
            match rate {
                Some(rate) => {
                    let closer: bool = match best {
                        None => true,
                        Some(other) => rate_gap(mode.refresh_mhz, rate) < rate_gap(
                            other.refresh_mhz,
                            rate,
                        ),
                    };
                    if closer {
                        best = Some(mode);
                    }
                },
                None => {
                    if mode.preferred {
                        proof {
                            lemma_preferred_stays(
                                modes@,
                                width as int,
                                height as int,
                                i + 1,
                            );
                        }
                        return Some(mode);
                    }
                    let faster: bool = match best {
                        None => true,
                        Some(other) => mode.refresh_mhz > other.refresh_mhz,
                    };
                    if faster {
                        best = Some(mode);
                    }
                },
            }
        }
    }
    assert(modes@.take(modes@.len() as int) =~= modes@);
    best
}

proof fn lemma_preferred_stays(modes: Seq<OutputMode>, width: int, height: int, n: int)
    requires
        0 <= n <= modes.len(),
        preferred_mode(modes.take(n), width, height) is Some,
    ensures
        preferred_mode(modes, width, height) == preferred_mode(modes.take(n), width, height),
    decreases modes.len() - n,
{
    if n < modes.len() {
        assert(modes.take(n + 1).drop_last() =~= modes.take(n));
        lemma_preferred_stays(modes, width, height, n + 1);
    } else {
        assert(modes.take(n) =~= modes);
    }
}

/// How far two rates are from each other.
fn rate_gap(a: i32, b: i32) -> (far: i64)
    ensures
        far == gap(a as int, b as int),
{
    let difference: i64 = a as i64 - b as i64;
    if difference < 0 {
        -difference
    } else {
        difference
    }
}

proof fn lemma_nearest(modes: Seq<OutputMode>, width: int, height: int, rate: int)
    ensures
        match nearest_mode(modes, width, height, rate) {
            Some(best) => modes.contains(best) && has_size(best, width, height) && forall|i: int|
                0 <= i < modes.len() && has_size(#[trigger] modes[i], width, height) ==> gap(
                    best.refresh_mhz as int,
                    rate,
                ) <= gap(modes[i].refresh_mhz as int, rate),
            None => forall|i: int|
                0 <= i < modes.len() ==> !has_size(#[trigger] modes[i], width, height),
        },
    decreases modes.len(),
{
    if modes.len() > 0 {
        let shorter = modes.drop_last();
        lemma_nearest(shorter, width, height, rate);
        assert forall|i: int| 0 <= i < shorter.len() implies shorter[i] == #[trigger] modes[i] by {}
        if let Some(best) = nearest_mode(shorter, width, height, rate) {
            let k = choose|k: int| 0 <= k < shorter.len() && shorter[k] == best;
            assert(modes[k] == best);
        }
        assert(modes[modes.len() - 1] == modes.last());
    }
}

/// Whether the mode at `k` has this size and, of the modes of this size, is nearest to the rate, and the
/// first one that is.
pub open spec fn first_nearest(
    modes: Seq<OutputMode>,
    width: int,
    height: int,
    rate: int,
    k: int,
) -> bool {
    &&& 0 <= k < modes.len()
    &&& has_size(modes[k], width, height)
    &&& forall|i: int|
        0 <= i < modes.len() && has_size(#[trigger] modes[i], width, height) ==> {
            &&& gap(modes[k].refresh_mhz as int, rate) <= gap(modes[i].refresh_mhz as int, rate)
            &&& i < k ==> gap(modes[k].refresh_mhz as int, rate) < gap(
                modes[i].refresh_mhz as int,
                rate,
            )
        }
}

/// Of several modes that are equally near to a rate, the first one is the nearest.
pub proof fn the_first_nearest_mode_is_nearest(
    modes: Seq<OutputMode>,
    width: int,
    height: int,
    rate: int,
)
    ensures
        nearest_mode(modes, width, height, rate) matches Some(best) ==> exists|k: int| #[trigger]
            first_nearest(modes, width, height, rate, k) && modes[k] == best,
    decreases modes.len(),
{
    if modes.len() > 0 {
        let shorter = modes.drop_last();
        let n = modes.len() - 1;
        the_first_nearest_mode_is_nearest(shorter, width, height, rate);
        lemma_nearest(shorter, width, height, rate);
        assert forall|i: int| 0 <= i < n implies #[trigger] modes[i] == shorter[i] by {}
        if let Some(best) = nearest_mode(modes, width, height, rate) {
            if nearest_mode(shorter, width, height, rate) == Some(best) && !(has_size(
                modes[n],
                width,
                height,
            ) && gap(modes[n].refresh_mhz as int, rate) < gap(best.refresh_mhz as int, rate)) {
                let k = choose|k: int| #[trigger]
                    first_nearest(shorter, width, height, rate, k) && shorter[k] == best;
                assert(first_nearest(modes, width, height, rate, k));
            } else {
                assert(first_nearest(modes, width, height, rate, n));
            }
        }
    }
}

proof fn lemma_fastest(modes: Seq<OutputMode>, width: int, height: int)
    ensures
        match fastest_mode(modes, width, height) {
            Some(best) => modes.contains(best) && has_size(best, width, height) && forall|i: int|
                0 <= i < modes.len() && has_size(#[trigger] modes[i], width, height)
                    ==> best.refresh_mhz >= modes[i].refresh_mhz,
            None => forall|i: int|
                0 <= i < modes.len() ==> !has_size(#[trigger] modes[i], width, height),
        },
    decreases modes.len(),
{
    if modes.len() > 0 {
        let shorter = modes.drop_last();
        lemma_fastest(shorter, width, height);
        assert forall|i: int| 0 <= i < shorter.len() implies shorter[i] == #[trigger] modes[i] by {}
        if let Some(best) = fastest_mode(shorter, width, height) {
            let k = choose|k: int| 0 <= k < shorter.len() && shorter[k] == best;
            assert(modes[k] == best);
        }
        assert(modes[modes.len() - 1] == modes.last());
    }
}

proof fn lemma_preferred(modes: Seq<OutputMode>, width: int, height: int)
    ensures
        match preferred_mode(modes, width, height) {
            Some(best) => modes.contains(best) && has_size(best, width, height) && best.preferred,
            None => forall|i: int|
                0 <= i < modes.len() && has_size(#[trigger] modes[i], width, height)
                    ==> !modes[i].preferred,
        },
    decreases modes.len(),
{
    if modes.len() > 0 {
        let shorter = modes.drop_last();
        lemma_preferred(shorter, width, height);
        assert forall|i: int| 0 <= i < shorter.len() implies shorter[i] == #[trigger] modes[i] by {}
        if let Some(best) = preferred_mode(shorter, width, height) {
            let k = choose|k: int| 0 <= k < shorter.len() && shorter[k] == best;
            assert(modes[k] == best);
        }
        assert(modes[modes.len() - 1] == modes.last());
    }
}

/// The best mode is one of the offered modes and has the size that the text asks for. With a rate in
/// the text no offered mode of that size is nearer to it. Without one it is preferred, or none of
/// that size is and none is faster. There is none only if no offered mode has the size.
pub proof fn the_best_mode_is_offered(modes: Seq<OutputMode>, text: Seq<char>)
    ensures
        match read_mode_text(text) {
            Ok((width, height, rate)) => match best_mode(modes, text) {
                Some(best) => {
                    &&& modes.contains(best)
                    &&& has_size(best, width, height)
                    &&& forall|i: int|
                        0 <= i < modes.len() && has_size(#[trigger] modes[i], width, height)
                            ==> match rate {
                            Some(rate) => gap(best.refresh_mhz as int, rate) <= gap(
                                modes[i].refresh_mhz as int,
                                rate,
                            ),
                            None => best.preferred || (!modes[i].preferred && best.refresh_mhz
                                >= modes[i].refresh_mhz),
                        }
                },
                None => forall|i: int|
                    0 <= i < modes.len() ==> !has_size(#[trigger] modes[i], width, height),
            },
            Err(_) => best_mode(modes, text) is None,
        },
{
    if let Ok((width, height, rate)) = read_mode_text(text) {
        if let Some(rate) = rate {
            lemma_nearest(modes, width, height, rate);
        } else {
            lemma_preferred(modes, width, height);
            lemma_fastest(modes, width, height);
        }
    }
}

// ---------------------------------------------------------------------------------------------
// Outputs by name
// ---------------------------------------------------------------------------------------------

/// The list with one more output, behind those whose names do not come after its own.
pub open spec fn insert_by_name(list: Seq<HeadView>, head: HeadView) -> Seq<HeadView>
    decreases list.len(),
{
    if list.len() == 0 || text_less(head.name, list[0].name) {
        seq![head] + list
    } else {
        seq![list[0]] + insert_by_name(list.skip(1), head)
    }
}

/// The outputs sorted by name.
pub open spec fn sorted_heads(heads: Seq<(Seq<char>, HeadView)>) -> Seq<HeadView>
    decreases heads.len(),
{
    if heads.len() == 0 {
        Seq::empty()
    } else {
        insert_by_name(sorted_heads(heads.drop_last()), heads.last().1)
    }
}

proof fn lemma_insert_by_name(list: Seq<HeadView>, head: HeadView, at: int)
    requires
        0 <= at <= list.len(),
        forall|j: int| 0 <= j < at ==> !text_less(head.name, (#[trigger] list[j]).name),
        at < list.len() ==> text_less(head.name, list[at].name),
    ensures
        insert_by_name(list, head) == list.insert(at, head),
    decreases list.len(),
{
    if list.len() == 0 || text_less(head.name, list[0].name) {
        assert(seq![head] + list =~= list.insert(0, head));
    } else {
        let rest = list.skip(1);
        assert forall|j: int| 0 <= j < at - 1 implies !text_less(
            head.name,
            (#[trigger] rest[j]).name,
        ) by {
            assert(rest[j] == list[j + 1]);
        }
        lemma_insert_by_name(rest, head, at - 1);
        assert(seq![list[0]] + rest.insert(at - 1, head) =~= list.insert(at, head));
    }
}

proof fn lemma_insert_members(list: Seq<HeadView>, head: HeadView, other: HeadView)
    ensures
        insert_by_name(list, head).contains(other) <==> list.contains(other) || other == head,
        insert_by_name(list, head).len() == list.len() + 1,
    decreases list.len(),
{
    let result = insert_by_name(list, head);
    if list.len() == 0 || text_less(head.name, list[0].name) {
        assert(result[0] == head);
        if list.contains(other) {
            let k = choose|k: int| 0 <= k < list.len() && list[k] == other;
            assert(result[k + 1] == other);
        }
        if result.contains(other) {
            let k = choose|k: int| 0 <= k < result.len() && result[k] == other;
            if k > 0 {
                assert(list[k - 1] == other);
            }
        }
    } else {
        let rest = list.skip(1);
        let inner = insert_by_name(rest, head);
        lemma_insert_members(rest, head, other);
        assert(result[0] == list[0]);
        if list.contains(other) {
            let k = choose|k: int| 0 <= k < list.len() && list[k] == other;
            if k > 0 {
                assert(rest[k - 1] == other);
            }
        }
        if rest.contains(other) {
            let k = choose|k: int| 0 <= k < rest.len() && rest[k] == other;
            assert(list[k + 1] == other);
        }
        if inner.contains(other) {
            let k = choose|k: int| 0 <= k < inner.len() && inner[k] == other;
            assert(result[k + 1] == other);
        }
        if result.contains(other) {
            let k = choose|k: int| 0 <= k < result.len() && result[k] == other;
            if k > 0 {
                assert(inner[k - 1] == other);
            }
        }
    }
}

/// Whether no output stands in front of one whose name comes before its own.
pub open spec fn in_name_order(list: Seq<HeadView>) -> bool {
    forall|i: int, j: int|
        #![trigger list[i], list[j]]
        0 <= i < j < list.len() ==> !text_less(list[j].name, list[i].name)
}

proof fn lemma_insert_keeps_order(list: Seq<HeadView>, head: HeadView)
    requires
        in_name_order(list),
    ensures
        in_name_order(insert_by_name(list, head)),
    decreases list.len(),
{
    let result = insert_by_name(list, head);
    if list.len() == 0 || text_less(head.name, list[0].name) {
        assert forall|i: int, j: int|
            #![trigger result[i], result[j]]
            0 <= i < j < result.len() implies !text_less(result[j].name, result[i].name) by {
            assert(result[j] == list[j - 1]);
            if i > 0 {
                assert(result[i] == list[i - 1]);
            } else {
                text_order_is_total(head.name, list[0].name);
                if text_less(list[j - 1].name, head.name) {
                    text_order_is_transitive(list[j - 1].name, head.name, list[0].name);
                    text_order_is_total(list[0].name, list[0].name);
                    if j - 1 > 0 {
                        assert(!text_less(list[j - 1].name, list[0].name));
                    }
                }
            }
        }
    } else {
        let rest = list.skip(1);
        assert(in_name_order(rest)) by {
            assert forall|i: int, j: int|
                #![trigger rest[i], rest[j]]
                0 <= i < j < rest.len() implies !text_less(rest[j].name, rest[i].name) by {
                assert(rest[i] == list[i + 1] && rest[j] == list[j + 1]);
            }
        }
        lemma_insert_keeps_order(rest, head);
        let inner = insert_by_name(rest, head);
        assert forall|i: int, j: int|
            #![trigger result[i], result[j]]
            0 <= i < j < result.len() implies !text_less(result[j].name, result[i].name) by {
            assert(result[j] == inner[j - 1]);
            if i > 0 {
                assert(result[i] == inner[i - 1]);
            } else {
                assert(inner.contains(inner[j - 1]));
                lemma_insert_members(rest, head, inner[j - 1]);
                if inner[j - 1] != head {
                    let k = choose|k: int| 0 <= k < rest.len() && rest[k] == inner[j - 1];
                    assert(list[k + 1] == inner[j - 1]);
                }
            }
        }
    }
}

/// Sorting keeps exactly the outputs there are, and puts them in the order of their names.
pub proof fn sorting_keeps_the_outputs(heads: Seq<(Seq<char>, HeadView)>, head: HeadView)
    ensures
        sorted_heads(heads).len() == heads.len(),
        sorted_heads(heads).contains(head) <==> exists|k: int|
            0 <= k < heads.len() && (#[trigger] heads[k]).1 == head,
        in_name_order(sorted_heads(heads)),
    decreases heads.len(),
{
    if heads.len() > 0 {
        let shorter = heads.drop_last();
        sorting_keeps_the_outputs(shorter, head);
        lemma_insert_members(sorted_heads(shorter), heads.last().1, head);
        lemma_insert_keeps_order(sorted_heads(shorter), heads.last().1);
        if exists|k: int| 0 <= k < shorter.len() && (#[trigger] shorter[k]).1 == head {
            let k = choose|k: int| 0 <= k < shorter.len() && (#[trigger] shorter[k]).1 == head;
            assert(heads[k].1 == head);
        }
        if exists|k: int| 0 <= k < heads.len() && (#[trigger] heads[k]).1 == head {
            let k = choose|k: int| 0 <= k < heads.len() && (#[trigger] heads[k]).1 == head;
            if k < shorter.len() {
                assert(shorter[k].1 == head);
            }
        }
        assert(heads[heads.len() - 1] == heads.last());
    }
}

/// Every listed output is the one that stands under its name.
pub proof fn a_listed_output_is_found_by_name(s: StateView, i: int)
    requires
        s.wf(),
        0 <= i < sorted_heads(s.heads).len(),
    ensures
        lookup(s.heads, sorted_heads(s.heads)[i].name) == Some(sorted_heads(s.heads)[i]),
{
    let head = sorted_heads(s.heads)[i];
    sorting_keeps_the_outputs(s.heads, head);
    assert(sorted_heads(s.heads).contains(head));
    let k = choose|k: int| 0 <= k < s.heads.len() && (#[trigger] s.heads[k]).1 == head;
    assert(s.heads[k].0 == head.name);
    assert forall|j: int| 0 <= j < k implies (#[trigger] s.heads[j]).0 != head.name by {
        assert(s.heads[j].0 != s.heads[k].0);
    }
    lemma_place_unique(s.heads, head.name, k);
}

proof fn lemma_inserted_somewhere(list: Seq<HeadView>, head: HeadView) -> (at: int)
    ensures
        0 <= at <= list.len(),
        insert_by_name(list, head) == list.insert(at, head),
    decreases list.len(),
{
    if list.len() == 0 || text_less(head.name, list[0].name) {
        assert(seq![head] + list =~= list.insert(0, head));
        0
    } else {
        let rest = list.skip(1);
        let at = lemma_inserted_somewhere(rest, head);
        assert(seq![list[0]] + rest.insert(at, head) =~= list.insert(at + 1, head));
        at + 1
    }
}

/// Whether no two of these outputs have the same name.
pub open spec fn names_differ(list: Seq<HeadView>) -> bool {
    forall|i: int, j: int|
        #![trigger list[i], list[j]]
        0 <= i < j < list.len() ==> list[i].name != list[j].name
}

proof fn lemma_sorted_names_differ(heads: Seq<(Seq<char>, HeadView)>)
    requires
        distinct(heads),
        forall|i: int| 0 <= i < heads.len() ==> (#[trigger] heads[i]).1.name == heads[i].0,
    ensures
        names_differ(sorted_heads(heads)),
    decreases heads.len(),
{
    if heads.len() > 0 {
        let shorter = heads.drop_last();
        let head = heads.last().1;
        let list = sorted_heads(shorter);
        assert forall|i: int| 0 <= i < shorter.len() implies (#[trigger] shorter[i]).1.name
            == shorter[i].0 by {
            assert(shorter[i] == heads[i]);
        }
        assert(distinct(shorter)) by {
            assert forall|i: int, j: int|
                #![trigger shorter[i], shorter[j]]
                0 <= i < j < shorter.len() implies shorter[i].0 != shorter[j].0 by {
                assert(heads[i].0 != heads[j].0);
            }
        }
        lemma_sorted_names_differ(shorter);
        assert forall|i: int| 0 <= i < list.len() implies (#[trigger] list[i]).name != head.name by {
            sorting_keeps_the_outputs(shorter, list[i]);
            assert(list.contains(list[i]));
            let k = choose|k: int| 0 <= k < shorter.len() && (#[trigger] shorter[k]).1 == list[i];
            assert(heads[k].0 != heads[heads.len() - 1].0);
        }
        let at = lemma_inserted_somewhere(list, head);
        let result = sorted_heads(heads);
        assert forall|i: int, j: int|
            #![trigger result[i], result[j]]
            0 <= i < j < result.len() implies result[i].name != result[j].name by {
            let a = if i < at {
                i
            } else {
                i - 1
            };
            let b = if j < at {
                j
            } else {
                j - 1
            };
            if i != at {
                assert(result[i] == list[a]);
            }
            if j != at {
                assert(result[j] == list[b]);
            }
        }
    }
}

/// No two listed outputs have the same name.
pub proof fn names_are_listed_once(s: StateView)
    requires
        s.wf(),
    ensures
        names_differ(sorted_heads(s.heads)),
{
    lemma_sorted_names_differ(s.heads);
}

// ---------------------------------------------------------------------------------------------
// The manager
// ---------------------------------------------------------------------------------------------

/// The outputs of a compositor, if one is connected.
pub struct OutputManager {
    pub wayland_client: Option<WaylandState>,
}

impl Default for OutputManager {
    /// A manager that is not connected.
    fn default() -> (manager: OutputManager)
        ensures
            manager.wf(),
            manager.wayland_client is None,
    {
        OutputManager::new()
    }
}

impl OutputManager {
    /// The state of the connection is well formed.
    pub open spec fn wf(self) -> bool {
        self.wayland_client is Some ==> self.wayland_client->0@.wf()
    }

    /// The connected outputs, sorted by name.
    pub open spec fn listed(self) -> Seq<HeadView> {
        match self.wayland_client {
            Some(state) => sorted_heads(state@.heads),
            None => Seq::empty(),
        }
    }

    /// The output of this name.
    pub open spec fn named(self, name: Seq<char>) -> Option<HeadView> {
        match self.wayland_client {
            Some(state) => lookup(state@.heads, name),
            None => None,
        }
    }

    /// Whether the compositor offers output management.
    pub open spec fn available(self) -> bool {
        self.wayland_client is Some && self.wayland_client->0@.available
    }

    /// A manager that is not connected.
    pub fn new() -> (manager: OutputManager)
        ensures
            manager.wf(),
            manager.wayland_client is None,
    {
        OutputManager { wayland_client: None }
    }

    /// Whether the compositor offers output management.
    pub fn is_available(&self) -> (available: bool)
        ensures
            available == self.available(),
    {
        match &self.wayland_client {
            Some(state) => state.available,
            None => false,
        }
    }

    /// The count of configurations and disconnections; zero without a connection.
    pub fn configuration_generation(&self) -> (generation: u64)
        ensures
            generation == match self.wayland_client {
                Some(state) => state@.configuration_generation,
                None => 0,
            },
    {
        match &self.wayland_client {
            Some(state) => state.configuration_generation,
            None => 0,
        }
    }

    /// The connected outputs, sorted by name.
    pub fn get_heads(&self) -> (heads: Vec<&OutputHead>)
        ensures
            head_views(heads@) == self.listed(),
    {
        let mut heads: Vec<&OutputHead> = Vec::new();
        assert(head_views(heads@) =~= Seq::empty());
        if let Some(state) = &self.wayland_client {
            let ghost all = state@.heads;
            assert(all.take(0) =~= Seq::empty());
            for i in 0..state.heads.entries.len()
                invariant
                    all == state.heads@,
                    head_views(heads@) == sorted_heads(all.take(i as int)),
            {
                let head: &OutputHead = &state.heads.entries[i].1;
                let mut at: usize = 0;
                let ghost list = head_views(heads@);
                while at < heads.len() && !text_before(head.name.as_str(), heads[at].name.as_str())
                    invariant
                        at <= heads@.len(),
                        list == head_views(heads@),
                        forall|j: int|
                            0 <= j < at ==> !text_less(head@.name, (#[trigger] list[j]).name),
                    decreases heads@.len() - at,
                {
                    assert(!text_less(head@.name, list[at as int].name));
                    at = at + 1;
                }
                proof {
                    if at < heads@.len() {
                        assert(text_less(head@.name, list[at as int].name));
                    }
                    lemma_insert_by_name(list, head@, at as int);
                    assert(all.take(i + 1).drop_last() =~= all.take(i as int));
                }
                heads.insert(at, head);
                assert(head_views(heads@) =~= list.insert(at as int, head@));
            }
            assert(all.take(all.len() as int) =~= all);
        }
        heads
    }

    /// The output of this name.
    pub fn get_head(&self, name: &str) -> (head: Option<&OutputHead>)
        ensures
            head is Some <==> self.named(name@) is Some,
            head is Some ==> self.named(name@) == Some(head->0@),
    {
        match &self.wayland_client {
            Some(state) => state.heads.get(name),
            None => None,
        }
    }

    /// The best mode that the output of this name offers for what the text asks for.
    pub fn find_mode(&self, head_name: &str, mode_str: &str) -> (mode: Option<OutputMode>)
        ensures
            mode == match self.named(head_name@) {
                Some(head) => best_mode(head.modes, mode_str@),
                None => None,
            },
    {
        match self.get_head(head_name) {
            Some(head) => choose_mode(&head.modes, mode_str),
            None => None,
        }
    }
}

// ---------------------------------------------------------------------------------------------
// Profiles
// ---------------------------------------------------------------------------------------------

/// The mode that the settings of an output ask for, out of those it offers.
pub open spec fn wanted_mode(output: OutputConfig, head: HeadView) -> Option<OutputMode> {
    match output.mode {
        Some(text) => best_mode(head.modes, text@),
        None => None,
    }
}

/// Whether an output is as its settings say. The rate may be off by five hertz, a missing position
/// counts as the origin, and the settings of a disabled output do not matter.
pub open spec fn output_settled(output: OutputConfig, head: HeadView) -> bool {
    head.enabled == output.enabled && (output.enabled ==> {
        &&& output.mode is Some ==> {
            &&& wanted_mode(output, head) is Some
            &&& head.current_mode is Some
            &&& has_size(
                head.current_mode->0,
                wanted_mode(output, head)->0.width as int,
                wanted_mode(output, head)->0.height as int,
            )
            &&& gap(
                wanted_mode(output, head)->0.refresh_mhz as int,
                head.current_mode->0.refresh_mhz as int,
            ) <= 5000
        }
        &&& output.position matches Some(place) ==> (place@[0], place@[1]) == match head.position {
            Some(place) => place,
            None => (0i32, 0i32),
        }
        &&& output.transform matches Some(transform) ==> head.transform == transform
        &&& output.scale matches Some(scale) ==> !head.scale.apart(scale)
        &&& output.adaptive_sync is Some ==> head.adaptive_sync == output.adaptive_sync
    })
}

/// Whether the connected outputs are as a profile says.
pub open spec fn profile_settled(profile: Profile, heads: Seq<HeadView>) -> bool {
    resolution(profile, heads) matches Some(chosen) && forall|i: int|
        0 <= i < profile.outputs@.len() ==> output_settled(
            #[trigger] profile.outputs@[i],
            heads[chosen[i]],
        )
}

/// What the settings of an output ask of it.
pub open spec fn asked(output: OutputConfig, head: HeadView) -> HeadConfiguration {
    HeadConfiguration {
        enabled: output.enabled,
        mode: if output.enabled {
            wanted_mode(output, head)
        } else {
            None
        },
        position: match output.position {
            Some(place) => Some((place@[0], place@[1])),
            None => None,
        },
        transform: output.transform,
        scale: output.scale,
        adaptive_sync: output.adaptive_sync,
    }
}

/// Whether the settings of an output ask for a mode that it does not offer.
pub open spec fn lacks_mode(output: OutputConfig, head: HeadView) -> bool {
    output.enabled && output.mode is Some && wanted_mode(output, head) is None
}

/// Names and what is asked of the outputs, as mathematical values.
pub open spec fn configuration_view(configuration: Seq<(String, HeadConfiguration)>) -> Seq<
    (Seq<char>, HeadConfiguration),
> {
    Seq::new(configuration.len(), |i: int| (configuration[i].0@, configuration[i].1))
}

/// What a profile asks of the outputs that its settings are for.
pub open spec fn profile_configuration(
    profile: Profile,
    heads: Seq<HeadView>,
    chosen: Seq<int>,
) -> Seq<(Seq<char>, HeadConfiguration)> {
    Seq::new(
        profile.outputs@.len(),
        |i: int| (heads[chosen[i]].name, asked(profile.outputs@[i], heads[chosen[i]])),
    )
}

/// All requests of a configuration, output by output.
pub open spec fn all_requests(
    s: StateView,
    configuration: Seq<(Seq<char>, HeadConfiguration)>,
) -> Seq<ConfigurationRequest>
    decreases configuration.len(),
{
    if configuration.len() == 0 {
        Seq::empty()
    } else {
        all_requests(s, configuration.drop_last()) + s.head_requests(
            configuration.last().0,
            configuration.last().1,
        )
    }
}

/// What a configuration is submitted for.
#[derive(Clone, Copy, PartialEq, Eq, Debug, Structural)]
pub enum Purpose {
    /// To be applied.
    Apply,
    /// To be tested, and never applied.
    Test,
}

/// A configuration to create with this serial number and to fill with these requests, which is to
/// be submitted then, once and for this purpose.
#[derive(Clone, Debug)]
pub struct Submission {
    pub serial: u32,
    pub requests: Vec<ConfigurationRequest>,
    pub purpose: Purpose,
}

/// What a profile comes to.
#[derive(Clone, Debug)]
pub enum ProfilePlan {
    /// Nothing is to be submitted, and this is the result.
    Settled(bool),
    /// The result is whether the compositor accepts this.
    Submit(Submission),
}

impl ProfilePlan {
    /// Whether the plan succeeds, given whether the compositor has accepted what was submitted, if
    /// anything was.
    pub open spec fn succeeds(self, accepted: bool) -> bool {
        match self {
            ProfilePlan::Settled(result) => result,
            ProfilePlan::Submit(_) => accepted,
        }
    }

    /// The result of the plan, given whether the compositor has accepted what was submitted, if anything
    /// was.
    pub fn result(&self, accepted: bool) -> (result: bool)
        ensures
            result == self.succeeds(accepted),
    {
        match self {
            ProfilePlan::Settled(result) => *result,
            ProfilePlan::Submit(_) => accepted,
        }
    }
}

/// Why outputs could not be configured.
#[derive(Clone, Debug)]
pub enum OutputError {
    /// There is no connection to a compositor.
    NotInitialized,
    /// The profile does not fit the connected outputs.
    NoLongerMatches,
    /// The output does not offer the mode.
    NoSuchMode { mode: String, output: String },
    /// The output is enabled but not known to be in a mode.
    NoCurrentMode { output: String },
    /// No output has this name.
    NoSuchOutput { output: String },
    /// The configuration could not be made; the name is that of the output it failed at.
    Protocol { error: ProtocolError, output: String },
}

/// The text of an error.
pub open spec fn output_message(error: OutputError) -> Seq<char> {
    match error {
        OutputError::NotInitialized => "Wayland client not initialized"@,
        OutputError::NoLongerMatches => "Profile no longer matches the connected outputs"@,
        OutputError::NoSuchMode { mode, output } => "No mode matching '"@ + mode@
            + "' is available for output '"@ + output@ + "'"@,
        OutputError::NoCurrentMode { output } => "Output '"@ + output@
            + "' is enabled without a current mode"@,
        OutputError::NoSuchOutput { output } => "Output '"@ + output@ + "' is not connected"@,
        OutputError::Protocol { error, output } => protocol_message(error, output@),
    }
}

impl OutputError {
    /// The text of the error.
    pub fn message(&self) -> (text: String)
        ensures
            text@ == output_message(*self),
    {
        match self {
            OutputError::NotInitialized => "Wayland client not initialized".to_owned(),
            OutputError::NoLongerMatches => {
                "Profile no longer matches the connected outputs".to_owned()
            },
            OutputError::NoSuchMode { mode, output } => {
                let mut text = quoted(
                    "No mode matching '",
                    mode.as_str(),
                    "' is available for output '",
                );
                text.append(output.as_str());
                text.append("'");
                text
            },
            OutputError::NoCurrentMode { output } => quoted(
                "Output '",
                output.as_str(),
                "' is enabled without a current mode",
            ),
            OutputError::NoSuchOutput { output } => quoted(
                "Output '",
                output.as_str(),
                "' is not connected",
            ),
            OutputError::Protocol { error, output } => error.message(output.as_str()),
        }
    }
}

/// The state with a new configuration open.
pub open spec fn opened(s: StateView) -> StateView {
    StateView { active_config: true, configuration_outcome: None, ..s }
}

/// The first of the settings from `from` on that ask for a mode which their output does not offer.
pub open spec fn first_lacking(
    outputs: Seq<OutputConfig>,
    heads: Seq<HeadView>,
    chosen: Seq<int>,
    from: int,
) -> Option<int>
    decreases outputs.len() - from,
{
    if from < 0 || from >= outputs.len() {
        None
    } else if lacks_mode(outputs[from], heads[chosen[from]]) {
        Some(from)
    } else {
        first_lacking(outputs, heads, chosen, from + 1)
    }
}

/// `plan` is what a profile comes to in the state `s` for this purpose, and `t` is the state then. There
/// is nothing to apply if the outputs are as the profile says already; they are tested all the same.
pub open spec fn is_plan(
    s: StateView,
    profile: Profile,
    purpose: Purpose,
    plan: Result<ProfilePlan, OutputError>,
    t: StateView,
) -> bool {
    let heads = sorted_heads(s.heads);
    if !s.available {
        plan == Ok::<ProfilePlan, OutputError>(ProfilePlan::Settled(false)) && t == s
    } else if purpose is Apply && profile_settled(profile, heads) {
        plan == Ok::<ProfilePlan, OutputError>(ProfilePlan::Settled(true)) && t == s
    } else {
        match resolution(profile, heads) {
            None => plan == Err::<ProfilePlan, OutputError>(OutputError::NoLongerMatches) && t == s,
            Some(chosen) => match first_lacking(profile.outputs@, heads, chosen, 0) {
                Some(i) => {
                    &&& plan matches Err(OutputError::NoSuchMode { mode, output })
                    &&& mode@ == profile.outputs@[i].mode->0@
                    &&& output@ == heads[chosen[i]].name
                    &&& t == s
                },
                None => match s.last_serial {
                    None => {
                        &&& plan matches Err(OutputError::Protocol { error, .. })
                        &&& error == ProtocolError::NoSerial
                        &&& t == s
                    },
                    Some(serial) => {
                        &&& plan matches Ok(ProfilePlan::Submit(submission))
                        &&& submission.purpose == purpose
                        &&& submission.serial == serial
                        &&& submission.requests@ == all_requests(
                            opened(s),
                            profile_configuration(profile, heads, chosen),
                        )
                        &&& t == opened(s)
                    },
                },
            },
        }
    }
}

/// Whether an output is as its settings say.
fn is_settled(output: &OutputConfig, head: &OutputHead) -> (settled: bool)
    ensures
        settled == output_settled(*output, head@),
{
    if head.enabled != output.enabled {
        return false;
    }
    if !output.enabled {
        return true;
    }
    if let Some(text) = &output.mode {
        let wanted: OutputMode = match choose_mode(&head.modes, text.as_str()) {
            Some(mode) => mode,
            None => {
                return false;
            },
        };
        let current: OutputMode = match head.current_mode {
            Some(mode) => mode,
            None => {
                return false;
            },
        };
        if wanted.width != current.width || wanted.height != current.height || rate_gap(
            wanted.refresh_mhz,
            current.refresh_mhz,
        ) > 5000 {
            return false;
        }
    }
    if let Some(place) = &output.position {
        let (x, y): (i32, i32) = match head.position {
            Some(place) => place,
            None => (0, 0),
        };
        if place[0] != x || place[1] != y {
            return false;
        }
    }
    if let Some(transform) = output.transform {
        if head.transform != transform {
            return false;
        }
    }
    if let Some(scale) = &output.scale {
        if head.scale.is_apart(scale) {
            return false;
        }
    }
    if let Some(wanted) = output.adaptive_sync {
        match head.adaptive_sync {
            Some(on) => {
                if on != wanted {
                    return false;
                }
            },
            None => {
                return false;
            },
        }
    }
    true
}

/// What the settings of an output ask of it.
fn ask(output: &OutputConfig, head: &OutputHead) -> (config: HeadConfiguration)
    ensures
        config == asked(*output, head@),
{
    HeadConfiguration {
        enabled: output.enabled,
        mode: match &output.mode {
            Some(text) => if output.enabled {
                choose_mode(&head.modes, text.as_str())
            } else {
                None
            },
            None => None,
        },
        position: match &output.position {
            Some(place) => Some((place[0], place[1])),
            None => None,
        },
        transform: output.transform,
        scale: output.scale,
        adaptive_sync: output.adaptive_sync,
    }
}

impl OutputManager {
    /// Whether the connected outputs are as a profile says.
    pub fn config_matches_profile(&self, profile: &Profile) -> (settled: bool)
        requires
            self.wf(),
        ensures
            settled == profile_settled(*profile, self.listed()),
    {
        let heads = self.get_heads();
        let ghost views = self.listed();
        let resolved = match resolve_profile_outputs(profile, heads.as_slice()) {
            Some(resolved) => resolved,
            None => {
                return false;
            },
        };
        let ghost chosen = resolution(*profile, views)->0;
        proof {
            a_resolution_pairs_outputs(*profile, views);
        }
        for i in 0..resolved.len()
            invariant
                self.wf(),
                views == self.listed(),
                head_views(heads@) == views,
                resolution(*profile, views) == Some(chosen),
                resolved@.len() == chosen.len() == profile.outputs@.len() == views.len(),
                forall|k: int| 0 <= k < chosen.len() ==> 0 <= #[trigger] chosen[k] < views.len(),
                forall|k: int|
                    0 <= k < chosen.len() ==> *(#[trigger] resolved@[k]).0 == profile.outputs@[k]
                        && resolved@[k].1@ == heads@[chosen[k]].name@,
                forall|k: int|
                    0 <= k < i ==> output_settled(
                        #[trigger] profile.outputs@[k],
                        views[chosen[k]],
                    ),
        {
            let output: &OutputConfig = resolved[i].0;
            let ghost target = chosen[i as int];
            proof {
                assert(*resolved@[i as int].0 == profile.outputs@[i as int]);
                assert(views[target] == heads@[target]@);
                a_listed_output_is_found_by_name(self.wayland_client->0@, target);
            }
            let head: &OutputHead = match self.get_head(resolved[i].1.as_str()) {
                Some(head) => head,
                None => {
                    return false;
                },
            };
            if !is_settled(output, head) {
                assert(!output_settled(profile.outputs@[i as int], views[chosen[i as int]]));
                return false;
            }
        }
        true
    }

    /// What applying a profile comes to. Nothing is submitted if the outputs are as the profile says
    /// already.
    pub fn apply_profile(&mut self, profile: &Profile) -> (plan: Result<ProfilePlan, OutputError>)
        requires
            old(self).wf(),
        ensures
            final(self).wf(),
            final(self).wayland_client is Some <==> old(self).wayland_client is Some,
            old(self).wayland_client is None ==> plan == Err::<ProfilePlan, OutputError>(
                OutputError::NotInitialized,
            ),
            old(self).wayland_client is Some ==> is_plan(
                old(self).wayland_client->0@,
                *profile,
                Purpose::Apply,
                plan,
                final(self).wayland_client->0@,
            ),
    {
        if self.wayland_client.is_none() {
            return Err(OutputError::NotInitialized);
        }
        if self.is_available() && self.config_matches_profile(profile) {
            return Ok(ProfilePlan::Settled(true));
        }
        self.plan_profile(profile, Purpose::Apply)
    }

    /// What testing a profile comes to. What is submitted is tested and never applied.
    pub fn test_profile(&mut self, profile: &Profile) -> (plan: Result<ProfilePlan, OutputError>)
        requires
            old(self).wf(),
        ensures
            final(self).wf(),
            final(self).wayland_client is Some <==> old(self).wayland_client is Some,
            old(self).wayland_client is None ==> plan == Err::<ProfilePlan, OutputError>(
                OutputError::NotInitialized,
            ),
            old(self).wayland_client is Some ==> is_plan(
                old(self).wayland_client->0@,
                *profile,
                Purpose::Test,
                plan,
                final(self).wayland_client->0@,
            ),
    {
        if self.wayland_client.is_none() {
            return Err(OutputError::NotInitialized);
        }
        self.plan_profile(profile, Purpose::Test)
    }

    fn plan_profile(&mut self, profile: &Profile, purpose: Purpose) -> (plan: Result<
        ProfilePlan,
        OutputError,
    >)
        requires
            old(self).wf(),
            old(self).wayland_client is Some,
            purpose is Apply && old(self).available() ==> !profile_settled(
                *profile,
                old(self).listed(),
            ),
        ensures
            final(self).wf(),
            final(self).wayland_client is Some,
            is_plan(
                old(self).wayland_client->0@,
                *profile,
                purpose,
                plan,
                final(self).wayland_client->0@,
            ),
    {
        if !self.is_available() {
            return Ok(ProfilePlan::Settled(false));
        }
        let ghost s = self.wayland_client->0@;
        let ghost views = self.listed();
        let heads = self.get_heads();
        let resolved = match resolve_profile_outputs(profile, heads.as_slice()) {
            Some(resolved) => resolved,
            None => {
                return Err(OutputError::NoLongerMatches);
            },
        };
        let ghost chosen = resolution(*profile, views)->0;
        proof {
            a_resolution_pairs_outputs(*profile, views);
        }
        let mut configuration: Vec<(String, HeadConfiguration)> = Vec::new();
        for i in 0..resolved.len()
            invariant
                self.wf(),
                self.wayland_client is Some,
                self.wayland_client->0@ == s,
                views == self.listed(),
                views == sorted_heads(s.heads),
                head_views(heads@) == views,
                s.available,
                resolution(*profile, views) == Some(chosen),
                resolved@.len() == chosen.len() == profile.outputs@.len() == views.len(),
                forall|k: int| 0 <= k < chosen.len() ==> 0 <= #[trigger] chosen[k] < views.len(),
                forall|k: int|
                    0 <= k < chosen.len() ==> *(#[trigger] resolved@[k]).0 == profile.outputs@[k]
                        && resolved@[k].1@ == heads@[chosen[k]].name@,
                configuration@.len() == i,
                forall|k: int|
                    0 <= k < i ==> (#[trigger] configuration@[k]).0@ == views[chosen[k]].name
                        && configuration@[k].1 == asked(profile.outputs@[k], views[chosen[k]]),
                first_lacking(profile.outputs@, views, chosen, 0) == first_lacking(
                    profile.outputs@,
                    views,
                    chosen,
                    i as int,
                ),
        {
            let output: &OutputConfig = resolved[i].0;
            let ghost target = chosen[i as int];
            proof {
                assert(*resolved@[i as int].0 == profile.outputs@[i as int]);
                assert(views[target] == heads@[target]@);
                a_listed_output_is_found_by_name(s, target);
            }
            let name: String = resolved[i].1.clone();
            let head: &OutputHead = match self.get_head(name.as_str()) {
                Some(head) => head,
                None => {
                    return Err(OutputError::NoLongerMatches);
                },
            };
            let config = ask(output, head);
            if let Some(text) = &output.mode {
                if output.enabled && config.mode.is_none() {
                    return Err(OutputError::NoSuchMode { mode: text.clone(), output: name });
                }
            }
            configuration.push((name, config));
        }
        assert(configuration_view(configuration@) =~= profile_configuration(
            *profile,
            views,
            chosen,
        ));
        proof {
            assert forall|i: int| 0 <= i < configuration@.len() implies has_key(
                s.heads,
                (#[trigger] configuration_view(configuration@)[i]).0,
            ) by {
                a_listed_output_is_found_by_name(s, chosen[i]);
            }
            lemma_nothing_absent(s, configuration_view(configuration@), 0);
        }
        match self.submit_configuration(&configuration, purpose) {
            Ok(submission) => Ok(ProfilePlan::Submit(submission)),
            Err(error) => Err(error),
        }
    }
}

// ---------------------------------------------------------------------------------------------
// Whole configurations
// ---------------------------------------------------------------------------------------------

/// The first entry from `from` on whose output is not connected.
pub open spec fn first_absent(
    s: StateView,
    configuration: Seq<(Seq<char>, HeadConfiguration)>,
    from: int,
) -> Option<int>
    decreases configuration.len() - from,
{
    if from < 0 || from >= configuration.len() {
        None
    } else if !has_key(s.heads, configuration[from].0) {
        Some(from)
    } else {
        first_absent(s, configuration, from + 1)
    }
}

proof fn lemma_nothing_absent(
    s: StateView,
    configuration: Seq<(Seq<char>, HeadConfiguration)>,
    from: int,
)
    requires
        0 <= from,
        forall|i: int|
            0 <= i < configuration.len() ==> has_key(s.heads, (#[trigger] configuration[i]).0),
    ensures
        first_absent(s, configuration, from) is None,
    decreases configuration.len() - from,
{
    if from < configuration.len() {
        assert(has_key(s.heads, configuration[from].0));
        lemma_nothing_absent(s, configuration, from + 1);
    }
}

/// `made` is what submitting a configuration in the state `s` for this purpose comes to, and `t` is the
/// state then.
pub open spec fn is_submission(
    s: StateView,
    configuration: Seq<(Seq<char>, HeadConfiguration)>,
    purpose: Purpose,
    made: Result<Submission, OutputError>,
    t: StateView,
) -> bool {
    if !s.available {
        &&& made matches Err(OutputError::Protocol { error, .. })
        &&& error == ProtocolError::NoOutputManager
        &&& t == s
    } else {
        match s.last_serial {
            None => {
                &&& made matches Err(OutputError::Protocol { error, .. })
                &&& error == ProtocolError::NoSerial
                &&& t == s
            },
            Some(serial) => {
                &&& t == opened(s)
                &&& match first_absent(s, configuration, 0) {
                    Some(i) => {
                        &&& made matches Err(OutputError::Protocol { error, output })
                        &&& error == ProtocolError::NoHead
                        &&& output@ == configuration[i].0
                    },
                    None => {
                        &&& made matches Ok(submission)
                        &&& submission.purpose == purpose
                        &&& submission.serial == serial
                        &&& submission.requests@ == all_requests(opened(s), configuration)
                    },
                }
            },
        }
    }
}

impl OutputManager {
    /// Why a configuration cannot be asked of the compositor, in words.
    pub open spec fn submission_fault(
        self,
        configuration: Seq<(Seq<char>, HeadConfiguration)>,
    ) -> Option<Seq<char>> {
        match self.wayland_client {
            None => Some("Wayland client not initialized"@),
            Some(state) => if !state@.available {
                Some("Output manager not available"@)
            } else if state@.last_serial is None {
                Some("No completed output configuration serial is available"@)
            } else {
                match first_absent(state@, configuration, 0) {
                    Some(i) => Some("Head '"@ + configuration[i].0 + "' not found"@),
                    None => None,
                }
            },
        }
    }

    /// `submission` asks the compositor for a configuration, for this purpose.
    pub open spec fn submits(
        self,
        configuration: Seq<(Seq<char>, HeadConfiguration)>,
        purpose: Purpose,
        submission: Submission,
    ) -> bool {
        &&& self.wayland_client is Some
        &&& submission.purpose == purpose
        &&& self.wayland_client->0@.last_serial == Some(submission.serial)
        &&& submission.requests@ == all_requests(opened(self.wayland_client->0@), configuration)
    }

    /// `after` is the manager after a configuration was asked of the compositor.
    pub open spec fn has_submitted(self, after: OutputManager) -> bool {
        match (self.wayland_client, after.wayland_client) {
            (Some(before), Some(now)) => now@ == if before@.available && before@.last_serial is Some {
                opened(before@)
            } else {
                before@
            },
            (None, None) => true,
            _ => false,
        }
    }

    /// What asking a whole configuration of the compositor for this purpose comes to.
    pub fn submit_configuration(
        &mut self,
        configuration: &Vec<(String, HeadConfiguration)>,
        purpose: Purpose,
    ) -> (made: Result<Submission, OutputError>)
        requires
            old(self).wf(),
        ensures
            final(self).wf(),
            final(self).wayland_client is Some <==> old(self).wayland_client is Some,
            old(self).wayland_client is None ==> made == Err::<Submission, OutputError>(
                OutputError::NotInitialized,
            ),
            old(self).wayland_client is Some ==> is_submission(
                old(self).wayland_client->0@,
                configuration_view(configuration@),
                purpose,
                made,
                final(self).wayland_client->0@,
            ),
            old(self).has_submitted(*final(self)),
            match old(self).submission_fault(configuration_view(configuration@)) {
                Some(text) => made is Err && output_message(made->Err_0) == text,
                None => made is Ok && old(self).submits(
                    configuration_view(configuration@),
                    purpose,
                    made->Ok_0,
                ),
            },
    {
        match &mut self.wayland_client {
            None => Err(OutputError::NotInitialized),
            Some(state) => configure_all(state, configuration, purpose),
        }
    }
}

fn configure_all(
    state: &mut WaylandState,
    configuration: &Vec<(String, HeadConfiguration)>,
    purpose: Purpose,
) -> (made: Result<Submission, OutputError>)
    requires
        old(state)@.wf(),
    ensures
        final(state)@.wf(),
        is_submission(old(state)@, configuration_view(configuration@), purpose, made, final(state)@),
{
    let ghost s = state@;
    let ghost all = configuration_view(configuration@);
    let serial: u32 = match state.create_configuration() {
        Ok(serial) => serial,
        Err(error) => {
            return Err(OutputError::Protocol { error, output: String::new() });
        },
    };
    assert(state@ == opened(s));
    let mut requests: Vec<ConfigurationRequest> = Vec::new();
    assert(all.take(0) =~= Seq::empty());
    for i in 0..configuration.len()
        invariant
            s == old(state)@,
            state@ == opened(s),
            state@.wf(),
            s.available,
            s.last_serial == Some(serial),
            all == configuration_view(configuration@),
            first_absent(s, all, 0) == first_absent(s, all, i as int),
            requests@ == all_requests(opened(s), all.take(i as int)),
    {
        assert(all[i as int] == (configuration@[i as int].0@, configuration@[i as int].1));
        match state.configure_head(configuration[i].0.as_str(), &configuration[i].1) {
            Ok(mut list) => {
                proof {
                    assert(all.take(i + 1).drop_last() =~= all.take(i as int));
                }
                requests.append(&mut list);
            },
            Err(error) => {
                proof {
                    if has_key(s.heads, all[i as int].0) {
                        known_outputs_can_be_configured(state@, all[i as int].0);
                    }
                }
                return Err(OutputError::Protocol { error, output: configuration[i].0.clone() });
            },
        }
    }
    assert(all.take(all.len() as int) =~= all);
    Ok(Submission { serial, requests, purpose })
}

/// An output as it is, as something to be asked for.
pub open spec fn as_it_is(head: HeadView) -> HeadConfiguration {
    HeadConfiguration {
        enabled: head.enabled,
        mode: head.current_mode,
        position: head.position,
        transform: Some(head.transform),
        scale: Some(head.scale),
        adaptive_sync: head.adaptive_sync,
    }
}

/// All outputs as they are, as something to be asked for.
pub open spec fn live_configuration(heads: Seq<HeadView>) -> Seq<(Seq<char>, HeadConfiguration)> {
    Seq::new(heads.len(), |i: int| (heads[i].name, as_it_is(heads[i])))
}

/// Whether an output is enabled without being known to be in a mode.
pub open spec fn is_modeless(head: HeadView) -> bool {
    head.enabled && head.current_mode is None
}

/// The first output from `from` on that is enabled without being known to be in a mode.
pub open spec fn first_modeless(heads: Seq<HeadView>, from: int) -> Option<int>
    decreases heads.len() - from,
{
    if from < 0 || from >= heads.len() {
        None
    } else if is_modeless(heads[from]) {
        Some(from)
    } else {
        first_modeless(heads, from + 1)
    }
}

/// The first offered mode with this identifier.
pub open spec fn mode_with_id(modes: Seq<OutputMode>, id: Seq<char>) -> Option<OutputMode>
    decreases modes.len(),
{
    if modes.len() == 0 {
        None
    } else if mode_id_text(modes[0]) == id {
        Some(modes[0])
    } else {
        mode_with_id(modes.skip(1), id)
    }
}

/// The configuration with another mode for the output of this name.
pub open spec fn with_output_mode(
    configuration: Seq<(Seq<char>, HeadConfiguration)>,
    output: Seq<char>,
    mode: OutputMode,
) -> Seq<(Seq<char>, HeadConfiguration)> {
    Seq::new(
        configuration.len(),
        |i: int|
            if configuration[i].0 == output {
                (output, HeadConfiguration { mode: Some(mode), ..configuration[i].1 })
            } else {
                configuration[i]
            },
    )
}

/// `r` is the live configuration of the connected outputs, or says which of them is in no mode.
pub open spec fn is_snapshot(
    heads: Seq<HeadView>,
    r: Result<Vec<(String, HeadConfiguration)>, OutputError>,
) -> bool {
    match first_modeless(heads, 0) {
        Some(i) => r matches Err(OutputError::NoCurrentMode { output }) && output@ == heads[i].name,
        None => r matches Ok(configuration) && configuration_view(configuration@)
            == live_configuration(heads),
    }
}

/// The first offered mode with this identifier.
pub fn find_mode_by_id(modes: &Vec<OutputMode>, id: &str) -> (mode: Option<OutputMode>)
    ensures
        mode == mode_with_id(modes@, id@),
{
    assert(modes@.skip(0) =~= modes@);
    for i in 0..modes.len()
        invariant
            mode_with_id(modes@, id@) == mode_with_id(modes@.skip(i as int), id@),
    {
        assert(modes@.skip(i as int).skip(1) =~= modes@.skip(i + 1));
        let mode: OutputMode = modes[i];
        let mode_text = mode_id(&mode);
        if same_text(mode_text.as_str(), id) {
            return Some(mode);
        }
    }
    None
}

/// A mode found by its identifier is offered and has that identifier, and an offered mode is found
/// by its own identifier, up to preference.
pub proof fn modes_are_found_by_id(modes: Seq<OutputMode>, id: Seq<char>, i: int)
    ensures
        mode_with_id(modes, id) matches Some(mode) ==> modes.contains(mode) && mode_id_text(mode)
            == id,
        0 <= i < modes.len() ==> (mode_with_id(modes, mode_id_text(modes[i])) matches Some(mode)
            && same_picture(mode, modes[i])),
    decreases modes.len(),
{
    if modes.len() > 0 {
        let rest = modes.skip(1);
        modes_are_found_by_id(rest, id, i - 1);
        if mode_with_id(rest, id) is Some {
            let k = choose|k: int| 0 <= k < rest.len() && rest[k] == mode_with_id(rest, id)->0;
            if mode_with_id(rest, id) == mode_with_id(modes, id) {
                if mode_id_text(modes[0]) == id {
                    assert(modes[0] == mode_with_id(modes, id)->0);
                } else {
                    assert(modes[k + 1] == rest[k]);
                }
            }
        }
        if mode_id_text(modes[0]) == id {
            assert(modes[0] == mode_with_id(modes, id)->0);
        }
        if 0 <= i < modes.len() {
            mode_ids_tell_modes_apart(modes[0], modes[i]);
            if i > 0 {
                assert(rest[i - 1] == modes[i]);
            }
        }
    }
}

impl OutputManager {
    /// The live configuration of all connected outputs, to be restored later.
    pub fn snapshot_configuration(&self) -> (r: Result<
        Vec<(String, HeadConfiguration)>,
        OutputError,
    >)
        ensures
            self.wayland_client is None ==> r == Err::<Vec<(String, HeadConfiguration)>, OutputError>(
                OutputError::NotInitialized,
            ),
            self.wayland_client is Some ==> is_snapshot(self.listed(), r),
    {
        if self.wayland_client.is_none() {
            return Err(OutputError::NotInitialized);
        }
        let heads = self.get_heads();
        let ghost views = self.listed();
        let mut configuration: Vec<(String, HeadConfiguration)> = Vec::new();
        for i in 0..heads.len()
            invariant
                views == self.listed(),
                self.wayland_client is Some,
                head_views(heads@) == views,
                configuration@.len() == i,
                forall|k: int|
                    0 <= k < i ==> (#[trigger] configuration@[k]).0@ == views[k].name
                        && configuration@[k].1 == as_it_is(views[k]),
                first_modeless(views, 0) == first_modeless(views, i as int),
        {
            let head: &OutputHead = heads[i];
            assert(views[i as int] == head@);
            if head.enabled && head.current_mode.is_none() {
                return Err(OutputError::NoCurrentMode { output: head.name.clone() });
            }
            configuration.push(
                (
                    head.name.clone(),
                    HeadConfiguration {
                        enabled: head.enabled,
                        mode: head.current_mode,
                        position: head.position,
                        transform: Some(head.transform),
                        scale: Some(head.scale),
                        adaptive_sync: head.adaptive_sync,
                    },
                ),
            );
        }
        assert(configuration_view(configuration@) =~= live_configuration(views));
        Ok(configuration)
    }

    /// The live configuration with another mode for one output, which has to offer it.
    pub fn candidate_with_mode(&self, output: &str, mode_id: &str) -> (r: Result<
        Vec<(String, HeadConfiguration)>,
        OutputError,
    >)
        ensures
            self.wayland_client is None ==> r == Err::<Vec<(String, HeadConfiguration)>, OutputError>(
                OutputError::NotInitialized,
            ),
            self.wayland_client is Some && first_modeless(self.listed(), 0) is Some ==> is_snapshot(
                self.listed(),
                r,
            ),
            self.wayland_client is Some && first_modeless(self.listed(), 0) is None ==> match self.named(
                output@,
            ) {
                None => r matches Err(OutputError::NoSuchOutput { output: name }) && name@
                    == output@,
                Some(head) => match mode_with_id(head.modes, mode_id@) {
                    None => r matches Err(OutputError::NoSuchMode { mode, output: name }) && mode@
                        == mode_id@ && name@ == output@,
                    Some(mode) => r matches Ok(configuration) && configuration_view(configuration@)
                        == with_output_mode(live_configuration(self.listed()), output@, mode),
                },
            },
    {
        let mut configuration = match self.snapshot_configuration() {
            Ok(configuration) => configuration,
            Err(error) => {
                return Err(error);
            },
        };
        let mode: OutputMode = match self.get_head(output) {
            None => {
                return Err(OutputError::NoSuchOutput { output: output.to_owned() });
            },
            Some(head) => match find_mode_by_id(&head.modes, mode_id) {
                Some(mode) => mode,
                None => {
                    return Err(
                        OutputError::NoSuchMode {
                            mode: mode_id.to_owned(),
                            output: output.to_owned(),
                        },
                    );
                },
            },
        };
        let ghost live = configuration_view(configuration@);
        let count: usize = configuration.len();
        for i in 0..count
            invariant
                configuration@.len() == live.len(),
                count == live.len(),
                forall|k: int|
                    i <= k < live.len() ==> ((#[trigger] configuration@[k]).0@, configuration@[k].1)
                        == live[k],
                forall|k: int|
                    0 <= k < i ==> ((#[trigger] configuration@[k]).0@, configuration@[k].1)
                        == with_output_mode(live, output@, mode)[k],
        {
            if same_text(configuration[i].0.as_str(), output) {
                configuration[i].1.mode = Some(mode);
            }
        }
        assert(configuration_view(configuration@) =~= with_output_mode(live, output@, mode));
        Ok(configuration)
    }
}

/// As long as the same outputs are connected, no output stands in the way of restoring a live
/// configuration or of asking for it with another mode.
pub proof fn a_snapshot_can_be_restored(s: StateView, output: Seq<char>, mode: OutputMode)
    requires
        s.wf(),
    ensures
        first_absent(s, live_configuration(sorted_heads(s.heads)), 0) is None,
        first_absent(
            s,
            with_output_mode(live_configuration(sorted_heads(s.heads)), output, mode),
            0,
        ) is None,
{
    let live = live_configuration(sorted_heads(s.heads));
    assert forall|i: int| 0 <= i < live.len() implies has_key(s.heads, (#[trigger] live[i]).0) by {
        a_listed_output_is_found_by_name(s, i);
    }
    lemma_nothing_absent(s, live, 0);
    let other = with_output_mode(live, output, mode);
    assert forall|i: int| 0 <= i < other.len() implies has_key(s.heads, (#[trigger] other[i]).0) by {
        assert(other[i].0 == live[i].0);
    }
    lemma_nothing_absent(s, other, 0);
}

/// Asking for another mode of one output leaves everything else as it is.
pub proof fn a_candidate_changes_one_mode(
    configuration: Seq<(Seq<char>, HeadConfiguration)>,
    output: Seq<char>,
    mode: OutputMode,
    i: int,
)
    requires
        0 <= i < configuration.len(),
    ensures
        ({
            let changed = with_output_mode(configuration, output, mode);
            &&& changed.len() == configuration.len()
            &&& changed[i].0 == configuration[i].0
            &&& configuration[i].0 != output ==> changed[i].1 == configuration[i].1
            &&& configuration[i].0 == output ==> changed[i].1 == (HeadConfiguration {
                mode: Some(mode),
                ..configuration[i].1
            })
        }),
{
}

// ---------------------------------------------------------------------------------------------
// Connecting
// ---------------------------------------------------------------------------------------------

/// How long to wait before attempt `attempt + 1` to connect, in milliseconds: half a second at first,
/// twice as long each time, and five seconds at most.
pub open spec fn backoff(attempt: nat) -> nat
    decreases attempt,
{
    if attempt <= 1 {
        500
    } else if 2 * backoff((attempt - 1) as nat) > 5000 {
        5000
    } else {
        2 * backoff((attempt - 1) as nat)
    }
}

/// `next` is what to do after an attempt has failed: how long to wait, and the attempt to make then.
pub open spec fn is_next_attempt(attempt: ConnectAttempt, next: Option<(u64, ConnectAttempt)>) -> bool {
    &&& attempt.attempts >= 5 ==> next is None
    &&& attempt.attempts < 5 ==> (next matches Some((wait, again)) && wait == backoff(
        attempt.attempts as nat,
    ) && again.wf() && again.attempts == attempt.attempts + 1)
}

/// An attempt to connect to the compositor.
pub struct ConnectAttempt {
    /// The number of the attempt.
    pub attempts: u32,
    /// How long to wait if it fails, in milliseconds.
    pub delay_ms: u64,
}

impl ConnectAttempt {
    /// The delay belongs to the attempt.
    pub open spec fn wf(self) -> bool {
        1 <= self.attempts <= 5 && self.delay_ms == backoff(self.attempts as nat)
    }

    /// The first attempt.
    pub fn first() -> (attempt: ConnectAttempt)
        ensures
            attempt.wf(),
            attempt.attempts == 1,
    {
        ConnectAttempt { attempts: 1, delay_ms: 500 }
    }

    /// What to do after the attempt has failed: how long to wait, and the attempt to make then. After
    /// five attempts there is none, and outputs are not managed.
    pub fn failed(self) -> (next: Option<(u64, ConnectAttempt)>)
        requires
            self.wf(),
        ensures
            is_next_attempt(self, next),
    {
        if self.attempts >= 5 {
            return None;
        }
        let doubled: u64 = self.delay_ms * 2;
        let delay_ms: u64 = if doubled > 5000 {
            5000
        } else {
            doubled
        };
        Some((self.delay_ms, ConnectAttempt { attempts: self.attempts + 1, delay_ms }))
    }
}

/// The time between attempts to connect begins at half a second, never shrinks, at most doubles, and never
/// exceeds five seconds; below that it doubles.
pub proof fn waiting_doubles_up_to_five_seconds(attempt: nat)
    requires
        attempt >= 1,
    ensures
        backoff(1) == 500,
        500 <= backoff(attempt) <= 5000,
        backoff(attempt) <= backoff(attempt + 1) <= 2 * backoff(attempt),
        2 * backoff(attempt) <= 5000 ==> backoff(attempt + 1) == 2 * backoff(attempt),
        2 * backoff(attempt) >= 5000 ==> backoff(attempt + 1) == 5000,
    decreases attempt,
{
    if attempt > 1 {
        waiting_doubles_up_to_five_seconds((attempt - 1) as nat);
    }
}

/// There are five attempts to connect, and each of the waits between them is as long as it should be.
pub proof fn connecting_is_tried_five_times(
    attempt: ConnectAttempt,
    next: Option<(u64, ConnectAttempt)>,
)
    requires
        attempt.wf(),
        is_next_attempt(attempt, next),
    ensures
        next is None <==> attempt.attempts == 5,
        next matches Some((wait, again)) ==> again.attempts == attempt.attempts + 1 && 500 <= wait
            <= 5000 && wait == attempt.delay_ms && again.wf(),
{
    waiting_doubles_up_to_five_seconds(attempt.attempts as nat);
}

/// Every output that is connected is listed, once, and nothing else is; each is the output of its name.
/// Without a connection nothing is listed.
pub proof fn every_connected_output_is_listed(manager: OutputManager, name: Seq<char>, i: int)
    requires
        manager.wf(),
    ensures
        manager.named(name) matches Some(head) ==> head.name == name && manager.listed().contains(head),
        0 <= i < manager.listed().len() ==> manager.named(manager.listed()[i].name) == Some(
            manager.listed()[i],
        ),
        names_differ(manager.listed()),
        manager.wayland_client is None ==> manager.listed().len() == 0 && manager.named(name) is None,
{
    if let Some(state) = manager.wayland_client {
        let s = state@;
        names_are_listed_once(s);
        if 0 <= i < manager.listed().len() {
            a_listed_output_is_found_by_name(s, i);
        }
        if let Some(head) = manager.named(name) {
            place_is_the_first(s.heads, name);
            let k = place(s.heads, name);
            assert(s.heads[k].1.name == s.heads[k].0);
            sorting_keeps_the_outputs(s.heads, head);
            assert(s.heads[k].1 == head);
        }
    }
}

} // verus!
