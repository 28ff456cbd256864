//! The display-control interface: requests, events, and what a client is told of the outputs.

use crate::number::{
    append_decimal, append_signed, decimal, is_digit, lemma_signed_decimal_chars, signed_decimal,
    signed_decimal_is_injective,
};
use crate::paths::{join_path, joined, joining_keeps_the_base};
use crate::text::{blank, is_blank, lemma_first_at_unique};
use crate::wayland::protocols::{
    resolution_text, same_picture, HeadView, OutputHead, OutputMode,
};
use vstd::prelude::*;
use vstd::utf8::encode_utf8;

verus! {

// ---------------------------------------------------------------------------------------------
// Requests and events
// ---------------------------------------------------------------------------------------------

/// What a client asks for.
#[derive(Clone, Debug)]
pub enum ClientRequest {
    /// The connected outputs and their modes.
    Outputs,
    /// A mode, for a limited time.
    Preview { output: String, mode_id: String, profile: String, revision: String },
    /// To keep a preview.
    Confirm { transaction_id: String },
    /// To end a preview.
    Revert { transaction_id: String },
}

/// What a client is told.
#[derive(Clone, Debug)]
pub enum ServerEvent {
    Outputs {
        outputs: Vec<DisplayOutput>,
        active_profile: Option<String>,
        revision: String,
        supported: bool,
    },
    PreviewStarted { transaction_id: String, remaining_ms: u64 },
    PreviewReverted { transaction_id: String, reason: String },
    PreviewConfirmed { transaction_id: String, revision: String },
    ConfirmCompleted { transaction_id: String, revision: String },
    RevertCompleted { transaction_id: String },
    Error { code: String, message: String },
}

/// The event is an error with this code and message.
pub open spec fn is_error(event: ServerEvent, code: Seq<char>, message: Seq<char>) -> bool {
    event matches ServerEvent::Error { code: c, message: m } && c@ == code && m@ == message
}

impl ServerEvent {
    /// An error.
    pub fn error(code: &str, message: &str) -> (event: ServerEvent)
        ensures
            is_error(event, code@, message@),
    {
        ServerEvent::Error { code: code.to_owned(), message: message.to_owned() }
    }
}

// ---------------------------------------------------------------------------------------------
// Modes
// ---------------------------------------------------------------------------------------------

/// The identifier of a mode: its size and its rate in millihertz.
pub open spec fn mode_id_text(mode: OutputMode) -> Seq<char> {
    resolution_text(mode.width as int, mode.height as int) + seq!['@'] + signed_decimal(
        mode.refresh_mhz as int,
    ) + seq!['m', 'H', 'z']
}

/// The identifier of a mode, such as `1920x1080@59940mHz`.
pub fn mode_id(mode: &OutputMode) -> (id: String)
    ensures
        id@ == mode_id_text(*mode),
{
    let mut id = String::new();
    append_signed(&mut id, mode.width);
    id.push('x');
    append_signed(&mut id, mode.height);
    id.push('@');
    append_signed(&mut id, mode.refresh_mhz);
    id.push('m');
    id.push('H');
    id.push('z');
    assert(id@ =~= mode_id_text(*mode));
    id
}

/// Two texts that are equal when written in front of `c` and something else, and do not hold `c`,
/// are equal, and so is what follows.
proof fn lemma_split_at(a: Seq<char>, b: Seq<char>, c: char, x: Seq<char>, y: Seq<char>)
    requires
        !a.contains(c),
        !b.contains(c),
        a + seq![c] + x == b + seq![c] + y,
    ensures
        a == b,
        x == y,
{
    let s = a + seq![c] + x;
    assert forall|j: int| 0 <= j < a.len() implies s[j] != c by {
        assert(s[j] == a[j]);
    }
    assert forall|j: int| 0 <= j < b.len() implies s[j] != c by {
        assert(s[j] == b[j]);
    }
    assert(s[a.len() as int] == c);
    assert(s[b.len() as int] == c);
    lemma_first_at_unique(s, c, a.len() as int);
    lemma_first_at_unique(s, c, b.len() as int);
    assert(a =~= s.take(a.len() as int));
    assert(b =~= s.take(b.len() as int));
    assert(x =~= s.skip(a.len() as int + 1));
    assert(y =~= s.skip(b.len() as int + 1));
}

proof fn lemma_no_mark(i: int, c: char)
    requires
        !is_digit(c),
        c != '-',
    ensures
        !signed_decimal(i).contains(c),
{
    lemma_signed_decimal_chars(i);
    if signed_decimal(i).contains(c) {
        let k = choose|k: int| 0 <= k < signed_decimal(i).len() && signed_decimal(i)[k] == c;
        assert(is_digit(signed_decimal(i)[k]) || signed_decimal(i)[k] == '-');
    }
}

/// Modes of different size or rate have different identifiers.
pub proof fn mode_ids_tell_modes_apart(a: OutputMode, b: OutputMode)
    ensures
        mode_id_text(a) == mode_id_text(b) <==> same_picture(a, b),
{
    if mode_id_text(a) == mode_id_text(b) {
        let (aw, ah, ar) = (
            signed_decimal(a.width as int),
            signed_decimal(a.height as int),
            signed_decimal(a.refresh_mhz as int),
        );
        let (bw, bh, br) = (
            signed_decimal(b.width as int),
            signed_decimal(b.height as int),
            signed_decimal(b.refresh_mhz as int),
        );
        let unit = seq!['m', 'H', 'z'];
        lemma_no_mark(a.width as int, 'x');
        lemma_no_mark(b.width as int, 'x');
        lemma_no_mark(a.height as int, '@');
        lemma_no_mark(b.height as int, '@');
        let a_tail = ah + seq!['@'] + (ar + unit);
        let b_tail = bh + seq!['@'] + (br + unit);
        assert(mode_id_text(a) =~= aw + seq!['x'] + a_tail);
        assert(mode_id_text(b) =~= bw + seq!['x'] + b_tail);
        lemma_split_at(aw, bw, 'x', a_tail, b_tail);
        lemma_split_at(ah, bh, '@', ar + unit, br + unit);
        assert(ar =~= (ar + unit).take((ar + unit).len() - 3));
        assert(br =~= (br + unit).take((br + unit).len() - 3));
        signed_decimal_is_injective(a.width as int, b.width as int);
        signed_decimal_is_injective(a.height as int, b.height as int);
        signed_decimal_is_injective(a.refresh_mhz as int, b.refresh_mhz as int);
    }
}

/// A mode as a client sees it.
#[derive(Clone, Debug)]
pub struct DisplayMode {
    pub id: String,
    pub width: i32,
    pub height: i32,
    pub refresh_mhz: i32,
    pub preferred: bool,
}

/// `shown` is `mode` as a client sees it.
pub open spec fn shows_mode(shown: DisplayMode, mode: OutputMode) -> bool {
    &&& shown.id@ == mode_id_text(mode)
    &&& shown.width == mode.width
    &&& shown.height == mode.height
    &&& shown.refresh_mhz == mode.refresh_mhz
    &&& shown.preferred == mode.preferred
}

impl DisplayMode {
    /// A mode as a client sees it.
    pub fn from(mode: &OutputMode) -> (shown: DisplayMode)
        ensures
            shows_mode(shown, *mode),
    {
        DisplayMode {
            id: mode_id(mode),
            width: mode.width,
            height: mode.height,
            refresh_mhz: mode.refresh_mhz,
            preferred: mode.preferred,
        }
    }
}

/// Whether `a` is listed before `b`: preferred modes first, then the larger area, the greater width
/// and the higher rate.
pub open spec fn listed_before(a: OutputMode, b: OutputMode) -> bool {
    if a.preferred != b.preferred {
        a.preferred
    } else if a.width * a.height != b.width * b.height {
        a.width * a.height > b.width * b.height
    } else if a.width != b.width {
        a.width > b.width
    } else {
        a.refresh_mhz > b.refresh_mhz
    }
}

/// The list with one more mode, behind those that it is not listed before.
pub open spec fn insert_mode(list: Seq<OutputMode>, mode: OutputMode) -> Seq<OutputMode>
    decreases list.len(),
{
    if list.len() == 0 || listed_before(mode, list[0]) {
        seq![mode] + list
    } else {
        seq![list[0]] + insert_mode(list.skip(1), mode)
    }
}

/// The modes in the order of listing; equal ones stay in the order they came in.
pub open spec fn sorted_modes(modes: Seq<OutputMode>) -> Seq<OutputMode>
    decreases modes.len(),
{
    if modes.len() == 0 {
        Seq::empty()
    } else {
        insert_mode(sorted_modes(modes.drop_last()), modes.last())
    }
}

/// Whether a mode of the same size and rate is in the list.
pub open spec fn pictured(list: Seq<OutputMode>, mode: OutputMode) -> bool {
    exists|i: int| 0 <= i < list.len() && same_picture(#[trigger] list[i], mode)
}

/// The list without modes whose size and rate came before.
pub open spec fn without_repeats(modes: Seq<OutputMode>) -> Seq<OutputMode>
    decreases modes.len(),
{
    if modes.len() == 0 {
        Seq::empty()
    } else {
        let earlier = without_repeats(modes.drop_last());
        if pictured(earlier, modes.last()) {
            earlier
        } else {
            earlier.push(modes.last())
        }
    }
}

/// The modes of an output as they are listed for a client.
pub open spec fn listed_modes(modes: Seq<OutputMode>) -> Seq<OutputMode> {
    without_repeats(sorted_modes(modes))
}

proof fn lemma_insert_mode(list: Seq<OutputMode>, mode: OutputMode, at: int)
    requires
        0 <= at <= list.len(),
        forall|j: int| 0 <= j < at ==> !listed_before(mode, #[trigger] list[j]),
        at < list.len() ==> listed_before(mode, list[at]),
    ensures
        insert_mode(list, mode) == list.insert(at, mode),
    decreases list.len(),
{
    if list.len() == 0 || listed_before(mode, list[0]) {
        assert(seq![mode] + list =~= list.insert(0, mode));
    } else {
        let rest = list.skip(1);
        assert forall|j: int| 0 <= j < at - 1 implies !listed_before(mode, #[trigger] rest[j]) by {
            assert(rest[j] == list[j + 1]);
        }
        lemma_insert_mode(rest, mode, at - 1);
        assert(seq![list[0]] + rest.insert(at - 1, mode) =~= list.insert(at, mode));
    }
}

proof fn lemma_insert_mode_members(list: Seq<OutputMode>, mode: OutputMode, other: OutputMode)
    ensures
        insert_mode(list, mode).contains(other) <==> list.contains(other) || other == mode,
    decreases list.len(),
{
    let result = insert_mode(list, mode);
    if list.len() == 0 || listed_before(mode, list[0]) {
        assert(result[0] == mode);
        if list.contains(other) {
            let k = choose|k: int| 0 <= k < list.len() && list[k] == other;
            assert(result[k + 1] == other);
        }
        if result.contains(other) {
            let k = choose|k: int| 0 <= k < result.len() && result[k] == other;
            if k > 0 {
                assert(list[k - 1] == other);
            }
        }
    } else {
        let rest = list.skip(1);
        let inner = insert_mode(rest, mode);
        lemma_insert_mode_members(rest, mode, other);
        assert(result[0] == list[0]);
        if list.contains(other) {
            let k = choose|k: int| 0 <= k < list.len() && list[k] == other;
            if k > 0 {
                assert(rest[k - 1] == other);
            }
        }
        if rest.contains(other) {
            let k = choose|k: int| 0 <= k < rest.len() && rest[k] == other;
            assert(list[k + 1] == other);
        }
        if inner.contains(other) {
            let k = choose|k: int| 0 <= k < inner.len() && inner[k] == other;
            assert(result[k + 1] == other);
        }
        if result.contains(other) {
            let k = choose|k: int| 0 <= k < result.len() && result[k] == other;
            if k > 0 {
                assert(inner[k - 1] == other);
            }
        }
    }
}

/// Whether no mode stands in front of one that is listed before it.
pub open spec fn in_listing_order(list: Seq<OutputMode>) -> bool {
    forall|i: int, j: int|
        #![trigger list[i], list[j]]
        0 <= i < j < list.len() ==> !listed_before(list[j], list[i])
}

proof fn lemma_insert_mode_order(list: Seq<OutputMode>, mode: OutputMode)
    requires
        in_listing_order(list),
    ensures
        in_listing_order(insert_mode(list, mode)),
    decreases list.len(),
{
    let result = insert_mode(list, mode);
    if list.len() == 0 || listed_before(mode, list[0]) {
        assert forall|i: int, j: int|
            #![trigger result[i], result[j]]
            0 <= i < j < result.len() implies !listed_before(result[j], result[i]) by {
            assert(result[j] == list[j - 1]);
            if i > 0 {
                assert(result[i] == list[i - 1]);
            } else if j > 1 {
                assert(!listed_before(list[j - 1], list[0]));
            }
        }
    } else {
        let rest = list.skip(1);
        assert(in_listing_order(rest)) by {
            assert forall|i: int, j: int|
                #![trigger rest[i], rest[j]]
                0 <= i < j < rest.len() implies !listed_before(rest[j], rest[i]) by {
                assert(rest[i] == list[i + 1] && rest[j] == list[j + 1]);
            }
        }
        lemma_insert_mode_order(rest, mode);
        let inner = insert_mode(rest, mode);
        assert forall|i: int, j: int|
            #![trigger result[i], result[j]]
            0 <= i < j < result.len() implies !listed_before(result[j], result[i]) by {
            assert(result[j] == inner[j - 1]);
            if i > 0 {
                assert(result[i] == inner[i - 1]);
            } else {
                assert(inner.contains(inner[j - 1]));
                lemma_insert_mode_members(rest, mode, inner[j - 1]);
                if inner[j - 1] != mode {
                    let k = choose|k: int| 0 <= k < rest.len() && rest[k] == inner[j - 1];
                    assert(list[k + 1] == inner[j - 1]);
                }
            }
        }
    }
}

proof fn lemma_sorted_modes(modes: Seq<OutputMode>, mode: OutputMode)
    ensures
        sorted_modes(modes).contains(mode) <==> modes.contains(mode),
        in_listing_order(sorted_modes(modes)),
    decreases modes.len(),
{
    if modes.len() > 0 {
        let shorter = modes.drop_last();
        lemma_sorted_modes(shorter, mode);
        lemma_insert_mode_members(sorted_modes(shorter), modes.last(), mode);
        lemma_insert_mode_order(sorted_modes(shorter), modes.last());
        if modes.contains(mode) {
            let k = choose|k: int| 0 <= k < modes.len() && modes[k] == mode;
            if k < shorter.len() {
                assert(shorter[k] == mode);
            }
        }
        if shorter.contains(mode) {
            let k = choose|k: int| 0 <= k < shorter.len() && shorter[k] == mode;
            assert(modes[k] == mode);
        }
        assert(modes[modes.len() - 1] == modes.last());
    }
}

proof fn lemma_without_repeats(modes: Seq<OutputMode>)
    ensures
        forall|i: int|
            0 <= i < without_repeats(modes).len() ==> modes.contains(
                #[trigger] without_repeats(modes)[i],
            ),
        forall|i: int|
            0 <= i < modes.len() ==> pictured(without_repeats(modes), #[trigger] modes[i]),
        forall|i: int, j: int|
            #![trigger without_repeats(modes)[i], without_repeats(modes)[j]]
            0 <= i < j < without_repeats(modes).len() ==> !same_picture(
                without_repeats(modes)[i],
                without_repeats(modes)[j],
            ),
        in_listing_order(modes) ==> in_listing_order(without_repeats(modes)),
    decreases modes.len(),
{
    if modes.len() > 0 {
        let shorter = modes.drop_last();
        lemma_without_repeats(shorter);
        let earlier = without_repeats(shorter);
        let result = without_repeats(modes);
        assert forall|i: int| 0 <= i < result.len() implies modes.contains(#[trigger] result[i]) by {
            if i < earlier.len() {
                assert(result[i] == earlier[i]);
                let k = choose|k: int| 0 <= k < shorter.len() && shorter[k] == earlier[i];
                assert(modes[k] == result[i]);
            } else {
                assert(modes[modes.len() - 1] == result[i]);
            }
        }
        assert forall|i: int| 0 <= i < modes.len() implies pictured(result, #[trigger] modes[i]) by {
            if i < shorter.len() {
                assert(shorter[i] == modes[i]);
                let k = choose|k: int|
                    0 <= k < earlier.len() && same_picture(#[trigger] earlier[k], modes[i]);
                assert(result[k] == earlier[k]);
            } else if !pictured(earlier, modes.last()) {
                assert(same_picture(result[earlier.len() as int], modes[i]));
            }
        }
        assert forall|i: int, j: int|
            #![trigger result[i], result[j]]
            0 <= i < j < result.len() implies !same_picture(result[i], result[j]) by {
            if j < earlier.len() {
                assert(result[i] == earlier[i] && result[j] == earlier[j]);
            } else {
                assert(result[i] == earlier[i]);
            }
        }
        if in_listing_order(modes) {
            assert forall|i: int, j: int|
                #![trigger shorter[i], shorter[j]]
                0 <= i < j < shorter.len() implies !listed_before(shorter[j], shorter[i]) by {
                assert(shorter[i] == modes[i] && shorter[j] == modes[j]);
            }
            assert forall|i: int, j: int|
                #![trigger result[i], result[j]]
                0 <= i < j < result.len() implies !listed_before(result[j], result[i]) by {
                if j < earlier.len() {
                    assert(result[i] == earlier[i] && result[j] == earlier[j]);
                } else {
                    assert(shorter.contains(earlier[i]));
                    let k = choose|k: int| 0 <= k < shorter.len() && shorter[k] == earlier[i];
                    assert(modes[k] == result[i]);
                    assert(modes[modes.len() - 1] == result[j]);
                }
            }
        }
    }
}

/// A client is shown offered modes only, each size and rate that is offered, none twice, and in the
/// order of listing.
pub proof fn listed_modes_are_the_offered_ones(modes: Seq<OutputMode>)
    ensures
        forall|i: int|
            0 <= i < listed_modes(modes).len() ==> modes.contains(
                #[trigger] listed_modes(modes)[i],
            ),
        forall|i: int|
            0 <= i < modes.len() ==> pictured(listed_modes(modes), #[trigger] modes[i]),
        forall|i: int, j: int|
            #![trigger listed_modes(modes)[i], listed_modes(modes)[j]]
            0 <= i < j < listed_modes(modes).len() ==> mode_id_text(listed_modes(modes)[i])
                != mode_id_text(listed_modes(modes)[j]),
        in_listing_order(listed_modes(modes)),
{
    let sorted = sorted_modes(modes);
    let listed = listed_modes(modes);
    lemma_without_repeats(sorted);
    assert forall|i: int| 0 <= i < listed.len() implies modes.contains(#[trigger] listed[i]) by {
        assert(sorted.contains(listed[i]));
        lemma_sorted_modes(modes, listed[i]);
    }
    assert forall|i: int| 0 <= i < modes.len() implies pictured(listed, #[trigger] modes[i]) by {
        assert(modes.contains(modes[i]));
        lemma_sorted_modes(modes, modes[i]);
        let k = choose|k: int| 0 <= k < sorted.len() && sorted[k] == modes[i];
        assert(pictured(listed, sorted[k]));
    }
    assert forall|i: int, j: int|
        #![trigger listed[i], listed[j]]
        0 <= i < j < listed.len() implies mode_id_text(listed[i]) != mode_id_text(listed[j]) by {
        mode_ids_tell_modes_apart(listed[i], listed[j]);
    }
    if modes.len() > 0 {
        lemma_sorted_modes(modes, modes[0]);
    }
}

fn comes_before(a: &OutputMode, b: &OutputMode) -> (before: bool)
    ensures
        before == listed_before(*a, *b),
{
    if a.preferred != b.preferred {
        return a.preferred;
    }
    let left: i64 = area(a);
    let right: i64 = area(b);
    if left != right {
        left > right
    } else if a.width != b.width {
        a.width > b.width
    } else {
        a.refresh_mhz > b.refresh_mhz
    }
}

fn area(mode: &OutputMode) -> (area: i64)
    ensures
        area == mode.width * mode.height,
{
    let (w, h): (i64, i64) = (mode.width as i64, mode.height as i64);
    assert(-0x4000_0000_0000_0000 <= w * h <= 0x4000_0000_0000_0000) by (nonlinear_arith)
        requires
            -0x8000_0000 <= w <= 0x7fff_ffff,
            -0x8000_0000 <= h <= 0x7fff_ffff,
    ;
    w * h
}

/// The modes of an output in the order of listing, none twice.
fn list_modes(modes: &Vec<OutputMode>) -> (listed: Vec<OutputMode>)
    ensures
        listed@ == listed_modes(modes@),
{
    let mut sorted: Vec<OutputMode> = Vec::new();
    assert(modes@.take(0) =~= Seq::empty());
    for i in 0..modes.len()
        invariant
            sorted@ == sorted_modes(modes@.take(i as int)),
    {
        let mode: OutputMode = modes[i];
        let mut at: usize = 0;
        while at < sorted.len() && !comes_before(&mode, &sorted[at])
            invariant
                at <= sorted@.len(),
                forall|j: int| 0 <= j < at ==> !listed_before(mode, #[trigger] sorted@[j]),
            decreases sorted@.len() - at,
        {
            at = at + 1;
        }
        proof {
            lemma_insert_mode(sorted@, mode, at as int);
            assert(modes@.take(i + 1).drop_last() =~= modes@.take(i as int));
        }
        sorted.insert(at, mode);
    }
    assert(modes@.take(modes@.len() as int) =~= modes@);
    let mut listed: Vec<OutputMode> = Vec::new();
    assert(sorted@.take(0) =~= Seq::empty());
    for i in 0..sorted.len()
        invariant
            sorted@ == sorted_modes(modes@),
            listed@ == without_repeats(sorted@.take(i as int)),
    {
        let mode: OutputMode = sorted[i];
        assert(sorted@.take(i + 1).drop_last() =~= sorted@.take(i as int));
        let mut seen = false;
        for k in 0..listed.len()
            invariant
                seen == exists|j: int|
                    0 <= j < k && same_picture(#[trigger] listed@[j], mode),
        {
            let other: OutputMode = listed[k];
            if other.width == mode.width && other.height == mode.height && other.refresh_mhz
                == mode.refresh_mhz {
                assert(same_picture(listed@[k as int], mode));
                seen = true;
            }
        }
        if !seen {
            listed.push(mode);
        }
    }
    assert(sorted@.take(sorted@.len() as int) =~= sorted@);
    listed
}

// ---------------------------------------------------------------------------------------------
// Outputs
// ---------------------------------------------------------------------------------------------

/// An output as a client sees it.
#[derive(Clone, Debug)]
pub struct DisplayOutput {
    pub identity: String,
    pub connector: String,
    pub name: String,
    pub make: String,
    pub model: String,
    pub serial_number: String,
    pub enabled: bool,
    pub current_mode_id: Option<String>,
    pub preferred_mode_id: Option<String>,
    pub modes: Vec<DisplayMode>,
}

/// Make and model in one line, blank ones left out.
pub open spec fn make_and_model(make: Seq<char>, model: Seq<char>) -> Seq<char> {
    if blank(make) && blank(model) {
        Seq::empty()
    } else if blank(make) {
        model
    } else if blank(model) {
        make
    } else {
        make + seq![' '] + model
    }
}

/// The name that an output is shown by: its make and model, its description, or its connector.
pub open spec fn shown_name(head: HeadView) -> Seq<char> {
    if make_and_model(head.make, head.model).len() > 0 {
        make_and_model(head.make, head.model)
    } else if !blank(head.description) && head.description != head.name {
        head.description
    } else {
        head.name
    }
}

/// What an output is known by when it moves to another connector; its connector if it has no serial
/// number.
pub open spec fn identity_text(head: HeadView) -> Seq<char> {
    if blank(head.serial_number) {
        head.name
    } else {
        head.make + seq![':'] + head.model + seq![':'] + head.serial_number
    }
}

/// `id` is the identifier of `mode`, or there is neither.
pub open spec fn identifies(id: Option<String>, mode: Option<OutputMode>) -> bool {
    match (id, mode) {
        (Some(id), Some(mode)) => id@ == mode_id_text(mode),
        (None, None) => true,
        _ => false,
    }
}

/// `shown` is `head` as a client sees it.
pub open spec fn shows_head(shown: DisplayOutput, head: HeadView) -> bool {
    &&& shown.identity@ == identity_text(head)
    &&& shown.connector@ == head.name
    &&& shown.name@ == shown_name(head)
    &&& shown.make@ == head.make
    &&& shown.model@ == head.model
    &&& shown.serial_number@ == head.serial_number
    &&& shown.enabled == head.enabled
    &&& identifies(shown.current_mode_id, head.current_mode)
    &&& identifies(shown.preferred_mode_id, head.preferred_mode)
    &&& shown.modes@.len() == listed_modes(head.modes).len()
    &&& forall|i: int|
        0 <= i < shown.modes@.len() ==> shows_mode(
            #[trigger] shown.modes@[i],
            listed_modes(head.modes)[i],
        )
}

fn optional_mode_id(mode: &Option<OutputMode>) -> (id: Option<String>)
    ensures
        identifies(id, *mode),
{
    match mode {
        Some(mode) => Some(mode_id(mode)),
        None => None,
    }
}

impl DisplayOutput {
    /// An output as a client sees it.
    pub fn from(head: &OutputHead) -> (shown: DisplayOutput)
        ensures
            shows_head(shown, head@),
    {
        let mut line = String::new();
        let has_make = !is_blank(head.make.as_str());
        let has_model = !is_blank(head.model.as_str());
        if has_make {
            line.append(head.make.as_str());
        }
        if has_make && has_model {
            line.push(' ');
        }
        if has_model {
            line.append(head.model.as_str());
        }
        assert(line@ =~= make_and_model(head@.make, head@.model));
        let name = if !line.as_str().is_empty() {
            line
        } else if !is_blank(head.description.as_str()) && head.description != head.name {
            head.description.clone()
        } else {
            head.name.clone()
        };
        let identity = if is_blank(head.serial_number.as_str()) {
            head.name.clone()
        } else {
            let mut text = head.make.clone();
            text.push(':');
            text.append(head.model.as_str());
            text.push(':');
            text.append(head.serial_number.as_str());
            assert(text@ =~= identity_text(head@));
            text
        };
        let listed = list_modes(&head.modes);
        let mut modes: Vec<DisplayMode> = Vec::new();
        for i in 0..listed.len()
            invariant
                modes@.len() == i,
                forall|j: int| 0 <= j < i ==> shows_mode(#[trigger] modes@[j], listed@[j]),
        {
            modes.push(DisplayMode::from(&listed[i]));
        }
        DisplayOutput {
            identity,
            connector: head.name.clone(),
            name,
            make: head.make.clone(),
            model: head.model.clone(),
            serial_number: head.serial_number.clone(),
            enabled: head.enabled,
            current_mode_id: optional_mode_id(&head.current_mode),
            preferred_mode_id: optional_mode_id(&head.preferred_mode),
            modes,
        }
    }
}

// ---------------------------------------------------------------------------------------------
// Clients
// ---------------------------------------------------------------------------------------------

/// The largest request in bytes.
pub const MAX_REQUEST_BYTES: usize = 65536;

/// What was read of a request.
#[derive(Debug, PartialEq, Eq)]
pub enum RequestLine {
    /// The client sent nothing.
    Empty,
    Complete(String),
    /// The line is longer than a request may be.
    TooLarge,
}

/// `judged` is what is made of a line of which at most one byte more than a request may have was read.
pub open spec fn judges_line(line: Seq<char>, bytes_read: usize, judged: RequestLine) -> bool {
    &&& bytes_read == 0 <==> judged is Empty
    &&& bytes_read > 0 ==> (judged is TooLarge <==> encode_utf8(line).len() as usize
        > MAX_REQUEST_BYTES)
    &&& judged matches RequestLine::Complete(text) ==> text@ == line
}

/// Judges a line of which at most one byte more than a request may have was read.
pub fn read_request_line(line: String, bytes_read: usize) -> (judged: RequestLine)
    ensures
        judges_line(line@, bytes_read, judged),
{
    if bytes_read == 0 {
        RequestLine::Empty
    } else if line.as_str().len() > MAX_REQUEST_BYTES {
        RequestLine::TooLarge
    } else {
        RequestLine::Complete(line)
    }
}

/// What to do with a request that was read.
pub enum LineStep {
    /// Close the connection without an answer.
    Close,
    /// Decode the line.
    Decode(String),
    /// Answer, then close the connection.
    Refuse(ServerEvent),
}

/// The text of the refusal of a request that is too large.
pub open spec fn too_large_message() -> Seq<char> {
    "Display IPC requests are limited to "@ + decimal(MAX_REQUEST_BYTES as nat) + " bytes"@
}

/// `step` is what to do with a request that was read.
pub open spec fn follows_line(line: RequestLine, step: LineStep) -> bool {
    match line {
        RequestLine::Empty => step is Close,
        RequestLine::Complete(text) => step == LineStep::Decode(text),
        RequestLine::TooLarge => step matches LineStep::Refuse(event) && is_error(
            event,
            "request_too_large"@,
            too_large_message(),
        ),
    }
}

/// Decides what to do with a request that was read.
pub fn on_request_line(line: RequestLine) -> (step: LineStep)
    ensures
        follows_line(line, step),
{
    match line {
        RequestLine::Empty => LineStep::Close,
        RequestLine::Complete(text) => LineStep::Decode(text),
        RequestLine::TooLarge => {
            let mut message = "Display IPC requests are limited to ".to_owned();
            append_decimal(&mut message, MAX_REQUEST_BYTES as u64);
            message.append(" bytes");
            LineStep::Refuse(ServerEvent::error("request_too_large", message.as_str()))
        },
    }
}

/// What to do with a decoded request.
pub enum DecodedStep {
    /// Hand it to the daemon.
    Forward(ClientRequest),
    /// Answer, then close the connection.
    Refuse(ServerEvent),
}

/// `step` is what to do with a decoded request, or with the message of why it could not be decoded.
pub open spec fn follows_decoding(decoded: Result<ClientRequest, String>, step: DecodedStep) -> bool {
    match decoded {
        Ok(request) => step == DecodedStep::Forward(request),
        Err(message) => step matches DecodedStep::Refuse(event) && is_error(
            event,
            "invalid_request"@,
            message@,
        ),
    }
}

/// Decides what to do with a decoded request, or with the message of why it could not be decoded.
pub fn on_decoded(decoded: Result<ClientRequest, String>) -> (step: DecodedStep)
    ensures
        follows_decoding(decoded, step),
{
    match decoded {
        Ok(request) => DecodedStep::Forward(request),
        Err(message) => DecodedStep::Refuse(
            ServerEvent::error("invalid_request", message.as_str()),
        ),
    }
}

/// What happens at a connection whose request was forwarded.
pub enum ConnectionEvent {
    /// The daemon answers.
    Response(ServerEvent),
    /// The daemon will not answer any more.
    ResponsesEnded,
    /// The client sent this many more bytes; none when it has closed the connection.
    Read(usize),
}

/// What to do at a connection whose request was forwarded.
pub enum ConnectionStep {
    /// Send the answer and go on.
    Write(ServerEvent),
    /// Go on; what the client sent is dropped.
    Ignore,
    /// Tell the daemon that the client has gone, and close the connection.
    ReportDisconnect,
    /// Close the connection.
    Close,
}

/// What to do at a connection whose request was forwarded.
pub open spec fn connection_step(event: ConnectionEvent) -> ConnectionStep {
    match event {
        ConnectionEvent::Response(answer) => ConnectionStep::Write(answer),
        ConnectionEvent::ResponsesEnded => ConnectionStep::Close,
        ConnectionEvent::Read(count) => if count == 0 {
            ConnectionStep::ReportDisconnect
        } else {
            ConnectionStep::Ignore
        },
    }
}

/// Decides what to do at a connection whose request was forwarded.
pub fn on_connection_event(event: ConnectionEvent) -> (step: ConnectionStep)
    ensures
        step == connection_step(event),
{
    match event {
        ConnectionEvent::Response(answer) => ConnectionStep::Write(answer),
        ConnectionEvent::ResponsesEnded => ConnectionStep::Close,
        ConnectionEvent::Read(count) => {
            if count == 0 {
                ConnectionStep::ReportDisconnect
            } else {
                ConnectionStep::Ignore
            }
        },
    }
}

// ---------------------------------------------------------------------------------------------
// The socket
// ---------------------------------------------------------------------------------------------

/// The socket of the daemon, which is removed when the daemon ends.
pub struct SocketGuard {
    pub path: String,
}

/// The place of the socket below the runtime directory.
pub open spec fn socket_path_text(runtime_dir: Seq<char>) -> Seq<char> {
    joined(joined(runtime_dir, "nagame"@), "display.sock"@)
}

/// The place of the socket, given the runtime directory if there is one.
pub fn socket_path(runtime_dir: Option<&str>) -> (path: Result<String, String>)
    ensures
        match runtime_dir {
            Some(dir) => path matches Ok(text) && text@ == socket_path_text(dir@),
            None => path matches Err(message) && message@ == "XDG_RUNTIME_DIR is not set"@,
        },
{
    match runtime_dir {
        Some(dir) => {
            let base = join_path(dir, "nagame");
            Ok(join_path(base.as_str(), "display.sock"))
        },
        None => Err("XDG_RUNTIME_DIR is not set".to_owned()),
    }
}

/// What is found where the socket is to be made.
#[derive(Clone, Copy, PartialEq, Eq, Debug, Structural)]
pub enum SocketPlace {
    /// Nothing.
    Free,
    /// Something that answers.
    Active,
    /// A socket that does not answer.
    Stale,
    /// Something that is no socket.
    Foreign,
}

/// What to do before the socket is made.
pub enum SocketStep {
    /// Nothing.
    Bind,
    /// Remove what is there.
    RemoveAndBind,
    /// Give up, with this message.
    Refuse(String),
}

/// `step` is what to do before the socket is made in this place.
pub open spec fn prepares(place: SocketPlace, path: Seq<char>, step: SocketStep) -> bool {
    match place {
        SocketPlace::Free => step is Bind,
        SocketPlace::Stale => step is RemoveAndBind,
        SocketPlace::Active => step matches SocketStep::Refuse(message) && message@
            == "another Nagame display socket is already active"@,
        SocketPlace::Foreign => step matches SocketStep::Refuse(message) && message@
            == "refusing to replace non-socket path "@ + path,
    }
}

/// Decides what to do before the socket is made: a socket that nobody listens at is replaced, and
/// nothing else is.
pub fn prepare_socket(place: SocketPlace, path: &str) -> (step: SocketStep)
    ensures
        prepares(place, path@, step),
{
    match place {
        SocketPlace::Free => SocketStep::Bind,
        SocketPlace::Stale => SocketStep::RemoveAndBind,
        SocketPlace::Active => SocketStep::Refuse(
            "another Nagame display socket is already active".to_owned(),
        ),
        SocketPlace::Foreign => {
            let mut message = "refusing to replace non-socket path ".to_owned();
            message.append(path);
            SocketStep::Refuse(message)
        },
    }
}

// ---------------------------------------------------------------------------------------------
// What a client is shown
// ---------------------------------------------------------------------------------------------

/// A client is shown preferred modes first; among modes that are alike in that, larger ones first; among
/// modes of one size, faster ones first.
pub proof fn better_modes_are_listed_first(modes: Seq<OutputMode>, i: int, j: int)
    requires
        0 <= i < j < listed_modes(modes).len(),
    ensures
        ({
            let (first, second) = (listed_modes(modes)[i], listed_modes(modes)[j]);
            &&& second.preferred ==> first.preferred
            &&& first.preferred == second.preferred ==> first.width * first.height >= second.width
                * second.height
            &&& first.preferred == second.preferred && first.width == second.width && first.height
                == second.height ==> first.refresh_mhz > second.refresh_mhz
        }),
{
    listed_modes_are_the_offered_ones(modes);
    let (first, second) = (listed_modes(modes)[i], listed_modes(modes)[j]);
    assert(!listed_before(second, first));
    mode_ids_tell_modes_apart(first, second);
}

/// A client is shown what an output is: its connector, whether it is enabled, and the identifiers of the
/// mode it is in and of the one it prefers, each of which is that of a listed mode if the output offers it.
pub proof fn a_client_sees_the_mode_an_output_is_in(shown: DisplayOutput, head: HeadView)
    requires
        shows_head(shown, head),
    ensures
        shown.connector@ == head.name,
        shown.enabled == head.enabled,
        shown.current_mode_id is Some <==> head.current_mode is Some,
        shown.preferred_mode_id is Some <==> head.preferred_mode is Some,
        head.current_mode is Some && head.modes.contains(head.current_mode->0) ==> exists|i: int|
            0 <= i < shown.modes@.len() && (#[trigger] shown.modes@[i]).id@
                == shown.current_mode_id->0@ && shown.modes@[i].width == head.current_mode->0.width
                && shown.modes@[i].height == head.current_mode->0.height && shown.modes@[i].refresh_mhz
                == head.current_mode->0.refresh_mhz,
        head.preferred_mode is Some && head.modes.contains(head.preferred_mode->0) ==> exists|i: int|
            0 <= i < shown.modes@.len() && (#[trigger] shown.modes@[i]).id@
                == shown.preferred_mode_id->0@ && shown.modes@[i].width == head.preferred_mode->0.width
                && shown.modes@[i].height == head.preferred_mode->0.height && shown.modes@[i].refresh_mhz
                == head.preferred_mode->0.refresh_mhz,
{
    if let Some(mode) = head.current_mode {
        if head.modes.contains(mode) {
            lemma_shown_mode(shown, head, mode);
        }
    }
    if let Some(mode) = head.preferred_mode {
        if head.modes.contains(mode) {
            lemma_shown_mode(shown, head, mode);
        }
    }
}

proof fn lemma_shown_mode(shown: DisplayOutput, head: HeadView, mode: OutputMode)
    requires
        shows_head(shown, head),
        head.modes.contains(mode),
    ensures
        exists|i: int|
            0 <= i < shown.modes@.len() && (#[trigger] shown.modes@[i]).id@ == mode_id_text(mode)
                && shown.modes@[i].width == mode.width && shown.modes@[i].height == mode.height
                && shown.modes@[i].refresh_mhz == mode.refresh_mhz,
{
    let listed = listed_modes(head.modes);
    listed_modes_are_the_offered_ones(head.modes);
    let k = choose|k: int| 0 <= k < head.modes.len() && head.modes[k] == mode;
    assert(pictured(listed, head.modes[k]));
    let i = choose|i: int| 0 <= i < listed.len() && same_picture(#[trigger] listed[i], mode);
    mode_ids_tell_modes_apart(listed[i], mode);
    assert(shows_mode(shown.modes@[i], listed[i]));
}

/// An output with a serial number keeps its identity at any connector, and outputs of one make and model
/// with different serial numbers have different ones. An output without a serial number goes by its
/// connector.
pub proof fn an_output_keeps_its_identity(a: HeadView, b: HeadView)
    requires
        a.make == b.make,
        a.model == b.model,
    ensures
        blank(a.serial_number) ==> identity_text(a) == a.name,
        !blank(a.serial_number) && !blank(b.serial_number) ==> (identity_text(a) == identity_text(b)
            <==> a.serial_number == b.serial_number),
{
    let front = a.make + seq![':'] + a.model + seq![':'];
    if !blank(a.serial_number) && !blank(b.serial_number) && identity_text(a) == identity_text(b) {
        assert(identity_text(a).skip(front.len() as int) =~= a.serial_number);
        assert(identity_text(b).skip(front.len() as int) =~= b.serial_number);
    }
}

/// An output is shown by its make and model if it has either, else by its description if that says more
/// than the connector does, else by its connector; never by nothing if it has a connector.
pub proof fn an_output_is_shown_by_its_best_name(head: HeadView)
    ensures
        !blank(head.make) && !blank(head.model) ==> shown_name(head) == head.make + " "@
            + head.model,
        !blank(head.make) && blank(head.model) ==> shown_name(head) == head.make,
        blank(head.make) && !blank(head.model) ==> shown_name(head) == head.model,
        blank(head.make) && blank(head.model) ==> shown_name(head) == if blank(head.description) {
            head.name
        } else {
            head.description
        },
        head.name.len() > 0 ==> shown_name(head).len() > 0,
{
    reveal_strlit(" ");
    assert(" "@ =~= seq![' ']);
}

// ---------------------------------------------------------------------------------------------
// Connections
// ---------------------------------------------------------------------------------------------

/// A request of at most sixty-four kibibytes is decoded as it was sent, a longer one is refused with an
/// error, and a client that sent nothing gets no answer.
pub proof fn requests_have_a_limit(
    line: Seq<char>,
    bytes_read: usize,
    judged: RequestLine,
    step: LineStep,
)
    requires
        judges_line(line, bytes_read, judged),
        follows_line(judged, step),
        encode_utf8(line).len() <= usize::MAX,
    ensures
        step is Close <==> bytes_read == 0,
        step is Refuse <==> bytes_read > 0 && encode_utf8(line).len() > 64 * 1024,
        step is Decode <==> bytes_read > 0 && encode_utf8(line).len() <= 64 * 1024,
        step matches LineStep::Decode(text) ==> text@ == line,
        step matches LineStep::Refuse(event) ==> event is Error,
{
}

/// What was decoded goes to the daemon unchanged; what could not be decoded is answered with an error.
pub proof fn decoded_requests_reach_the_daemon(
    decoded: Result<ClientRequest, String>,
    step: DecodedStep,
)
    requires
        follows_decoding(decoded, step),
    ensures
        step is Forward <==> decoded is Ok,
        step matches DecodedStep::Forward(request) ==> decoded == Ok::<ClientRequest, String>(request),
        step matches DecodedStep::Refuse(event) ==> event is Error,
{
}

/// Every answer of the daemon is passed on, a client that closes its connection is reported, and what it
/// sends besides is dropped.
pub proof fn a_closed_connection_is_reported(event: ConnectionEvent)
    ensures
        match connection_step(event) {
            ConnectionStep::Write(answer) => event == ConnectionEvent::Response(answer),
            ConnectionStep::ReportDisconnect => event == ConnectionEvent::Read(0),
            ConnectionStep::Ignore => event matches ConnectionEvent::Read(count) && count > 0,
            ConnectionStep::Close => event is ResponsesEnded,
        },
{
}

/// Nothing is ever removed but a socket at which nobody listens, and a socket is made only in a free place.
pub proof fn only_a_stale_socket_is_replaced(place: SocketPlace, path: Seq<char>, step: SocketStep)
    requires
        prepares(place, path, step),
    ensures
        step is RemoveAndBind <==> place == SocketPlace::Stale,
        step is Bind <==> place == SocketPlace::Free,
        step is Refuse <==> place == SocketPlace::Active || place == SocketPlace::Foreign,
{
}

/// The socket is below the runtime directory.
pub proof fn the_socket_is_below_the_runtime_directory(runtime_dir: Seq<char>)
    ensures
        socket_path_text(runtime_dir).len() > runtime_dir.len(),
        socket_path_text(runtime_dir).take(runtime_dir.len() as int) == runtime_dir,
{
    reveal_strlit("nagame");
    reveal_strlit("display.sock");
    let a = joined(runtime_dir, "nagame"@);
    let b = joined(a, "display.sock"@);
    joining_keeps_the_base(runtime_dir, "nagame"@);
    joining_keeps_the_base(a, "display.sock"@);
    assert(b.take(runtime_dir.len() as int) =~= b.take(a.len() as int).take(
        runtime_dir.len() as int,
    ));
}

} // verus!
