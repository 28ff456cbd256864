//! State, events and requests of the wlr-output-management protocol.

use crate::config::Transform;
use crate::number::{append_decimal, append_signed, decimal, signed_decimal};
use crate::scale::Scale;
use crate::table::{
    contains_key, distinct, has_key, lemma_filter_is_picked, lookup, place, place_is_the_first, put,
    put_then_lookup, without, without_then_lookup, NameTable, Table,
};
use crate::text::{quoted, same_text};
use vstd::prelude::*;

verus! {

// ---------------------------------------------------------------------------------------------
// Modes and heads
// ---------------------------------------------------------------------------------------------

/// A display mode: resolution and refresh rate.
#[derive(Clone, Copy, PartialEq, Eq, Debug, Structural)]
pub struct OutputMode {
    /// Width in pixels.
    pub width: i32,
    /// Height in pixels.
    pub height: i32,
    /// Refresh rate in millihertz.
    pub refresh_mhz: i32,
    /// Whether the output prefers this mode.
    pub preferred: bool,
}

impl View for OutputMode {
    type V = OutputMode;

    open spec fn view(&self) -> OutputMode {
        *self
    }
}

/// A rate in whole hertz: the nearest number, the even one of two equally near ones.
pub open spec fn whole_hertz(millihertz: nat) -> nat {
    let whole = millihertz / 1000;
    let rest = millihertz % 1000;
    if rest > 500 || (rest == 500 && whole % 2 == 1) {
        whole + 1
    } else {
        whole
    }
}

/// The text of a rate in whole hertz. A rate below zero keeps its sign, even if it comes to zero.
pub open spec fn hertz_text(millihertz: int) -> Seq<char> {
    if millihertz < 0 {
        seq!['-'] + decimal(whole_hertz((-millihertz) as nat))
    } else {
        decimal(whole_hertz(millihertz as nat))
    }
}

/// The text of a resolution.
pub open spec fn resolution_text(width: int, height: int) -> Seq<char> {
    signed_decimal(width) + seq!['x'] + signed_decimal(height)
}

impl OutputMode {
    /// The mode as text, such as `1920x1080@60`.
    pub fn format(&self) -> (text: String)
        ensures
            text@ == resolution_text(self.width as int, self.height as int) + seq!['@']
                + hertz_text(self.refresh_mhz as int),
    {
        let mut text = String::new();
        append_signed(&mut text, self.width);
        text.push('x');
        append_signed(&mut text, self.height);
        text.push('@');
        let rate: i64 = self.refresh_mhz as i64;
        let size: u64 = if rate < 0 {
            text.push('-');
            (-rate) as u64
        } else {
            rate as u64
        };
        let whole: u64 = size / 1000;
        let rest: u64 = size % 1000;
        if rest > 500 || (rest == 500 && whole % 2 == 1) {
            append_decimal(&mut text, whole + 1);
        } else {
            append_decimal(&mut text, whole);
        }
        assert(text@ =~= resolution_text(self.width as int, self.height as int) + seq!['@']
            + hertz_text(self.refresh_mhz as int));
        text
    }
}

/// An output with its properties and the modes it offers.
#[derive(Clone, Debug)]
pub struct OutputHead {
    /// A number that changes when an output of the same name is built anew.
    pub id: u32,
    /// The name of the connector, such as `eDP-1`.
    pub name: String,
    /// A description for people.
    pub description: String,
    /// Width and height in millimetres.
    pub physical_size: Option<(i32, i32)>,
    /// The place in the shared coordinate space.
    pub position: Option<(i32, i32)>,
    /// Rotation and reflection.
    pub transform: Transform,
    /// The scaling factor.
    pub scale: Scale,
    /// Whether the output is enabled.
    pub enabled: bool,
    /// The modes it offers.
    pub modes: Vec<OutputMode>,
    /// The mode it is in.
    pub current_mode: Option<OutputMode>,
    /// The mode it prefers.
    pub preferred_mode: Option<OutputMode>,
    pub make: String,
    pub model: String,
    pub serial_number: String,
    /// Whether adaptive sync is on.
    pub adaptive_sync: Option<bool>,
}

/// An output as a mathematical value.
#[verifier::ext_equal]
pub struct HeadView {
    pub id: u32,
    pub name: Seq<char>,
    pub description: Seq<char>,
    pub physical_size: Option<(i32, i32)>,
    pub position: Option<(i32, i32)>,
    pub transform: Transform,
    pub scale: Scale,
    pub enabled: bool,
    pub modes: Seq<OutputMode>,
    pub current_mode: Option<OutputMode>,
    pub preferred_mode: Option<OutputMode>,
    pub make: Seq<char>,
    pub model: Seq<char>,
    pub serial_number: Seq<char>,
    pub adaptive_sync: Option<bool>,
}

impl View for OutputHead {
    type V = HeadView;

    open spec fn view(&self) -> HeadView {
        HeadView {
            id: self.id,
            name: self.name@,
            description: self.description@,
            physical_size: self.physical_size,
            position: self.position,
            transform: self.transform,
            scale: self.scale,
            enabled: self.enabled,
            modes: self.modes@,
            current_mode: self.current_mode,
            preferred_mode: self.preferred_mode,
            make: self.make@,
            model: self.model@,
            serial_number: self.serial_number@,
            adaptive_sync: self.adaptive_sync,
        }
    }
}

/// An output of which nothing but its number is known.
pub open spec fn unknown_head(id: u32) -> HeadView {
    HeadView {
        id,
        name: Seq::empty(),
        description: Seq::empty(),
        physical_size: None,
        position: None,
        transform: Transform::Normal,
        scale: Scale { bits: 0x3ff0_0000_0000_0000 },
        enabled: false,
        modes: Seq::empty(),
        current_mode: None,
        preferred_mode: None,
        make: Seq::empty(),
        model: Seq::empty(),
        serial_number: Seq::empty(),
        adaptive_sync: None,
    }
}

impl OutputHead {
    /// An output of which nothing but its number is known: disabled, in normal orientation and
    /// unscaled.
    pub fn unknown(id: u32) -> (head: OutputHead)
        ensures
            head@ == unknown_head(id),
    {
        let head = OutputHead {
            id,
            name: String::new(),
            description: String::new(),
            physical_size: None,
            position: None,
            transform: Transform::Normal,
            scale: Scale { bits: 0x3ff0_0000_0000_0000 },
            enabled: false,
            modes: Vec::new(),
            current_mode: None,
            preferred_mode: None,
            make: String::new(),
            model: String::new(),
            serial_number: String::new(),
            adaptive_sync: None,
        };
        assert(head@ =~= unknown_head(id));
        head
    }
}

impl OutputHead {
    /// The same output once more.
    fn duplicate(&self) -> (head: OutputHead)
        ensures
            head@ == self@,
    {
        let mut modes: Vec<OutputMode> = Vec::new();
        for i in 0..self.modes.len()
            invariant
                modes@ == self.modes@.take(i as int),
        {
            modes.push(self.modes[i]);
            assert(self.modes@.take(i + 1) =~= self.modes@.take(i as int).push(self.modes@[i as int]));
        }
        assert(self.modes@.take(self.modes@.len() as int) =~= self.modes@);
        let head = OutputHead {
            id: self.id,
            name: self.name.clone(),
            description: self.description.clone(),
            physical_size: self.physical_size,
            position: self.position,
            transform: self.transform,
            scale: self.scale,
            enabled: self.enabled,
            modes,
            current_mode: self.current_mode,
            preferred_mode: self.preferred_mode,
            make: self.make.clone(),
            model: self.model.clone(),
            serial_number: self.serial_number.clone(),
            adaptive_sync: self.adaptive_sync,
        };
        assert(head@ =~= self@);
        head
    }
}

/// What is asked of one output.
#[derive(Clone, Copy, PartialEq, Eq, Debug)]
pub struct HeadConfiguration {
    pub enabled: bool,
    pub mode: Option<OutputMode>,
    pub position: Option<(i32, i32)>,
    pub transform: Option<Transform>,
    pub scale: Option<Scale>,
    pub adaptive_sync: Option<bool>,
}

// ---------------------------------------------------------------------------------------------
// The state
// ---------------------------------------------------------------------------------------------

/// The compositor's answer to a configuration.
#[derive(Clone, Copy, PartialEq, Eq, Debug, Structural)]
pub enum ConfigurationOutcome {
    Succeeded,
    Failed,
    Cancelled,
}

/// What is known of the compositor's outputs. Outputs and modes are told apart by numbers, one for
/// each protocol object.
pub struct WaylandState {
    /// Whether the compositor offers output management.
    pub available: bool,
    /// The outputs of the last complete configuration, by name.
    pub heads: NameTable<OutputHead>,
    /// Whether a configuration was created and not answered.
    pub active_config: bool,
    /// The serial number of the last complete configuration.
    pub last_serial: Option<u32>,
    /// The answer to the last configuration that was submitted.
    pub configuration_outcome: Option<ConfigurationOutcome>,
    /// Outputs that are being announced.
    pub pending_heads: Table<OutputHead>,
    /// Modes that are being announced.
    pub pending_modes: Table<OutputMode>,
    /// The output that a mode belongs to.
    pub mode_to_head: Table<u32>,
    /// The name of an output.
    pub head_id_to_name: Table<String>,
    /// The output that last took a name.
    pub head_proxies: NameTable<u32>,
    /// The modes whose size was announced.
    pub mode_proxies: Vec<u32>,
    /// The modes that were announced.
    pub mode_metadata: Table<OutputMode>,
    /// The modes that were announced together with their size.
    pub mode_obj_to_data: Table<OutputMode>,
    /// The mode that an output was said to be in.
    pub pending_current_modes: Table<u32>,
    /// Counts complete configurations and disconnections, around the limit of the type.
    pub configuration_generation: u64,
}

/// The state as a mathematical value.
#[verifier::ext_equal]
pub struct StateView {
    pub available: bool,
    pub heads: Seq<(Seq<char>, HeadView)>,
    pub active_config: bool,
    pub last_serial: Option<u32>,
    pub configuration_outcome: Option<ConfigurationOutcome>,
    pub pending_heads: Seq<(u32, HeadView)>,
    pub pending_modes: Seq<(u32, OutputMode)>,
    pub mode_to_head: Seq<(u32, u32)>,
    pub head_id_to_name: Seq<(u32, Seq<char>)>,
    pub head_proxies: Seq<(Seq<char>, u32)>,
    pub mode_proxies: Seq<u32>,
    pub mode_metadata: Seq<(u32, OutputMode)>,
    pub mode_obj_to_data: Seq<(u32, OutputMode)>,
    pub pending_current_modes: Seq<(u32, u32)>,
    pub configuration_generation: u64,
}

impl View for WaylandState {
    type V = StateView;

    open spec fn view(&self) -> StateView {
        StateView {
            available: self.available,
            heads: self.heads@,
            active_config: self.active_config,
            last_serial: self.last_serial,
            configuration_outcome: self.configuration_outcome,
            pending_heads: self.pending_heads@,
            pending_modes: self.pending_modes@,
            mode_to_head: self.mode_to_head@,
            head_id_to_name: self.head_id_to_name@,
            head_proxies: self.head_proxies@,
            mode_proxies: self.mode_proxies@,
            mode_metadata: self.mode_metadata@,
            mode_obj_to_data: self.mode_obj_to_data@,
            pending_current_modes: self.pending_current_modes@,
            configuration_generation: self.configuration_generation,
        }
    }
}

/// The state before the first event.
pub open spec fn initial_state() -> StateView {
    StateView {
        available: false,
        heads: Seq::empty(),
        active_config: false,
        last_serial: None,
        configuration_outcome: None,
        pending_heads: Seq::empty(),
        pending_modes: Seq::empty(),
        mode_to_head: Seq::empty(),
        head_id_to_name: Seq::empty(),
        head_proxies: Seq::empty(),
        mode_proxies: Seq::empty(),
        mode_metadata: Seq::empty(),
        mode_obj_to_data: Seq::empty(),
        pending_current_modes: Seq::empty(),
        configuration_generation: 0,
    }
}

impl StateView {
    /// Every output of the last complete configuration stands under its own name, no name or
    /// number occurs twice in a table, and every name that an output goes by belongs to an object.
    pub open spec fn wf(self) -> bool {
        &&& distinct(self.heads)
        &&& distinct(self.pending_heads)
        &&& distinct(self.pending_modes)
        &&& distinct(self.mode_to_head)
        &&& distinct(self.head_id_to_name)
        &&& distinct(self.head_proxies)
        &&& self.mode_proxies.no_duplicates()
        &&& distinct(self.mode_metadata)
        &&& distinct(self.mode_obj_to_data)
        &&& distinct(self.pending_current_modes)
        &&& self.names_fit()
    }

    /// The part of `wf` that is about names.
    pub open spec fn names_fit(self) -> bool {
        &&& forall|i: int|
            0 <= i < self.heads.len() ==> {
                &&& (#[trigger] self.heads[i]).1.name == self.heads[i].0
                &&& self.heads[i].0.len() > 0
                &&& has_key(self.head_proxies, self.heads[i].0)
            }
        &&& forall|i: int|
            0 <= i < self.pending_heads.len() ==> {
                &&& (#[trigger] self.pending_heads[i]).1.id == self.pending_heads[i].0
                &&& self.pending_heads[i].1.name.len() > 0 ==> has_key(
                    self.head_proxies,
                    self.pending_heads[i].1.name,
                )
            }
    }

    /// The output with this number, whether it is being announced or complete.
    pub open spec fn head(self, id: u32) -> Option<HeadView> {
        if has_key(self.pending_heads, id) {
            lookup(self.pending_heads, id)
        } else {
            match lookup(self.head_id_to_name, id) {
                Some(name) => lookup(self.heads, name),
                None => None,
            }
        }
    }

    /// The state in which the output with this number, which there is, is another one.
    pub open spec fn with_head(self, id: u32, head: HeadView) -> StateView {
        if has_key(self.pending_heads, id) {
            StateView { pending_heads: put(self.pending_heads, id, head), ..self }
        } else {
            let name = lookup(self.head_id_to_name, id)->0;
            StateView { heads: put(self.heads, name, head), ..self }
        }
    }

    /// The state after an announced mode was made known.
    pub open spec fn mode_done(self, id: u32, mode: OutputMode) -> StateView {
        let known = StateView { mode_metadata: put(self.mode_metadata, id, mode), ..self };
        if !self.mode_proxies.contains(id) {
            known
        } else {
            let sized = StateView {
                mode_obj_to_data: put(self.mode_obj_to_data, id, mode),
                ..known
            };
            match lookup(self.mode_to_head, id) {
                Some(head_id) => match self.head(head_id) {
                    Some(head) => sized.with_head(head_id, with_mode(head, mode)),
                    None => sized,
                },
                None => sized,
            }
        }
    }

    /// The state after announced modes were made known, in order.
    pub open spec fn modes_done(self, modes: Seq<(u32, OutputMode)>) -> StateView
        decreases modes.len(),
    {
        if modes.len() == 0 {
            self
        } else {
            self.modes_done(modes.drop_last()).mode_done(modes.last().0, modes.last().1)
        }
    }

    /// The state after the mode that an output is in was made known.
    pub open spec fn current_done(self, head_id: u32, mode_id: u32) -> StateView {
        match lookup(self.mode_obj_to_data, mode_id) {
            Some(mode) => match self.head(head_id) {
                Some(head) => self.with_head(
                    head_id,
                    HeadView { current_mode: Some(mode), ..head },
                ),
                None => self,
            },
            None => self,
        }
    }

    /// The state after the modes that outputs are in were made known, in order.
    pub open spec fn currents_done(self, currents: Seq<(u32, u32)>) -> StateView
        decreases currents.len(),
    {
        if currents.len() == 0 {
            self
        } else {
            self.currents_done(currents.drop_last()).current_done(
                currents.last().0,
                currents.last().1,
            )
        }
    }

    /// The state after an announced output was made known. One without a name is dropped.
    pub open spec fn head_done(self, id: u32, head: HeadView) -> StateView {
        if head.name.len() == 0 {
            self
        } else {
            StateView {
                head_id_to_name: put(self.head_id_to_name, id, head.name),
                heads: put(self.heads, head.name, head),
                ..self
            }
        }
    }

    /// The state after announced outputs were made known, in order.
    pub open spec fn heads_done(self, heads: Seq<(u32, HeadView)>) -> StateView
        decreases heads.len(),
    {
        if heads.len() == 0 {
            self
        } else {
            self.heads_done(heads.drop_last()).head_done(heads.last().0, heads.last().1)
        }
    }

    /// The state in which everything announced has become known: first the modes, which belong to
    /// outputs that may still be pending, then the modes that outputs are in, then the outputs.
    pub open spec fn finalized(self) -> StateView {
        let first = StateView { pending_modes: Seq::empty(), ..self }.modes_done(
            self.pending_modes,
        );
        let second = StateView { pending_current_modes: Seq::empty(), ..first }.currents_done(
            first.pending_current_modes,
        );
        StateView { pending_heads: Seq::empty(), ..second }.heads_done(second.pending_heads)
    }
}

/// An output that offers one more mode.
pub open spec fn with_mode(head: HeadView, mode: OutputMode) -> HeadView {
    HeadView {
        modes: head.modes.push(mode),
        preferred_mode: if mode.preferred {
            Some(mode)
        } else {
            head.preferred_mode
        },
        ..head
    }
}

// Each step keeps the state well formed.

proof fn lemma_with_head_wf(s: StateView, id: u32, head: HeadView)
    requires
        s.wf(),
        s.head(id) is Some,
        head.name == s.head(id)->0.name,
        head.id == s.head(id)->0.id,
    ensures
        s.with_head(id, head).wf(),
{
    let t = s.with_head(id, head);
    if has_key(s.pending_heads, id) {
        put_then_lookup(s.pending_heads, id, head, id);
        place_is_the_first(s.pending_heads, id);
    } else {
        let name = lookup(s.head_id_to_name, id)->0;
        put_then_lookup(s.heads, name, head, name);
        place_is_the_first(s.heads, name);
    }
}

proof fn lemma_mode_done_wf(s: StateView, id: u32, mode: OutputMode)
    requires
        s.wf(),
    ensures
        s.mode_done(id, mode).wf(),
        s.mode_done(id, mode).pending_current_modes == s.pending_current_modes,
{
    put_then_lookup(s.mode_metadata, id, mode, id);
    put_then_lookup(s.mode_obj_to_data, id, mode, id);
    let sized = StateView {
        mode_metadata: put(s.mode_metadata, id, mode),
        mode_obj_to_data: put(s.mode_obj_to_data, id, mode),
        ..s
    };
    assert(sized.wf());
    if s.mode_proxies.contains(id) && lookup(s.mode_to_head, id) is Some {
        let head_id = lookup(s.mode_to_head, id)->0;
        if s.head(head_id) is Some {
            assert(sized.head(head_id) == s.head(head_id));
            lemma_with_head_wf(sized, head_id, with_mode(s.head(head_id)->0, mode));
        }
    }
}

proof fn lemma_current_done_wf(s: StateView, head_id: u32, mode_id: u32)
    requires
        s.wf(),
    ensures
        s.current_done(head_id, mode_id).wf(),
{
    if lookup(s.mode_obj_to_data, mode_id) is Some && s.head(head_id) is Some {
        lemma_with_head_wf(
            s,
            head_id,
            HeadView { current_mode: lookup(s.mode_obj_to_data, mode_id), ..s.head(head_id)->0 },
        );
    }
}

proof fn lemma_head_done_wf(s: StateView, id: u32, head: HeadView)
    requires
        s.wf(),
        head.name.len() > 0 ==> has_key(s.head_proxies, head.name),
    ensures
        s.head_done(id, head).wf(),
        s.head_done(id, head).head_proxies == s.head_proxies,
{
    if head.name.len() > 0 {
        put_then_lookup(s.head_id_to_name, id, head.name, id);
        put_then_lookup(s.heads, head.name, head, head.name);
        place_is_the_first(s.heads, head.name);
        assert(s.head_done(id, head).names_fit());
    }
}

impl Default for WaylandState {
    /// The state before the first event.
    fn default() -> (state: WaylandState)
        ensures
            state@ == initial_state(),
            state@.wf(),
    {
        WaylandState::new()
    }
}

impl WaylandState {
    /// The state before the first event.
    pub fn new() -> (state: WaylandState)
        ensures
            state@ == initial_state(),
            state@.wf(),
    {
        let state = WaylandState {
            available: false,
            heads: NameTable::new(),
            active_config: false,
            last_serial: None,
            configuration_outcome: None,
            pending_heads: Table::new(),
            pending_modes: Table::new(),
            mode_to_head: Table::new(),
            head_id_to_name: Table::new(),
            head_proxies: NameTable::new(),
            mode_proxies: Vec::new(),
            mode_metadata: Table::new(),
            mode_obj_to_data: Table::new(),
            pending_current_modes: Table::new(),
            configuration_generation: 0,
        };
        assert(state@ =~= initial_state());
        state
    }

    /// Makes an announced mode known to the output it belongs to.
    fn finish_mode(&mut self, id: u32, mode: OutputMode)
        ensures
            final(self)@ == old(self)@.mode_done(id, mode),
    {
        self.mode_metadata.insert(id, mode);
        if !contains_key(&self.mode_proxies, id) {
            assert(self@ =~= old(self)@.mode_done(id, mode));
            return;
        }
        self.mode_obj_to_data.insert(id, mode);
        let head_id: u32 = match self.mode_to_head.get(id) {
            Some(head_id) => *head_id,
            None => {
                assert(self@ =~= old(self)@.mode_done(id, mode));
                return;
            },
        };
        let ghost before = self@;
        let at = self.pending_heads.find(head_id);
        if at < self.pending_heads.entries.len() {
            add_mode(&mut self.pending_heads.entries[at].1, mode);
            assert(self@.pending_heads =~= put(
                before.pending_heads,
                head_id,
                with_mode(before.head(head_id)->0, mode),
            ));
        } else if let Some(name) = self.head_id_to_name.get(head_id) {
            let at = self.heads.find(name.as_str());
            if at < self.heads.entries.len() {
                add_mode(&mut self.heads.entries[at].1, mode);
                assert(self@.heads =~= put(
                    before.heads,
                    lookup(before.head_id_to_name, head_id)->0,
                    with_mode(before.head(head_id)->0, mode),
                ));
            }
        }
        assert(self@ =~= old(self)@.mode_done(id, mode));
    }

    /// Makes the mode that an output is in known.
    fn finish_current_mode(&mut self, head_id: u32, mode_id: u32)
        ensures
            final(self)@ == old(self)@.current_done(head_id, mode_id),
    {
        let ghost before = self@;
        let mode: OutputMode = match self.mode_obj_to_data.get(mode_id) {
            Some(mode) => *mode,
            None => {
                return;
            },
        };
        let at = self.pending_heads.find(head_id);
        if at < self.pending_heads.entries.len() {
            self.pending_heads.entries[at].1.current_mode = Some(mode);
            assert(self@.pending_heads =~= put(
                before.pending_heads,
                head_id,
                HeadView { current_mode: Some(mode), ..before.head(head_id)->0 },
            ));
        } else if let Some(name) = self.head_id_to_name.get(head_id) {
            let at = self.heads.find(name.as_str());
            if at < self.heads.entries.len() {
                self.heads.entries[at].1.current_mode = Some(mode);
                assert(self@.heads =~= put(
                    before.heads,
                    lookup(before.head_id_to_name, head_id)->0,
                    HeadView { current_mode: Some(mode), ..before.head(head_id)->0 },
                ));
            }
        }
        assert(self@ =~= old(self)@.current_done(head_id, mode_id));
    }

    /// Makes an announced output known, unless it has no name.
    fn finish_head(&mut self, id: u32, head: OutputHead)
        ensures
            final(self)@ == old(self)@.head_done(id, head@),
    {
        if !head.name.as_str().is_empty() {
            self.head_id_to_name.insert(id, head.name.clone());
            self.heads.insert(head.name.clone(), head);
        }
        assert(self@ =~= old(self)@.head_done(id, head@));
    }

    /// Makes everything known that was announced, once the compositor has said that the
    /// configuration is complete.
    pub fn finalize_pending(&mut self)
        requires
            old(self)@.wf(),
        ensures
            final(self)@ == old(self)@.finalized(),
            final(self)@.wf(),
    {
        let ghost s0 = self@;
        let mut modes: Vec<(u32, OutputMode)> = Vec::new();
        std::mem::swap(&mut modes, &mut self.pending_modes.entries);
        let ghost cleared = StateView { pending_modes: Seq::empty(), ..s0 };
        assert(self@ =~= cleared);
        assert(modes@ =~= s0.pending_modes);
        for i in 0..modes.len()
            invariant
                self@ == cleared.modes_done(modes@.take(i as int)),
                self@.wf(),
        {
            let (id, mode) = modes[i];
            proof {
                lemma_mode_done_wf(self@, id, mode);
                assert(modes@.take(i + 1).drop_last() =~= modes@.take(i as int));
            }
            self.finish_mode(id, mode);
        }
        assert(modes@.take(modes@.len() as int) =~= modes@);
        let ghost s1 = self@;

        let mut currents: Vec<(u32, u32)> = Vec::new();
        std::mem::swap(&mut currents, &mut self.pending_current_modes.entries);
        let ghost cleared = StateView { pending_current_modes: Seq::empty(), ..s1 };
        assert(self@ =~= cleared);
        assert(currents@ =~= s1.pending_current_modes);
        for i in 0..currents.len()
            invariant
                self@ == cleared.currents_done(currents@.take(i as int)),
                self@.wf(),
        {
            let (head_id, mode_id) = currents[i];
            proof {
                lemma_current_done_wf(self@, head_id, mode_id);
                assert(currents@.take(i + 1).drop_last() =~= currents@.take(i as int));
            }
            self.finish_current_mode(head_id, mode_id);
        }
        assert(currents@.take(currents@.len() as int) =~= currents@);
        let ghost s2 = self@;

        let mut heads: Vec<(u32, OutputHead)> = Vec::new();
        std::mem::swap(&mut heads, &mut self.pending_heads.entries);
        let ghost cleared = StateView { pending_heads: Seq::empty(), ..s2 };
        assert(self@ =~= cleared);
        let ghost given = heads@;
        assert(s2.pending_heads =~= Seq::new(given.len(), |k: int| (given[k].0, given[k].1@)));
        let ghost pending = s2.pending_heads;
        assert(pending.take(0) =~= Seq::empty());
        let mut i: usize = 0;
        let total: usize = heads.len();
        for entry in it: heads
            invariant
                it.seq() == given,
                i == it.index(),
                total == given.len(),
                i <= total,
                s2.wf(),
                pending == s2.pending_heads,
                pending == Seq::new(given.len(), |k: int| (given[k].0, given[k].1@)),
                self@ == cleared.heads_done(pending.take(i as int)),
                self@.wf(),
                self@.head_proxies == s2.head_proxies,
        {
            let (id, head) = entry;
            proof {
                assert(pending[i as int] == (id, head@));
                assert(pending.take(i + 1).drop_last() =~= pending.take(i as int));
                lemma_head_done_wf(self@, id, head@);
            }
            self.finish_head(id, head);
            i = i + 1;
        }
        assert(pending.take(total as int) =~= pending);
    }
}

/// Adds a mode to those that an output offers.
fn add_mode(head: &mut OutputHead, mode: OutputMode)
    ensures
        final(head)@ == with_mode(old(head)@, mode),
{
    head.modes.push(mode);
    if mode.preferred {
        head.preferred_mode = Some(mode);
    }
    assert(head@ =~= with_mode(old(head)@, mode));
}

// ---------------------------------------------------------------------------------------------
// Events
// ---------------------------------------------------------------------------------------------

/// What the compositor says of its output manager.
#[derive(Clone, Copy, PartialEq, Eq, Debug, Structural)]
pub enum ManagerEvent {
    /// An output is about to be announced.
    Head,
    /// The configuration with this serial number is complete.
    Done { serial: u32 },
    /// Output management has ended.
    Finished,
    /// Anything else.
    Other,
}

/// What the compositor says of an output.
#[derive(Clone, Debug)]
pub enum HeadEvent {
    Name { name: String },
    Description { description: String },
    PhysicalSize { width: i32, height: i32 },
    /// The output offers this mode.
    Mode { mode: u32 },
    /// Enabled unless the number is zero.
    Enabled { enabled: i32 },
    /// The output is in this mode.
    CurrentMode { mode: u32 },
    Position { x: i32, y: i32 },
    /// The number of a transform.
    Transform { transform: u32 },
    Scale { scale: Scale },
    /// The output was disconnected.
    Finished,
    Make { make: String },
    Model { model: String },
    SerialNumber { serial_number: String },
    /// On if the number is one.
    AdaptiveSync { state: u32 },
    /// Anything else.
    Other,
}

/// What the compositor says of a mode.
#[derive(Clone, Copy, PartialEq, Eq, Debug, Structural)]
pub enum ModeEvent {
    Size { width: i32, height: i32 },
    /// The refresh rate in millihertz.
    Refresh { refresh: i32 },
    Preferred,
    Finished,
    /// Anything else.
    Other,
}

/// What the compositor says of a configuration.
#[derive(Clone, Copy, PartialEq, Eq, Debug, Structural)]
pub enum ConfigurationEvent {
    Succeeded,
    Failed,
    Cancelled,
    /// Anything else.
    Other,
}

/// A mode of which nothing is known.
pub open spec fn unknown_mode() -> OutputMode {
    OutputMode { width: 0, height: 0, refresh_mhz: 0, preferred: false }
}

/// The count after this one, around the limit of the type.
pub open spec fn next_generation(generation: u64) -> u64 {
    if generation == u64::MAX {
        0
    } else {
        (generation + 1) as u64
    }
}

/// The output after an event that is about the output alone.
pub open spec fn told(head: HeadView, event: HeadEvent) -> HeadView {
    match event {
        HeadEvent::Name { name } => HeadView { name: name@, ..head },
        HeadEvent::Description { description } => HeadView { description: description@, ..head },
        HeadEvent::PhysicalSize { width, height } => HeadView {
            physical_size: Some((width, height)),
            ..head
        },
        HeadEvent::Enabled { enabled } => HeadView { enabled: enabled != 0, ..head },
        HeadEvent::Position { x, y } => HeadView { position: Some((x, y)), ..head },
        HeadEvent::Transform { transform } => HeadView {
            transform: Transform::of_wayland_value(transform),
            ..head
        },
        HeadEvent::Scale { scale } => HeadView { scale, ..head },
        HeadEvent::Make { make } => HeadView { make: make@, ..head },
        HeadEvent::Model { model } => HeadView { model: model@, ..head },
        HeadEvent::SerialNumber { serial_number } => HeadView {
            serial_number: serial_number@,
            ..head
        },
        HeadEvent::AdaptiveSync { state } => HeadView { adaptive_sync: Some(state == 1), ..head },
        _ => head,
    }
}

/// The modes of an output.
pub open spec fn modes_of(owners: Seq<(u32, u32)>, head_id: u32) -> Seq<u32>
    decreases owners.len(),
{
    if owners.len() == 0 {
        Seq::empty()
    } else {
        let rest = modes_of(owners.drop_last(), head_id);
        if owners.last().1 == head_id {
            rest.push(owners.last().0)
        } else {
            rest
        }
    }
}

/// The outputs without the first one that has this number.
pub open spec fn without_head(
    heads: Seq<(Seq<char>, HeadView)>,
    head_id: u32,
) -> Seq<(Seq<char>, HeadView)>
    decreases heads.len(),
{
    if heads.len() == 0 {
        heads
    } else if heads[0].1.id == head_id {
        heads.skip(1)
    } else {
        seq![heads[0]] + without_head(heads.skip(1), head_id)
    }
}

/// Where the first output with this number stands; the number of outputs if there is none.
pub open spec fn first_with_id(heads: Seq<(Seq<char>, HeadView)>, head_id: u32) -> int
    decreases heads.len(),
{
    if heads.len() == 0 || heads[0].1.id == head_id {
        0
    } else {
        1 + first_with_id(heads.skip(1), head_id)
    }
}

impl StateView {
    /// Where the output with this number stands in the last complete configuration: under the name that
    /// it was given last, or else at the first entry with the number. The number of outputs if there is
    /// none.
    pub open spec fn known_place(self, head_id: u32) -> int {
        let named = match lookup(self.head_id_to_name, head_id) {
            Some(name) => place(self.heads, name),
            None => self.heads.len() as int,
        };
        if named < self.heads.len() && self.heads[named].1.id == head_id {
            named
        } else {
            first_with_id(self.heads, head_id)
        }
    }

    /// The output with this number in the last complete configuration.
    pub open spec fn known(self, head_id: u32) -> Option<HeadView> {
        let at = self.known_place(head_id);
        if at < self.heads.len() {
            Some(self.heads[at].1)
        } else {
            None
        }
    }

    /// The output with this number as far as it was announced: as it is being announced, or else as it
    /// was in the last complete configuration.
    pub open spec fn announced(self, head_id: u32) -> HeadView {
        match lookup(self.pending_heads, head_id) {
            Some(head) => head,
            None => match self.known(head_id) {
                Some(head) => head,
                None => unknown_head(head_id),
            },
        }
    }

    /// The state after an event of an output that stays connected.
    pub open spec fn head_told(self, head_id: u32, event: HeadEvent) -> StateView {
        let next = StateView {
            pending_heads: put(
                self.pending_heads,
                head_id,
                told(self.announced(head_id), event),
            ),
            ..self
        };
        match event {
            HeadEvent::Name { name } => StateView {
                head_proxies: put(self.head_proxies, name@, head_id),
                head_id_to_name: put(self.head_id_to_name, head_id, name@),
                ..next
            },
            HeadEvent::Mode { mode } => StateView {
                mode_to_head: put(self.mode_to_head, mode, head_id),
                ..next
            },
            HeadEvent::CurrentMode { mode } => StateView {
                pending_current_modes: put(self.pending_current_modes, head_id, mode),
                ..next
            },
            _ => next,
        }
    }

    /// The state after an output was disconnected: it is gone, with its modes.
    pub open spec fn head_finished(self, head_id: u32) -> StateView {
        let owned = modes_of(self.mode_to_head, head_id);
        let sized = self.mode_proxies.filter(|mode: u32| owned.contains(mode));
        StateView {
            pending_heads: without(self.pending_heads, seq![head_id]),
            mode_to_head: without(self.mode_to_head, owned),
            mode_obj_to_data: without(self.mode_obj_to_data, owned),
            pending_current_modes: without(self.pending_current_modes, seq![head_id]),
            pending_modes: without(self.pending_modes, sized),
            mode_metadata: without(self.mode_metadata, sized),
            mode_proxies: self.mode_proxies.filter(|mode: u32| !owned.contains(mode)),
            head_id_to_name: without(self.head_id_to_name, seq![head_id]),
            heads: without_head(self.heads, head_id),
            configuration_generation: next_generation(self.configuration_generation),
            ..self
        }
    }

    /// The state after an event of an output.
    pub open spec fn after_head_event(self, head_id: u32, event: HeadEvent) -> StateView {
        if event is Finished {
            self.head_finished(head_id)
        } else {
            self.head_told(head_id, event)
        }
    }

    /// The state after an event of a mode.
    pub open spec fn after_mode_event(self, mode_id: u32, event: ModeEvent) -> StateView {
        let known = match lookup(self.pending_modes, mode_id) {
            Some(mode) => mode,
            None => unknown_mode(),
        };
        let next = match event {
            ModeEvent::Size { width, height } => OutputMode { width, height, ..known },
            ModeEvent::Refresh { refresh } => OutputMode { refresh_mhz: refresh, ..known },
            ModeEvent::Preferred => OutputMode { preferred: true, ..known },
            _ => known,
        };
        StateView {
            pending_modes: put(self.pending_modes, mode_id, next),
            mode_proxies: if event is Size && !self.mode_proxies.contains(mode_id) {
                self.mode_proxies.push(mode_id)
            } else {
                self.mode_proxies
            },
            ..self
        }
    }

    /// The state after an event of the output manager.
    pub open spec fn after_manager_event(self, event: ManagerEvent) -> StateView {
        match event {
            ManagerEvent::Done { serial } => {
                let done = StateView { last_serial: Some(serial), ..self }.finalized();
                StateView {
                    configuration_generation: next_generation(done.configuration_generation),
                    ..done
                }
            },
            ManagerEvent::Finished => StateView { available: false, ..self },
            _ => self,
        }
    }

    /// The state after an event of a configuration.
    pub open spec fn after_configuration_event(self, event: ConfigurationEvent) -> StateView {
        let outcome = match event {
            ConfigurationEvent::Succeeded => Some(ConfigurationOutcome::Succeeded),
            ConfigurationEvent::Failed => Some(ConfigurationOutcome::Failed),
            ConfigurationEvent::Cancelled => Some(ConfigurationOutcome::Cancelled),
            ConfigurationEvent::Other => None,
        };
        if outcome is Some {
            StateView { configuration_outcome: outcome, active_config: false, ..self }
        } else {
            self
        }
    }
}

/// An event of an output keeps the state well formed.
pub proof fn lemma_head_told_wf(s: StateView, head_id: u32, event: HeadEvent)
    requires
        s.wf(),
        !(event is Finished),
    ensures
        s.head_told(head_id, event).wf(),
{
    let t = s.head_told(head_id, event);
    let head = told(s.announced(head_id), event);
    put_then_lookup(s.pending_heads, head_id, head, head_id);
    place_is_the_first(s.pending_heads, head_id);
    lemma_known_place(s, head_id);
    if lookup(s.pending_heads, head_id) is None && s.known(head_id) is Some {
        let at = s.known_place(head_id);
        assert(s.heads[at].1.id == head_id);
    }
    match event {
        HeadEvent::Name { name } => {
            put_then_lookup(s.head_proxies, name@, head_id, name@);
            put_then_lookup(s.head_id_to_name, head_id, name@, head_id);
            assert forall|i: int| 0 <= i < t.heads.len() implies has_key(
                t.head_proxies,
                (#[trigger] t.heads[i]).0,
            ) by {
                put_then_lookup(s.head_proxies, name@, head_id, t.heads[i].0);
            }
            assert forall|i: int|
                0 <= i < t.pending_heads.len() && t.pending_heads[i].1.name.len()
                    > 0 implies has_key(t.head_proxies, (#[trigger] t.pending_heads[i]).1.name) by {
                put_then_lookup(s.head_proxies, name@, head_id, t.pending_heads[i].1.name);
            }
        },
        HeadEvent::Mode { mode } => {
            put_then_lookup(s.mode_to_head, mode, head_id, mode);
        },
        HeadEvent::CurrentMode { mode } => {
            put_then_lookup(s.pending_current_modes, head_id, mode, head_id);
        },
        _ => {},
    }
    assert(t.names_fit());
}

/// Taking an output out by its number takes out the entry where the first one stands.
pub proof fn lemma_without_head(heads: Seq<(Seq<char>, HeadView)>, head_id: u32, at: int)
    requires
        0 <= at <= heads.len(),
        forall|j: int| 0 <= j < at ==> (#[trigger] heads[j]).1.id != head_id,
        at < heads.len() ==> heads[at].1.id == head_id,
    ensures
        without_head(heads, head_id) == if at < heads.len() {
            heads.remove(at)
        } else {
            heads
        },
    decreases heads.len(),
{
    if heads.len() > 0 {
        if at == 0 {
            assert(heads.skip(1) =~= heads.remove(0));
        } else {
            let rest = heads.skip(1);
            assert forall|j: int| 0 <= j < at - 1 implies (#[trigger] rest[j]).1.id
                != head_id by {
                assert(rest[j] == heads[j + 1]);
            }
            lemma_without_head(rest, head_id, at - 1);
            if at < heads.len() {
                assert(seq![heads[0]] + rest.remove(at - 1) =~= heads.remove(at));
            } else {
                assert(seq![heads[0]] + rest =~= heads);
            }
        }
    }
}

proof fn lemma_filter_keeps_distinct(modes: Seq<u32>, keep: spec_fn(u32) -> bool)
    requires
        modes.no_duplicates(),
    ensures
        modes.filter(keep).no_duplicates(),
        forall|mode: u32| #[trigger] modes.filter(keep).contains(mode) <==> modes.contains(mode) && keep(mode),
    decreases modes.len(),
{
    reveal(Seq::filter);
    if modes.len() > 0 {
        let shorter = modes.drop_last();
        lemma_filter_keeps_distinct(shorter, keep);
        let kept = shorter.filter(keep);
        let result = modes.filter(keep);
        assert(!shorter.contains(modes.last()));
        assert forall|mode: u32| #[trigger] result.contains(mode) <==> modes.contains(mode) && keep(mode) by {
            if modes.contains(mode) {
                let k = choose|k: int| 0 <= k < modes.len() && modes[k] == mode;
                if k < shorter.len() {
                    assert(shorter[k] == mode);
                    assert(shorter.contains(mode));
                }
            }
            if shorter.contains(mode) {
                let k = choose|k: int| 0 <= k < shorter.len() && shorter[k] == mode;
                assert(modes[k] == mode);
            }
            if keep(modes.last()) {
                assert(result == kept.push(modes.last()));
                if kept.contains(mode) {
                    let k = choose|k: int| 0 <= k < kept.len() && kept[k] == mode;
                    assert(result[k] == mode);
                }
                assert(result[kept.len() as int] == modes.last());
                if result.contains(mode) {
                    let k = choose|k: int| 0 <= k < result.len() && result[k] == mode;
                    if k < kept.len() {
                        assert(kept[k] == mode);
                        assert(kept.contains(mode));
                    }
                }
                assert(modes[modes.len() - 1] == modes.last());
            }
        }
        if keep(modes.last()) {
            assert(!kept.contains(modes.last()));
        }
    }
}

proof fn lemma_head_finished_wf(s: StateView, head_id: u32)
    requires
        s.wf(),
    ensures
        s.head_finished(head_id).wf(),
{
    let t = s.head_finished(head_id);
    let owned = modes_of(s.mode_to_head, head_id);
    let sized = s.mode_proxies.filter(|mode: u32| owned.contains(mode));
    without_then_lookup(s.pending_heads, seq![head_id], head_id);
    without_then_lookup(s.mode_to_head, owned, 0);
    without_then_lookup(s.mode_obj_to_data, owned, 0);
    without_then_lookup(s.pending_current_modes, seq![head_id], head_id);
    without_then_lookup(s.pending_modes, sized, 0);
    without_then_lookup(s.mode_metadata, sized, 0);
    without_then_lookup(s.head_id_to_name, seq![head_id], head_id);
    lemma_filter_keeps_distinct(s.mode_proxies, |mode: u32| !owned.contains(mode));
    lemma_without_head_keeps(s.heads, head_id);
    assert(distinct(t.heads));
    assert forall|i: int| 0 <= i < t.heads.len() implies {
        &&& (#[trigger] t.heads[i]).1.name == t.heads[i].0
        &&& t.heads[i].0.len() > 0
        &&& has_key(t.head_proxies, t.heads[i].0)
    } by {
        let k = choose|k: int| 0 <= k < s.heads.len() && s.heads[k] == t.heads[i];
        assert(s.heads[k] == t.heads[i]);
    }
    lemma_filter_is_picked(s.pending_heads, seq![head_id]);
    assert forall|i: int| 0 <= i < t.pending_heads.len() implies {
        &&& (#[trigger] t.pending_heads[i]).1.id == t.pending_heads[i].0
        &&& t.pending_heads[i].1.name.len() > 0 ==> has_key(
            t.head_proxies,
            t.pending_heads[i].1.name,
        )
    } by {
        let k = choose|k: int|
            0 <= k < s.pending_heads.len() && s.pending_heads[k] == t.pending_heads[i];
        assert(s.pending_heads[k] == t.pending_heads[i]);
    }
}

proof fn lemma_without_head_keeps(heads: Seq<(Seq<char>, HeadView)>, head_id: u32)
    ensures
        forall|i: int|
            0 <= i < without_head(heads, head_id).len() ==> exists|k: int|
                0 <= k < heads.len() && heads[k] == #[trigger] without_head(heads, head_id)[i],
        distinct(heads) ==> distinct(without_head(heads, head_id)),
{
    let at = first_with_id(heads, head_id);
    lemma_first_with_id(heads, head_id);
    lemma_without_head(heads, head_id, at);
    let result = without_head(heads, head_id);
    assert forall|i: int| 0 <= i < result.len() implies exists|k: int|
        0 <= k < heads.len() && heads[k] == #[trigger] result[i] by {
        if i < at {
            assert(heads[i] == result[i]);
        } else {
            assert(heads[i + 1] == result[i]);
        }
    }
    if distinct(heads) && at < heads.len() {
        assert forall|i: int, j: int|
            #![trigger result[i], result[j]]
            0 <= i < j < result.len() implies result[i].0 != result[j].0 by {
            let a = if i < at {
                i
            } else {
                i + 1
            };
            let b = if j < at {
                j
            } else {
                j + 1
            };
            assert(result[i] == heads[a] && result[j] == heads[b]);
        }
    }
}

/// An output with this number stands where `known_place` says.
pub proof fn lemma_known_place(s: StateView, head_id: u32)
    ensures
        0 <= s.known_place(head_id) <= s.heads.len(),
        s.known_place(head_id) < s.heads.len() ==> s.heads[s.known_place(head_id)].1.id == head_id,
{
    lemma_first_with_id(s.heads, head_id);
    if let Some(name) = lookup(s.head_id_to_name, head_id) {
        place_is_the_first(s.heads, name);
    }
}

/// What `first_with_id` means: the output stands there, and none with its number before.
pub proof fn lemma_first_with_id(heads: Seq<(Seq<char>, HeadView)>, head_id: u32)
    ensures
        0 <= first_with_id(heads, head_id) <= heads.len(),
        forall|j: int|
            0 <= j < first_with_id(heads, head_id) ==> (#[trigger] heads[j]).1.id != head_id,
        first_with_id(heads, head_id) < heads.len() ==> heads[first_with_id(
            heads,
            head_id,
        )].1.id == head_id,
    decreases heads.len(),
{
    if heads.len() > 0 && heads[0].1.id != head_id {
        let rest = heads.skip(1);
        lemma_first_with_id(rest, head_id);
        assert forall|j: int| 0 <= j < first_with_id(heads, head_id) implies (
        #[trigger] heads[j]).1.id != head_id by {
            if j > 0 {
                assert(heads[j] == rest[j - 1]);
            }
        }
    }
}

impl WaylandState {
    /// Takes note of a global of the compositor. True if it is the output manager, which is to be
    /// bound then.
    pub fn registry_event(&mut self, interface: &str) -> (bind: bool)
        requires
            old(self)@.wf(),
        ensures
            bind == (interface@ == "zwlr_output_manager_v1"@),
            final(self)@ == (StateView {
                available: old(self)@.available || bind,
                ..old(self)@
            }),
            final(self)@.wf(),
    {
        if same_text(interface, "zwlr_output_manager_v1") {
            self.available = true;
            true
        } else {
            false
        }
    }

    /// Takes note of an event of the output manager.
    pub fn manager_event(&mut self, event: ManagerEvent)
        requires
            old(self)@.wf(),
        ensures
            final(self)@ == old(self)@.after_manager_event(event),
            final(self)@.wf(),
    {
        match event {
            ManagerEvent::Done { serial } => {
                self.last_serial = Some(serial);
                assert(self@ =~= StateView { last_serial: Some(serial), ..old(self)@ });
                self.finalize_pending();
                self.configuration_generation = self.configuration_generation.wrapping_add(1);
            },
            ManagerEvent::Finished => {
                self.available = false;
            },
            ManagerEvent::Head => {},
            ManagerEvent::Other => {},
        }
        assert(self@ =~= old(self)@.after_manager_event(event));
    }

    /// Where the output with this number stands in the last complete configuration.
    fn find_known(&self, head_id: u32) -> (at: usize)
        ensures
            at == self@.known_place(head_id),
            at <= self.heads.entries@.len(),
    {
        if let Some(name) = self.head_id_to_name.get(head_id) {
            let at = self.heads.find(name.as_str());
            if at < self.heads.entries.len() && self.heads.entries[at].1.id == head_id {
                assert(self.heads@[at as int].1.id == head_id);
                return at;
            }
            assert(at < self.heads@.len() ==> self.heads@[at as int].1.id != head_id);
        }
        let mut at: usize = 0;
        while at < self.heads.entries.len() && self.heads.entries[at].1.id != head_id
            invariant
                at <= self.heads.entries@.len(),
                forall|j: int| 0 <= j < at ==> (#[trigger] self.heads@[j]).1.id != head_id,
            decreases self.heads.entries@.len() - at,
        {
            assert(self.heads@[at as int].1.id != head_id);
            at = at + 1;
        }
        proof {
            lemma_first_with_id(self.heads@, head_id);
            let first = first_with_id(self.heads@, head_id);
            if first < at {
                assert(self.heads@[first].1.id != head_id);
            }
            if at < first {
                assert(self.heads@[at as int].1.id != head_id);
            }
        }
        at
    }

    /// The output with this number in the last complete configuration, or one of which nothing but its
    /// number is known.
    fn known_head(&self, head_id: u32) -> (head: OutputHead)
        ensures
            head@ == match self@.known(head_id) {
                Some(known) => known,
                None => unknown_head(head_id),
            },
    {
        let at = self.find_known(head_id);
        if at < self.heads.entries.len() {
            self.heads.entries[at].1.duplicate()
        } else {
            OutputHead::unknown(head_id)
        }
    }

    /// Takes note of an event of an output. What it says counts once the configuration is complete; what
    /// was known of the output otherwise stays.
    pub fn head_event(&mut self, head_id: u32, event: HeadEvent)
        requires
            old(self)@.wf(),
        ensures
            final(self)@ == old(self)@.after_head_event(head_id, event),
            final(self)@.wf(),
    {
        if let HeadEvent::Finished = event {
            self.finish_connection(head_id);
            return;
        }
        proof {
            lemma_head_told_wf(self@, head_id, event);
        }
        let at = self.pending_heads.find(head_id);
        if at == self.pending_heads.entries.len() {
            let known = self.known_head(head_id);
            self.pending_heads.entries.push((head_id, known));
        }
        let ghost known = self@;
        let ghost before = old(self)@;
        assert(known.pending_heads[at as int] == (head_id, before.announced(head_id)));
        let head = &mut self.pending_heads.entries[at].1;
        match event {
            HeadEvent::Name { name } => {
                head.name = name.clone();
                self.head_proxies.insert(name.clone(), head_id);
                self.head_id_to_name.insert(head_id, name);
            },
            HeadEvent::Description { description } => {
                head.description = description;
            },
            HeadEvent::PhysicalSize { width, height } => {
                head.physical_size = Some((width, height));
            },
            HeadEvent::Mode { mode } => {
                self.mode_to_head.insert(mode, head_id);
            },
            HeadEvent::Enabled { enabled } => {
                head.enabled = enabled != 0;
            },
            HeadEvent::CurrentMode { mode } => {
                self.pending_current_modes.insert(head_id, mode);
            },
            HeadEvent::Position { x, y } => {
                head.position = Some((x, y));
            },
            HeadEvent::Transform { transform } => {
                head.transform = Transform::from_wayland_transform(transform);
            },
            HeadEvent::Scale { scale } => {
                head.scale = scale;
            },
            HeadEvent::Finished => {},
            HeadEvent::Make { make } => {
                head.make = make;
            },
            HeadEvent::Model { model } => {
                head.model = model;
            },
            HeadEvent::SerialNumber { serial_number } => {
                head.serial_number = serial_number;
            },
            HeadEvent::AdaptiveSync { state } => {
                head.adaptive_sync = Some(state == 1);
            },
            HeadEvent::Other => {},
        }
        assert(self@.pending_heads =~= put(
            before.pending_heads,
            head_id,
            told(before.announced(head_id), event),
        ));
        assert(self@ =~= before.head_told(head_id, event));
    }

    /// Takes a disconnected output out, with its modes. This changes the configuration, though the
    /// compositor does not announce a complete one.
    fn finish_connection(&mut self, head_id: u32)
        requires
            old(self)@.wf(),
        ensures
            final(self)@ == old(self)@.head_finished(head_id),
            final(self)@.wf(),
    {
        let ghost before = self@;
        self.pending_heads.remove(head_id);
        let mut owned: Vec<u32> = Vec::new();
        for i in 0..self.mode_to_head.entries.len()
            invariant
                owned@ == modes_of(self.mode_to_head@.take(i as int), head_id),
        {
            proof {
                assert(self.mode_to_head@.take(i + 1).drop_last() =~= self.mode_to_head@.take(
                    i as int,
                ));
            }
            let (mode_id, owner) = self.mode_to_head.entries[i];
            if owner == head_id {
                owned.push(mode_id);
            }
        }
        assert(self.mode_to_head@.take(self.mode_to_head@.len() as int) =~= self.mode_to_head@);
        self.mode_to_head.remove_all(&owned);
        self.mode_obj_to_data.remove_all(&owned);
        self.pending_current_modes.remove(head_id);
        let mut sized: Vec<u32> = Vec::new();
        let mut others: Vec<u32> = Vec::new();
        let ghost mine = |mode: u32| owned@.contains(mode);
        let ghost theirs = |mode: u32| !owned@.contains(mode);
        proof {
            reveal(Seq::filter);
        }
        for i in 0..self.mode_proxies.len()
            invariant
                mine == (|mode: u32| owned@.contains(mode)),
                theirs == (|mode: u32| !owned@.contains(mode)),
                sized@ == self.mode_proxies@.take(i as int).filter(mine),
                others@ == self.mode_proxies@.take(i as int).filter(theirs),
        {
            let mode_id: u32 = self.mode_proxies[i];
            proof {
                reveal(Seq::filter);
                assert(self.mode_proxies@.take(i + 1).drop_last() =~= self.mode_proxies@.take(
                    i as int,
                ));
            }
            if contains_key(&owned, mode_id) {
                sized.push(mode_id);
            } else {
                others.push(mode_id);
            }
        }
        assert(self.mode_proxies@.take(self.mode_proxies@.len() as int) =~= self.mode_proxies@);
        self.pending_modes.remove_all(&sized);
        self.mode_metadata.remove_all(&sized);
        self.mode_proxies = others;
        self.head_id_to_name.remove(head_id);
        let mut at: usize = 0;
        while at < self.heads.entries.len() && self.heads.entries[at].1.id != head_id
            invariant
                at <= self.heads.entries@.len(),
                forall|j: int| 0 <= j < at ==> (#[trigger] self.heads@[j]).1.id != head_id,
            decreases self.heads.entries@.len() - at,
        {
            assert(self.heads@[at as int].1.id != head_id);
            at = at + 1;
        }
        proof {
            lemma_without_head(self.heads@, head_id, at as int);
        }
        let ghost listed = self.heads@;
        if at < self.heads.entries.len() {
            self.heads.entries.remove(at);
            assert(self.heads@ =~= listed.remove(at as int));
        }
        self.configuration_generation = self.configuration_generation.wrapping_add(1);
        proof {
            lemma_head_finished_wf(before, head_id);
        }
        assert(self@ =~= before.head_finished(head_id));
    }

    /// Takes note of an event of a mode.
    pub fn mode_event(&mut self, mode_id: u32, event: ModeEvent)
        requires
            old(self)@.wf(),
        ensures
            final(self)@ == old(self)@.after_mode_event(mode_id, event),
            final(self)@.wf(),
    {
        let mut mode: OutputMode = match self.pending_modes.get(mode_id) {
            Some(mode) => *mode,
            None => OutputMode { width: 0, height: 0, refresh_mhz: 0, preferred: false },
        };
        match event {
            ModeEvent::Size { width, height } => {
                mode.width = width;
                mode.height = height;
                if !contains_key(&self.mode_proxies, mode_id) {
                    self.mode_proxies.push(mode_id);
                }
            },
            ModeEvent::Refresh { refresh } => {
                mode.refresh_mhz = refresh;
            },
            ModeEvent::Preferred => {
                mode.preferred = true;
            },
            ModeEvent::Finished => {},
            ModeEvent::Other => {},
        }
        self.pending_modes.insert(mode_id, mode);
        proof {
            put_then_lookup(old(self)@.pending_modes, mode_id, mode, mode_id);
        }
        assert(self@ =~= old(self)@.after_mode_event(mode_id, event));
        assert(self@.names_fit());
    }

    /// Takes note of the compositor's answer to a configuration.
    pub fn configuration_event(&mut self, event: ConfigurationEvent)
        requires
            old(self)@.wf(),
        ensures
            final(self)@ == old(self)@.after_configuration_event(event),
            final(self)@.wf(),
    {
        match event {
            ConfigurationEvent::Succeeded => {
                self.configuration_outcome = Some(ConfigurationOutcome::Succeeded);
                self.active_config = false;
            },
            ConfigurationEvent::Failed => {
                self.configuration_outcome = Some(ConfigurationOutcome::Failed);
                self.active_config = false;
            },
            ConfigurationEvent::Cancelled => {
                self.configuration_outcome = Some(ConfigurationOutcome::Cancelled);
                self.active_config = false;
            },
            ConfigurationEvent::Other => {},
        }
    }
}

// ---------------------------------------------------------------------------------------------
// Requests
// ---------------------------------------------------------------------------------------------

/// One request of a configuration. Outputs and modes are given by their numbers; the requests that
/// follow `EnableHead` are about the output that it names.
#[derive(Clone, Copy, PartialEq, Eq, Debug, Structural)]
pub enum ConfigurationRequest {
    EnableHead { head: u32 },
    SetMode { mode: u32 },
    SetPosition { x: i32, y: i32 },
    SetTransform { transform: Transform },
    SetScale { scale: Scale },
    SetAdaptiveSync { enabled: bool },
    DisableHead { head: u32 },
}

/// Why a configuration could not be made, or was not applied.
#[derive(Clone, Copy, PartialEq, Eq, Debug, Structural)]
pub enum ProtocolError {
    NoOutputManager,
    NoSerial,
    NoConfiguration,
    NoHead,
    NoHeadProxy,
    NothingToApply,
    NothingToTest,
    Failed,
    Cancelled,
    NoAnswer,
}

/// The text of an error about the output of this name.
pub open spec fn protocol_message(error: ProtocolError, head_name: Seq<char>) -> Seq<char> {
    match error {
        ProtocolError::NoOutputManager => "Output manager not available"@,
        ProtocolError::NoSerial => "No completed output configuration serial is available"@,
        ProtocolError::NoConfiguration => "No active configuration"@,
        ProtocolError::NoHead => "Head '"@ + head_name + "' not found"@,
        ProtocolError::NoHeadProxy => "Head proxy for '"@ + head_name + "' not found"@,
        ProtocolError::NothingToApply => "No active configuration to apply"@,
        ProtocolError::NothingToTest => "No active configuration to test"@,
        ProtocolError::Failed => "Output configuration failed"@,
        ProtocolError::Cancelled => "Output configuration was cancelled"@,
        ProtocolError::NoAnswer => "Compositor did not report an output configuration result"@,
    }
}

impl ProtocolError {
    /// The text of an error about the output of this name.
    pub fn message(self, head_name: &str) -> (text: String)
        ensures
            text@ == protocol_message(self, head_name@),
    {
        match self {
            ProtocolError::NoOutputManager => "Output manager not available".to_owned(),
            ProtocolError::NoSerial => {
                "No completed output configuration serial is available".to_owned()
            },
            ProtocolError::NoConfiguration => "No active configuration".to_owned(),
            ProtocolError::NoHead => quoted("Head '", head_name, "' not found"),
            ProtocolError::NoHeadProxy => quoted("Head proxy for '", head_name, "' not found"),
            ProtocolError::NothingToApply => "No active configuration to apply".to_owned(),
            ProtocolError::NothingToTest => "No active configuration to test".to_owned(),
            ProtocolError::Failed => "Output configuration failed".to_owned(),
            ProtocolError::Cancelled => "Output configuration was cancelled".to_owned(),
            ProtocolError::NoAnswer => {
                "Compositor did not report an output configuration result".to_owned()
            },
        }
    }
}

/// Whether two modes have the same size and rate.
pub open spec fn same_picture(a: OutputMode, b: OutputMode) -> bool {
    a.width == b.width && a.height == b.height && a.refresh_mhz == b.refresh_mhz
}

impl StateView {
    /// The first of these modes that has the size and rate of `wanted`, whose size was announced,
    /// and that belongs to this output.
    pub open spec fn first_fitting(
        self,
        modes: Seq<(u32, OutputMode)>,
        head_id: u32,
        wanted: OutputMode,
    ) -> Option<u32>
        decreases modes.len(),
    {
        if modes.len() == 0 {
            None
        } else if same_picture(modes[0].1, wanted) && self.mode_proxies.contains(modes[0].0)
            && lookup(self.mode_to_head, modes[0].0) == Some(head_id) {
            Some(modes[0].0)
        } else {
            self.first_fitting(modes.skip(1), head_id, wanted)
        }
    }

    /// The mode object that `wanted` means at the output of this name.
    pub open spec fn mode_object(self, head_name: Seq<char>, wanted: OutputMode) -> Option<u32> {
        match lookup(self.heads, head_name) {
            Some(head) => self.first_fitting(self.mode_metadata, head.id, wanted),
            None => None,
        }
    }

    /// Why no output of this name can be configured.
    pub open spec fn configure_fault(self, head_name: Seq<char>) -> Option<ProtocolError> {
        if !self.active_config {
            Some(ProtocolError::NoConfiguration)
        } else if !has_key(self.heads, head_name) {
            Some(ProtocolError::NoHead)
        } else if !has_key(self.head_proxies, head_name) {
            Some(ProtocolError::NoHeadProxy)
        } else {
            None
        }
    }

    /// The requests that configure an output: it is disabled, or it is enabled and gets every
    /// setting that there is. A mode that the output does not offer is left out.
    pub open spec fn head_requests(
        self,
        head_name: Seq<char>,
        config: HeadConfiguration,
    ) -> Seq<ConfigurationRequest> {
        let head = lookup(self.head_proxies, head_name)->0;
        if !config.enabled {
            seq![ConfigurationRequest::DisableHead { head }]
        } else {
            let mode = match config.mode {
                Some(wanted) => self.mode_object(head_name, wanted),
                None => None,
            };
            seq![ConfigurationRequest::EnableHead { head }] + match mode {
                Some(mode) => seq![ConfigurationRequest::SetMode { mode }],
                None => seq![],
            } + match config.position {
                Some((x, y)) => seq![ConfigurationRequest::SetPosition { x, y }],
                None => seq![],
            } + match config.transform {
                Some(transform) => seq![ConfigurationRequest::SetTransform { transform }],
                None => seq![],
            } + match config.scale {
                Some(scale) => seq![ConfigurationRequest::SetScale { scale }],
                None => seq![],
            } + match config.adaptive_sync {
                Some(enabled) => seq![ConfigurationRequest::SetAdaptiveSync { enabled }],
                None => seq![],
            }
        }
    }
}

impl WaylandState {
    /// Begins a configuration. The result is the serial number to create it with.
    pub fn create_configuration(&mut self) -> (serial: Result<u32, ProtocolError>)
        requires
            old(self)@.wf(),
        ensures
            serial == match old(self)@.last_serial {
                _ if !old(self)@.available => Err::<u32, ProtocolError>(
                    ProtocolError::NoOutputManager,
                ),
                Some(number) => Ok(number),
                None => Err(ProtocolError::NoSerial),
            },
            final(self)@ == if serial is Ok {
                (StateView { active_config: true, configuration_outcome: None, ..old(self)@ })
            } else {
                old(self)@
            },
            final(self)@.wf(),
    {
        if !self.available {
            return Err(ProtocolError::NoOutputManager);
        }
        match self.last_serial {
            Some(serial) => {
                self.active_config = true;
                self.configuration_outcome = None;
                Ok(serial)
            },
            None => Err(ProtocolError::NoSerial),
        }
    }

    /// The requests that configure the output of this name.
    pub fn configure_head(&self, head_name: &str, head_config: &HeadConfiguration) -> (requests:
        Result<Vec<ConfigurationRequest>, ProtocolError>)
        ensures
            match requests {
                Ok(list) => self@.configure_fault(head_name@) is None && list@
                    == self@.head_requests(head_name@, *head_config),
                Err(error) => self@.configure_fault(head_name@) == Some(error),
            },
    {
        if !self.active_config {
            return Err(ProtocolError::NoConfiguration);
        }
        if self.heads.get(head_name).is_none() {
            return Err(ProtocolError::NoHead);
        }
        let head: u32 = match self.head_proxies.get(head_name) {
            Some(head) => *head,
            None => {
                return Err(ProtocolError::NoHeadProxy);
            },
        };
        let mut requests: Vec<ConfigurationRequest> = Vec::new();
        if head_config.enabled {
            requests.push(ConfigurationRequest::EnableHead { head });
            if let Some(wanted) = head_config.mode {
                if let Some(mode) = self.find_mode_proxy(head_name, &wanted) {
                    requests.push(ConfigurationRequest::SetMode { mode });
                }
            }
            if let Some((x, y)) = head_config.position {
                requests.push(ConfigurationRequest::SetPosition { x, y });
            }
            if let Some(transform) = head_config.transform {
                requests.push(ConfigurationRequest::SetTransform { transform });
            }
            if let Some(scale) = head_config.scale {
                requests.push(ConfigurationRequest::SetScale { scale });
            }
            if let Some(enabled) = head_config.adaptive_sync {
                requests.push(ConfigurationRequest::SetAdaptiveSync { enabled });
            }
        } else {
            requests.push(ConfigurationRequest::DisableHead { head });
        }
        assert(requests@ =~= self@.head_requests(head_name@, *head_config));
        Ok(requests)
    }

    /// The mode object that `desired_mode` means at the output of this name.
    pub fn find_mode_proxy(&self, head_name: &str, desired_mode: &OutputMode) -> (mode: Option<u32>)
        ensures
            mode == self@.mode_object(head_name@, *desired_mode),
    {
        let head_id: u32 = match self.heads.get(head_name) {
            Some(head) => head.id,
            None => {
                return None;
            },
        };
        let ghost all = self.mode_metadata@;
        assert(all.skip(0) =~= all);
        for i in 0..self.mode_metadata.entries.len()
            invariant
                all == self.mode_metadata@,
                self@.first_fitting(all, head_id, *desired_mode) == self@.first_fitting(
                    all.skip(i as int),
                    head_id,
                    *desired_mode,
                ),
                lookup(self@.heads, head_name@) is Some,
                lookup(self@.heads, head_name@)->0.id == head_id,
        {
            let (mode_id, mode) = self.mode_metadata.entries[i];
            assert(all.skip(i as int)[0] == (mode_id, mode));
            assert(all.skip(i as int).skip(1) =~= all.skip(i + 1));
            if mode.width == desired_mode.width && mode.height == desired_mode.height
                && mode.refresh_mhz == desired_mode.refresh_mhz {
                if contains_key(&self.mode_proxies, mode_id) {
                    if let Some(owner) = self.mode_to_head.get(mode_id) {
                        if *owner == head_id {
                            return Some(mode_id);
                        }
                    }
                }
            }
        }
        None
    }

    /// Checks that there is a configuration to apply.
    pub fn apply_configuration(&self) -> (r: Result<(), ProtocolError>)
        ensures
            r == if self@.active_config {
                Ok::<(), ProtocolError>(())
            } else {
                Err(ProtocolError::NothingToApply)
            },
    {
        if self.active_config {
            Ok(())
        } else {
            Err(ProtocolError::NothingToApply)
        }
    }

    /// Checks that there is a configuration to test.
    pub fn test_configuration(&self) -> (r: Result<(), ProtocolError>)
        ensures
            r == if self@.active_config {
                Ok::<(), ProtocolError>(())
            } else {
                Err(ProtocolError::NothingToTest)
            },
    {
        if self.active_config {
            Ok(())
        } else {
            Err(ProtocolError::NothingToTest)
        }
    }

    /// Whether the compositor has answered the last configuration.
    pub fn has_configuration_outcome(&self) -> (answered: bool)
        ensures
            answered == (self@.configuration_outcome is Some),
    {
        self.configuration_outcome.is_some()
    }

    /// Takes the compositor's answer to the last configuration.
    pub fn take_configuration_result(&mut self) -> (r: Result<(), ProtocolError>)
        requires
            old(self)@.wf(),
        ensures
            r == verdict(old(self)@.configuration_outcome),
            final(self)@ == (StateView { configuration_outcome: None, ..old(self)@ }),
            final(self)@.wf(),
    {
        let outcome = self.configuration_outcome;
        self.configuration_outcome = None;
        match outcome {
            Some(ConfigurationOutcome::Succeeded) => Ok(()),
            Some(ConfigurationOutcome::Failed) => Err(ProtocolError::Failed),
            Some(ConfigurationOutcome::Cancelled) => Err(ProtocolError::Cancelled),
            None => Err(ProtocolError::NoAnswer),
        }
    }

    /// Looks for the compositor's answer while it is awaited. None as long as there is no answer
    /// and the time is not up; the answer, or that there was none, otherwise.
    pub fn poll_configuration_result(&mut self, expired: bool) -> (r: Option<
        Result<(), ProtocolError>,
    >)
        requires
            old(self)@.wf(),
        ensures
            r == polled(old(self)@.configuration_outcome, expired),
            final(self)@ == (StateView { configuration_outcome: None, ..old(self)@ }),
            final(self)@.wf(),
    {
        if self.has_configuration_outcome() || expired {
            Some(self.take_configuration_result())
        } else {
            None
        }
    }
}

/// What is known of the answer to a configuration while it is awaited.
pub open spec fn polled(outcome: Option<ConfigurationOutcome>, expired: bool) -> Option<
    Result<(), ProtocolError>,
> {
    if outcome is Some || expired {
        Some(verdict(outcome))
    } else {
        None
    }
}

/// What an answer to a configuration comes to.
pub open spec fn verdict(outcome: Option<ConfigurationOutcome>) -> Result<(), ProtocolError> {
    match outcome {
        Some(ConfigurationOutcome::Succeeded) => Ok(()),
        Some(ConfigurationOutcome::Failed) => Err(ProtocolError::Failed),
        Some(ConfigurationOutcome::Cancelled) => Err(ProtocolError::Cancelled),
        None => Err(ProtocolError::NoAnswer),
    }
}

/// A rate in whole hertz is at most half a hertz off, and a whole rate is exact.
pub proof fn whole_hertz_are_the_nearest(millihertz: nat)
    ensures
        -500 <= whole_hertz(millihertz) * 1000 - millihertz <= 500,
        millihertz % 1000 == 0 ==> whole_hertz(millihertz) * 1000 == millihertz,
{
}

} // verus!
