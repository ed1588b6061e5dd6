//! Spring animations of CSS properties: the bookkeeping of the animation
//! master control, of the animated properties and of the elements they
//! animate.
//!
//! The springs themselves (`modulator`), the per-frame timing and every
//! number that is interpolated are floating point and stay with the caller;
//! so do the component state store and the DOM. What is decided here is which
//! properties are animated, when the frame loop must run, halt or restart, and
//! how a value's numbers are taken apart and put back.
use vstd::prelude::*;
use crate::number_template::{
    interleave, numbers_of, replace_numbers, replaced, strings_view, template_of, number_texts,
    template_texts,
};
use crate::prop_map::PropMap;

verus! {

/// `web_sys::HtmlElement`, carried through without looking inside.
#[verifier::external_type_specification]
#[verifier::external_body]
pub struct ExHtmlElement(web_sys::HtmlElement);

/// The bit pattern of the `f32` 0.2, the ideal time of a new spring.
pub const SPRING_IDEAL_TIME_BITS: u32 = 0x3e4c_cccd;

/// The bit pattern of the `f32` 0.1, the ideal time of a mapped spring.
pub const MAPPED_IDEAL_TIME_BITS: u32 = 0x3dcc_cccd;

/// What the master control has been told to do.
#[derive(PartialEq, Eq, Structural, Clone, Copy, Debug)]
pub enum AMCCommand {
    DoNothing,
    Stop,
}

impl Default for AMCCommand {
    fn default() -> (r: Self)
        ensures
            r == AMCCommand::DoNothing,
    {
        AMCCommand::DoNothing
    }
}

/// Whether the `requestAnimationFrame` loop is running.
#[derive(PartialEq, Eq, Structural, Clone, Copy, Debug)]
pub enum RafStatus {
    Running,
    Stopped,
}

impl Default for RafStatus {
    fn default() -> (r: Self)
        ensures
            r == RafStatus::Stopped,
    {
        RafStatus::Stopped
    }
}

/// What a frame of the animation loop does.
#[derive(PartialEq, Eq, Structural, Clone, Copy, Debug)]
pub enum FrameStep {
    /// Stop the loop: no frame is requested; the loop forgets its last frame time.
    Halt,
    /// First frame after a pause: remember its time and request the next frame.
    Prime,
    /// Advance the springs, render, retire the settled properties and request
    /// the next frame.
    Advance,
}

/// The state of the master control, as a value.
pub struct AmcState {
    pub properties: Seq<u64>,
    pub command: AMCCommand,
    pub raf_status: RafStatus,
}

/// No property is animated twice.
pub open spec fn distinct_ids(s: Seq<u64>) -> bool {
    forall|i: int, j: int| 0 <= i < s.len() && 0 <= j < s.len() && i != j ==> #[trigger] s[i] != #[trigger] s[j]
}

/// `start` of a property: it joins the animated properties unless it is one
/// already, and the loop is asked for a frame exactly when it was stopped;
/// afterwards it runs.
pub open spec fn start_spec(s: AmcState, id: u64) -> (AmcState, bool) {
    (
        AmcState {
            properties: if s.properties.contains(id) { s.properties } else { s.properties.push(id) },
            command: s.command,
            raf_status: RafStatus::Running,
        },
        s.raf_status == RafStatus::Stopped,
    )
}

/// Whether a frame halts the loop: a stop was asked for, or nothing is left to
/// animate.
pub open spec fn halts(s: AmcState) -> bool {
    s.command == AMCCommand::Stop || s.properties.len() == 0
}

/// The start of a frame; `primed` tells whether the loop holds the time of a
/// previous frame.
pub open spec fn begin_frame_spec(s: AmcState, primed: bool) -> (AmcState, FrameStep) {
    if halts(s) {
        (AmcState { raf_status: RafStatus::Stopped, ..s }, FrameStep::Halt)
    } else if !primed {
        (s, FrameStep::Prime)
    } else {
        (s, FrameStep::Advance)
    }
}

/// `props` without the ids in `settled`, in the same order.
pub open spec fn without_ids(props: Seq<u64>, settled: Seq<u64>) -> Seq<u64> {
    props.filter(|p: u64| !settled.contains(p))
}

/// The end of a frame: the properties whose springs have settled leave.
pub open spec fn retire_spec(s: AmcState, settled: Seq<u64>) -> AmcState {
    AmcState { properties: without_ids(s.properties, settled), ..s }
}

/// `without_ids` over a sequence, one element at a time from the end.
pub(crate) proof fn lemma_without_ids_step(props: Seq<u64>, settled: Seq<u64>)
    requires
        props.len() > 0,
    ensures
        without_ids(props, settled) == if settled.contains(props.last()) {
            without_ids(props.drop_last(), settled)
        } else {
            without_ids(props.drop_last(), settled).push(props.last())
        },
{
    reveal_with_fuel(Seq::<_>::filter, 1);
}

/// Whether `id` is listed in `ids`.
pub fn id_listed(ids: &Vec<u64>, id: u64) -> (r: bool)
    ensures
        r == ids@.contains(id),
{
    let mut i: usize = 0;
    while i < ids.len()
        invariant
            i <= ids@.len(),
            forall|j: int| 0 <= j < i ==> ids@[j] != id,
        decreases ids@.len() - i,
    {
        if ids[i] == id {
            assert(ids@[i as int] == id);
            return true;
        }
        i = i + 1;
    }
    false
}

/// The master control of all running spring animations.
pub struct AnimationMasterControl {
    properties: Vec<u64>,
    command: AMCCommand,
    raf_status: RafStatus,
}

impl AnimationMasterControl {
    #[verifier::type_invariant]
    spec fn inv(self) -> bool {
        distinct_ids(self.properties@)
    }

    /// The state as a value.
    pub closed spec fn state(self) -> AmcState {
        AmcState { properties: self.properties@, command: self.command, raf_status: self.raf_status }
    }

    /// A master control with nothing to animate, not told to stop, and a
    /// stopped frame loop.
    pub fn new() -> (r: Self)
        ensures
            r.state() == (AmcState {
                properties: Seq::empty(),
                command: AMCCommand::DoNothing,
                raf_status: RafStatus::Stopped,
            }),
    {
        AnimationMasterControl { properties: Vec::new(), command: AMCCommand::DoNothing, raf_status: RafStatus::Stopped }
    }

    /// Tells the loop to stop at its next frame.
    pub fn _stop(&mut self)
        ensures
            final(self).state() == (AmcState { command: AMCCommand::Stop, ..old(self).state() }),
    {
        proof {
            use_type_invariant(&*self);
        }
        self.command = AMCCommand::Stop;
    }

    /// The ids of the properties being animated, in the order they started.
    pub fn properties(&self) -> (r: Vec<u64>)
        ensures
            r@ == self.state().properties,
            distinct_ids(r@),
    {
        proof {
            use_type_invariant(self);
        }
        self.properties.clone()
    }

    /// Whether the frame loop runs.
    pub fn raf_status(&self) -> (r: RafStatus)
        ensures
            r == self.state().raf_status,
    {
        self.raf_status
    }

    /// The command last given.
    pub fn command(&self) -> (r: AMCCommand)
        ensures
            r == self.state().command,
    {
        self.command
    }

    /// Whether the property `id` is being animated.
    pub fn contains(&self, id: u64) -> (r: bool)
        ensures
            r == self.state().properties.contains(id),
    {
        id_listed(&self.properties, id)
    }

    /// Starts animating the property `id`; returns whether a frame must be
    /// requested to restart the loop.
    pub fn start_property(&mut self, id: u64) -> (request_frame: bool)
        ensures
            (final(self).state(), request_frame) == start_spec(old(self).state(), id),
    {
        proof {
            use_type_invariant(&*self);
        }
        if !self.contains(id) {
            let mut props = Vec::new();
            std::mem::swap(&mut props, &mut self.properties);
            let ghost before = props@;
            props.push(id);
            assert forall|i: int, j: int|
                0 <= i < props@.len() && 0 <= j < props@.len() && i != j implies #[trigger] props@[i]
                != #[trigger] props@[j] by {
                if i < before.len() && j < before.len() {
                    assert(before[i] != before[j]);
                } else if i == before.len() {
                    assert(props@[j] == before[j]);
                } else {
                    assert(props@[i] == before[i]);
                }
            }
            self.properties = props;
        }
        let request_frame = self.raf_status == RafStatus::Stopped;
        self.raf_status = RafStatus::Running;
        request_frame
    }

    /// Decides what the frame that just came in does; `primed` tells whether
    /// the loop holds the time of a previous frame.
    pub fn begin_frame(&mut self, primed: bool) -> (step: FrameStep)
        ensures
            (final(self).state(), step) == begin_frame_spec(old(self).state(), primed),
    {
        proof {
            use_type_invariant(&*self);
        }
        if self.command == AMCCommand::Stop || self.properties.len() == 0 {
            self.raf_status = RafStatus::Stopped;
            FrameStep::Halt
        } else if !primed {
            FrameStep::Prime
        } else {
            FrameStep::Advance
        }
    }

    /// Retires the properties whose springs have settled.
    pub fn retire(&mut self, settled: &Vec<u64>)
        ensures
            final(self).state() == retire_spec(old(self).state(), settled@),
    {
        proof {
            use_type_invariant(&*self);
        }
        let mut props = Vec::new();
        std::mem::swap(&mut props, &mut self.properties);
        let ghost old_props = props@;
        let mut kept: Vec<u64> = Vec::new();
        let mut i: usize = 0;
        while i < props.len()
            invariant
                props@ == old_props,
                distinct_ids(old_props),
                i <= props@.len(),
                kept@ == without_ids(old_props.take(i as int), settled@),
                distinct_ids(kept@),
                forall|x: u64| kept@.contains(x) ==> old_props.take(i as int).contains(x),
            decreases props@.len() - i,
        {
            let p = props[i];
            let settled_here = id_listed(settled, p);
            assert(old_props.take(i + 1).drop_last() == old_props.take(i as int));
            proof {
                lemma_without_ids_step(old_props.take(i + 1), settled@);
            }
            let ghost before = kept@;
            if !settled_here {
                assert forall|x: u64| before.contains(x) implies x != p by {
                    let k = choose|k: int| 0 <= k < i && old_props.take(i as int)[k] == x;
                    assert(old_props[k] == x);
                    assert(old_props[i as int] == p);
                }
                kept.push(p);
                assert forall|a: int, b: int|
                    0 <= a < kept@.len() && 0 <= b < kept@.len() && a != b implies #[trigger] kept@[a]
                    != #[trigger] kept@[b] by {
                    if a < before.len() && b < before.len() {
                        assert(before[a] != before[b]);
                    } else if a == before.len() {
                        assert(before.contains(kept@[b]));
                    } else {
                        assert(before.contains(kept@[a]));
                    }
                }
            }
            assert forall|x: u64| kept@.contains(x) implies old_props.take(i + 1).contains(x) by {
                if before.contains(x) {
                    let k = choose|k: int| 0 <= k < before.len() && before[k] == x;
                    assert(old_props.take(i as int).contains(x));
                    let t0 = old_props.take(i as int);
                    let q = choose|q: int| 0 <= q < t0.len() && t0[q] == x;
                    assert(old_props.take(i + 1)[q] == x);
                } else {
                    assert(old_props.take(i + 1)[i as int] == x);
                }
            }
            i = i + 1;
        }
        assert(old_props.take(i as int) == old_props);
        self.properties = kept;
    }
}

} // verus!

verus! {

/// The value an element's property had before its animation started: the
/// text, and that text taken apart into its numbers and its template.
#[derive(Clone)]
pub struct FromProp {
    pub prop: String,
    pub vals: Vec<String>,
    pub template: Vec<String>,
}

impl FromProp {
    /// The starting value `existing`, taken apart.
    pub fn from_existing(existing: String) -> (r: Self)
        ensures
            r.prop@ == existing@,
            strings_view(r.vals@) == numbers_of(existing@),
            strings_view(r.template@) == template_of(existing@),
    {
        let vals = number_texts(existing.as_str());
        let template = template_texts(existing.as_str());
        FromProp { prop: existing, vals, template }
    }
}

/// An element that spring animations write to.
#[derive(Clone)]
pub struct ElemControl {
    pub div_id: String,
    pub html_element: Option<web_sys::HtmlElement>,
    pub should_stop: bool,
    pub from_props: PropMap<FromProp>,
}

impl Default for ElemControl {
    /// The control of an element with an empty id.
    fn default() -> (r: Self)
        ensures
            r.div_id@.len() == 0,
            r.html_element is None,
            !r.should_stop,
            r.from_props.as_map() == Map::<Seq<char>, FromProp>::empty(),
    {
        ElemControl::new(String::new())
    }
}

impl ElemControl {
    /// The control of the element with the id `div_id`, not yet found in the
    /// document and with no starting values.
    pub fn new(div_id: String) -> (r: Self)
        ensures
            r.div_id@ == div_id@,
            r.html_element is None,
            !r.should_stop,
            r.from_props.as_map() == Map::<Seq<char>, FromProp>::empty(),
    {
        ElemControl { div_id, html_element: None, should_stop: false, from_props: PropMap::new() }
    }

    /// Keeps the element that a lookup in the document found, unless one is
    /// kept already; returns whether it was kept.
    pub fn adopt_element(&mut self, found: Option<web_sys::HtmlElement>) -> (kept: bool)
        ensures
            kept == (old(self).html_element is None && found is Some),
            final(self).html_element == if kept { found } else { old(self).html_element },
            final(self).div_id == old(self).div_id,
            final(self).should_stop == old(self).should_stop,
            final(self).from_props == old(self).from_props,
    {
        if self.html_element.is_none() && found.is_some() {
            self.html_element = found;
            true
        } else {
            false
        }
    }

    /// Forgets the starting value of `property`, so that the next frame takes
    /// it afresh from the element.
    pub fn forget_from(&mut self, property: &String)
        ensures
            final(self).from_props.as_map() == old(self).from_props.as_map().remove(property@),
            final(self).div_id == old(self).div_id,
            final(self).html_element == old(self).html_element,
            final(self).should_stop == old(self).should_stop,
    {
        self.from_props.remove(property);
    }

    /// Takes the starting value of `property` from `existing`, the value the
    /// element's style holds for it (`None` where reading it failed): only
    /// when the element has been found, no starting value is kept yet, and
    /// `existing` is not empty.
    pub fn ensure_from(&mut self, property: &String, existing: Option<String>)
        ensures
            ({
                let takes = old(self).html_element is Some && !old(self).from_props.as_map().dom().contains(
                    property@,
                ) && existing is Some && existing->0@.len() > 0;
                if takes {
                    &&& final(self).from_props.as_map().dom() == old(self).from_props.as_map().dom().insert(property@)
                    &&& final(self).from_props.as_map().remove(property@) == old(self).from_props.as_map()
                    &&& final(self).from_props.as_map()[property@].prop@ == existing->0@
                    &&& strings_view(final(self).from_props.as_map()[property@].vals@) == numbers_of(existing->0@)
                    &&& strings_view(final(self).from_props.as_map()[property@].template@) == template_of(existing->0@)
                } else {
                    final(self).from_props.as_map() == old(self).from_props.as_map()
                }
            }),
            final(self).div_id == old(self).div_id,
            final(self).html_element == old(self).html_element,
            final(self).should_stop == old(self).should_stop,
    {
        if self.html_element.is_some() && !self.from_props.contains_key(property) {
            match existing {
                Some(existing) => {
                    if !existing.as_str().is_empty() {
                        let from = FromProp::from_existing(existing);
                        let ghost before = self.from_props.as_map();
                        self.from_props.insert(property.clone(), from);
                        assert(self.from_props.as_map().remove(property@) =~= before);
                        assert(self.from_props.as_map().dom() =~= before.dom().insert(property@));
                    }
                },
                None => {},
            }
        }
    }
}

/// Whether a property's spring is running.
#[derive(PartialEq, Eq, Structural, Clone, Copy, Debug)]
pub enum AnimPropertyStatus {
    Stopped,
    Running,
}

/// A CSS property animated by a spring toward the value `to`.
///
/// `ideal_time` holds the bits of the `f32` ideal time of the spring; the
/// elements animated are named by their ids in the component state store.
#[derive(Clone)]
pub struct AnimProperty {
    pub name: String,
    pub property: String,
    pub to: String,
    pub to_vals: Vec<String>,
    pub to_template: Vec<String>,
    pub ideal_time: u32,
    pub latest_prop_val: Option<String>,
    pub default_from: Option<String>,
    pub status: AnimPropertyStatus,
    pub elem_control_accesses: Vec<u64>,
}

/// The views of an optional string.
pub open spec fn opt_view(o: Option<String>) -> Option<Seq<char>> {
    match o {
        Some(s) => Some(s@),
        None => None,
    }
}

impl AnimProperty {
    /// Everything but the target value, the name and the elements is as in
    /// `other`.
    pub open spec fn same_settings(self, other: Self) -> bool {
        &&& self.property@ == other.property@
        &&& strings_view(self.to_vals@) == strings_view(other.to_vals@)
        &&& strings_view(self.to_template@) == strings_view(other.to_template@)
        &&& self.ideal_time == other.ideal_time
        &&& opt_view(self.latest_prop_val) == opt_view(other.latest_prop_val)
        &&& opt_view(self.default_from) == opt_view(other.default_from)
        &&& self.status == other.status
    }

    /// A new, stopped spring of `property` toward `to`, named `name`.
    pub open spec fn fresh(self, property: Seq<char>, to: Seq<char>, ideal_time: u32) -> bool {
        &&& self.property@ == property
        &&& self.to@ == to
        &&& self.to_vals@.len() == 0
        &&& self.to_template@.len() == 0
        &&& self.ideal_time == ideal_time
        &&& self.latest_prop_val is None
        &&& self.default_from is None
        &&& self.status == AnimPropertyStatus::Stopped
        &&& self.elem_control_accesses@.len() == 0
    }

    /// The property that the store holds for a spring mapped from `self`:
    /// the one stored before (`stored`), else a new one that animates the
    /// property named by `self`'s name toward `self`'s target; either way it
    /// is named `name`.
    pub fn map(&self, stored: Option<AnimProperty>, name: String) -> (r: Self)
        ensures
            r.name@ == name@,
            match stored {
                Some(p) => r.same_settings(p) && r.to@ == p.to@ && r.elem_control_accesses@
                    == p.elem_control_accesses@,
                None => r.fresh(self.name@, self.to@, MAPPED_IDEAL_TIME_BITS),
            },
    {
        let mut anim_prop = match stored {
            Some(p) => p,
            None => AnimProperty {
                name: String::new(),
                property: self.name.clone(),
                ideal_time: MAPPED_IDEAL_TIME_BITS,
                to: self.to.clone(),
                latest_prop_val: None,
                to_vals: Vec::new(),
                to_template: Vec::new(),
                status: AnimPropertyStatus::Stopped,
                default_from: None,
                elem_control_accesses: Vec::new(),
            },
        };
        anim_prop.name = name;
        anim_prop
    }

    /// Sets the value the animation starts from where the element has none.
    pub fn default_from(&mut self, from: String)
        ensures
            opt_view(final(self).default_from) == Some(from@),
            final(self).name == old(self).name,
            final(self).property == old(self).property,
            final(self).to == old(self).to,
            final(self).to_vals == old(self).to_vals,
            final(self).to_template == old(self).to_template,
            final(self).ideal_time == old(self).ideal_time,
            final(self).latest_prop_val == old(self).latest_prop_val,
            final(self).status == old(self).status,
            final(self).elem_control_accesses == old(self).elem_control_accesses,
    {
        self.default_from = Some(from);
    }

    /// Sets the ideal time of the spring (the bits of an `f32`).
    pub fn ideal_time(&mut self, time: u32)
        ensures
            final(self).ideal_time == time,
            final(self).name == old(self).name,
            final(self).property == old(self).property,
            final(self).to == old(self).to,
            final(self).to_vals == old(self).to_vals,
            final(self).to_template == old(self).to_template,
            final(self).latest_prop_val == old(self).latest_prop_val,
            final(self).default_from == old(self).default_from,
            final(self).status == old(self).status,
            final(self).elem_control_accesses == old(self).elem_control_accesses,
    {
        self.ideal_time = time;
    }

    /// Sets the value the property is animated toward.
    pub fn set_property(&mut self, to: String)
        ensures
            final(self).to@ == to@,
            final(self).name == old(self).name,
            final(self).property == old(self).property,
            final(self).to_vals == old(self).to_vals,
            final(self).to_template == old(self).to_template,
            final(self).ideal_time == old(self).ideal_time,
            final(self).latest_prop_val == old(self).latest_prop_val,
            final(self).default_from == old(self).default_from,
            final(self).status == old(self).status,
            final(self).elem_control_accesses == old(self).elem_control_accesses,
    {
        self.to = to;
    }

    /// The value last written to the elements, if any.
    pub fn latest_prop_val(&self) -> (r: Option<String>)
        ensures
            opt_view(r) == opt_view(self.latest_prop_val),
    {
        match &self.latest_prop_val {
            Some(v) => Some(v.clone()),
            None => None,
        }
    }

    /// Records the value last written to the elements.
    pub fn record_latest(&mut self, value: String)
        ensures
            opt_view(final(self).latest_prop_val) == Some(value@),
            final(self).name == old(self).name,
            final(self).property == old(self).property,
            final(self).to == old(self).to,
            final(self).to_vals == old(self).to_vals,
            final(self).to_template == old(self).to_template,
            final(self).ideal_time == old(self).ideal_time,
            final(self).default_from == old(self).default_from,
            final(self).status == old(self).status,
            final(self).elem_control_accesses == old(self).elem_control_accesses,
    {
        self.latest_prop_val = Some(value);
    }

    /// The part of `start` that concerns the property itself: its target is
    /// taken apart into numbers and template, and it runs.
    pub fn prime(&mut self)
        ensures
            strings_view(final(self).to_vals@) == numbers_of(old(self).to@),
            strings_view(final(self).to_template@) == template_of(old(self).to@),
            final(self).status == AnimPropertyStatus::Running,
            final(self).name == old(self).name,
            final(self).property == old(self).property,
            final(self).to == old(self).to,
            final(self).ideal_time == old(self).ideal_time,
            final(self).latest_prop_val == old(self).latest_prop_val,
            final(self).default_from == old(self).default_from,
            final(self).elem_control_accesses == old(self).elem_control_accesses,
    {
        self.to_vals = number_texts(self.to.as_str());
        self.to_template = template_texts(self.to.as_str());
        self.status = AnimPropertyStatus::Running;
    }

    /// Registers the element control `elem_id` as one this property animates.
    pub fn attach_elem_control(&mut self, elem_id: u64)
        ensures
            final(self).elem_control_accesses@ == old(self).elem_control_accesses@.push(elem_id),
            final(self).name == old(self).name,
            final(self).property == old(self).property,
            final(self).to == old(self).to,
            final(self).to_vals == old(self).to_vals,
            final(self).to_template == old(self).to_template,
            final(self).ideal_time == old(self).ideal_time,
            final(self).latest_prop_val == old(self).latest_prop_val,
            final(self).default_from == old(self).default_from,
            final(self).status == old(self).status,
    {
        self.elem_control_accesses.push(elem_id);
    }

    /// The style entry of this property on an animated element: the value
    /// last written, or `default` before any was.
    pub fn style_entry(&self, default: &String) -> (r: (String, String))
        ensures
            r.0@ == self.property@,
            r.1@ == match self.latest_prop_val {
                Some(v) => v@,
                None => default@,
            },
    {
        let value = match &self.latest_prop_val {
            Some(v) => v.clone(),
            None => default.clone(),
        };
        (self.property.clone(), value)
    }
}

/// The property that the store holds for a spring of `property` toward
/// `to`: the one stored before (`stored`), else a new one; either way it
/// now goes toward `to` and is named `name`.
pub fn use_spring(stored: Option<AnimProperty>, property: String, to: String, name: String) -> (r: AnimProperty)
    ensures
        r.to@ == to@,
        r.name@ == name@,
        match stored {
            Some(p) => r.same_settings(p) && r.elem_control_accesses@ == p.elem_control_accesses@,
            None => r.fresh(property@, to@, SPRING_IDEAL_TIME_BITS),
        },
{
    let mut anim_prop = match stored {
        Some(p) => p,
        None => AnimProperty {
            name: String::new(),
            property,
            ideal_time: SPRING_IDEAL_TIME_BITS,
            to: String::new(),
            latest_prop_val: None,
            to_vals: Vec::new(),
            to_template: Vec::new(),
            status: AnimPropertyStatus::Stopped,
            default_from: None,
            elem_control_accesses: Vec::new(),
        },
    };
    if anim_prop.to != to {
        anim_prop.to = to;
    }
    anim_prop.name = name;
    anim_prop
}

/// Each element control forgot the starting value of `property`, and is
/// otherwise as before.
pub open spec fn all_forgot(before: Seq<ElemControl>, after: Seq<ElemControl>, property: Seq<char>) -> bool {
    &&& after.len() == before.len()
    &&& forall|k: int|
        0 <= k < after.len() ==> {
            &&& (#[trigger] after[k]).from_props.as_map() == before[k].from_props.as_map().remove(property)
            &&& after[k].div_id == before[k].div_id
            &&& after[k].html_element == before[k].html_element
            &&& after[k].should_stop == before[k].should_stop
        }
}

/// Starts the spring of `prop`, whose id in the store is `id`, on the
/// elements it animates (`elem_controls`): every element forgets its starting
/// value of the property so that the next frame takes it afresh, the master
/// control animates the property, and the property takes its target apart and
/// runs. Returns the element controls and whether a frame must be requested to
/// restart the loop.
pub fn start(
    amc: &mut AnimationMasterControl,
    prop: &mut AnimProperty,
    id: u64,
    elem_controls: Vec<ElemControl>,
) -> (r: (Vec<ElemControl>, bool))
    ensures
        all_forgot(elem_controls@, r.0@, old(prop).property@),
        (final(amc).state(), r.1) == start_spec(old(amc).state(), id),
        strings_view(final(prop).to_vals@) == numbers_of(old(prop).to@),
        strings_view(final(prop).to_template@) == template_of(old(prop).to@),
        final(prop).status == AnimPropertyStatus::Running,
        final(prop).name == old(prop).name,
        final(prop).property == old(prop).property,
        final(prop).to == old(prop).to,
        final(prop).ideal_time == old(prop).ideal_time,
        final(prop).latest_prop_val == old(prop).latest_prop_val,
        final(prop).default_from == old(prop).default_from,
        final(prop).elem_control_accesses == old(prop).elem_control_accesses,
{
    let mut rest = elem_controls;
    let ghost before = rest@;
    let mut done: Vec<ElemControl> = Vec::new();
    while rest.len() > 0
        invariant
            done@.len() + rest@.len() == before.len(),
            rest@ == before.skip(done@.len() as int),
            all_forgot(before.take(done@.len() as int), done@, prop.property@),
        decreases rest@.len(),
    {
        let ghost k = done@.len() as int;
        let mut e = rest.remove(0);
        assert(e == before[k]);
        e.forget_from(&prop.property);
        done.push(e);
        assert(rest@ == before.skip(k + 1));
        assert forall|q: int| 0 <= q < done@.len() implies before.take(k + 1)[q] == before[q] by {}
    }
    assert(before.take(done@.len() as int) == before);
    let request_frame = amc.start_property(id);
    prop.prime();
    (done, request_frame)
}

/// The numbers of a starting value paired with those of a target, as far as
/// both go.
pub fn paired_numbers(from_vals: &Vec<String>, to_vals: &Vec<String>) -> (r: Vec<(String, String)>)
    ensures
        r@.len() == if from_vals@.len() <= to_vals@.len() { from_vals@.len() } else { to_vals@.len() },
        forall|k: int| #![trigger r@[k]] 0 <= k < r@.len() ==> r@[k].0@ == from_vals@[k]@ && r@[k].1@ == to_vals@[k]@,
{
    let n = if from_vals.len() <= to_vals.len() { from_vals.len() } else { to_vals.len() };
    let mut r: Vec<(String, String)> = Vec::new();
    let mut k: usize = 0;
    while k < n
        invariant
            n <= from_vals@.len(),
            n <= to_vals@.len(),
            n == if from_vals@.len() <= to_vals@.len() { from_vals@.len() } else { to_vals@.len() },
            k <= n,
            r@.len() == k,
            forall|q: int| #![trigger r@[q]] 0 <= q < k ==> r@[q].0@ == from_vals@[q]@ && r@[q].1@ == to_vals@[q]@,
        decreases n - k,
    {
        let ghost before = r@;
        r.push((from_vals[k].clone(), to_vals[k].clone()));
        assert forall|q: int| #![trigger r@[q]] 0 <= q < k + 1 implies r@[q].0@ == from_vals@[q]@
            && r@[q].1@ == to_vals@[q]@ by {
            if q < k {
                assert(r@[q] == before[q]);
            }
        }
        k = k + 1;
    }
    assert(k == r@.len());
    assert forall|q: int| #![trigger r@[q]] 0 <= q < r@.len() implies r@[q].0@ == from_vals@[q]@
        && r@[q].1@ == to_vals@[q]@ by {}
    r
}

/// The value a frame writes to an element for `prop`: its target with the
/// `k`-th number replaced by the `k`-th of `interpolated` (a space where there
/// are too few). There is none where the element has no starting value for
/// the property or where no interpolation could be made (`interpolated` is
/// `None`).
pub fn new_prop_for_elem(elem_control: &ElemControl, prop: &AnimProperty, interpolated: Option<Vec<String>>) -> (r: Option<String>)
    ensures
        r is Some <==> (elem_control.from_props.as_map().dom().contains(prop.property@) && interpolated is Some),
        r is Some ==> r->0@ == replaced(prop.to@, strings_view(interpolated->0@)),
{
    if !elem_control.from_props.contains_key(&prop.property) {
        return None;
    }
    match interpolated {
        Some(vals) => Some(replace_numbers(prop.to.as_str(), &vals)),
        None => None,
    }
}

/// `after` is `before` registered with the element control `elem_id` when
/// `attach` holds, and `before` unchanged otherwise.
pub open spec fn attached(before: AnimProperty, after: AnimProperty, elem_id: u64, attach: bool) -> bool {
    &&& after.elem_control_accesses@ == if attach {
        before.elem_control_accesses@.push(elem_id)
    } else {
        before.elem_control_accesses@
    }
    &&& after.name == before.name
    &&& after.property == before.property
    &&& after.to == before.to
    &&& after.to_vals == before.to_vals
    &&& after.to_template == before.to_template
    &&& after.ideal_time == before.ideal_time
    &&& after.latest_prop_val == before.latest_prop_val
    &&& after.default_from == before.default_from
    &&& after.status == before.status
}

/// The id and the style of an animated element: on its first render
/// (`first_time`) every property in `properties` registers the element control
/// `elem_id`; the style gives each property its latest value, or the default
/// paired with it before any was written. Returns the element's id, the
/// properties, and the style entries.
pub fn animated_id(
    div_control: &ElemControl,
    elem_id: u64,
    properties: Vec<(AnimProperty, String)>,
    first_time: bool,
) -> (r: (String, Vec<(AnimProperty, String)>, Vec<(String, String)>))
    ensures
        r.0@ == div_control.div_id@,
        r.1@.len() == properties@.len(),
        forall|k: int|
            0 <= k < r.1@.len() ==> attached(properties@[k].0, #[trigger] r.1@[k].0, elem_id, first_time)
                && r.1@[k].1 == properties@[k].1,
        r.2@.len() == properties@.len(),
        forall|k: int|
            0 <= k < r.2@.len() ==> #[trigger] r.2@[k].0@ == properties@[k].0.property@ && r.2@[k].1@ == match properties@[k].0.latest_prop_val {
                Some(v) => v@,
                None => properties@[k].1@,
            },
{
    let mut rest = properties;
    let ghost before = rest@;
    let mut done: Vec<(AnimProperty, String)> = Vec::new();
    while rest.len() > 0
        invariant
            done@.len() + rest@.len() == before.len(),
            rest@ == before.skip(done@.len() as int),
            forall|q: int|
                0 <= q < done@.len() ==> attached(before[q].0, #[trigger] done@[q].0, elem_id, first_time)
                    && done@[q].1 == before[q].1,
        decreases rest@.len(),
    {
        let ghost k = done@.len() as int;
        let (mut p, d) = rest.remove(0);
        assert(p == before[k].0 && d == before[k].1);
        if first_time {
            p.attach_elem_control(elem_id);
        }
        done.push((p, d));
        assert(rest@ == before.skip(k + 1));
    }
    let style = animated_style(&done);
    (div_control.div_id.clone(), done, style)
}

/// The end of a frame for one element: the value `new_prop_for_elem` gives,
/// if any, becomes the property's latest value and is returned for the
/// element's style. Where the element has not been found in the document,
/// nothing is written and the property is left as it was.
pub fn write_frame(elem_control: &ElemControl, prop: &mut AnimProperty, interpolated: Option<Vec<String>>) -> (r: Option<String>)
    ensures
        r is Some <==> (elem_control.html_element is Some && elem_control.from_props.as_map().dom().contains(
            old(prop).property@,
        ) && interpolated is Some),
        elem_control.html_element is None ==> r is None && *final(prop) == *old(prop),
        r is Some ==> r->0@ == replaced(old(prop).to@, strings_view(interpolated->0@))
            && opt_view(final(prop).latest_prop_val) == Some(r->0@),
        r is None ==> *final(prop) == *old(prop),
        final(prop).name == old(prop).name,
        final(prop).property == old(prop).property,
        final(prop).to == old(prop).to,
        final(prop).to_vals == old(prop).to_vals,
        final(prop).to_template == old(prop).to_template,
        final(prop).ideal_time == old(prop).ideal_time,
        final(prop).default_from == old(prop).default_from,
        final(prop).status == old(prop).status,
        final(prop).elem_control_accesses == old(prop).elem_control_accesses,
{
    if elem_control.html_element.is_none() {
        return None;
    }
    match new_prop_for_elem(elem_control, prop, interpolated) {
        Some(v) => {
            prop.record_latest(v.clone());
            Some(v)
        },
        None => None,
    }
}

/// The style of an animated element: for each property the value last
/// written, or its default before any was.
pub fn animated_style(properties: &Vec<(AnimProperty, String)>) -> (r: Vec<(String, String)>)
    ensures
        r@.len() == properties@.len(),
        forall|k: int|
            0 <= k < r@.len() ==> #[trigger] r@[k].0@ == properties@[k].0.property@ && r@[k].1@ == match properties@[k].0.latest_prop_val {
                Some(v) => v@,
                None => properties@[k].1@,
            },
{
    let mut r: Vec<(String, String)> = Vec::new();
    let mut k: usize = 0;
    while k < properties.len()
        invariant
            k <= properties@.len(),
            r@.len() == k,
            forall|q: int|
                0 <= q < k ==> #[trigger] r@[q].0@ == properties@[q].0.property@ && r@[q].1@ == match properties@[q].0.latest_prop_val {
                    Some(v) => v@,
                    None => properties@[q].1@,
                },
        decreases properties@.len() - k,
    {
        r.push(properties[k].0.style_entry(&properties[k].1));
        k = k + 1;
    }
    r
}

} // verus!

verus! {

/// Law: starting a property, a frame and retiring settled properties each
/// keep every property listed at most once.
pub proof fn law_properties_stay_distinct(s: AmcState, id: u64, primed: bool, settled: Seq<u64>)
    requires
        distinct_ids(s.properties),
    ensures
        distinct_ids(start_spec(s, id).0.properties),
        distinct_ids(begin_frame_spec(s, primed).0.properties),
        distinct_ids(retire_spec(s, settled).properties),
{
    let started = start_spec(s, id).0.properties;
    if !s.properties.contains(id) {
        assert forall|i: int, j: int|
            0 <= i < started.len() && 0 <= j < started.len() && i != j implies #[trigger] started[i]
            != #[trigger] started[j] by {
            if i < s.properties.len() && j < s.properties.len() {
            } else if i == s.properties.len() {
                assert(started[j] == s.properties[j]);
            } else {
                assert(started[i] == s.properties[i]);
            }
        }
    }
    lemma_without_ids_distinct(s.properties, settled);
}

/// `without_ids` keeps ids distinct, and keeps exactly the unsettled ones.
proof fn lemma_without_ids_distinct(props: Seq<u64>, settled: Seq<u64>)
    requires
        distinct_ids(props),
    ensures
        distinct_ids(without_ids(props, settled)),
        forall|x: u64| without_ids(props, settled).contains(x) <==> (props.contains(x) && !settled.contains(x)),
    decreases props.len(),
{
    if props.len() > 0 {
        let rest = props.drop_last();
        assert forall|i: int, j: int|
            0 <= i < rest.len() && 0 <= j < rest.len() && i != j implies #[trigger] rest[i] != #[trigger] rest[j] by {
            assert(rest[i] == props[i] && rest[j] == props[j]);
        }
        lemma_without_ids_distinct(rest, settled);
        lemma_without_ids_step(props, settled);
        let last = props.last();
        let w = without_ids(rest, settled);
        assert(!rest.contains(last)) by {
            if rest.contains(last) {
                let k = choose|k: int| 0 <= k < rest.len() && rest[k] == last;
                assert(props[k] == props[props.len() - 1]);
            }
        }
        assert forall|x: u64| props.contains(x) <==> (rest.contains(x) || x == last) by {
            if props.contains(x) && x != last {
                let k = choose|k: int| 0 <= k < props.len() && props[k] == x;
                assert(k != props.len() - 1);
                assert(rest[k] == x);
            }
            if rest.contains(x) {
                let k = choose|k: int| 0 <= k < rest.len() && rest[k] == x;
                assert(props[k] == x);
            }
            if x == last {
                assert(props[props.len() - 1] == x);
            }
        }
        if !settled.contains(last) {
            let pushed = w.push(last);
            assert forall|i: int, j: int|
                0 <= i < pushed.len() && 0 <= j < pushed.len() && i != j implies #[trigger] pushed[i]
                != #[trigger] pushed[j] by {
                if i < w.len() && j < w.len() {
                } else if i == w.len() {
                    assert(pushed[j] == w[j]);
                    assert(w.contains(w[j]));
                } else {
                    assert(pushed[i] == w[i]);
                    assert(w.contains(w[i]));
                }
            }
            assert forall|x: u64| pushed.contains(x) <==> (w.contains(x) || x == last) by {
                if pushed.contains(x) && x != last {
                    let k = choose|k: int| 0 <= k < pushed.len() && pushed[k] == x;
                    assert(w[k] == x);
                }
                if w.contains(x) {
                    let k = choose|k: int| 0 <= k < w.len() && w[k] == x;
                    assert(pushed[k] == x);
                }
                if x == last {
                    assert(pushed[w.len() as int] == x);
                }
            }
        }
    } else {
        assert(without_ids(props, settled) == props) by {
            reveal_with_fuel(Seq::<_>::filter, 1);
        }
    }
}

/// Law: a started property is animated until it is retired; retiring takes
/// out exactly the settled properties and keeps the others.
pub proof fn law_started_until_retired(s: AmcState, id: u64, settled: Seq<u64>)
    requires
        distinct_ids(s.properties),
    ensures
        start_spec(s, id).0.properties.contains(id),
        retire_spec(start_spec(s, id).0, settled).properties.contains(id) <==> !settled.contains(id),
        forall|x: u64|
            retire_spec(s, settled).properties.contains(x) <==> (s.properties.contains(x) && !settled.contains(x)),
{
    let started = start_spec(s, id).0;
    if !s.properties.contains(id) {
        assert(started.properties[s.properties.len() as int] == id);
    }
    law_properties_stay_distinct(s, id, false, settled);
    lemma_without_ids_distinct(started.properties, settled);
    lemma_without_ids_distinct(s.properties, settled);
}

/// Law: the frame loop is asked for a frame only when it is stopped: a
/// second start while it runs asks for none.
pub proof fn law_single_frame_loop(s: AmcState, first: u64, second: u64)
    ensures
        start_spec(s, first).1 == (s.raf_status == RafStatus::Stopped),
        !start_spec(start_spec(s, first).0, second).1,
{
}

/// Law: a loop that halted is restarted by the next start.
pub proof fn law_halted_loop_restarts(s: AmcState, primed: bool, id: u64)
    ensures
        begin_frame_spec(s, primed).1 == FrameStep::Halt ==> start_spec(begin_frame_spec(s, primed).0, id).1,
        begin_frame_spec(s, primed).1 == FrameStep::Halt <==> halts(s),
{
}

/// Law: once told to stop, the loop halts at every frame, whatever starts and
/// retirements come in between.
pub proof fn law_stop_is_final(s: AmcState, id: u64, settled: Seq<u64>, primed: bool)
    requires
        s.command == AMCCommand::Stop,
    ensures
        begin_frame_spec(s, primed).1 == FrameStep::Halt,
        begin_frame_spec(start_spec(s, id).0, primed).1 == FrameStep::Halt,
        begin_frame_spec(retire_spec(s, settled), primed).1 == FrameStep::Halt,
{
}

/// Law: a loop with something to animate and no stop asked for first primes,
/// then advances.
pub proof fn law_prime_then_advance(s: AmcState)
    requires
        !halts(s),
    ensures
        begin_frame_spec(s, false).1 == FrameStep::Prime,
        begin_frame_spec(s, true).1 == FrameStep::Advance,
        begin_frame_spec(s, false).0 == s,
{
}

} // verus!

verus! {

/// Law: a frame changes nothing but, when it halts, marks the loop stopped:
/// the properties and the command stay as they are, and a frame that primes
/// or advances leaves the whole state as it is. Properties leave only through
/// `retire`.
pub proof fn law_frame_keeps_properties(s: AmcState, primed: bool)
    ensures
        begin_frame_spec(s, primed).0.properties == s.properties,
        begin_frame_spec(s, primed).0.command == s.command,
        begin_frame_spec(s, primed).1 != FrameStep::Halt ==> begin_frame_spec(s, primed).0 == s,
        begin_frame_spec(s, primed).1 == FrameStep::Halt ==> begin_frame_spec(s, primed).0.raf_status
            == RafStatus::Stopped,
{
}

/// Law: retiring changes only the list of properties: the command and the
/// state of the frame loop stay as they are, and the properties that are
/// kept keep their order.
pub proof fn law_retire_changes_only_properties(s: AmcState, settled: Seq<u64>)
    ensures
        retire_spec(s, settled).command == s.command,
        retire_spec(s, settled).raf_status == s.raf_status,
        retire_spec(s, settled).properties.len() <= s.properties.len(),
        (forall|x: u64| #[trigger] s.properties.contains(x) ==> !settled.contains(x)) ==> retire_spec(
            s,
            settled,
        ).properties == s.properties,
{
    lemma_without_ids_keeps_unsettled(s.properties, settled);
}

/// Retiring ids none of which is listed keeps the list as it is, and never
/// lengthens it.
proof fn lemma_without_ids_keeps_unsettled(props: Seq<u64>, settled: Seq<u64>)
    ensures
        without_ids(props, settled).len() <= props.len(),
        (forall|x: u64| #[trigger] props.contains(x) ==> !settled.contains(x)) ==> without_ids(props, settled)
            == props,
    decreases props.len(),
{
    if props.len() > 0 {
        let rest = props.drop_last();
        lemma_without_ids_step(props, settled);
        lemma_without_ids_keeps_unsettled(rest, settled);
        if forall|x: u64| #[trigger] props.contains(x) ==> !settled.contains(x) {
            assert forall|x: u64| #[trigger] rest.contains(x) implies !settled.contains(x) by {
                let q = choose|q: int| 0 <= q < rest.len() && rest[q] == x;
                assert(props[q] == x);
                assert(props.contains(x));
            }
            assert(props.contains(props.last())) by {
                assert(props[props.len() - 1] == props.last());
            }
            assert(rest.push(props.last()) == props);
        }
    } else {
        assert(without_ids(props, settled) == props) by {
            reveal_with_fuel(Seq::<_>::filter, 1);
        }
    }
}

} // verus!
