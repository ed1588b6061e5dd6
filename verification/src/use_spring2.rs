//! The earlier form of the spring animations: a property is primed before it
//! starts, and an element's starting values are kept as plain text.
use vstd::prelude::*;
use crate::number_template::{numbers_of, number_texts, strings_view};
use crate::prop_map::PropMap;
use crate::use_spring::{AMCCommand, AmcState, FrameStep, RafStatus, opt_view, retire_spec, without_ids};

verus! {

/// The bit pattern of the `f32` 0.1, the ideal time of a new spring.
pub const SPRING_IDEAL_TIME_BITS: u32 = 0x3dcc_cccd;

/// A frame of the earlier loop: it halts when told to stop or when nothing
/// is left, but leaves the loop marked as running.
pub open spec fn begin_frame_spec(s: AmcState, primed: bool) -> (AmcState, FrameStep) {
    if s.command == AMCCommand::Stop || s.properties.len() == 0 {
        (s, FrameStep::Halt)
    } else if !primed {
        (s, FrameStep::Prime)
    } else {
        (s, FrameStep::Advance)
    }
}

/// Starting the loop: a frame is requested exactly when the loop is marked
/// as stopped; afterwards it is marked as running.
pub open spec fn start_raf_spec(s: AmcState) -> (AmcState, bool) {
    (AmcState { raf_status: RafStatus::Running, ..s }, s.raf_status == RafStatus::Stopped)
}

/// The master control of the earlier loop; a property primed twice is listed
/// twice.
pub struct AnimationMasterControl {
    properties: Vec<u64>,
    command: AMCCommand,
    raf_status: RafStatus,
}

impl AnimationMasterControl {
    /// The state as a value.
    pub closed spec fn state(self) -> AmcState {
        AmcState { properties: self.properties@, command: self.command, raf_status: self.raf_status }
    }

    /// A master control with nothing to animate, not told to stop, and a
    /// stopped frame loop.
    pub fn new() -> (r: Self)
        ensures
            r.state() == (AmcState {
                properties: Seq::empty(),
                command: AMCCommand::DoNothing,
                raf_status: RafStatus::Stopped,
            }),
    {
        AnimationMasterControl { properties: Vec::new(), command: AMCCommand::DoNothing, raf_status: RafStatus::Stopped }
    }

    /// Tells the loop to stop at its next frame.
    pub fn stop(&mut self)
        ensures
            final(self).state() == (AmcState { command: AMCCommand::Stop, ..old(self).state() }),
    {
        self.command = AMCCommand::Stop;
    }

    /// The ids of the properties being animated, in the order they were primed.
    pub fn properties(&self) -> (r: Vec<u64>)
        ensures
            r@ == self.state().properties,
    {
        self.properties.clone()
    }

    /// Lists the property `id` as animated (priming does so every time).
    pub fn push_property(&mut self, id: u64)
        ensures
            final(self).state() == (AmcState {
                properties: old(self).state().properties.push(id),
                ..old(self).state()
            }),
    {
        self.properties.push(id);
    }

    /// Decides what the frame that just came in does; `primed` tells whether
    /// the loop holds the time of a previous frame.
    pub fn begin_frame(&mut self, primed: bool) -> (step: FrameStep)
        ensures
            (final(self).state(), step) == begin_frame_spec(old(self).state(), primed),
    {
        if self.command == AMCCommand::Stop || self.properties.len() == 0 {
            FrameStep::Halt
        } else if !primed {
            FrameStep::Prime
        } else {
            FrameStep::Advance
        }
    }

    /// Marks the loop as running; returns whether a frame must be requested.
    pub fn start_raf(&mut self) -> (request_frame: bool)
        ensures
            (final(self).state(), request_frame) == start_raf_spec(old(self).state()),
    {
        let request_frame = self.raf_status == RafStatus::Stopped;
        self.raf_status = RafStatus::Running;
        request_frame
    }

    /// Retires the properties whose springs have settled.
    pub fn retire(&mut self, settled: &Vec<u64>)
        ensures
            final(self).state() == retire_spec(old(self).state(), settled@),
    {
        let mut kept: Vec<u64> = Vec::new();
        let mut i: usize = 0;
        while i < self.properties.len()
            invariant
                i <= self.properties@.len(),
                kept@ == without_ids(self.properties@.take(i as int), settled@),
            decreases self.properties@.len() - i,
        {
            let p = self.properties[i];
            let settled_here = crate::use_spring::id_listed(settled, p);
            assert(self.properties@.take(i + 1).drop_last() == self.properties@.take(i as int));
            proof {
                crate::use_spring::lemma_without_ids_step(self.properties@.take(i + 1), settled@);
            }
            if !settled_here {
                kept.push(p);
            }
            i = i + 1;
        }
        assert(self.properties@.take(i as int) == self.properties@);
        self.properties = kept;
    }
}

/// Where the animation of an element stands.
#[derive(PartialEq, Eq, Structural, Clone, Copy, Debug)]
pub enum AnimStatus {
    PreInitialized,
    Initialized,
    Running,
    Complete,
}

impl Default for AnimStatus {
    fn default() -> (r: Self)
        ensures
            r == AnimStatus::PreInitialized,
    {
        AnimStatus::PreInitialized
    }
}

/// An element that spring animations write to; its starting values are kept
/// as text, by property.
#[derive(Clone)]
pub struct DivControl {
    pub div_id: String,
    pub html_element: Option<web_sys::HtmlElement>,
    pub should_stop: bool,
    pub status: AnimStatus,
    pub from_props: PropMap<String>,
}

impl Default for DivControl {
    /// The control of an element with an empty id.
    fn default() -> (r: Self)
        ensures
            r.div_id@.len() == 0,
            r.html_element is None,
            !r.should_stop,
            r.status == AnimStatus::PreInitialized,
            r.from_props.as_map() == Map::<Seq<char>, String>::empty(),
    {
        DivControl::new(String::new())
    }
}

impl DivControl {
    /// The control of the element with the id `div_id`, not yet found in the
    /// document, not yet initialized, and with no starting values.
    pub fn new(div_id: String) -> (r: Self)
        ensures
            r.div_id@ == div_id@,
            r.html_element is None,
            !r.should_stop,
            r.status == AnimStatus::PreInitialized,
            r.from_props.as_map() == Map::<Seq<char>, String>::empty(),
    {
        DivControl {
            div_id,
            html_element: None,
            should_stop: false,
            status: AnimStatus::PreInitialized,
            from_props: PropMap::new(),
        }
    }

    /// Keeps the element that a lookup in the document found, unless one is
    /// kept already; returns whether it was kept.
    pub fn adopt_element(&mut self, found: Option<web_sys::HtmlElement>) -> (kept: bool)
        ensures
            kept == (old(self).html_element is None && found is Some),
            final(self).html_element == if kept { found } else { old(self).html_element },
            final(self).div_id == old(self).div_id,
            final(self).should_stop == old(self).should_stop,
            final(self).status == old(self).status,
            final(self).from_props == old(self).from_props,
    {
        if self.html_element.is_none() && found.is_some() {
            self.html_element = found;
            true
        } else {
            false
        }
    }

    /// Priming a property on this element: an element not yet initialized
    /// forgets its starting value of `property` and runs; any other is left
    /// as it is.
    pub fn preignite_for(&mut self, property: &String)
        ensures
            old(self).status == AnimStatus::PreInitialized ==> final(self).status == AnimStatus::Running
                && final(self).from_props.as_map() == old(self).from_props.as_map().remove(property@),
            old(self).status != AnimStatus::PreInitialized ==> final(self).status == old(self).status
                && final(self).from_props.as_map() == old(self).from_props.as_map(),
            final(self).div_id == old(self).div_id,
            final(self).html_element == old(self).html_element,
            final(self).should_stop == old(self).should_stop,
    {
        if self.status == AnimStatus::PreInitialized {
            self.from_props.remove(property);
            self.status = AnimStatus::Running;
        }
    }

    /// Settles the starting value of `prop` on a found element that has none:
    /// `existing`, the value its computed style holds (`None` where reading it
    /// failed), unless that is missing or empty; then the property's default,
    /// if it has one.
    pub fn resolve_from(&mut self, prop: &AnimProperty, existing: Option<String>)
        ensures
            ({
                let open = old(self).html_element is Some && !old(self).from_props.as_map().dom().contains(
                    prop.property@,
                );
                let chosen: Option<Seq<char>> = match existing {
                    Some(e) => if e@.len() > 0 { Some(e@) } else { opt_view(prop.default_from) },
                    None => opt_view(prop.default_from),
                };
                if open && chosen is Some {
                    &&& final(self).from_props.as_map().dom() == old(self).from_props.as_map().dom().insert(
                        prop.property@,
                    )
                    &&& final(self).from_props.as_map().remove(prop.property@) == old(self).from_props.as_map()
                    &&& final(self).from_props.as_map()[prop.property@]@ == chosen->0
                } else {
                    final(self).from_props.as_map() == old(self).from_props.as_map()
                }
            }),
            final(self).div_id == old(self).div_id,
            final(self).html_element == old(self).html_element,
            final(self).should_stop == old(self).should_stop,
            final(self).status == old(self).status,
    {
        if self.html_element.is_some() && !self.from_props.contains_key(&prop.property) {
            let chosen: Option<String> = match existing {
                Some(e) => if !e.as_str().is_empty() {
                    Some(e)
                } else {
                    match &prop.default_from {
                        Some(d) => Some(d.clone()),
                        None => None,
                    }
                },
                None => match &prop.default_from {
                    Some(d) => Some(d.clone()),
                    None => None,
                },
            };
            match chosen {
                Some(c) => {
                    let ghost before = self.from_props.as_map();
                    self.from_props.insert(prop.property.clone(), c);
                    assert(self.from_props.as_map().remove(prop.property@) =~= before);
                    assert(self.from_props.as_map().dom() =~= before.dom().insert(prop.property@));
                },
                None => {},
            }
        }
    }
}

/// Whether a property has been primed.
#[derive(PartialEq, Eq, Structural, Clone, Copy, Debug)]
pub enum AnimPropertyStatus {
    Initialised,
    Primed,
}

/// A CSS property animated by a spring toward the value `to`; `ideal_time`
/// holds the bits of the `f32` ideal time of the spring.
#[derive(Clone)]
pub struct AnimProperty {
    pub name: String,
    pub property: String,
    pub to: String,
    pub ideal_time: u32,
    pub default_from: Option<String>,
    pub status: AnimPropertyStatus,
    pub div_control_accesses: Vec<u64>,
}

impl AnimProperty {
    /// Sets the value the animation starts from where the element has none.
    pub fn default_from(&mut self, from: String)
        ensures
            opt_view(final(self).default_from) == Some(from@),
            final(self).name == old(self).name,
            final(self).property == old(self).property,
            final(self).to == old(self).to,
            final(self).ideal_time == old(self).ideal_time,
            final(self).status == old(self).status,
            final(self).div_control_accesses == old(self).div_control_accesses,
    {
        self.default_from = Some(from);
    }

    /// Sets the ideal time of the spring (the bits of an `f32`).
    pub fn ideal_time(&mut self, time: u32)
        ensures
            final(self).ideal_time == time,
            final(self).name == old(self).name,
            final(self).property == old(self).property,
            final(self).to == old(self).to,
            final(self).default_from == old(self).default_from,
            final(self).status == old(self).status,
            final(self).div_control_accesses == old(self).div_control_accesses,
    {
        self.ideal_time = time;
    }

    /// Sets the value the property is animated toward.
    pub fn set_property(&mut self, to: String)
        ensures
            final(self).to@ == to@,
            final(self).name == old(self).name,
            final(self).property == old(self).property,
            final(self).ideal_time == old(self).ideal_time,
            final(self).default_from == old(self).default_from,
            final(self).status == old(self).status,
            final(self).div_control_accesses == old(self).div_control_accesses,
    {
        self.to = to;
    }

    /// The part of priming that concerns the property itself.
    pub fn mark_primed(&mut self)
        ensures
            final(self).status == AnimPropertyStatus::Primed,
            final(self).name == old(self).name,
            final(self).property == old(self).property,
            final(self).to == old(self).to,
            final(self).ideal_time == old(self).ideal_time,
            final(self).default_from == old(self).default_from,
            final(self).div_control_accesses == old(self).div_control_accesses,
    {
        self.status = AnimPropertyStatus::Primed;
    }

    /// Whether `start` must prime the property first.
    pub fn needs_preignite(&self) -> (r: bool)
        ensures
            r == (self.status != AnimPropertyStatus::Primed),
    {
        self.status != AnimPropertyStatus::Primed
    }

    /// Registers the element control `div_id` as one this property animates.
    pub fn attach_div_control(&mut self, div_id: u64)
        ensures
            final(self).div_control_accesses@ == old(self).div_control_accesses@.push(div_id),
            final(self).name == old(self).name,
            final(self).property == old(self).property,
            final(self).to == old(self).to,
            final(self).ideal_time == old(self).ideal_time,
            final(self).default_from == old(self).default_from,
            final(self).status == old(self).status,
    {
        self.div_control_accesses.push(div_id);
    }
}

/// The property that the store holds for a spring of `property` toward
/// `to`: the one stored before (`stored`), else a new one toward `to`;
/// either way it is named `name`.
pub fn use_spring(stored: Option<AnimProperty>, property: String, to: String, name: String) -> (r: AnimProperty)
    ensures
        r.name@ == name@,
        match stored {
            Some(p) => r.property == p.property && r.to == p.to && r.ideal_time == p.ideal_time
                && r.default_from == p.default_from && r.status == p.status && r.div_control_accesses
                == p.div_control_accesses,
            None => r.property@ == property@ && r.to@ == to@ && r.ideal_time == SPRING_IDEAL_TIME_BITS
                && r.default_from is None && r.status == AnimPropertyStatus::Initialised
                && r.div_control_accesses@.len() == 0,
        },
{
    let mut anim_prop = match stored {
        Some(p) => p,
        None => AnimProperty {
            name: String::new(),
            property,
            ideal_time: SPRING_IDEAL_TIME_BITS,
            to,
            status: AnimPropertyStatus::Initialised,
            default_from: None,
            div_control_accesses: Vec::new(),
        },
    };
    anim_prop.name = name;
    anim_prop
}

/// The id of an animated element: on its first render (`first_time`) every
/// property in `properties` registers the element control `div_id`. Returns
/// the element's id and the properties.
pub fn animated_id(
    div_control: &DivControl,
    div_id: u64,
    properties: Vec<AnimProperty>,
    first_time: bool,
) -> (r: (String, Vec<AnimProperty>))
    ensures
        r.0@ == div_control.div_id@,
        r.1@.len() == properties@.len(),
        forall|k: int|
            0 <= k < r.1@.len() ==> {
                &&& (#[trigger] r.1@[k]).div_control_accesses@ == if first_time {
                    properties@[k].div_control_accesses@.push(div_id)
                } else {
                    properties@[k].div_control_accesses@
                }
                &&& r.1@[k].name == properties@[k].name
                &&& r.1@[k].property == properties@[k].property
                &&& r.1@[k].to == properties@[k].to
                &&& r.1@[k].ideal_time == properties@[k].ideal_time
                &&& r.1@[k].default_from == properties@[k].default_from
                &&& r.1@[k].status == properties@[k].status
            },
{
    let mut rest = properties;
    let ghost before = rest@;
    let mut done: Vec<AnimProperty> = Vec::new();
    while rest.len() > 0
        invariant
            done@.len() + rest@.len() == before.len(),
            rest@ == before.skip(done@.len() as int),
            forall|q: int|
                0 <= q < done@.len() ==> {
                    &&& (#[trigger] done@[q]).div_control_accesses@ == if first_time {
                        before[q].div_control_accesses@.push(div_id)
                    } else {
                        before[q].div_control_accesses@
                    }
                    &&& done@[q].name == before[q].name
                    &&& done@[q].property == before[q].property
                    &&& done@[q].to == before[q].to
                    &&& done@[q].ideal_time == before[q].ideal_time
                    &&& done@[q].default_from == before[q].default_from
                    &&& done@[q].status == before[q].status
                },
        decreases rest@.len(),
    {
        let ghost k = done@.len() as int;
        let mut p = rest.remove(0);
        assert(p == before[k]);
        if first_time {
            p.attach_div_control(div_id);
        }
        done.push(p);
        assert(rest@ == before.skip(k + 1));
    }
    (div_control.div_id.clone(), done)
}

/// What priming does to one element control.
pub open spec fn primed_elem(before: DivControl, after: DivControl, property: Seq<char>) -> bool {
    &&& before.status == AnimStatus::PreInitialized ==> after.status == AnimStatus::Running
        && after.from_props.as_map() == before.from_props.as_map().remove(property)
    &&& before.status != AnimStatus::PreInitialized ==> after.status == before.status
        && after.from_props.as_map() == before.from_props.as_map()
    &&& after.div_id == before.div_id
    &&& after.html_element == before.html_element
    &&& after.should_stop == before.should_stop
}

/// What priming does to all the element controls of a property.
pub open spec fn all_primed(before: Seq<DivControl>, after: Seq<DivControl>, property: Seq<char>) -> bool {
    &&& after.len() == before.len()
    &&& forall|k: int| 0 <= k < after.len() ==> primed_elem(before[k], #[trigger] after[k], property)
}

/// Primes the spring of `prop`, whose id in the store is `id`: it is marked
/// primed, each of its elements not yet initialized forgets its starting value
/// and runs, and the master control lists the property once more. Returns the
/// element controls.
pub fn preignite(
    amc: &mut AnimationMasterControl,
    prop: &mut AnimProperty,
    id: u64,
    div_controls: Vec<DivControl>,
) -> (r: Vec<DivControl>)
    ensures
        all_primed(div_controls@, r@, old(prop).property@),
        final(amc).state() == (AmcState {
            properties: old(amc).state().properties.push(id),
            ..old(amc).state()
        }),
        final(prop).status == AnimPropertyStatus::Primed,
        final(prop).name == old(prop).name,
        final(prop).property == old(prop).property,
        final(prop).to == old(prop).to,
        final(prop).ideal_time == old(prop).ideal_time,
        final(prop).default_from == old(prop).default_from,
        final(prop).div_control_accesses == old(prop).div_control_accesses,
{
    prop.mark_primed();
    let mut rest = div_controls;
    let ghost before = rest@;
    let mut done: Vec<DivControl> = Vec::new();
    while rest.len() > 0
        invariant
            done@.len() + rest@.len() == before.len(),
            rest@ == before.skip(done@.len() as int),
            all_primed(before.take(done@.len() as int), done@, prop.property@),
        decreases rest@.len(),
    {
        let ghost k = done@.len() as int;
        let mut d = rest.remove(0);
        assert(d == before[k]);
        d.preignite_for(&prop.property);
        done.push(d);
        assert(rest@ == before.skip(k + 1));
        assert forall|q: int| 0 <= q < done@.len() implies before.take(k + 1)[q] == before[q] by {}
    }
    assert(before.take(done@.len() as int) == before);
    amc.push_property(id);
    done
}

/// Starts the spring of `prop`, whose id in the store is `id`: a property not
/// yet primed is primed first, then the loop is started. Returns the element
/// controls, whether priming took place, and whether a frame must be
/// requested.
pub fn start(
    amc: &mut AnimationMasterControl,
    prop: &mut AnimProperty,
    id: u64,
    div_controls: Vec<DivControl>,
) -> (r: (Vec<DivControl>, bool, bool))
    ensures
        r.1 == (old(prop).status != AnimPropertyStatus::Primed),
        r.1 ==> all_primed(div_controls@, r.0@, old(prop).property@),
        !r.1 ==> r.0@ == div_controls@,
        ({
            let listed = if r.1 { old(amc).state().properties.push(id) } else { old(amc).state().properties };
            (final(amc).state(), r.2) == start_raf_spec(AmcState { properties: listed, ..old(amc).state() })
        }),
        final(prop).status == AnimPropertyStatus::Primed,
        final(prop).name == old(prop).name,
        final(prop).property == old(prop).property,
        final(prop).to == old(prop).to,
        final(prop).ideal_time == old(prop).ideal_time,
        final(prop).default_from == old(prop).default_from,
        final(prop).div_control_accesses == old(prop).div_control_accesses,
{
    let primes = prop.needs_preignite();
    let divs = if primes { preignite(amc, prop, id, div_controls) } else { div_controls };
    let request_frame = amc.start_raf();
    (divs, primes, request_frame)
}

/// The numbers of a starting value `from`, each paired with the number of the
/// target `to` at the same place. The target must have at least as many
/// numbers as the starting value.
pub fn interpolation_pairs(from: &String, to: &String) -> (r: Vec<(String, String)>)
    requires
        numbers_of(from@).len() <= numbers_of(to@).len(),
    ensures
        r@.len() == numbers_of(from@).len(),
        forall|k: int|
            #![trigger r@[k]]
            0 <= k < r@.len() ==> r@[k].0@ == numbers_of(from@)[k] && r@[k].1@ == numbers_of(to@)[k],
{
    let froms = number_texts(from.as_str());
    let tos = number_texts(to.as_str());
    let mut r: Vec<(String, String)> = Vec::new();
    let mut k: usize = 0;
    while k < froms.len()
        invariant
            strings_view(froms@) == numbers_of(from@),
            strings_view(tos@) == numbers_of(to@),
            froms@.len() <= tos@.len(),
            k <= froms@.len(),
            r@.len() == k,
            forall|q: int|
                #![trigger r@[q]]
                0 <= q < k ==> r@[q].0@ == numbers_of(from@)[q] && r@[q].1@ == numbers_of(to@)[q],
        decreases froms@.len() - k,
    {
        assert(strings_view(froms@)[k as int] == froms@[k as int]@);
        assert(strings_view(tos@)[k as int] == tos@[k as int]@);
        r.push((froms[k].clone(), tos[k].clone()));
        k = k + 1;
    }
    r
}

} // verus!

verus! {

/// Law: in the earlier loop a frame never changes the state of the master
/// control: not the properties, not the command, and not the frame loop's
/// status, whether it halts, primes or advances.
pub proof fn law_frame_leaves_state(s: AmcState, primed: bool)
    ensures
        begin_frame_spec(s, primed).0 == s,
        begin_frame_spec(s, primed).1 == FrameStep::Halt <==> (s.command == AMCCommand::Stop
            || s.properties.len() == 0),
{
}

/// Law: in the earlier loop retiring changes only the list of properties,
/// and keeps every property that has not settled.
pub proof fn law_retire_changes_only_properties(s: AmcState, settled: Seq<u64>)
    ensures
        retire_spec(s, settled).command == s.command,
        retire_spec(s, settled).raf_status == s.raf_status,
        forall|x: u64|
            #[trigger] retire_spec(s, settled).properties.contains(x) <==> (s.properties.contains(x)
                && !settled.contains(x)),
{
    lemma_without_ids_members(s.properties, settled);
}

/// The members of `without_ids`.
proof fn lemma_without_ids_members(props: Seq<u64>, settled: Seq<u64>)
    ensures
        forall|x: u64|
            #[trigger] without_ids(props, settled).contains(x) <==> (props.contains(x) && !settled.contains(x)),
    decreases props.len(),
{
    if props.len() > 0 {
        let rest = props.drop_last();
        let last = props.last();
        crate::use_spring::lemma_without_ids_step(props, settled);
        lemma_without_ids_members(rest, settled);
        let w = without_ids(rest, settled);
        assert forall|x: u64| props.contains(x) <==> (rest.contains(x) || x == last) by {
            if props.contains(x) && x != last {
                let k = choose|k: int| 0 <= k < props.len() && props[k] == x;
                assert(rest[k] == x);
            }
            if rest.contains(x) {
                let k = choose|k: int| 0 <= k < rest.len() && rest[k] == x;
                assert(props[k] == x);
            }
            if x == last {
                assert(props[props.len() - 1] == x);
            }
        }
        if !settled.contains(last) {
            let pushed = w.push(last);
            assert forall|x: u64| pushed.contains(x) <==> (w.contains(x) || x == last) by {
                if pushed.contains(x) && x != last {
                    let k = choose|k: int| 0 <= k < pushed.len() && pushed[k] == x;
                    assert(w[k] == x);
                }
                if w.contains(x) {
                    let k = choose|k: int| 0 <= k < w.len() && w[k] == x;
                    assert(pushed[k] == x);
                }
                if x == last {
                    assert(pushed[w.len() as int] == x);
                }
            }
        }
    } else {
        assert(without_ids(props, settled) == props) by {
            reveal_with_fuel(Seq::<_>::filter, 1);
        }
    }
}

} // verus!
