use spring_anim::use_spring::{
    use_spring,
    animated_style, id_listed, new_prop_for_elem, paired_numbers, AMCCommand, AnimProperty,
    AnimPropertyStatus, AnimationMasterControl, ElemControl, FrameStep, FromProp, RafStatus,
    MAPPED_IDEAL_TIME_BITS, SPRING_IDEAL_TIME_BITS,
};

fn s(x: &str) -> String {
    x.to_string()
}

fn strs(v: &[&str]) -> Vec<String> {
    v.iter().map(|x| x.to_string()).collect()
}

#[test]
fn ideal_times_are_the_springs_floats() {
    assert_eq!(f32::from_bits(SPRING_IDEAL_TIME_BITS), 0.2_f32);
    assert_eq!(f32::from_bits(MAPPED_IDEAL_TIME_BITS), 0.1_f32);
}

#[test]
fn elem_control_default_is_new_with_empty_id() {
    let e = ElemControl::default();
    assert_eq!(e.div_id, "");
    assert!(e.html_element.is_none() && !e.should_stop);
    assert!(!e.from_props.contains_key(&s("opacity")));
}

#[test]
fn defaults_of_commands_and_status() {
    assert_eq!(AMCCommand::default(), AMCCommand::DoNothing);
    assert_eq!(RafStatus::default(), RafStatus::Stopped);
}

#[test]
fn new_master_control_is_idle() {
    let amc = AnimationMasterControl::new();
    assert!(amc.properties().is_empty());
    assert_eq!(amc.command(), AMCCommand::DoNothing);
    assert_eq!(amc.raf_status(), RafStatus::Stopped);
}

#[test]
fn start_requests_a_frame_only_when_the_loop_is_stopped() {
    let mut amc = AnimationMasterControl::new();
    assert!(amc.start_property(7));
    assert_eq!(amc.raf_status(), RafStatus::Running);
    assert!(!amc.start_property(8));
    assert!(!amc.start_property(7));
    assert_eq!(amc.properties(), vec![7, 8]);
    assert!(amc.contains(7) && amc.contains(8) && !amc.contains(9));
}

#[test]
fn frames_prime_then_advance_then_halt_when_empty() {
    let mut amc = AnimationMasterControl::new();
    assert_eq!(amc.begin_frame(false), FrameStep::Halt);
    assert_eq!(amc.raf_status(), RafStatus::Stopped);
    amc.start_property(1);
    amc.start_property(2);
    assert_eq!(amc.begin_frame(false), FrameStep::Prime);
    assert_eq!(amc.begin_frame(true), FrameStep::Advance);
    amc.retire(&vec![1]);
    assert_eq!(amc.properties(), vec![2]);
    assert_eq!(amc.begin_frame(true), FrameStep::Advance);
    amc.retire(&vec![2, 5]);
    assert!(amc.properties().is_empty());
    assert_eq!(amc.begin_frame(true), FrameStep::Halt);
    assert_eq!(amc.raf_status(), RafStatus::Stopped);
    // a halted loop is restarted by the next start
    assert!(amc.start_property(3));
}

#[test]
fn stop_halts_every_frame() {
    let mut amc = AnimationMasterControl::new();
    amc.start_property(1);
    amc._stop();
    assert_eq!(amc.command(), AMCCommand::Stop);
    assert_eq!(amc.begin_frame(true), FrameStep::Halt);
    amc.start_property(2);
    assert_eq!(amc.begin_frame(false), FrameStep::Halt);
}

#[test]
fn id_listed_finds_ids() {
    assert!(id_listed(&vec![3, 4], 4));
    assert!(!id_listed(&vec![3, 4], 5));
    assert!(!id_listed(&vec![], 5));
}

#[test]
fn from_prop_takes_the_value_apart() {
    let f = FromProp::from_existing(s("perspective(600px) rotateX(0deg)"));
    assert_eq!(f.prop, "perspective(600px) rotateX(0deg)");
    assert_eq!(f.vals, strs(&["600", "0"]));
    assert_eq!(f.template, strs(&["perspective(", "px) rotateX(", "deg)"]));
}

#[test]
fn elem_control_starts_empty() {
    let e = ElemControl::new(s("front"));
    assert_eq!(e.div_id, "front");
    assert!(e.html_element.is_none());
    assert!(!e.should_stop);
    assert!(!e.from_props.contains_key(&s("opacity")));
}

#[test]
fn elem_control_without_element_takes_no_starting_value() {
    let mut e = ElemControl::new(s("front"));
    e.ensure_from(&s("opacity"), Some(s("1")));
    assert!(!e.from_props.contains_key(&s("opacity")));
    assert!(!e.adopt_element(None));
    assert!(e.html_element.is_none());
}

#[test]
fn forget_from_drops_the_starting_value() {
    let mut e = ElemControl::new(s("front"));
    e.from_props.insert(s("opacity"), FromProp::from_existing(s("1")));
    e.from_props.insert(s("transform"), FromProp::from_existing(s("rotateX(3deg)")));
    e.forget_from(&s("opacity"));
    assert!(!e.from_props.contains_key(&s("opacity")));
    assert!(e.from_props.contains_key(&s("transform")));
}

#[test]
fn use_spring_makes_a_fresh_property() {
    let p = use_spring(None, s("opacity"), s("0.0"), s("Id(1)"));
    assert_eq!(p.name, "Id(1)");
    assert_eq!(p.property, "opacity");
    assert_eq!(p.to, "0.0");
    assert_eq!(p.ideal_time, SPRING_IDEAL_TIME_BITS);
    assert!(p.to_vals.is_empty() && p.to_template.is_empty());
    assert!(p.latest_prop_val.is_none() && p.default_from.is_none());
    assert_eq!(p.status, AnimPropertyStatus::Stopped);
    assert!(p.elem_control_accesses.is_empty());
}

#[test]
fn use_spring_keeps_a_stored_property_and_retargets_it() {
    let mut stored = use_spring(None, s("opacity"), s("0.0"), s("Id(1)"));
    stored.attach_elem_control(4);
    stored.record_latest(s("0.5"));
    let p = use_spring(Some(stored), s("ignored"), s("1.0"), s("Id(2)"));
    assert_eq!(p.property, "opacity");
    assert_eq!(p.to, "1.0");
    assert_eq!(p.name, "Id(2)");
    assert_eq!(p.elem_control_accesses, vec![4]);
    assert_eq!(p.latest_prop_val(), Some(s("0.5")));
}

#[test]
fn map_animates_the_named_property_toward_the_same_target() {
    let p = use_spring(None, s("opacity"), s("0.0"), s("Id(1)"));
    let m = p.map(None, s("Id(9)"));
    assert_eq!(m.property, "Id(1)");
    assert_eq!(m.to, "0.0");
    assert_eq!(m.name, "Id(9)");
    assert_eq!(m.ideal_time, MAPPED_IDEAL_TIME_BITS);
}

#[test]
fn setters_change_one_field() {
    let mut p = use_spring(None, s("margin-left"), s("10px"), s("n"));
    p.default_from(s("0px"));
    p.ideal_time(0.5_f32.to_bits());
    p.set_property(s("20px"));
    assert_eq!(p.default_from, Some(s("0px")));
    assert_eq!(f32::from_bits(p.ideal_time), 0.5);
    assert_eq!(p.to, "20px");
    assert_eq!(p.property, "margin-left");
}

#[test]
fn prime_takes_the_target_apart_and_runs() {
    let mut p = use_spring(None, s("transform"), s("perspective(600px) rotateX(180.0deg)"), s("n"));
    p.prime();
    assert_eq!(p.to_vals, strs(&["600", "180.0"]));
    assert_eq!(p.to_template, strs(&["perspective(", "px) rotateX(", "deg)"]));
    assert_eq!(p.status, AnimPropertyStatus::Running);
}

#[test]
fn style_uses_latest_value_or_default() {
    let mut a = use_spring(None, s("opacity"), s("0.0"), s("a"));
    let b = use_spring(None, s("transform"), s("rotateX(1deg)"), s("b"));
    a.record_latest(s("0.3"));
    assert_eq!(a.style_entry(&s("1.0")), (s("opacity"), s("0.3")));
    assert_eq!(b.style_entry(&s("rotateX(0deg)")), (s("transform"), s("rotateX(0deg)")));
    let style = animated_style(&vec![(a, s("1.0")), (b, s("none"))]);
    assert_eq!(style, vec![(s("opacity"), s("0.3")), (s("transform"), s("none"))]);
}

#[test]
fn paired_numbers_go_as_far_as_both() {
    let pairs = paired_numbers(&strs(&["1", "2", "3"]), &strs(&["10", "20"]));
    assert_eq!(pairs, vec![(s("1"), s("10")), (s("2"), s("20"))]);
    assert!(paired_numbers(&strs(&[]), &strs(&["1"])).is_empty());
}

#[test]
fn frame_is_written_only_to_a_found_element() {
    let mut e = ElemControl::new(s("front"));
    let mut p = use_spring(None, s("transform"), s("perspective(600px) rotateX(180deg)"), s("n"));
    e.from_props.insert(s("transform"), FromProp::from_existing(s("perspective(600px) rotateX(0deg)")));
    assert_eq!(
        new_prop_for_elem(&e, &p, Some(strs(&["600", "90"]))),
        Some(s("perspective(600px) rotateX(90deg)"))
    );
    assert_eq!(spring_anim::use_spring::write_frame(&e, &mut p, Some(strs(&["600", "90"]))), None);
    assert_eq!(p.latest_prop_val, None);
}

#[test]
fn new_prop_values_without_a_found_element() {
    let mut e = ElemControl::new(s("box"));
    let color = use_spring(None, s("color"), s("rgb(100, 200, 50)"), s("c"));
    e.from_props.insert(s("color"), FromProp::from_existing(s("rgb(0, 0, 0)")));
    assert_eq!(new_prop_for_elem(&e, &color, Some(strs(&["50", "100", "25"]))), Some(s("rgb(50, 100, 25)")));
    let margin = use_spring(None, s("margin"), s("10px 20px"), s("m"));
    e.from_props.insert(s("margin"), FromProp::from_existing(s("0px")));
    assert_eq!(new_prop_for_elem(&e, &margin, Some(strs(&["5"]))), Some(s("5px  px")));
    assert_eq!(new_prop_for_elem(&e, &margin, None), None);
    let other = use_spring(None, s("opacity"), s("1"), s("o"));
    assert_eq!(new_prop_for_elem(&e, &other, Some(strs(&["1"]))), None);
}

#[test]
fn animated_id_registers_only_the_first_time() {
    let e = ElemControl::new(s("front"));
    let mut a = use_spring(None, s("opacity"), s("0.0"), s("a"));
    a.record_latest(s("0.7"));
    let b = use_spring(None, s("transform"), s("rotateX(1deg)"), s("b"));
    let (id, props, style) = spring_anim::use_spring::animated_id(&e, 3, vec![(a, s("1.0")), (b, s("none"))], true);
    assert_eq!(id, "front");
    assert_eq!(props[0].0.elem_control_accesses, vec![3]);
    assert_eq!(props[1].0.elem_control_accesses, vec![3]);
    assert_eq!(style, vec![(s("opacity"), s("0.7")), (s("transform"), s("none"))]);
    let (_, props, _) = spring_anim::use_spring::animated_id(&e, 3, props, false);
    assert_eq!(props[0].0.elem_control_accesses, vec![3]);
}
