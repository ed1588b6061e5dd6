use spring_anim::use_spring::{AMCCommand, FrameStep, RafStatus};
use spring_anim::use_spring2::{
    use_spring,
    interpolation_pairs, AnimProperty, AnimPropertyStatus, AnimStatus, AnimationMasterControl,
    DivControl, SPRING_IDEAL_TIME_BITS,
};

fn s(x: &str) -> String {
    x.to_string()
}

#[test]
fn div_control_default_is_new_with_empty_id() {
    let d = DivControl::default();
    assert_eq!(d.div_id, "");
    assert!(d.html_element.is_none() && !d.should_stop);
    assert_eq!(d.status, AnimStatus::PreInitialized);
    assert!(!d.from_props.contains_key(&s("padding-top")));
}

#[test]
fn anim_status_default_is_pre_initialized() {
    assert_eq!(AnimStatus::default(), AnimStatus::PreInitialized);
    assert_eq!(f32::from_bits(SPRING_IDEAL_TIME_BITS), 0.1_f32);
}

#[test]
fn master_control_lists_a_primed_property_each_time() {
    let mut amc = AnimationMasterControl::new();
    amc.push_property(1);
    amc.push_property(1);
    assert_eq!(amc.properties(), vec![1, 1]);
    assert!(amc.start_raf());
    assert!(!amc.start_raf());
    assert_eq!(amc.begin_frame(false), FrameStep::Prime);
    assert_eq!(amc.begin_frame(true), FrameStep::Advance);
    amc.retire(&vec![1]);
    assert!(amc.properties().is_empty());
    assert_eq!(amc.begin_frame(true), FrameStep::Halt);
    // the earlier loop stays marked as running after it halts
    assert!(!amc.start_raf());
    amc.stop();
    amc.push_property(2);
    assert_eq!(amc.begin_frame(true), FrameStep::Halt);
    let _ = (AMCCommand::Stop, RafStatus::Running);
}

#[test]
fn div_control_preignite_only_when_pre_initialized() {
    let mut d = DivControl::new(s("animated_div"));
    assert_eq!(d.status, AnimStatus::PreInitialized);
    d.from_props.insert(s("padding-top"), s("10px"));
    d.preignite_for(&s("padding-top"));
    assert_eq!(d.status, AnimStatus::Running);
    assert!(!d.from_props.contains_key(&s("padding-top")));
    d.from_props.insert(s("padding-top"), s("12px"));
    d.preignite_for(&s("padding-top"));
    assert!(d.from_props.contains_key(&s("padding-top")));
}

#[test]
fn resolve_from_needs_a_found_element() {
    let mut d = DivControl::new(s("animated_div"));
    let mut p = use_spring(None, s("padding-top"), s("344px"), s("n"));
    p.default_from(s("0px"));
    d.resolve_from(&p, Some(s("5px")));
    assert!(!d.from_props.contains_key(&s("padding-top")));
    assert!(!d.adopt_element(None));
}

#[test]
fn use_spring_keeps_the_first_target() {
    let p = use_spring(None, s("padding-top"), s("344px"), s("n1"));
    assert_eq!(p.status, AnimPropertyStatus::Initialised);
    assert_eq!(p.ideal_time, SPRING_IDEAL_TIME_BITS);
    let mut q = use_spring(Some(p), s("x"), s("1px"), s("n2"));
    assert_eq!(q.to, "344px");
    assert_eq!(q.name, "n2");
    assert!(q.needs_preignite());
    q.mark_primed();
    assert!(!q.needs_preignite());
    q.attach_div_control(3);
    assert_eq!(q.div_control_accesses, vec![3]);
    q.set_property(s("5px"));
    q.ideal_time(0.3_f32.to_bits());
    assert_eq!(q.to, "5px");
    assert_eq!(f32::from_bits(q.ideal_time), 0.3);
}

#[test]
fn interpolation_pairs_follow_the_starting_value() {
    let pairs = interpolation_pairs(&s("rgb(1, 2)"), &s("rgb(10, 20, 30)"));
    assert_eq!(pairs, vec![(s("1"), s("10")), (s("2"), s("20"))]);
}

#[test]
fn earlier_animated_id_registers_only_the_first_time() {
    let d = DivControl::new(s("animated_div"));
    let p = use_spring(None, s("padding-top"), s("344px"), s("n"));
    let (id, props) = spring_anim::use_spring2::animated_id(&d, 2, vec![p], true);
    assert_eq!(id, "animated_div");
    assert_eq!(props[0].div_control_accesses, vec![2]);
    let (_, props) = spring_anim::use_spring2::animated_id(&d, 2, props, false);
    assert_eq!(props[0].div_control_accesses, vec![2]);
}
