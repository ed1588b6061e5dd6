use spring_anim::use_spring::{ElemControl, FromProp};
use spring_anim::use_spring2::{use_spring, DivControl};
use wasm_bindgen::JsCast;

fn s(x: &str) -> String {
    x.to_string()
}

fn placeholder_element() -> web_sys::HtmlElement {
    wasm_bindgen::JsValue::NULL.unchecked_into::<web_sys::HtmlElement>()
}

#[test]
fn found_element_is_kept_once() {
    let mut e = ElemControl::new(s("front"));
    assert!(e.adopt_element(Some(placeholder_element())));
    assert!(e.html_element.is_some());
    assert!(!e.adopt_element(Some(placeholder_element())));
}

#[test]
fn starting_value_is_taken_once_and_not_when_empty() {
    let mut e = ElemControl::new(s("front"));
    e.adopt_element(Some(placeholder_element()));
    e.ensure_from(&s("opacity"), Some(s("")));
    assert!(!e.from_props.contains_key(&s("opacity")));
    e.ensure_from(&s("opacity"), None);
    assert!(!e.from_props.contains_key(&s("opacity")));
    e.ensure_from(&s("opacity"), Some(s("0.5")));
    let f: &FromProp = e.from_props.get(&s("opacity")).unwrap();
    assert_eq!(f.prop, "0.5");
    assert_eq!(f.vals, vec![s("0.5")]);
    e.ensure_from(&s("opacity"), Some(s("0.9")));
    assert_eq!(e.from_props.get(&s("opacity")).unwrap().prop, "0.5");
    // starting again forgets it, and the next frame takes it afresh
    e.forget_from(&s("opacity"));
    e.ensure_from(&s("opacity"), Some(s("0.9")));
    assert_eq!(e.from_props.get(&s("opacity")).unwrap().prop, "0.9");
}

#[test]
fn earlier_form_falls_back_to_the_default() {
    let mut p = use_spring(None, s("padding-top"), s("344px"), s("n"));
    let mut d = DivControl::new(s("animated_div"));
    d.adopt_element(Some(placeholder_element()));
    d.resolve_from(&p, Some(s("")));
    assert!(!d.from_props.contains_key(&s("padding-top")));
    p.default_from(s("0px"));
    d.resolve_from(&p, None);
    assert_eq!(d.from_props.get(&s("padding-top")), Some(&s("0px")));
    let mut d2 = DivControl::new(s("other"));
    d2.adopt_element(Some(placeholder_element()));
    d2.resolve_from(&p, Some(s("")));
    assert_eq!(d2.from_props.get(&s("padding-top")), Some(&s("0px")));
    let mut d3 = DivControl::new(s("third"));
    d3.adopt_element(Some(placeholder_element()));
    d3.resolve_from(&p, Some(s("7px")));
    assert_eq!(d3.from_props.get(&s("padding-top")), Some(&s("7px")));
    d3.resolve_from(&p, Some(s("9px")));
    assert_eq!(d3.from_props.get(&s("padding-top")), Some(&s("7px")));
}

#[test]
fn start_forgets_starting_values_everywhere_and_primes() {
    let mut amc = spring_anim::use_spring::AnimationMasterControl::new();
    let mut p = spring_anim::use_spring::use_spring(None, s("opacity"), s("0.0"), s("n"));
    let mut e1 = ElemControl::new(s("front"));
    e1.adopt_element(Some(placeholder_element()));
    e1.ensure_from(&s("opacity"), Some(s("1.0")));
    let mut e2 = ElemControl::new(s("back"));
    e2.from_props.insert(s("transform"), FromProp::from_existing(s("rotateX(3deg)")));
    let (elems, request_frame) = spring_anim::use_spring::start(&mut amc, &mut p, 5, vec![e1, e2]);
    assert!(request_frame);
    assert_eq!(elems.len(), 2);
    assert_eq!(elems[0].div_id, "front");
    assert!(!elems[0].from_props.contains_key(&s("opacity")));
    assert!(elems[1].from_props.contains_key(&s("transform")));
    assert_eq!(amc.properties(), vec![5]);
    assert_eq!(p.status, spring_anim::use_spring::AnimPropertyStatus::Running);
    assert_eq!(p.to_vals, vec![s("0.0")]);
    let (_, again) = spring_anim::use_spring::start(&mut amc, &mut p, 5, vec![]);
    assert!(!again);
    assert_eq!(amc.properties(), vec![5]);
}

#[test]
fn write_frame_records_the_written_value() {
    let mut p = spring_anim::use_spring::use_spring(None, s("opacity"), s("0.0"), s("n"));
    let mut e = ElemControl::new(s("front"));
    assert_eq!(spring_anim::use_spring::write_frame(&e, &mut p, Some(vec![s("0.4")])), None);
    assert_eq!(p.latest_prop_val, None);
    e.adopt_element(Some(placeholder_element()));
    e.ensure_from(&s("opacity"), Some(s("1.0")));
    assert_eq!(spring_anim::use_spring::write_frame(&e, &mut p, Some(vec![s("0.4")])), Some(s("0.4")));
    assert_eq!(p.latest_prop_val, Some(s("0.4")));
}

#[test]
fn earlier_start_primes_once() {
    let mut amc = spring_anim::use_spring2::AnimationMasterControl::new();
    let mut p = use_spring(None, s("padding-top"), s("344px"), s("n"));
    let mut d = DivControl::new(s("animated_div"));
    d.from_props.insert(s("padding-top"), s("1px"));
    let (divs, primed, request) = spring_anim::use_spring2::start(&mut amc, &mut p, 9, vec![d]);
    assert!(primed && request);
    assert_eq!(divs[0].status, spring_anim::use_spring2::AnimStatus::Running);
    assert!(!divs[0].from_props.contains_key(&s("padding-top")));
    assert_eq!(amc.properties(), vec![9]);
    let (divs, primed, request) = spring_anim::use_spring2::start(&mut amc, &mut p, 9, divs);
    assert!(!primed && !request);
    assert_eq!(divs.len(), 1);
    assert_eq!(amc.properties(), vec![9]);
}

#[test]
fn new_prop_needs_a_starting_value_and_an_interpolation() {
    use_spring_new_prop_cases();
}

fn use_spring_new_prop_cases() {
    let mut e = ElemControl::new(s("front"));
    e.adopt_element(Some(placeholder_element()));
    let p = spring_anim::use_spring::use_spring(None, s("transform"), s("perspective(600px) rotateX(180deg)"), s("n"));
    let nv = |e: &ElemControl, v: Option<Vec<String>>| spring_anim::use_spring::new_prop_for_elem(e, &p, v);
    assert_eq!(nv(&e, Some(vec![s("1"), s("2")])), None);
    e.from_props.insert(s("transform"), FromProp::from_existing(s("perspective(600px) rotateX(0deg)")));
    assert_eq!(nv(&e, None), None);
    assert_eq!(nv(&e, Some(vec![s("600"), s("90")])), Some(s("perspective(600px) rotateX(90deg)")));
    assert_eq!(nv(&e, Some(vec![s("600")])), Some(s("perspective(600px) rotateX( deg)")));
}
