use spring_anim::animated_view::flip_targets;
use spring_anim::model::{routes, update, Model, Msg};
use spring_anim::simple_back::{attack, create_bear, Armour, Attack, EntityClass, Health};

#[test]
fn bear_stats() {
    let b = create_bear();
    assert_eq!(b.name.0, "Bear");
    assert_eq!(b.attack, Attack(100));
    assert_eq!(b.armour, Armour(50));
    assert_eq!(b.health, Health(50));
    assert_eq!(b.class, EntityClass::Animal);
}

#[test]
fn bear_attacking_bear_leaves_no_health() {
    let a = create_bear();
    let t = create_bear();
    assert_eq!(attack(Some(a.attack), Some(t.armour), Some(t.health)), Some(Health(0)));
}

#[test]
fn attack_lowers_health_by_damage() {
    assert_eq!(attack(Some(Attack(30)), Some(Armour(10)), Some(Health(25))), Some(Health(5)));
}

#[test]
fn attack_without_all_stats_does_nothing() {
    assert_eq!(attack(None, Some(Armour(1)), Some(Health(1))), None);
    assert_eq!(attack(Some(Attack(1)), None, Some(Health(1))), None);
    assert_eq!(attack(Some(Attack(1)), Some(Armour(1)), None), None);
}

#[test]
fn msg_and_model_defaults() {
    assert_eq!(Msg::default(), Msg::DoNothing);
    assert_eq!(Model::default(), Model {});
    assert_eq!(routes(), None);
}

#[test]
fn update_logs_only_animation_complete() {
    let mut m = Model::default();
    assert_eq!(update(Msg::AnimationComplete, &mut m), Some("Animation complete callback seed!"));
    assert_eq!(update(Msg::DoNothing, &mut m), None);
}

#[test]
fn flip_targets_follow_the_flip() {
    let f = flip_targets(true);
    assert_eq!(f.opacity, "0.0");
    assert_eq!(f.opacity_opposite, "1.0");
    assert_eq!(f.transform, "perspective(600px) rotateX(180.0deg)");
    assert_eq!(f.transform_opposite, "perspective(600px) rotateX(0.0deg)");
    let g = flip_targets(false);
    assert_eq!(g.opacity, "1.0");
    assert_eq!(g.opacity_opposite, "0.0");
    assert_eq!(g.transform, "perspective(600px) rotateX(360.0deg)");
    assert_eq!(g.transform_opposite, "perspective(600px) rotateX(180.0deg)");
}
