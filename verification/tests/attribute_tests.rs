use cozy_core::attribute::{Attributes, Effect, Operation};
use cozy_core::keys::{BulletAttribute, GunAttribute, PlayerAttribute};

#[test]
fn add_before_multiply_one_effect() {
    // base 2.0, +1.0, x1.5 => (2.0 + 1.0) * 1.5 = 4.5
    let mut attrs: Attributes<PlayerAttribute> = Attributes::new();
    attrs.set_base(PlayerAttribute::Speed, 2000);
    let mut e = Effect::new();
    e.add_modifier(PlayerAttribute::Speed, Operation::Add(1000));
    e.add_modifier(PlayerAttribute::Speed, Operation::Multiply(1500));
    attrs.apply_effect(e);
    assert_eq!(attrs.get(PlayerAttribute::Speed), 4500);
}

#[test]
fn add_before_multiply_reversed_order() {
    // the multiply listed first must still apply after the add
    let mut attrs: Attributes<PlayerAttribute> = Attributes::new();
    attrs.set_base(PlayerAttribute::Speed, 2000);
    let mut e = Effect::new();
    e.add_modifier(PlayerAttribute::Speed, Operation::Multiply(1500));
    e.add_modifier(PlayerAttribute::Speed, Operation::Add(1000));
    attrs.apply_effect(e);
    assert_eq!(attrs.get(PlayerAttribute::Speed), 4500);
}

#[test]
fn add_before_multiply_across_effects() {
    let mut a: Attributes<PlayerAttribute> = Attributes::new();
    a.set_base(PlayerAttribute::Speed, 2000);
    let mut e1 = Effect::new();
    e1.add_modifier(PlayerAttribute::Speed, Operation::Multiply(1500));
    let mut e2 = Effect::new();
    e2.add_modifier(PlayerAttribute::Speed, Operation::Add(1000));
    a.apply_effect(e1);
    a.apply_effect(e2);

    let mut b: Attributes<PlayerAttribute> = Attributes::new();
    b.set_base(PlayerAttribute::Speed, 2000);
    let mut f1 = Effect::new();
    f1.add_modifier(PlayerAttribute::Speed, Operation::Add(1000));
    let mut f2 = Effect::new();
    f2.add_modifier(PlayerAttribute::Speed, Operation::Multiply(1500));
    b.apply_effect(f1);
    b.apply_effect(f2);

    assert_eq!(a.get(PlayerAttribute::Speed), 4500);
    assert_eq!(b.get(PlayerAttribute::Speed), 4500);
}

#[test]
fn cache_coherence_under_apply_and_remove() {
    let mut attrs: Attributes<PlayerAttribute> = Attributes::new();
    attrs.set_base(PlayerAttribute::MaxHealth, 20000);
    let before = attrs.get(PlayerAttribute::MaxHealth);
    assert_eq!(before, 20000);

    let mut e = Effect::new();
    e.add_modifier(PlayerAttribute::MaxHealth, Operation::Add(6000));
    let id = e.get_id();
    attrs.apply_effect(e);
    assert_eq!(attrs.get(PlayerAttribute::MaxHealth), 26000);

    attrs.remove_effect(id);
    assert_eq!(attrs.get(PlayerAttribute::MaxHealth), before);
}

#[test]
fn removal_is_idempotent() {
    let mut attrs: Attributes<PlayerAttribute> = Attributes::new();
    attrs.set_base(PlayerAttribute::Speed, 150000);
    let mut e = Effect::new();
    e.add_modifier(PlayerAttribute::Speed, Operation::Multiply(2000));
    let id = e.get_id();
    attrs.apply_effect(e);
    assert_eq!(attrs.get(PlayerAttribute::Speed), 300000);

    attrs.remove_effect(id);
    let once = attrs.get(PlayerAttribute::Speed);
    attrs.remove_effect(id);
    let twice = attrs.get(PlayerAttribute::Speed);
    assert_eq!(once, 150000);
    assert_eq!(twice, once);
}

#[test]
fn removing_unknown_id_changes_nothing() {
    let mut attrs: Attributes<PlayerAttribute> = Attributes::new();
    attrs.set_base(PlayerAttribute::Speed, 1234);
    attrs.remove_effect(0xdead_beef);
    assert_eq!(attrs.get(PlayerAttribute::Speed), 1234);
}

#[test]
fn unset_key_defaults_to_zero() {
    let mut attrs: Attributes<PlayerAttribute> = Attributes::new();
    assert_eq!(attrs.get(PlayerAttribute::MaxHealth), 0);
    assert_eq!(attrs.get_int(PlayerAttribute::MaxHealth), 0);
    assert_eq!(attrs.get_uint(PlayerAttribute::MaxHealth), 0);
    assert_eq!(attrs.get_base(PlayerAttribute::MaxHealth), 0);
}

#[test]
fn set_base_overwrites() {
    let mut attrs: Attributes<PlayerAttribute> = Attributes::new();
    attrs.set_base(PlayerAttribute::Speed, 1000);
    attrs.set_base(PlayerAttribute::Speed, 7000);
    assert_eq!(attrs.get_base(PlayerAttribute::Speed), 7000);
    assert_eq!(attrs.get(PlayerAttribute::Speed), 7000);
}

#[test]
fn set_base_invalidates_cached_value() {
    let mut attrs: Attributes<PlayerAttribute> = Attributes::new();
    attrs.set_base(PlayerAttribute::Speed, 1000);
    assert_eq!(attrs.get(PlayerAttribute::Speed), 1000);
    attrs.set_base(PlayerAttribute::Speed, 2000);
    assert_eq!(attrs.get(PlayerAttribute::Speed), 2000);
}

#[test]
fn adds_accumulate() {
    let mut attrs: Attributes<BulletAttribute> = Attributes::new();
    attrs.set_base(BulletAttribute::Power, 1000);
    let mut e = Effect::new();
    e.add_modifier(BulletAttribute::Power, Operation::Add(100));
    e.add_modifier(BulletAttribute::Power, Operation::Add(200));
    attrs.apply_effect(e);
    assert_eq!(attrs.get(BulletAttribute::Power), 1300);
}

#[test]
fn multiply_scales_down_and_truncates() {
    let mut attrs: Attributes<BulletAttribute> = Attributes::new();
    attrs.set_base(BulletAttribute::Speed, 1);
    let mut e = Effect::new();
    // 1 * 1999 / 1000 truncates toward zero to 1
    e.add_modifier(BulletAttribute::Speed, Operation::Multiply(1999));
    attrs.apply_effect(e);
    assert_eq!(attrs.get(BulletAttribute::Speed), 1);

    let mut attrs2: Attributes<BulletAttribute> = Attributes::new();
    attrs2.set_base(BulletAttribute::Speed, -1);
    let mut e2 = Effect::new();
    e2.add_modifier(BulletAttribute::Speed, Operation::Multiply(1999));
    attrs2.apply_effect(e2);
    assert_eq!(attrs2.get(BulletAttribute::Speed), -1);
}

#[test]
fn modifiers_for_other_keys_do_not_interfere() {
    let mut attrs: Attributes<BulletAttribute> = Attributes::new();
    attrs.set_base(BulletAttribute::Speed, 400000);
    attrs.set_base(BulletAttribute::Power, 1000);
    let mut e = Effect::new();
    e.add_modifier(BulletAttribute::Power, Operation::Multiply(500));
    attrs.apply_effect(e);
    assert_eq!(attrs.get(BulletAttribute::Speed), 400000);
    assert_eq!(attrs.get(BulletAttribute::Power), 500);
}

#[test]
fn get_int_rounds_half_away_from_zero() {
    let mut attrs: Attributes<PlayerAttribute> = Attributes::new();
    attrs.set_base(PlayerAttribute::MaxHealth, 1500);
    assert_eq!(attrs.get_int(PlayerAttribute::MaxHealth), 2);
    attrs.set_base(PlayerAttribute::MaxHealth, 1499);
    assert_eq!(attrs.get_int(PlayerAttribute::MaxHealth), 1);
    attrs.set_base(PlayerAttribute::MaxHealth, -1500);
    assert_eq!(attrs.get_int(PlayerAttribute::MaxHealth), -2);
    attrs.set_base(PlayerAttribute::MaxHealth, -499);
    assert_eq!(attrs.get_int(PlayerAttribute::MaxHealth), 0);
}

#[test]
fn get_uint_clamps_negatives_to_zero() {
    let mut attrs: Attributes<PlayerAttribute> = Attributes::new();
    attrs.set_base(PlayerAttribute::Speed, -5000);
    assert_eq!(attrs.get_uint(PlayerAttribute::Speed), 0);
    attrs.set_base(PlayerAttribute::Speed, 2500);
    assert_eq!(attrs.get_uint(PlayerAttribute::Speed), 3);
}

#[test]
fn nested_gun_attribute_keys() {
    let mut attrs: Attributes<GunAttribute> = Attributes::new();
    attrs.set_base(GunAttribute::Cooldown, 1000);
    attrs.set_base(GunAttribute::Bullets(BulletAttribute::Power), 1000);
    attrs.set_base(GunAttribute::Bullets(BulletAttribute::Speed), 200000);
    let mut e = Effect::new();
    e.add_modifier(GunAttribute::Bullets(BulletAttribute::Power), Operation::Add(500));
    attrs.apply_effect(e);
    assert_eq!(attrs.get(GunAttribute::Bullets(BulletAttribute::Power)), 1500);
    assert_eq!(attrs.get(GunAttribute::Bullets(BulletAttribute::Speed)), 200000);
    assert_eq!(attrs.get(GunAttribute::Cooldown), 1000);
}

#[test]
fn replacing_an_effect_under_its_own_id_keeps_one_copy() {
    let mut attrs: Attributes<PlayerAttribute> = Attributes::new();
    attrs.set_base(PlayerAttribute::Speed, 1000);
    let mut e = Effect::new();
    e.add_modifier(PlayerAttribute::Speed, Operation::Add(100));
    let id = e.get_id();
    attrs.apply_effect(e.clone());
    attrs.apply_effect(e);
    assert_eq!(attrs.get(PlayerAttribute::Speed), 1100);
    attrs.remove_effect(id);
    assert_eq!(attrs.get(PlayerAttribute::Speed), 1000);
}
