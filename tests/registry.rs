use replicate::codec::ComponentData;
use replicate::registry::{Serializable, TypeRegistry};
use replicate::rng::Rng;
use replicate::rpg::{max, modifier, ExperienceType, RPG};

#[test]
fn register_is_idempotent_and_append_only() {
    let mut r = TypeRegistry::new();
    assert_eq!(r.register("Transform"), Some(0));
    assert_eq!(r.register("Health"), Some(1));
    assert_eq!(r.register("Transform"), Some(0));
    assert_eq!(r.register("Mana"), Some(2));
    assert_eq!(r.lookup("Health"), Some(1));
    assert_eq!(r.lookup("Missing"), None);
}

#[test]
fn component_data_overwrite_keeps_length() {
    let mut c = ComponentData { id: 3, payload: vec![1, 2] };
    assert!(!c.from_bytes(&[9]));
    assert_eq!(c.to_bytes(), vec![1, 2]);
    assert!(c.from_bytes(&[7, 8]));
    assert_eq!(c.to_bytes(), vec![7, 8]);
    assert_eq!(c.get_length(), 2);
    assert_eq!(c.get_type_id(), 3);
}

#[test]
fn rng_steps_multiply_by_constant() {
    let mut r = Rng::new(1);
    assert_eq!(r.next(), 0x811c9dc5);
    r.mutate_state();
    assert_eq!(r.next(), 0x811c9dc5usize.wrapping_mul(0x811c9dc5));
    let v = Rng::new(12345).range(10, 20);
    assert!((10..20).contains(&v));
    assert_eq!(Rng::new(1).bool(), 0x811c9dc5usize % 2 == 0);
    let s = Rng::new(2).get_series(3);
    assert_eq!(s.len(), 3);
    assert_eq!(s[0].next(), 2usize.wrapping_mul(0x811c9dc5).wrapping_mul(0x811c9dc5));
}

#[test]
fn progression_rules() {
    assert_eq!(modifier(10), 0);
    assert_eq!(modifier(15), 2);
    assert_eq!(modifier(3), -3);
    assert_eq!(modifier(200), -33);
    assert_eq!(max(-2, 3), 3);
    assert_eq!(RPG::xp_needed_to_level_up(3), 300);
    assert!(ExperienceType::Swordsmanship.is_martial());
    assert!(!ExperienceType::Necromancy.is_martial());
    assert_eq!(ExperienceType::Necromancy.index(), 12);
}

#[test]
fn progression_levels_up() {
    let mut p = RPG::new(10, 14, 16, 12, 10, 12);
    assert_eq!(p.max_health, 9);
    assert_eq!(p.max_mana, 11);
    assert_eq!(p.max_stamina, 10);
    assert!(p.can_add_xp(150, ExperienceType::Swordsmanship));
    p.add_xp(150, ExperienceType::Swordsmanship);
    assert_eq!(p.level, 2);
    assert_eq!(p.martial_experience, 50);
    assert_eq!(p.max_health, 9 + 6);
    assert_eq!(p.max_stamina, 10 + 7);
    assert_eq!(p.experience_types[4], 50);
    assert_eq!(p.levels_experience_types[4], 2);
    p.add_xp(40, ExperienceType::Illusion);
    assert_eq!(p.level, 2);
    assert_eq!(p.magic_experience, 40);
    assert_eq!(p.experience_types[11], 40);
    assert_eq!(p.levels_experience_types[11], 1);
    assert!(!p.can_add_xp(65535, ExperienceType::Illusion));
    p.recalculate_max_health();
    assert_eq!(p.max_health, 3 + 6 * 2);
}
