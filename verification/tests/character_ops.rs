use initiative_tracker::character::Character;
use initiative_tracker::records::JSONCharacter;

#[test]
fn new_starts_at_full_health_without_buffer() {
    let c = Character::new(String::from("Astarion"), 14, 27, 17);
    assert_eq!(c.name, "Astarion");
    assert_eq!(c.ac, 14);
    assert_eq!(c.current, 27);
    assert_eq!(c.max, 27);
    assert_eq!(c.score, 17);
    assert_eq!(c.temp, 0);
}

#[test]
fn damage_floors_at_zero() {
    let mut c = Character::new(String::from("Gale"), 12, 10, 3);
    c.damage(3);
    assert_eq!(c.current, 7);
    c.damage(7);
    assert_eq!(c.current, 0);
    c.damage(1);
    assert_eq!(c.current, 0);
    assert_eq!(c.max, 10);
}

#[test]
fn temp_hp_absorbs_before_current() {
    let mut c = Character::new(String::from("Karlach"), 13, 10, 3);
    c.grant_temp(5);
    assert_eq!(c.temp, 5);
    c.damage(3);
    assert_eq!(c.temp, 2);
    assert_eq!(c.current, 10);
    c.damage(4);
    assert_eq!(c.temp, 0);
    assert_eq!(c.current, 8);
}

#[test]
fn damage_equal_to_temp_consumes_buffer_only() {
    let mut c = Character::new(String::from("Wyll"), 13, 10, 3);
    c.grant_temp(4);
    c.damage(4);
    assert_eq!(c.temp, 0);
    assert_eq!(c.current, 10);
}

#[test]
fn heal_clamps_at_max() {
    let mut c = Character::new(String::from("Shadowheart"), 15, 10, 3);
    c.damage(5);
    assert_eq!(c.current, 5);
    c.heal(100);
    assert_eq!(c.current, 10);
}

#[test]
fn heal_never_restores_temp() {
    let mut c = Character::new(String::from("Lae'zel"), 17, 10, 3);
    c.grant_temp(6);
    c.damage(8);
    assert_eq!(c.temp, 0);
    assert_eq!(c.current, 8);
    c.heal(2);
    assert_eq!(c.temp, 0);
    assert_eq!(c.current, 10);
}

#[test]
fn grant_temp_overwrites_not_stacks() {
    let mut c = Character::new(String::from("Halsin"), 10, 30, 3);
    c.grant_temp(8);
    c.grant_temp(2);
    assert_eq!(c.temp, 2);
    c.grant_temp(11);
    assert_eq!(c.temp, 11);
}

#[test]
fn record_from_character_keeps_max_not_current() {
    let mut c = Character::new(String::from("Minsc"), 16, 40, 9);
    c.damage(15);
    let rec = JSONCharacter::from(c);
    assert_eq!(rec.name, "Minsc");
    assert_eq!(rec.ac, 16);
    assert_eq!(rec.hp, 40);
}

#[test]
fn character_from_record_is_at_full_health() {
    let rec = JSONCharacter { name: String::from("Jaheira"), ac: 15, hp: 33 };
    let c = Character::from_record(&rec, 12);
    assert_eq!(c.name, "Jaheira");
    assert_eq!(c.ac, 15);
    assert_eq!(c.current, 33);
    assert_eq!(c.max, 33);
    assert_eq!(c.score, 12);
    assert_eq!(c.temp, 0);
}
