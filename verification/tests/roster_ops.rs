use initiative_tracker::character::Character;
use initiative_tracker::records::JSONCharacter;
use initiative_tracker::roster::{InitError, Initiative};

fn named(name: &str, score: u8) -> Character {
    Character::new(String::from(name), 10, 20, score)
}

fn order(r: &Initiative) -> Vec<String> {
    r.chars.iter().map(|c| c.name.clone()).collect()
}

#[test]
fn inserts_keep_descending_score_order() {
    let mut r = Initiative::new();
    for (name, score) in [("a", 5), ("b", 9), ("c", 1), ("d", 9), ("e", 7)] {
        r.add(named(name, score));
        for w in r.chars.windows(2) {
            assert!(w[0].score >= w[1].score);
        }
    }
    assert_eq!(order(&r), vec!["b", "d", "e", "a", "c"]);
}

#[test]
fn equal_scores_keep_insertion_order() {
    let mut r = Initiative::new();
    r.add(named("A", 5));
    r.add(named("B", 5));
    r.add(named("C", 5));
    assert_eq!(order(&r), vec!["A", "B", "C"]);
}

#[test]
fn higher_score_becomes_new_head() {
    let mut r = Initiative::new();
    r.add(named("A", 5));
    r.add(named("B", 8));
    assert_eq!(order(&r), vec!["B", "A"]);
    assert_eq!(r.current().unwrap().name, "A");
}

#[test]
fn find_returns_first_exact_match() {
    let mut r = Initiative::new();
    r.add(named("A", 5));
    r.add(named("B", 5));
    r.add(named("B", 3));
    assert_eq!(r.find(String::from("A")), Some(0));
    assert_eq!(r.find(String::from("B")), Some(1));
    assert_eq!(r.find(String::from("b")), None);
    assert_eq!(r.find(String::from("Z")), None);
}

#[test]
fn mutations_by_name_hit_first_match_only() {
    let mut r = Initiative::new();
    r.add(named("A", 5));
    r.add(named("B", 5));
    r.damage(String::from("B"), 6);
    assert_eq!(r.chars[1].current, 14);
    assert_eq!(r.chars[0].current, 20);
    r.heal(String::from("B"), 3);
    assert_eq!(r.chars[1].current, 17);
    r.temp(String::from("B"), 9);
    assert_eq!(r.chars[1].temp, 9);
    assert_eq!(r.chars[0].temp, 0);
}

#[test]
fn mutation_on_missing_name_is_silent_noop() {
    let mut r = Initiative::new();
    r.add(named("A", 5));
    r.damage(String::from("ghost"), 6);
    r.heal(String::from("ghost"), 6);
    r.temp(String::from("ghost"), 6);
    assert_eq!(r.chars.len(), 1);
    assert_eq!(r.chars[0].current, 20);
    assert_eq!(r.chars[0].temp, 0);
}

#[test]
fn cursor_wraps_around_three_elements() {
    let mut r = Initiative::new();
    r.add(named("A", 9));
    r.add(named("B", 5));
    r.add(named("C", 1));
    assert_eq!(r.current().unwrap().name, "A");
    r.advance();
    assert_eq!(r.current().unwrap().name, "B");
    r.advance();
    assert_eq!(r.current().unwrap().name, "C");
    r.advance();
    assert_eq!(r.current().unwrap().name, "A");
}

#[test]
fn advance_and_beginning_on_empty_are_noops() {
    let mut r = Initiative::new();
    r.advance();
    assert!(r.current().is_none());
    r.beginning();
    assert!(r.current().is_none());
}

#[test]
fn beginning_resets_cursor_to_head() {
    let mut r = Initiative::new();
    r.add(named("A", 9));
    r.add(named("B", 5));
    r.advance();
    assert_eq!(r.current().unwrap().name, "B");
    r.beginning();
    assert_eq!(r.current().unwrap().name, "A");
}

#[test]
fn insert_before_cursor_keeps_it_on_same_character() {
    let mut r = Initiative::new();
    r.add(named("A", 9));
    r.add(named("B", 5));
    r.advance();
    assert_eq!(r.current().unwrap().name, "B");
    r.add(named("N", 12));
    assert_eq!(order(&r), vec!["N", "A", "B"]);
    assert_eq!(r.current().unwrap().name, "B");
}

#[test]
fn remove_under_cursor_moves_to_successor() {
    let mut r = Initiative::new();
    r.add(named("A", 9));
    r.add(named("B", 5));
    r.add(named("C", 1));
    r.advance();
    assert_eq!(r.current().unwrap().name, "B");
    assert_eq!(r.remove(String::from("B")), Ok(()));
    assert_eq!(order(&r), vec!["A", "C"]);
    assert_eq!(r.current().unwrap().name, "C");
}

#[test]
fn remove_tail_under_cursor_wraps_to_head() {
    let mut r = Initiative::new();
    r.add(named("A", 9));
    r.add(named("B", 5));
    r.advance();
    assert_eq!(r.remove(String::from("B")), Ok(()));
    assert_eq!(r.current().unwrap().name, "A");
}

#[test]
fn remove_last_element_empties_roster_and_cursor() {
    let mut r = Initiative::new();
    r.add(named("A", 9));
    assert_eq!(r.remove(String::from("A")), Ok(()));
    assert!(r.chars.is_empty());
    assert!(r.current().is_none());
}

#[test]
fn remove_before_cursor_keeps_it_on_same_character() {
    let mut r = Initiative::new();
    r.add(named("A", 9));
    r.add(named("B", 5));
    r.add(named("C", 1));
    r.advance();
    r.advance();
    assert_eq!(r.current().unwrap().name, "C");
    assert_eq!(r.remove(String::from("A")), Ok(()));
    assert_eq!(r.current().unwrap().name, "C");
}

#[test]
fn remove_on_empty_reports_empty_error() {
    let mut r = Initiative::new();
    assert_eq!(r.remove(String::from("A")), Err(InitError::Empty));
}

#[test]
fn remove_missing_name_on_nonempty_is_silent_noop() {
    let mut r = Initiative::new();
    r.add(named("A", 9));
    assert_eq!(r.remove(String::from("Z")), Ok(()));
    assert_eq!(order(&r), vec!["A"]);
}

#[test]
fn export_on_empty_fails_with_empty_error() {
    let r = Initiative::new();
    assert!(matches!(r.export(), Err(InitError::Empty)));
}

#[test]
fn export_is_sorted_and_lossy() {
    let mut r = Initiative::new();
    r.add(named("A", 3));
    r.add(named("B", 8));
    r.damage(String::from("B"), 12);
    r.temp(String::from("A"), 4);
    let recs = r.export().unwrap();
    assert_eq!(recs.len(), 2);
    assert_eq!(recs[0].name, "B");
    assert_eq!(recs[0].ac, 10);
    assert_eq!(recs[0].hp, 20);
    assert_eq!(recs[1].name, "A");
    assert_eq!(recs[1].hp, 20);
}

#[test]
fn import_inserts_each_record_in_order() {
    let mut r = Initiative::new();
    r.add(named("mid", 5));
    let records = vec![
        JSONCharacter { name: String::from("low"), ac: 11, hp: 7 },
        JSONCharacter { name: String::from("high"), ac: 18, hp: 50 },
    ];
    let scores = vec![2, 9];
    r.import(&records, &scores);
    assert_eq!(order(&r), vec!["high", "mid", "low"]);
    assert_eq!(r.chars[0].ac, 18);
    assert_eq!(r.chars[0].current, 50);
    assert_eq!(r.chars[0].max, 50);
    assert_eq!(r.chars[0].score, 9);
    assert_eq!(r.chars[0].temp, 0);
}

#[test]
fn export_import_round_trip_keeps_ac_and_hp() {
    let mut r = Initiative::new();
    r.add(named("A", 9));
    r.add(named("B", 5));
    r.add(named("C", 5));
    r.damage(String::from("A"), 6);
    let recs = r.export().unwrap();
    let scores: Vec<u8> = r.chars.iter().map(|c| c.score).collect();

    let mut fresh = Initiative::new();
    fresh.import(&recs, &scores);

    assert_eq!(fresh.chars.len(), r.chars.len());
    for (a, b) in fresh.chars.iter().zip(r.chars.iter()) {
        assert_eq!(a.name, b.name);
        assert_eq!(a.ac, b.ac);
        assert_eq!(a.max, b.max);
        assert_eq!(a.score, b.score);
        // the export schema is lossy: everyone comes back at full health
        assert_eq!(a.current, a.max);
        assert_eq!(a.temp, 0);
    }
}
