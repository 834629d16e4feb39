use rollcall::attendance::{count_playing, Answer, Attendance, Roster};
use rollcall::reconcile::reconcile;

fn roster_of(players: &[(&str, &str)]) -> Roster {
    let mut roster = Roster::new();
    for (id, name) in players {
        roster.insert(id.to_string(), name.to_string());
    }
    roster
}

fn record_of(marks: &[(&str, Answer)]) -> Attendance {
    let mut record = Attendance::new();
    for (id, answer) in marks {
        record.insert(id.to_string(), *answer);
    }
    record
}

#[test]
fn reconcile_adds_unanswered_entries_for_missing_players() {
    let roster = roster_of(&[("a1", "Alice"), ("b2", "Bob"), ("c3", "Cleo")]);
    let record = record_of(&[("b2", Answer::Playing)]);
    let (record, changed) = reconcile(&roster, record);
    assert!(changed);
    assert_eq!(record.len(), 3);
    assert_eq!(record.get("a1"), Some(&Answer::Unanswered));
    assert_eq!(record.get("b2"), Some(&Answer::Playing));
    assert_eq!(record.get("c3"), Some(&Answer::Unanswered));
}

#[test]
fn reconcile_is_idempotent() {
    let roster = roster_of(&[("a1", "Alice"), ("b2", "Bob")]);
    let record = record_of(&[("zz", Answer::NotPlaying)]);
    let (once, changed) = reconcile(&roster, record);
    assert!(changed);
    let ids_once: Vec<String> = (0..once.len()).map(|i| once.key_at(i).clone()).collect();
    let answers_once: Vec<Answer> = (0..once.len()).map(|i| *once.value_at(i)).collect();
    let (twice, changed_again) = reconcile(&roster, once);
    assert!(!changed_again);
    let ids_twice: Vec<String> = (0..twice.len()).map(|i| twice.key_at(i).clone()).collect();
    let answers_twice: Vec<Answer> = (0..twice.len()).map(|i| *twice.value_at(i)).collect();
    assert_eq!(ids_once, ids_twice);
    assert_eq!(answers_once, answers_twice);
}

#[test]
fn reconcile_keeps_the_answers_of_players_who_left() {
    let roster = roster_of(&[("a1", "Alice")]);
    let record = record_of(&[("a1", Answer::NotPlaying), ("b2", Answer::Playing)]);
    let (record, changed) = reconcile(&roster, record);
    assert!(!changed);
    assert_eq!(record.len(), 2);
    assert_eq!(record.get("a1"), Some(&Answer::NotPlaying));
    assert_eq!(record.get("b2"), Some(&Answer::Playing));
}

#[test]
fn reconcile_with_an_empty_roster_changes_nothing() {
    let (record, changed) = reconcile(&Roster::new(), record_of(&[("x", Answer::Playing)]));
    assert!(!changed);
    assert_eq!(record.len(), 1);
    let (record, changed) = reconcile(&Roster::new(), Attendance::new());
    assert!(!changed);
    assert_eq!(record.len(), 0);
}

#[test]
fn table_insert_replaces_and_remove_forgets() {
    let mut roster = Roster::new();
    assert!(roster.insert("a1".to_string(), "Alice".to_string()));
    assert!(roster.insert("b2".to_string(), "Bob".to_string()));
    assert!(!roster.insert("a1".to_string(), "Alicia".to_string()));
    assert_eq!(roster.len(), 2);
    assert_eq!(roster.get("a1"), Some(&"Alicia".to_string()));
    assert_eq!(roster.key_at(0), "a1");
    assert_eq!(roster.value_at(1), "Bob");
    assert_eq!(roster.find("b2"), Some(1));
    assert_eq!(roster.find("zz"), None);
    assert!(roster.contains("b2"));
    assert!(roster.remove("a1"));
    assert!(!roster.remove("a1"));
    assert!(!roster.contains("a1"));
    assert_eq!(roster.get("a1"), None);
    assert_eq!(roster.len(), 1);
}

#[test]
fn count_playing_counts_only_those_who_play() {
    let record = record_of(&[
        ("a", Answer::Playing),
        ("b", Answer::NotPlaying),
        ("c", Answer::Unanswered),
        ("d", Answer::Playing),
    ]);
    assert_eq!(count_playing(&record), 2);
    assert_eq!(count_playing(&Attendance::new()), 0);
}
