use rollcall::attendance::{Answer, Attendance, Roster};
use rollcall::calendar::CivilDate;
use rollcall::error::CoreError;
use rollcall::game::Game;

fn roster_of(players: &[(&str, &str)]) -> Roster {
    let mut roster = Roster::new();
    for (id, name) in players {
        roster.insert(id.to_string(), name.to_string());
    }
    roster
}

fn strings(items: &[&str]) -> Vec<String> {
    items.iter().map(|s| s.to_string()).collect()
}

#[test]
fn open_seeds_every_roster_member() {
    let roster = roster_of(&[("a1", "Alice"), ("b2", "Bob")]);
    let game = Game::open("Practice".to_string(), &roster);
    assert_eq!(game.description(), "Practice");
    assert_eq!(game.attendance().len(), 2);
    assert_eq!(game.answer_of("a1"), Some(Answer::Unanswered));
    assert_eq!(game.answer_of("b2"), Some(Answer::Unanswered));
    assert_eq!(game.answer_of("c3"), None);
    assert!(game.guests().is_empty());
    assert!(game.comments().is_empty());
    assert_eq!(game.date(), None);
    assert_eq!(game.summary_count(), 0);
}

#[test]
fn mark_sets_the_answer_for_any_id() {
    let mut game = Game::open(String::new(), &roster_of(&[("a1", "Alice")]));
    game.mark("a1".to_string(), Answer::Playing);
    game.mark("stranger".to_string(), Answer::NotPlaying);
    assert_eq!(game.answer_of("a1"), Some(Answer::Playing));
    assert_eq!(game.answer_of("stranger"), Some(Answer::NotPlaying));
    game.mark("a1".to_string(), Answer::NotPlaying);
    assert_eq!(game.answer_of("a1"), Some(Answer::NotPlaying));
    assert_eq!(game.attendance().len(), 2);
}

#[test]
fn add_guests_appends_in_order_and_allows_duplicates() {
    let mut game = Game::open(String::new(), &Roster::new());
    assert_eq!(game.add_guests("Dan, Eve"), Ok(()));
    assert_eq!(game.add_guests(" Dan "), Ok(()));
    assert_eq!(game.guests(), &strings(&["Dan", "Eve", "Dan"]));
}

#[test]
fn add_guests_refuses_a_blank_field() {
    let mut game = Game::open(String::new(), &Roster::new());
    game.add_guests("Dan").unwrap();
    assert_eq!(game.add_guests(""), Err(CoreError::InvalidInput));
    assert_eq!(game.add_guests("  "), Err(CoreError::InvalidInput));
    assert_eq!(game.guests(), &strings(&["Dan"]));
}

#[test]
fn remove_guest_removes_every_match() {
    let mut game = Game::open(String::new(), &Roster::new());
    game.add_guests("Dan,Eve,Dan,dan").unwrap();
    game.remove_guest("Dan");
    assert_eq!(game.guests(), &strings(&["Eve", "dan"]));
    game.remove_guest("nobody");
    assert_eq!(game.guests(), &strings(&["Eve", "dan"]));
    game.remove_guest("Eve");
    game.remove_guest("dan");
    assert!(game.guests().is_empty());
}

#[test]
fn add_comment_appends_and_refuses_empty_text() {
    let mut game = Game::open(String::new(), &Roster::new());
    assert_eq!(game.add_comment("See you!".to_string()), Ok(()));
    assert_eq!(game.add_comment(String::new()), Err(CoreError::InvalidInput));
    assert_eq!(game.add_comment(" ".to_string()), Ok(()));
    assert_eq!(game.comments(), &strings(&["See you!", " "]));
}

#[test]
fn summary_count_adds_players_who_play_and_guests() {
    let mut game = Game::open(String::new(), &roster_of(&[("a", "A"), ("b", "B"), ("c", "C")]));
    game.mark("a".to_string(), Answer::Playing);
    game.mark("b".to_string(), Answer::NotPlaying);
    assert_eq!(game.summary_count(), 1);
    game.add_guests("x,y").unwrap();
    assert_eq!(game.summary_count(), 3);
    game.mark("c".to_string(), Answer::Playing);
    assert_eq!(game.summary_count(), 4);
}

#[test]
fn reconcile_with_reports_whether_the_sheet_changed() {
    let mut roster = roster_of(&[("a", "A")]);
    let mut game = Game::open(String::new(), &roster);
    assert!(!game.reconcile_with(&roster));
    roster.insert("b".to_string(), "B".to_string());
    assert!(game.reconcile_with(&roster));
    assert_eq!(game.answer_of("b"), Some(Answer::Unanswered));
    assert!(!game.reconcile_with(&roster));
}

#[test]
fn from_parts_keeps_what_it_is_given() {
    let mut record = Attendance::new();
    record.insert("a".to_string(), Answer::Playing);
    let day = CivilDate { year: 2024, month: 6, day: 15 };
    let mut game = Game::from_parts(
        "Cup".to_string(),
        record,
        strings(&["Dan"]),
        strings(&["hi"]),
        Some(day),
    );
    assert_eq!(game.description(), "Cup");
    assert_eq!(game.answer_of("a"), Some(Answer::Playing));
    assert_eq!(game.guests(), &strings(&["Dan"]));
    assert_eq!(game.comments(), &strings(&["hi"]));
    assert_eq!(game.date(), Some(day));
    assert_eq!(game.summary_count(), 2);
    game.set_date(None);
    assert_eq!(game.date(), None);
}
