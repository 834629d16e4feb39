use rollcall::attendance::Roster;
use rollcall::error::{CoreError, ScheduleError};
use rollcall::team::{keep_day, Schedule, ScheduleChange, Settings, SettingsUpdate, Team};

fn is_token(text: &str) -> bool {
    text.len() == 20 && text.chars().all(|c| matches!(c, '0'..='9' | 'a'..='f'))
}

fn lions() -> Team {
    Team::new("Lions".to_string(), "s3cret".to_string()).unwrap()
}

fn schedule(expression: &str, timezone: &str) -> Schedule {
    Schedule { expression: expression.to_string(), timezone: timezone.to_string() }
}

fn fields(location: &str, time: &str, day: Option<i8>) -> Settings {
    Settings::new(Some(location.to_string()), Some(time.to_string()), day)
}

#[test]
fn create_hands_out_key_secret_and_an_empty_team() {
    let created = Team::create("Lions".to_string()).unwrap();
    assert!(is_token(&created.key));
    assert!(is_token(&created.secret));
    assert_ne!(created.key, created.secret);
    assert_eq!(created.team.name(), "Lions");
    assert_eq!(created.team.secret(), &created.secret);
    assert_eq!(created.team.roster().len(), 0);
    assert_eq!(created.team.next_game(), &None);
    assert!(created.team.schedule().is_none());
    assert_eq!(created.team.settings().location(), &None);
    assert_eq!(created.team.settings().time(), &None);
    assert_eq!(created.team.settings().weekly_schedule(), None);
}

#[test]
fn create_refuses_an_empty_name() {
    assert!(matches!(Team::create(String::new()), Err(CoreError::InvalidInput)));
    assert!(matches!(Team::new(String::new(), "x".to_string()), Err(CoreError::InvalidInput)));
}

#[test]
fn create_then_add_players() {
    let mut team = Team::create("Lions".to_string()).unwrap().team;
    assert_eq!(team.roster().len(), 0);
    let ids = team.add_players("Alice,Bob").unwrap();
    assert_eq!(ids.len(), 2);
    assert!(is_token(&ids[0]) && is_token(&ids[1]));
    assert_ne!(ids[0], ids[1]);
    assert_eq!(team.roster().len(), 2);
    assert_eq!(team.roster().get(&ids[0]), Some(&"Alice".to_string()));
    assert_eq!(team.roster().get(&ids[1]), Some(&"Bob".to_string()));
}

#[test]
fn add_players_trims_names_and_refuses_blank_input() {
    let mut team = lions();
    let ids = team.add_players("  Alice ,  Bob  ").unwrap();
    assert_eq!(team.roster().get(&ids[0]), Some(&"Alice".to_string()));
    assert_eq!(team.roster().get(&ids[1]), Some(&"Bob".to_string()));
    assert_eq!(team.add_players(""), Err(CoreError::InvalidInput));
    assert_eq!(team.add_players(" \t "), Err(CoreError::InvalidInput));
    assert_eq!(team.roster().len(), 2);
}

#[test]
fn enroll_all_enters_players_in_order() {
    let mut team = lions();
    team.enroll_all(vec![
        ("p1".to_string(), "Alice".to_string()),
        ("p2".to_string(), "Bob".to_string()),
        ("p1".to_string(), "Alicia".to_string()),
    ]);
    assert_eq!(team.roster().len(), 2);
    assert_eq!(team.roster().get("p1"), Some(&"Alicia".to_string()));
    assert_eq!(team.roster().get("p2"), Some(&"Bob".to_string()));
    team.enroll("p3".to_string(), "Cleo".to_string());
    assert_eq!(team.roster().get("p3"), Some(&"Cleo".to_string()));
}

#[test]
fn remove_player_is_a_no_op_for_an_unknown_id() {
    let mut team = lions();
    team.enroll("p1".to_string(), "Alice".to_string());
    team.remove_player("nope");
    assert_eq!(team.roster().len(), 1);
    team.remove_player("p1");
    assert_eq!(team.roster().len(), 0);
    team.remove_player("p1");
    assert_eq!(team.roster().len(), 0);
}

#[test]
fn authorize_admits_only_the_right_secret() {
    let team = Team::authorize(Some(lions()), "s3cret").unwrap();
    assert_eq!(team.name(), "Lions");
    assert!(matches!(Team::authorize(Some(lions()), "wrong"), Err(CoreError::Unauthorized)));
    assert!(matches!(Team::authorize(Some(lions()), ""), Err(CoreError::Unauthorized)));
    assert!(matches!(Team::authorize(Some(lions()), "s3cret "), Err(CoreError::Unauthorized)));
    assert!(matches!(Team::authorize(Some(lions()), "S3CRET"), Err(CoreError::Unauthorized)));
}

#[test]
fn authorize_reports_an_unknown_team() {
    assert!(matches!(Team::authorize(None, "s3cret"), Err(CoreError::NotFound)));
    assert!(matches!(Team::authorize(None, ""), Err(CoreError::NotFound)));
}

#[test]
fn secret_matches_character_for_character() {
    let team = lions();
    assert!(team.secret_matches("s3cret"));
    assert!(!team.secret_matches("s3cre"));
    assert!(!team.secret_matches("s3cretx"));
}

#[test]
fn bad_cron_expression_is_refused_and_schedule_kept() {
    let mut team = lions();
    let first = SettingsUpdate {
        settings: fields("Hall 1", "19:00", Some(3)),
        schedule: ScheduleChange::Replace(schedule("0 19 * * 3", "Europe/Berlin")),
    };
    assert_eq!(team.update_settings(first), Ok(()));
    let bad = SettingsUpdate {
        settings: fields("Hall 2", "20:00", Some(4)),
        schedule: ScheduleChange::Replace(schedule("not-a-cron", "Europe/Berlin")),
    };
    assert_eq!(team.update_settings(bad), Err(CoreError::InvalidInput));
    let kept = team.schedule().as_ref().unwrap();
    assert_eq!(kept.expression, "0 19 * * 3");
    assert_eq!(kept.timezone, "Europe/Berlin");
    assert_eq!(team.settings().location(), &Some("Hall 1".to_string()));
    assert_eq!(team.settings().time(), &Some("19:00".to_string()));
    assert_eq!(team.settings().weekly_schedule(), Some(3));
}

#[test]
fn update_settings_refuses_an_unknown_time_zone() {
    let mut team = lions();
    let bad = SettingsUpdate {
        settings: Settings::empty(),
        schedule: ScheduleChange::Replace(schedule("0 19 * * 3", "Atlantis/Deep")),
    };
    assert_eq!(team.update_settings(bad), Err(CoreError::InvalidInput));
    assert!(team.schedule().is_none());
}

#[test]
fn update_settings_keeps_or_clears_the_schedule() {
    let mut team = lions();
    let set = SettingsUpdate {
        settings: Settings::empty(),
        schedule: ScheduleChange::Replace(schedule("0 19 * * 3", "UTC")),
    };
    team.update_settings(set).unwrap();
    let keep = SettingsUpdate {
        settings: fields("Hall 1", "", None),
        schedule: ScheduleChange::Keep,
    };
    team.update_settings(keep).unwrap();
    assert_eq!(team.schedule().as_ref().unwrap().expression, "0 19 * * 3");
    assert_eq!(team.settings().location(), &Some("Hall 1".to_string()));
    assert_eq!(team.settings().time(), &None);
    let clear = SettingsUpdate { settings: Settings::empty(), schedule: ScheduleChange::Clear };
    team.update_settings(clear).unwrap();
    assert!(team.schedule().is_none());
    assert_eq!(team.settings().location(), &None);
}

#[test]
fn apply_update_goes_by_the_check_it_is_given() {
    let mut team = lions();
    let update = SettingsUpdate {
        settings: fields("Hall", "18:00", Some(1)),
        schedule: ScheduleChange::Replace(schedule("whatever", "Nowhere")),
    };
    assert_eq!(
        team.apply_update(update, Err(ScheduleError::InvalidTimezone)),
        Err(CoreError::InvalidInput)
    );
    assert!(team.schedule().is_none());
    assert_eq!(team.settings().location(), &None);
    let update = SettingsUpdate {
        settings: fields("Hall", "18:00", Some(1)),
        schedule: ScheduleChange::Replace(schedule("whatever", "Nowhere")),
    };
    assert_eq!(team.apply_update(update, Ok(())), Ok(()));
    assert_eq!(team.schedule().as_ref().unwrap().expression, "whatever");
    // A failed check does not matter when no schedule is set.
    let update = SettingsUpdate { settings: Settings::empty(), schedule: ScheduleChange::Keep };
    assert_eq!(team.apply_update(update, Err(ScheduleError::InvalidExpression)), Ok(()));
    assert_eq!(team.schedule().as_ref().unwrap().expression, "whatever");
}

#[test]
fn settings_drop_empty_texts_and_days_out_of_range() {
    let s = Settings::new(Some(String::new()), Some("19:00".to_string()), Some(8));
    assert_eq!(s.location(), &None);
    assert_eq!(s.time(), &Some("19:00".to_string()));
    assert_eq!(s.weekly_schedule(), None);
    assert_eq!(Settings::new(None, None, Some(0)).weekly_schedule(), None);
    assert_eq!(Settings::new(None, None, Some(-3)).weekly_schedule(), None);
    assert_eq!(Settings::new(None, None, Some(1)).weekly_schedule(), Some(1));
    assert_eq!(Settings::new(None, None, Some(7)).weekly_schedule(), Some(7));
    assert_eq!(keep_day(Some(7)), Some(7));
    assert_eq!(keep_day(Some(8)), None);
    assert_eq!(keep_day(None), None);
}

#[test]
fn settings_from_form_read_the_day_as_a_number() {
    let day =
        |text: &str| Settings::from_form(None, None, Some(text.to_string())).weekly_schedule();
    assert_eq!(day("5"), Some(5));
    assert_eq!(day("+7"), Some(7));
    assert_eq!(day("007"), Some(7));
    assert_eq!(day("0"), None);
    assert_eq!(day("8"), None);
    assert_eq!(day("-1"), None);
    assert_eq!(day(" 5"), None);
    assert_eq!(day("five"), None);
    assert_eq!(day(""), None);
    assert_eq!(day("300"), None);
    assert_eq!(Settings::from_form(None, None, None).weekly_schedule(), None);
    let s = Settings::from_form(Some("Hall".to_string()), Some(String::new()), None);
    assert_eq!(s.location(), &Some("Hall".to_string()));
    assert_eq!(s.time(), &None);
}

#[test]
fn reset_clears_the_pointer_and_hands_back_the_key() {
    let mut team = lions();
    assert_eq!(team.reset(), None);
    team.point_at("g1".to_string());
    assert_eq!(team.next_game(), &Some("g1".to_string()));
    assert_eq!(team.reset(), Some("g1".to_string()));
    assert_eq!(team.next_game(), &None);
    assert_eq!(team.reset(), None);
}

#[test]
fn from_parts_refuses_an_empty_name() {
    let made = Team::from_parts(
        String::new(),
        "s".to_string(),
        None,
        Roster::new(),
        None,
        Settings::empty(),
    );
    assert!(matches!(made, Err(CoreError::InvalidInput)));
    let mut roster = Roster::new();
    roster.insert("p1".to_string(), "Alice".to_string());
    let team = Team::from_parts(
        "Lions".to_string(),
        "s".to_string(),
        Some("g1".to_string()),
        roster,
        Some(schedule("* * * * *", "UTC")),
        fields("Hall", "19:00", Some(2)),
    )
    .unwrap();
    assert_eq!(team.name(), "Lions");
    assert_eq!(team.secret(), "s");
    assert_eq!(team.next_game(), &Some("g1".to_string()));
    assert_eq!(team.roster().get("p1"), Some(&"Alice".to_string()));
    assert_eq!(team.schedule().as_ref().unwrap().timezone, "UTC");
    assert_eq!(team.settings().weekly_schedule(), Some(2));
}

#[test]
fn schedule_change_from_form_fields() {
    let text = |s: &str| Some(s.to_string());
    assert!(matches!(ScheduleChange::from_form(None, None), ScheduleChange::Clear));
    assert!(matches!(ScheduleChange::from_form(text(""), text("")), ScheduleChange::Clear));
    assert!(matches!(ScheduleChange::from_form(text(""), None), ScheduleChange::Clear));
    match ScheduleChange::from_form(text("0 9 * * 1"), text("UTC")) {
        ScheduleChange::Replace(s) => {
            assert_eq!(s.expression, "0 9 * * 1");
            assert_eq!(s.timezone, "UTC");
        },
        _ => panic!("a schedule was asked for"),
    }
    match ScheduleChange::from_form(text("0 9 * * 1"), None) {
        ScheduleChange::Replace(s) => {
            assert_eq!(s.expression, "0 9 * * 1");
            assert_eq!(s.timezone, "");
        },
        _ => panic!("a schedule was asked for"),
    }
    // Half a schedule does not pass the check.
    let mut team = lions();
    let update = SettingsUpdate {
        settings: Settings::empty(),
        schedule: ScheduleChange::from_form(text("0 9 * * 1"), None),
    };
    assert_eq!(team.update_settings(update), Err(CoreError::InvalidInput));
    let update = SettingsUpdate {
        settings: Settings::empty(),
        schedule: ScheduleChange::from_form(None, text("UTC")),
    };
    assert_eq!(team.update_settings(update), Err(CoreError::InvalidInput));
}
