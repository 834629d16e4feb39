use rollcall::store::{
    advance, begin, collection_of, open_steps, reset_steps, save_sheet_steps, save_team_steps,
    show_steps, Progress, Step, Write, GAMES, TEAMS,
};

#[test]
fn opening_stores_the_sheet_before_the_team() {
    let steps = open_steps();
    assert_eq!(
        steps,
        vec![
            Step { write: Write::PutGame, required: true },
            Step { write: Write::PutTeam, required: true },
        ]
    );
    assert_eq!(begin(&steps), Progress::Send(0));
    assert_eq!(advance(&steps, 0, true), Progress::Send(1));
    assert_eq!(advance(&steps, 1, true), Progress::Done);
}

#[test]
fn opening_fails_when_a_write_fails() {
    let steps = open_steps();
    assert_eq!(advance(&steps, 0, false), Progress::Failed);
    assert_eq!(advance(&steps, 1, false), Progress::Failed);
}

#[test]
fn reset_goes_on_when_the_delete_fails() {
    let steps = reset_steps(true);
    assert_eq!(
        steps,
        vec![
            Step { write: Write::DeleteGame, required: false },
            Step { write: Write::PutTeam, required: true },
        ]
    );
    assert_eq!(begin(&steps), Progress::Send(0));
    assert_eq!(advance(&steps, 0, false), Progress::Send(1));
    assert_eq!(advance(&steps, 0, true), Progress::Send(1));
    assert_eq!(advance(&steps, 1, true), Progress::Done);
    assert_eq!(advance(&steps, 1, false), Progress::Failed);
}

#[test]
fn reset_without_a_sheet_only_stores_the_team() {
    let steps = reset_steps(false);
    assert_eq!(steps, vec![Step { write: Write::PutTeam, required: true }]);
    assert_eq!(advance(&steps, 0, true), Progress::Done);
}

#[test]
fn showing_stores_the_sheet_only_if_it_changed() {
    assert_eq!(begin(&show_steps(false)), Progress::Done);
    let steps = show_steps(true);
    assert_eq!(steps, vec![Step { write: Write::PutGame, required: true }]);
    assert_eq!(begin(&steps), Progress::Send(0));
    assert_eq!(advance(&steps, 0, true), Progress::Done);
    assert_eq!(advance(&steps, 0, false), Progress::Failed);
}

#[test]
fn advancing_past_the_end_is_done() {
    let steps = open_steps();
    assert_eq!(advance(&steps, 2, true), Progress::Done);
    assert_eq!(advance(&steps, 7, false), Progress::Done);
    assert_eq!(advance(&steps, usize::MAX, false), Progress::Done);
}

#[test]
fn saving_one_document_is_one_required_step() {
    assert_eq!(save_team_steps(), vec![Step { write: Write::PutTeam, required: true }]);
    assert_eq!(save_sheet_steps(), vec![Step { write: Write::PutGame, required: true }]);
    assert_eq!(advance(&save_team_steps(), 0, false), Progress::Failed);
    assert_eq!(advance(&save_sheet_steps(), 0, true), Progress::Done);
}

#[test]
fn each_request_goes_to_its_collection() {
    assert_eq!(collection_of(Write::PutTeam), "teams");
    assert_eq!(collection_of(Write::PutGame), "games");
    assert_eq!(collection_of(Write::DeleteGame), "games");
    assert_eq!(TEAMS, "teams");
    assert_eq!(GAMES, "games");
}
