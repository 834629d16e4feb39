//! The life of a sign-up sheet: it is opened for a team, players and
//! guests are marked on it, and it is shown, until the team is reset or the
//! sheet expires.
//!
//! The store is not reached from here. Each operation takes the documents
//! that the caller has loaded, and hands back what is to be stored. A team
//! whose pointer is absent has no sheet open; a team whose pointer names a
//! sheet that the store no longer holds has a stale pointer, which is
//! reported and not mended.

use vstd::prelude::*;
use crate::attendance::Answer;
use crate::cron::cron_of;
use crate::error::{CoreError, ScheduleError};
use crate::game::{headcount, without, Game, GameView};
use crate::random::{hex_string, is_token};
use crate::reconcile::{lacking, reconciled};
use crate::rows::{rows_of, rows_show, rows_sorted, PlayerRow};
use crate::schedule::next_trigger;
use crate::team::{Schedule, Team, TeamView};
use crate::text::{names_in, percent_decode, percent_decoded, trimmed};

verus! {

/// What the opening of a sign-up sheet hands out.
#[derive(Debug)]
pub struct Opened {
    /// The key under which the sheet is to be stored.
    pub key: String,
    /// The sheet.
    pub game: Game,
    /// The instant at which the sheet expires, in seconds after the Unix
    /// epoch, if it expires.
    pub expires_at: Option<i64>,
}

/// An open sign-up sheet as it is shown.
#[derive(Debug)]
pub struct OpenSheet {
    /// The sheet, with an entry for every member of the roster.
    pub game: Game,
    /// Whether entries were added, so that the sheet has to be stored
    /// again.
    pub changed: bool,
    /// The number of people expected.
    pub count: usize,
    /// One line for each entry of the sheet, ordered by name and then by
    /// id.
    pub rows: Vec<PlayerRow>,
}

/// What is shown for a team.
#[derive(Debug)]
pub enum Sheet {
    /// No sheet is open, or the one that the team points at is gone.
    Closed,
    /// The open sheet.
    Open(OpenSheet),
}

/// The sheet that an operation works on: the one that was loaded for the
/// team's pointer. Without a pointer no sheet is open; with a pointer and
/// nothing loaded the sheet is missing.
pub open spec fn located(team: TeamView, loaded: Option<Game>) -> Result<Game, CoreError> {
    match team.next_game {
        None => Err(CoreError::NotFound),
        Some(_) => match loaded {
            None => Err(CoreError::GameMissing),
            Some(game) => Ok(game),
        },
    }
}

/// A team without a pointer has no sheet open, whatever was loaded; this
/// is how every team stands after a reset.
pub proof fn lemma_no_sheet_without_pointer(team: TeamView, loaded: Option<Game>)
    ensures
        located(TeamView { next_game: None, ..team }, loaded) == Err::<Game, CoreError>(
            CoreError::NotFound,
        ),
{
}

/// `n`, or the largest `usize` if that is less.
pub open spec fn capped_count(n: nat) -> nat {
    if n <= usize::MAX {
        n
    } else {
        usize::MAX as nat
    }
}

/// The instant at which a sheet opened at `now` expires: the next instant
/// at which the schedule fires. A sheet does not expire when there is no
/// schedule, or when the schedule is not valid or does not fire again.
pub fn expiry(schedule: &Option<Schedule>, now: i64) -> (r: Option<i64>)
    ensures
        schedule is None ==> r is None,
        schedule matches Some(s) ==> (cron_of(s.expression@) is None ==> r is None),
        r matches Some(t) ==> t > now,
{
    match schedule {
        None => expiry_from(None),
        Some(schedule) => expiry_from(
            Some(next_trigger(schedule.expression.as_str(), schedule.timezone.as_str(), now)),
        ),
    }
}

/// The expiry that follows from what the search for the next trigger said,
/// where `None` stands for a team without a schedule: the trigger if one
/// was found, and no expiry otherwise. A schedule that cannot be used is no
/// failure of the opening of a sheet.
pub fn expiry_from(outcome: Option<Result<i64, ScheduleError>>) -> (r: Option<i64>)
    ensures
        r == match outcome {
            Some(Ok(t)) => Some(t),
            Some(Err(_)) => None,
            None => None,
        },
{
    match outcome {
        Some(Ok(t)) => Some(t),
        Some(Err(_)) => None,
        None => None,
    }
}

/// The sheet that is opened for a roster: every member has an unanswered
/// entry, and there are no guests and no comments.
pub open spec fn fresh_sheet(
    description: Seq<char>,
    roster: Map<Seq<char>, Seq<char>>,
) -> GameView {
    GameView {
        description,
        attendance: reconciled(roster.dom(), Map::empty()),
        guests: Seq::empty(),
        comments: Seq::empty(),
        date: None,
    }
}

/// Opens a sign-up sheet for the team under the given key: every member of
/// the roster gets an unanswered entry, and the team points at the new
/// sheet. A sheet that was open before is left behind.
pub fn open_with(
    team: &mut Team,
    description: String,
    key: String,
    expires_at: Option<i64>,
) -> (opened: Opened)
    ensures
        final(team)@ == (TeamView { next_game: Some(key@), ..old(team)@ }),
        opened.key@ == key@,
        opened.expires_at == expires_at,
        opened.game@ == fresh_sheet(description@, old(team)@.roster),
{
    let game = Game::open(description, team.roster());
    team.point_at(key.clone());
    Opened { key, game, expires_at }
}

/// Opens a sign-up sheet for the team: a new key is drawn, every member of
/// the roster gets an unanswered entry, the expiry is computed from the
/// team's schedule, and the team points at the new sheet. The sheet has to
/// be stored before the team is.
pub fn open_game(team: &mut Team, description: String, now: i64) -> (r: Result<Opened, CoreError>)
    ensures
        match r {
            Ok(opened) => {
                &&& is_token(opened.key@)
                &&& opened.game@ == fresh_sheet(description@, old(team)@.roster)
                &&& final(team)@ == (TeamView { next_game: Some(opened.key@), ..old(team)@ })
                &&& opened.expires_at matches Some(t) ==> t > now && old(team)@.schedule is Some
                &&& old(team)@.schedule matches Some(s) ==> (cron_of(s.expression) is None
                    ==> opened.expires_at is None)
            },
            Err(e) => e == CoreError::EntropyUnavailable && final(team)@ == old(team)@,
        },
{
    let key = match hex_string() {
        Ok(key) => key,
        Err(e) => {
            return Err(e);
        },
    };
    let expires_at = expiry(team.schedule(), now);
    Ok(open_with(team, description, key, expires_at))
}

/// Finds the sheet that an operation works on.
pub fn locate(team: &Team, loaded: Option<Game>) -> (r: Result<Game, CoreError>)
    ensures
        r == located(team@, loaded),
{
    match team.next_game() {
        None => Err(CoreError::NotFound),
        Some(_) => match loaded {
            None => Err(CoreError::GameMissing),
            Some(game) => Ok(game),
        },
    }
}

/// Records `answer` for `player_id` on the team's open sheet, whether or
/// not the sheet had an entry for that id.
pub fn record_attendance(
    team: &Team,
    loaded: Option<Game>,
    player_id: String,
    answer: Answer,
) -> (r: Result<Game, CoreError>)
    ensures
        match located(team@, loaded) {
            Ok(before) => r matches Ok(game) && game@ == (GameView {
                attendance: before@.attendance.insert(player_id@, answer),
                ..before@
            }),
            Err(e) => r matches Err(f) && f == e,
        },
{
    let mut game = match locate(team, loaded) {
        Ok(game) => game,
        Err(e) => {
            return Err(e);
        },
    };
    game.mark(player_id, answer);
    Ok(game)
}

/// Appends the names that `field` lists to the guests of the team's open
/// sheet.
pub fn add_guests(team: &Team, loaded: Option<Game>, field: &str) -> (r: Result<Game, CoreError>)
    ensures
        match located(team@, loaded) {
            Ok(before) => if trimmed(field@).len() == 0 {
                r matches Err(e) && e == CoreError::InvalidInput
            } else {
                r matches Ok(game) && game@ == (GameView {
                    guests: before@.guests + names_in(field@),
                    ..before@
                })
            },
            Err(e) => r matches Err(f) && f == e,
        },
{
    let mut game = match locate(team, loaded) {
        Ok(game) => game,
        Err(e) => {
            return Err(e);
        },
    };
    match game.add_guests(field) {
        Ok(_) => Ok(game),
        Err(e) => Err(e),
    }
}

/// Removes every guest entry that equals `name` from the team's open
/// sheet.
pub fn remove_guest(team: &Team, loaded: Option<Game>, name: &str) -> (r: Result<Game, CoreError>)
    ensures
        match located(team@, loaded) {
            Ok(before) => r matches Ok(game) && game@ == (GameView {
                guests: without(before@.guests, name@),
                ..before@
            }),
            Err(e) => r matches Err(f) && f == e,
        },
{
    let mut game = match locate(team, loaded) {
        Ok(game) => game,
        Err(e) => {
            return Err(e);
        },
    };
    game.remove_guest(name);
    Ok(game)
}

/// Removes a guest whose name comes percent-encoded, as in the path of a
/// request. A name that cannot be decoded is refused.
pub fn remove_guest_encoded(team: &Team, loaded: Option<Game>, encoded: &str) -> (r: Result<
    Game,
    CoreError,
>)
    ensures
        match located(team@, loaded) {
            Ok(before) => match percent_decoded(encoded@) {
                Some(name) => r matches Ok(game) && game@ == (GameView {
                    guests: without(before@.guests, name),
                    ..before@
                }),
                None => r matches Err(e) && e == CoreError::InvalidInput,
            },
            Err(e) => r matches Err(f) && f == e,
        },
{
    let game = match locate(team, loaded) {
        Ok(game) => game,
        Err(e) => {
            return Err(e);
        },
    };
    match percent_decode(encoded) {
        Some(name) => {
            let mut game = game;
            game.remove_guest(name.as_str());
            Ok(game)
        },
        None => Err(CoreError::InvalidInput),
    }
}

/// Appends `text` to the comments of the team's open sheet. An empty text
/// is refused.
pub fn add_comment(team: &Team, loaded: Option<Game>, text: String) -> (r: Result<Game, CoreError>)
    ensures
        match located(team@, loaded) {
            Ok(before) => if text@.len() == 0 {
                r matches Err(e) && e == CoreError::InvalidInput
            } else {
                r matches Ok(game) && game@ == (GameView {
                    comments: before@.comments.push(text@),
                    ..before@
                })
            },
            Err(e) => r matches Err(f) && f == e,
        },
{
    let mut game = match locate(team, loaded) {
        Ok(game) => game,
        Err(e) => {
            return Err(e);
        },
    };
    match game.add_comment(text) {
        Ok(_) => Ok(game),
        Err(e) => Err(e),
    }
}

/// The number of people expected for the team's open sheet: the players
/// who play, and the guests.
pub fn playing_count(team: &Team, loaded: Option<Game>) -> (r: Result<usize, CoreError>)
    ensures
        match located(team@, loaded) {
            Ok(game) => r matches Ok(n) && n == capped_count(headcount(game@)),
            Err(e) => r matches Err(f) && f == e,
        },
{
    match locate(team, loaded) {
        Ok(game) => Ok(game.summary_count()),
        Err(e) => Err(e),
    }
}

/// Prepares the team's sheet for showing. If a sheet is open, every member
/// of the roster gets an entry on it; entries of players who have left the
/// roster stay. The flag tells whether the sheet has to be stored again. A
/// missing sheet is shown like no sheet; the stale pointer is left as it
/// is.
pub fn render_view(team: &Team, loaded: Option<Game>) -> (r: Sheet)
    ensures
        match located(team@, loaded) {
            Ok(before) => r matches Sheet::Open(sheet) && {
                &&& sheet.game@ == (GameView {
                    attendance: reconciled(team@.roster.dom(), before@.attendance),
                    ..before@
                })
                &&& sheet.changed == lacking(team@.roster.dom(), before@.attendance)
                &&& !sheet.changed ==> sheet.game@ == before@
                &&& sheet.count == capped_count(headcount(sheet.game@))
                &&& rows_show(sheet.rows@, sheet.game@.attendance, team@.roster)
                &&& rows_sorted(sheet.rows@)
            },
            Err(_) => r is Closed,
        },
{
    let mut game = match locate(team, loaded) {
        Ok(game) => game,
        Err(_) => {
            return Sheet::Closed;
        },
    };
    let changed = game.reconcile_with(team.roster());
    let count = game.summary_count();
    let rows = rows_of(team, &game);
    Sheet::Open(OpenSheet { game, changed, count, rows })
}

} // verus!
