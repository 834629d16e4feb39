//! The order in which an operation's documents go to the store.
//!
//! The store holds teams and sign-up sheets as independent documents, and
//! a write to one may fail after a write to the other went through. Each
//! operation therefore comes with a short list of steps. The caller sends
//! them one by one and asks after each how to go on.

use vstd::prelude::*;

verus! {

/// The collection that holds the teams.
pub const TEAMS: &'static str = "teams";

/// The collection that holds the sign-up sheets.
pub const GAMES: &'static str = "games";

/// One request to the document store.
#[derive(Clone, Copy, Debug, PartialEq, Eq, Structural)]
pub enum Write {
    /// Store the sign-up sheet under its key.
    PutGame,
    /// Store the team under its key.
    PutTeam,
    /// Delete the sign-up sheet that the team pointed at.
    DeleteGame,
}

/// A request, and whether the operation depends on it.
#[derive(Clone, Copy, Debug, PartialEq, Eq, Structural)]
pub struct Step {
    /// What to ask of the store.
    pub write: Write,
    /// Whether a failure of this request fails the operation. A request
    /// that is not required is made on a best-effort basis.
    pub required: bool,
}

/// How an operation goes on.
#[derive(Clone, Copy, Debug, PartialEq, Eq, Structural)]
pub enum Progress {
    /// The step at this position is to be sent next.
    Send(usize),
    /// All steps were sent; the operation has succeeded.
    Done,
    /// A required step failed; nothing more is sent, and the operation
    /// has failed.
    Failed,
}

/// The steps of opening a sheet: the sheet goes first, so that the team
/// never points at a sheet that was not stored.
pub open spec fn steps_to_open() -> Seq<Step> {
    seq![
        Step { write: Write::PutGame, required: true },
        Step { write: Write::PutTeam, required: true },
    ]
}

/// The steps of a reset: the old sheet is deleted if that works, and the
/// team is stored in any case.
pub open spec fn steps_to_reset(had_sheet: bool) -> Seq<Step> {
    if had_sheet {
        seq![
            Step { write: Write::DeleteGame, required: false },
            Step { write: Write::PutTeam, required: true },
        ]
    } else {
        seq![Step { write: Write::PutTeam, required: true }]
    }
}

/// The steps of showing a sheet: it is stored again only if it changed.
pub open spec fn steps_to_show(changed: bool) -> Seq<Step> {
    if changed {
        seq![Step { write: Write::PutGame, required: true }]
    } else {
        Seq::empty()
    }
}

/// The steps of an operation that changes the team alone.
pub open spec fn steps_to_save_team() -> Seq<Step> {
    seq![Step { write: Write::PutTeam, required: true }]
}

/// The steps of an operation that changes the sheet alone.
pub open spec fn steps_to_save_sheet() -> Seq<Step> {
    seq![Step { write: Write::PutGame, required: true }]
}

/// The collection that a request goes to.
pub open spec fn collection(write: Write) -> Seq<char> {
    match write {
        Write::PutTeam => TEAMS@,
        Write::PutGame => GAMES@,
        Write::DeleteGame => GAMES@,
    }
}

/// Where an operation starts.
pub open spec fn start(steps: Seq<Step>) -> Progress {
    if steps.len() > 0 {
        Progress::Send(0)
    } else {
        Progress::Done
    }
}

/// How an operation goes on after step `at` succeeded or failed.
pub open spec fn after(steps: Seq<Step>, at: int, succeeded: bool) -> Progress {
    if 0 <= at < steps.len() && steps[at].required && !succeeded {
        Progress::Failed
    } else if 0 <= at && at + 1 < steps.len() {
        Progress::Send((at + 1) as usize)
    } else {
        Progress::Done
    }
}

/// The steps of opening a sheet.
pub fn open_steps() -> (steps: Vec<Step>)
    ensures
        steps@ == steps_to_open(),
{
    let mut steps: Vec<Step> = Vec::new();
    steps.push(Step { write: Write::PutGame, required: true });
    steps.push(Step { write: Write::PutTeam, required: true });
    assert(steps@ =~= steps_to_open());
    steps
}

/// The steps of a reset of a team that had a sheet open, or had none.
pub fn reset_steps(had_sheet: bool) -> (steps: Vec<Step>)
    ensures
        steps@ == steps_to_reset(had_sheet),
{
    let mut steps: Vec<Step> = Vec::new();
    if had_sheet {
        steps.push(Step { write: Write::DeleteGame, required: false });
    }
    steps.push(Step { write: Write::PutTeam, required: true });
    assert(steps@ =~= steps_to_reset(had_sheet));
    steps
}

/// The steps of showing a sheet that changed, or did not.
pub fn show_steps(changed: bool) -> (steps: Vec<Step>)
    ensures
        steps@ == steps_to_show(changed),
{
    let mut steps: Vec<Step> = Vec::new();
    if changed {
        steps.push(Step { write: Write::PutGame, required: true });
    }
    assert(steps@ =~= steps_to_show(changed));
    steps
}

/// The steps of an operation that changes the team alone.
pub fn save_team_steps() -> (steps: Vec<Step>)
    ensures
        steps@ == steps_to_save_team(),
{
    let mut steps: Vec<Step> = Vec::new();
    steps.push(Step { write: Write::PutTeam, required: true });
    assert(steps@ =~= steps_to_save_team());
    steps
}

/// The steps of an operation that changes the sheet alone.
pub fn save_sheet_steps() -> (steps: Vec<Step>)
    ensures
        steps@ == steps_to_save_sheet(),
{
    let mut steps: Vec<Step> = Vec::new();
    steps.push(Step { write: Write::PutGame, required: true });
    assert(steps@ =~= steps_to_save_sheet());
    steps
}

/// The name of the collection that a request goes to.
pub fn collection_of(write: Write) -> (name: &'static str)
    ensures
        name@ == collection(write),
{
    match write {
        Write::PutTeam => TEAMS,
        Write::PutGame => GAMES,
        Write::DeleteGame => GAMES,
    }
}

/// Tells where an operation starts.
pub fn begin(steps: &Vec<Step>) -> (r: Progress)
    ensures
        r == start(steps@),
{
    if steps.len() > 0 {
        Progress::Send(0)
    } else {
        Progress::Done
    }
}

/// Tells how an operation goes on after step `at` succeeded or failed.
pub fn advance(steps: &Vec<Step>, at: usize, succeeded: bool) -> (r: Progress)
    ensures
        r == after(steps@, at as int, succeeded),
{
    if at < steps.len() && steps[at].required && !succeeded {
        Progress::Failed
    } else if at < steps.len() && at + 1 < steps.len() {
        Progress::Send(at + 1)
    } else {
        Progress::Done
    }
}

/// When a sheet is opened, the team is stored only after the sheet was
/// stored, and the operation succeeds only if both were.
pub proof fn lemma_sheet_before_team(sheet_stored: bool, team_stored: bool)
    ensures
        start(steps_to_open()) == Progress::Send(0),
        steps_to_open()[0].write == Write::PutGame,
        after(steps_to_open(), 0, sheet_stored) == if sheet_stored {
            Progress::Send(1)
        } else {
            Progress::Failed
        },
        steps_to_open()[1].write == Write::PutTeam,
        after(steps_to_open(), 1, team_stored) == if team_stored {
            Progress::Done
        } else {
            Progress::Failed
        },
{
}

/// In a reset, the team is stored whether or not the old sheet could be
/// deleted.
pub proof fn lemma_reset_survives_failed_delete(deleted: bool)
    ensures
        steps_to_reset(true)[0].write == Write::DeleteGame,
        after(steps_to_reset(true), 0, deleted) == Progress::Send(1),
        steps_to_reset(true)[1].write == Write::PutTeam,
{
}

} // verus!
