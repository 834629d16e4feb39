//! The sign-up sheet of one game: who plays, which guests come along, and
//! what people had to say.

use vstd::prelude::*;
use crate::attendance::{count_playing, playing, Answer, Attendance, Roster};
use crate::calendar::CivilDate;
use crate::error::CoreError;
use crate::reconcile::{lacking, missing, reconcile, reconciled};
use crate::text::{names_in, parse_names, same_text, texts, trimmed};

verus! {

/// The sign-up sheet of one game.
#[derive(Debug)]
pub struct Game {
    description: String,
    attendance: Attendance,
    guests: Vec<String>,
    comments: Vec<String>,
    date: Option<CivilDate>,
}

/// What a [`Game`] holds, as the contracts see it.
pub struct GameView {
    /// Free text that describes the game.
    pub description: Seq<char>,
    /// The answer recorded for each player id.
    pub attendance: Map<Seq<char>, Answer>,
    /// The guests in the order in which they were added.
    pub guests: Seq<Seq<char>>,
    /// The remarks in the order in which they were made.
    pub comments: Seq<Seq<char>>,
    /// The day of the game, if one was set.
    pub date: Option<CivilDate>,
}

/// `guests` without the entries that equal `name`.
pub open spec fn without(guests: Seq<Seq<char>>, name: Seq<char>) -> Seq<Seq<char>> {
    guests.filter(|guest: Seq<char>| guest != name)
}

/// The number of people expected: the players who play, and the guests.
pub open spec fn headcount(game: GameView) -> nat {
    playing(game.attendance).len() + game.guests.len()
}

impl View for Game {
    type V = GameView;

    closed spec fn view(&self) -> GameView {
        GameView {
            description: self.description@,
            attendance: self.attendance@,
            guests: texts(self.guests@),
            comments: texts(self.comments@),
            date: self.date,
        }
    }
}

impl Game {
    /// A fresh sheet for the members of `roster`: each of them has an
    /// unanswered entry, and there are no guests and no comments yet.
    pub fn open(description: String, roster: &Roster) -> (game: Game)
        ensures
            game@ == (GameView {
                description: description@,
                attendance: reconciled(roster@.dom(), Map::empty()),
                guests: Seq::empty(),
                comments: Seq::empty(),
                date: None,
            }),
            game@.attendance.dom() == roster@.dom(),
            forall|id: Seq<char>| #[trigger]
                roster@.dom().contains(id) ==> game@.attendance[id] == Answer::Unanswered,
    {
        let (attendance, _) = reconcile(roster, Attendance::new());
        let game = Game {
            description,
            attendance,
            guests: Vec::new(),
            comments: Vec::new(),
            date: None,
        };
        assert(game@.guests =~= Seq::empty());
        assert(game@.comments =~= Seq::empty());
        assert(game@.attendance.dom() =~= roster@.dom());
        game
    }

    /// A sheet with the given contents.
    pub fn from_parts(
        description: String,
        attendance: Attendance,
        guests: Vec<String>,
        comments: Vec<String>,
        date: Option<CivilDate>,
    ) -> (game: Game)
        ensures
            game@ == (GameView {
                description: description@,
                attendance: attendance@,
                guests: texts(guests@),
                comments: texts(comments@),
                date,
            }),
    {
        Game { description, attendance, guests, comments, date }
    }

    /// The text that describes the game.
    pub fn description(&self) -> (r: &String)
        ensures
            r@ == self@.description,
    {
        &self.description
    }

    /// The attendance record.
    pub fn attendance(&self) -> (r: &Attendance)
        ensures
            r@ == self@.attendance,
    {
        &self.attendance
    }

    /// The guests in the order in which they were added.
    pub fn guests(&self) -> (r: &Vec<String>)
        ensures
            texts(r@) == self@.guests,
    {
        &self.guests
    }

    /// The remarks in the order in which they were made.
    pub fn comments(&self) -> (r: &Vec<String>)
        ensures
            texts(r@) == self@.comments,
    {
        &self.comments
    }

    /// The day of the game, if one was set.
    pub fn date(&self) -> (r: Option<CivilDate>)
        ensures
            r == self@.date,
    {
        self.date
    }

    /// Sets or clears the day of the game.
    pub fn set_date(&mut self, date: Option<CivilDate>)
        ensures
            final(self)@ == (GameView { date, ..old(self)@ }),
    {
        self.date = date;
    }

    /// The answer recorded for `player_id`, if there is an entry for it.
    pub fn answer_of(&self, player_id: &str) -> (r: Option<Answer>)
        ensures
            r == if self@.attendance.dom().contains(player_id@) {
                Some(self@.attendance[player_id@])
            } else {
                None
            },
    {
        match self.attendance.get(player_id) {
            Some(answer) => Some(*answer),
            None => None,
        }
    }

    /// Records `answer` for `player_id`, whether or not the sheet had an
    /// entry for that id.
    pub fn mark(&mut self, player_id: String, answer: Answer)
        ensures
            final(self)@ == (GameView {
                attendance: old(self)@.attendance.insert(player_id@, answer),
                ..old(self)@
            }),
    {
        self.attendance.insert(player_id, answer);
    }

    /// Gives every member of `roster` an entry on the sheet, and tells
    /// whether the sheet changed.
    pub fn reconcile_with(&mut self, roster: &Roster) -> (changed: bool)
        ensures
            final(self)@ == (GameView {
                attendance: reconciled(roster@.dom(), old(self)@.attendance),
                ..old(self)@
            }),
            changed == lacking(roster@.dom(), old(self)@.attendance),
            !changed ==> final(self)@ == old(self)@,
    {
        let mut record = Attendance::new();
        core::mem::swap(&mut self.attendance, &mut record);
        let (record, changed) = reconcile(roster, record);
        self.attendance = record;
        proof {
            if !changed {
                assert(final(self)@.attendance =~= old(self)@.attendance) by {
                    assert forall|id: Seq<char>|
                        reconciled(roster@.dom(), old(self)@.attendance).dom().contains(id)
                        implies old(self)@.attendance.dom().contains(id) by {
                        if !old(self)@.attendance.dom().contains(id) {
                            assert(missing(roster@.dom(), old(self)@.attendance).contains(id));
                        }
                    }
                }
            }
        }
        changed
    }

    /// Appends the names that `field` lists to the guests, in order. A
    /// field that holds nothing but white space is refused.
    pub fn add_guests(&mut self, field: &str) -> (r: Result<(), CoreError>)
        ensures
            match r {
                Ok(_) => trimmed(field@).len() > 0 && final(self)@ == (GameView {
                    guests: old(self)@.guests + names_in(field@),
                    ..old(self)@
                }),
                Err(e) => e == CoreError::InvalidInput && trimmed(field@).len() == 0
                    && final(self)@ == old(self)@,
            },
    {
        match parse_names(field) {
            None => Err(CoreError::InvalidInput),
            Some(mut names) => {
                let ghost added = names@;
                self.guests.append(&mut names);
                assert(texts(self.guests@) =~= texts(old(self).guests@) + texts(added));
                Ok(())
            },
        }
    }

    /// Removes every guest entry that equals `name`.
    pub fn remove_guest(&mut self, name: &str)
        ensures
            final(self)@ == (GameView { guests: without(old(self)@.guests, name@), ..old(self)@ }),
    {
        let ghost before = self.guests@;
        let ghost keep = |guest: Seq<char>| guest != name@;
        let ghost mut seen: Seq<String> = Seq::empty();
        let mut kept: Vec<String> = Vec::new();
        let mut rest: Vec<String> = Vec::new();
        core::mem::swap(&mut self.guests, &mut rest);
        assert(texts(seen) =~= Seq::empty());
        for guest in it: rest
            invariant
                it.seq() == before,
                seen == it.history(),
                keep == |guest: Seq<char>| guest != name@,
                texts(kept@) == texts(seen).filter(keep),
        {
            proof {
                reveal(Seq::filter);
                assert(texts(seen.push(guest)) =~= texts(seen).push(guest@));
                assert(texts(seen).push(guest@).drop_last() =~= texts(seen));
            }
            if !same_text(guest.as_str(), name) {
                kept.push(guest);
                assert(texts(kept@) =~= texts(seen).filter(keep).push(guest@));
            }
            proof {
                seen = seen.push(guest);
            }
        }
        assert(seen =~= before);
        self.guests = kept;
    }

    /// Appends `text` to the comments. An empty text is refused.
    pub fn add_comment(&mut self, text: String) -> (r: Result<(), CoreError>)
        ensures
            match r {
                Ok(_) => text@.len() > 0 && final(self)@ == (GameView {
                    comments: old(self)@.comments.push(text@),
                    ..old(self)@
                }),
                Err(e) => e == CoreError::InvalidInput && text@.len() == 0
                    && final(self)@ == old(self)@,
            },
    {
        if text.as_str().is_empty() {
            return Err(CoreError::InvalidInput);
        }
        self.comments.push(text);
        assert(texts(self.comments@) =~= texts(old(self).comments@).push(text@));
        Ok(())
    }

    /// The number of people expected, capped at the largest `usize`.
    pub fn summary_count(&self) -> (n: usize)
        ensures
            n == if headcount(self@) <= usize::MAX {
                headcount(self@)
            } else {
                usize::MAX as nat
            },
    {
        count_playing(&self.attendance).saturating_add(self.guests.len())
    }
}

} // verus!
