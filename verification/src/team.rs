//! A team: its name, its admin secret, its roster, the pointer to its open
//! sign-up sheet, and what the organizer has set.

use vstd::prelude::*;
use crate::attendance::Roster;
use crate::cron::cron_of;
use crate::error::{CoreError, ScheduleError};
use crate::random::{hex_string, is_token};
use crate::schedule::validate_schedule;
use crate::text::{
    names_in, opt_text, parse_names, parse_small, same_text, small_number, texts, trimmed,
};

verus! {

/// A recurring rule for when a sign-up sheet expires.
#[derive(Debug)]
pub struct Schedule {
    /// The cron expression.
    pub expression: String,
    /// The IANA identifier of the time zone whose wall clock the expression
    /// is read against.
    pub timezone: String,
}

/// What a [`Schedule`] holds, as the contracts see it.
pub struct ScheduleView {
    pub expression: Seq<char>,
    pub timezone: Seq<char>,
}

impl View for Schedule {
    type V = ScheduleView;

    open spec fn view(&self) -> ScheduleView {
        ScheduleView { expression: self.expression@, timezone: self.timezone@ }
    }
}

/// The view of an optional schedule.
pub open spec fn opt_schedule(o: Option<Schedule>) -> Option<ScheduleView> {
    match o {
        Some(s) => Some(s@),
        None => None,
    }
}

/// What the organizer tells the players: display fields without behaviour.
#[derive(Debug)]
pub struct Settings {
    location: Option<String>,
    time: Option<String>,
    weekly_schedule: Option<i8>,
}

/// What [`Settings`] hold, as the contracts see it.
pub struct SettingsView {
    /// Where the team plays.
    pub location: Option<Seq<char>>,
    /// At what time of day the team plays, as free text.
    pub time: Option<Seq<char>>,
    /// On which day of the week the team plays, from 1 to 7.
    pub weekly_schedule: Option<i8>,
}

/// A text field as it is stored: an empty text counts as none.
pub open spec fn stored_text(field: Option<Seq<char>>) -> Option<Seq<char>> {
    match field {
        Some(text) => if text.len() == 0 {
            None
        } else {
            Some(text)
        },
        None => None,
    }
}

/// A day of the week as it is stored: a number outside 1 to 7 counts as
/// none.
pub open spec fn stored_day(day: Option<i8>) -> Option<i8> {
    match day {
        Some(n) => if 1 <= n <= 7 {
            Some(n)
        } else {
            None
        },
        None => None,
    }
}

/// The day of the week that a form field names: its text is read as a
/// decimal number, and a text that spells no number counts as none.
pub open spec fn day_in(field: Option<Seq<char>>) -> Option<i8> {
    match field {
        Some(text) => stored_day(small_number(text)),
        None => None,
    }
}

impl View for Settings {
    type V = SettingsView;

    closed spec fn view(&self) -> SettingsView {
        SettingsView {
            location: opt_text(self.location),
            time: opt_text(self.time),
            weekly_schedule: self.weekly_schedule,
        }
    }
}

/// Keeps a text unless it is empty.
fn keep_text(field: Option<String>) -> (r: Option<String>)
    ensures
        opt_text(r) == stored_text(opt_text(field)),
{
    match field {
        Some(text) => if text.as_str().is_empty() {
            None
        } else {
            Some(text)
        },
        None => None,
    }
}

/// Keeps a day of the week if it lies between 1 and 7.
pub fn keep_day(day: Option<i8>) -> (r: Option<i8>)
    ensures
        r == stored_day(day),
{
    match day {
        Some(n) => if 1 <= n && n <= 7 {
            Some(n)
        } else {
            None
        },
        None => None,
    }
}

impl Settings {
    /// No text that is set is empty, and a day that is set lies between 1
    /// and 7.
    #[verifier::type_invariant]
    closed spec fn kept(self) -> bool {
        &&& stored_text(opt_text(self.location)) == opt_text(self.location)
        &&& stored_text(opt_text(self.time)) == opt_text(self.time)
        &&& stored_day(self.weekly_schedule) == self.weekly_schedule
    }

    /// Settings with nothing set.
    pub fn empty() -> (r: Settings)
        ensures
            r@ == (SettingsView { location: None, time: None, weekly_schedule: None }),
    {
        Settings { location: None, time: None, weekly_schedule: None }
    }

    /// Settings with the given fields. An empty text and a day outside 1 to
    /// 7 count as not set.
    pub fn new(location: Option<String>, time: Option<String>, weekly_schedule: Option<i8>) -> (r:
        Settings)
        ensures
            r@ == (SettingsView {
                location: stored_text(opt_text(location)),
                time: stored_text(opt_text(time)),
                weekly_schedule: stored_day(weekly_schedule),
            }),
    {
        Settings {
            location: keep_text(location),
            time: keep_text(time),
            weekly_schedule: keep_day(weekly_schedule),
        }
    }

    /// Settings from the fields of a form, in which the day of the week
    /// comes as text.
    pub fn from_form(location: Option<String>, time: Option<String>, day: Option<String>) -> (r:
        Settings)
        ensures
            r@ == (SettingsView {
                location: stored_text(opt_text(location)),
                time: stored_text(opt_text(time)),
                weekly_schedule: day_in(opt_text(day)),
            }),
    {
        let number = match day {
            Some(text) => parse_small(text.as_str()),
            None => None,
        };
        Settings {
            location: keep_text(location),
            time: keep_text(time),
            weekly_schedule: keep_day(number),
        }
    }

    /// Where the team plays.
    pub fn location(&self) -> (r: &Option<String>)
        ensures
            opt_text(*r) == self@.location,
            *r matches Some(text) ==> text@.len() > 0,
    {
        proof {
            use_type_invariant(self);
        }
        &self.location
    }

    /// At what time of day the team plays.
    pub fn time(&self) -> (r: &Option<String>)
        ensures
            opt_text(*r) == self@.time,
            *r matches Some(text) ==> text@.len() > 0,
    {
        proof {
            use_type_invariant(self);
        }
        &self.time
    }

    /// On which day of the week the team plays.
    pub fn weekly_schedule(&self) -> (r: Option<i8>)
        ensures
            r == self@.weekly_schedule,
            r matches Some(day) ==> 1 <= day <= 7,
    {
        proof {
            use_type_invariant(self);
        }
        self.weekly_schedule
    }
}

/// What becomes of the schedule in an update of the settings.
#[derive(Debug)]
pub enum ScheduleChange {
    /// The schedule stays as it is.
    Keep,
    /// The team has no schedule from now on.
    Clear,
    /// The team gets this schedule, if it is valid.
    Replace(Schedule),
}

/// What a form asks for with its two schedule fields: no schedule when
/// both are empty or absent, and otherwise the schedule that they spell.
pub open spec fn change_in(expression: Option<Seq<char>>, timezone: Option<Seq<char>>) -> Option<
    ScheduleView,
> {
    if stored_text(expression) is None && stored_text(timezone) is None {
        None
    } else {
        Some(
            ScheduleView {
                expression: match expression {
                    Some(text) => text,
                    None => Seq::empty(),
                },
                timezone: match timezone {
                    Some(text) => text,
                    None => Seq::empty(),
                },
            },
        )
    }
}

impl ScheduleChange {
    /// The change that a form asks for with its two schedule fields.
    pub fn from_form(expression: Option<String>, timezone: Option<String>) -> (r: ScheduleChange)
        ensures
            match change_in(opt_text(expression), opt_text(timezone)) {
                None => r is Clear,
                Some(schedule) => r matches ScheduleChange::Replace(s) && s@ == schedule,
            },
    {
        let expression = match expression {
            Some(text) => text,
            None => String::new(),
        };
        let timezone = match timezone {
            Some(text) => text,
            None => String::new(),
        };
        if expression.as_str().is_empty() && timezone.as_str().is_empty() {
            ScheduleChange::Clear
        } else {
            ScheduleChange::Replace(Schedule { expression, timezone })
        }
    }
}

/// An update of what the organizer has set.
#[derive(Debug)]
pub struct SettingsUpdate {
    /// The display fields, which replace the stored ones.
    pub settings: Settings,
    /// What becomes of the schedule.
    pub schedule: ScheduleChange,
}

/// A team.
#[derive(Debug)]
pub struct Team {
    name: String,
    secret: String,
    next_game: Option<String>,
    roster: Roster,
    schedule: Option<Schedule>,
    settings: Settings,
}

/// What a [`Team`] holds, as the contracts see it.
pub struct TeamView {
    /// The display name, which is not empty.
    pub name: Seq<char>,
    /// The admin secret.
    pub secret: Seq<char>,
    /// The key of the open sign-up sheet, if one is open.
    pub next_game: Option<Seq<char>>,
    /// The display name of each player id.
    pub roster: Map<Seq<char>, Seq<char>>,
    /// When sign-up sheets expire, if they do.
    pub schedule: Option<ScheduleView>,
    /// What the organizer tells the players.
    pub settings: SettingsView,
}

/// What the founding of a team hands out.
#[derive(Debug)]
pub struct Created {
    /// The key under which the team is stored and addressed.
    pub key: String,
    /// The admin secret.
    pub secret: String,
    /// The team.
    pub team: Team,
}

/// A team as it is after its creation: no players, no open sheet, nothing
/// set.
pub open spec fn fresh_team(name: Seq<char>, secret: Seq<char>) -> TeamView {
    TeamView {
        name,
        secret,
        next_game: None,
        roster: Map::empty(),
        schedule: None,
        settings: SettingsView { location: None, time: None, weekly_schedule: None },
    }
}

/// The ids and names of a list of players.
pub open spec fn players_view(players: Seq<(String, String)>) -> Seq<(Seq<char>, Seq<char>)> {
    players.map_values(|p: (String, String)| (p.0@, p.1@))
}

/// `roster` after the given players, each an id and a name, have been
/// entered in order. A player who is entered under an id that is taken
/// replaces the one who had it.
pub open spec fn enrolled(
    roster: Map<Seq<char>, Seq<char>>,
    players: Seq<(Seq<char>, Seq<char>)>,
) -> Map<Seq<char>, Seq<char>>
    decreases players.len(),
{
    if players.len() == 0 {
        roster
    } else {
        enrolled(roster, players.drop_last()).insert(players.last().0, players.last().1)
    }
}

/// The players with the ids `ids[i]` and the names `names[i]`.
pub open spec fn paired(ids: Seq<Seq<char>>, names: Seq<Seq<char>>) -> Seq<(Seq<char>, Seq<char>)> {
    Seq::new(names.len(), |i: int| (ids[i], names[i]))
}

/// Whether no id occurs twice among `players`, and none is in `roster`.
pub open spec fn fresh_ids(
    roster: Map<Seq<char>, Seq<char>>,
    players: Seq<(Seq<char>, Seq<char>)>,
) -> bool {
    &&& forall|i: int| 0 <= i < players.len() ==> !roster.dom().contains(#[trigger] players[i].0)
    &&& forall|i: int, j: int| 0 <= i < j < players.len() ==> players[i].0 != players[j].0
}

/// Players who are entered under fresh ids are all on the roster
/// afterwards, each under the name given, beside those who were on it
/// before, and nobody else.
pub proof fn lemma_enrolled_fresh(
    roster: Map<Seq<char>, Seq<char>>,
    players: Seq<(Seq<char>, Seq<char>)>,
)
    requires
        fresh_ids(roster, players),
    ensures
        forall|i: int|
            0 <= i < players.len() ==> enrolled(roster, players).dom().contains(
                #[trigger] players[i].0,
            ) && enrolled(roster, players)[players[i].0] == players[i].1,
        forall|id: Seq<char>| #[trigger]
            roster.dom().contains(id) ==> enrolled(roster, players).dom().contains(id) && enrolled(
                roster,
                players,
            )[id] == roster[id],
        forall|id: Seq<char>| #[trigger]
            enrolled(roster, players).dom().contains(id) ==> roster.dom().contains(id) || exists|
                i: int,
            |
                0 <= i < players.len() && players[i].0 == id,
        roster.dom().finite() ==> enrolled(roster, players).dom().finite() && enrolled(
            roster,
            players,
        ).dom().len() == roster.dom().len() + players.len(),
    decreases players.len(),
{
    if players.len() > 0 {
        let front = players.drop_last();
        let last = players.last();
        assert(fresh_ids(roster, front)) by {
            assert forall|i: int| 0 <= i < front.len() implies !roster.dom().contains(
                #[trigger] front[i].0,
            ) by {
                assert(front[i] == players[i]);
            }
            assert forall|i: int, j: int| 0 <= i < j < front.len() implies front[i].0
                != front[j].0 by {
                assert(front[i] == players[i] && front[j] == players[j]);
            }
        }
        lemma_enrolled_fresh(roster, front);
        let before = enrolled(roster, front);
        assert(!before.dom().contains(last.0)) by {
            if before.dom().contains(last.0) {
                assert(!roster.dom().contains(players[players.len() - 1].0));
                let i = choose|i: int| 0 <= i < front.len() && front[i].0 == last.0;
                assert(players[i].0 != players[players.len() - 1].0);
            }
        }
        assert forall|i: int| 0 <= i < players.len() implies enrolled(
            roster,
            players,
        ).dom().contains(#[trigger] players[i].0) && enrolled(roster, players)[players[i].0]
            == players[i].1 by {
            if i < front.len() {
                assert(front[i] == players[i]);
            }
        }
        assert forall|id: Seq<char>| #[trigger]
            enrolled(roster, players).dom().contains(id) implies roster.dom().contains(id)
            || exists|i: int| 0 <= i < players.len() && players[i].0 == id by {
            if id == last.0 {
                assert(players[players.len() - 1].0 == id);
            } else if !roster.dom().contains(id) {
                let i = choose|i: int| 0 <= i < front.len() && front[i].0 == id;
                assert(players[i].0 == id);
            }
        }
    }
}

/// The schedule of a team after an update.
pub open spec fn changed_schedule(before: Option<ScheduleView>, change: ScheduleChange) -> Option<
    ScheduleView,
> {
    match change {
        ScheduleChange::Keep => before,
        ScheduleChange::Clear => None,
        ScheduleChange::Replace(schedule) => Some(schedule@),
    }
}

impl View for Team {
    type V = TeamView;

    closed spec fn view(&self) -> TeamView {
        TeamView {
            name: self.name@,
            secret: self.secret@,
            next_game: opt_text(self.next_game),
            roster: self.roster@,
            schedule: opt_schedule(self.schedule),
            settings: self.settings@,
        }
    }
}

impl Team {
    /// The name is not empty.
    #[verifier::type_invariant]
    closed spec fn named(&self) -> bool {
        self.name@.len() > 0
    }

    /// A team without players. An empty name is refused.
    pub fn new(name: String, secret: String) -> (r: Result<Team, CoreError>)
        ensures
            match r {
                Ok(team) => name@.len() > 0 && team@ == fresh_team(name@, secret@),
                Err(e) => e == CoreError::InvalidInput && name@.len() == 0,
            },
    {
        Team::from_parts(name, secret, None, Roster::new(), None, Settings::empty())
    }

    /// Founds a team: a new key and a new admin secret are drawn, and the
    /// team starts without players. An empty name is refused. The secret is
    /// handed out here and nowhere else.
    pub fn create(name: String) -> (r: Result<Created, CoreError>)
        ensures
            match r {
                Ok(created) => {
                    &&& name@.len() > 0
                    &&& is_token(created.key@)
                    &&& is_token(created.secret@)
                    &&& created.team@ == fresh_team(name@, created.secret@)
                },
                Err(e) => {
                    &&& e == CoreError::InvalidInput || e == CoreError::EntropyUnavailable
                    &&& e == CoreError::InvalidInput <==> name@.len() == 0
                },
            },
    {
        if name.as_str().is_empty() {
            return Err(CoreError::InvalidInput);
        }
        let key = match hex_string() {
            Ok(key) => key,
            Err(e) => {
                return Err(e);
            },
        };
        let secret = match hex_string() {
            Ok(secret) => secret,
            Err(e) => {
                return Err(e);
            },
        };
        match Team::new(name, secret.clone()) {
            Ok(team) => Ok(Created { key, secret, team }),
            Err(e) => Err(e),
        }
    }

    /// Admits the bearer of `supplied` to the stored team, if there is one
    /// and the secret is its own.
    pub fn authorize(stored: Option<Team>, supplied: &str) -> (r: Result<Team, CoreError>)
        ensures
            match r {
                Ok(team) => stored == Some(team) && team@.secret == supplied@,
                Err(e) => match stored {
                    None => e == CoreError::NotFound,
                    Some(team) => e == CoreError::Unauthorized && team@.secret != supplied@,
                },
            },
    {
        match stored {
            None => Err(CoreError::NotFound),
            Some(team) => if team.secret_matches(supplied) {
                Ok(team)
            } else {
                Err(CoreError::Unauthorized)
            },
        }
    }

    /// A team with the given contents. An empty name is refused.
    pub fn from_parts(
        name: String,
        secret: String,
        next_game: Option<String>,
        roster: Roster,
        schedule: Option<Schedule>,
        settings: Settings,
    ) -> (r: Result<Team, CoreError>)
        ensures
            match r {
                Ok(team) => name@.len() > 0 && team@ == (TeamView {
                    name: name@,
                    secret: secret@,
                    next_game: opt_text(next_game),
                    roster: roster@,
                    schedule: opt_schedule(schedule),
                    settings: settings@,
                }),
                Err(e) => e == CoreError::InvalidInput && name@.len() == 0,
            },
    {
        if name.as_str().is_empty() {
            return Err(CoreError::InvalidInput);
        }
        Ok(Team { name, secret, next_game, roster, schedule, settings })
    }

    /// The display name.
    pub fn name(&self) -> (r: &String)
        ensures
            r@ == self@.name,
            r@.len() > 0,
    {
        proof {
            use_type_invariant(self);
        }
        &self.name
    }

    /// The admin secret.
    pub fn secret(&self) -> (r: &String)
        ensures
            r@ == self@.secret,
    {
        &self.secret
    }

    /// The key of the open sign-up sheet, if one is open.
    pub fn next_game(&self) -> (r: &Option<String>)
        ensures
            opt_text(*r) == self@.next_game,
    {
        &self.next_game
    }

    /// The roster.
    pub fn roster(&self) -> (r: &Roster)
        ensures
            r@ == self@.roster,
    {
        &self.roster
    }

    /// When sign-up sheets expire, if they do.
    pub fn schedule(&self) -> (r: &Option<Schedule>)
        ensures
            opt_schedule(*r) == self@.schedule,
    {
        &self.schedule
    }

    /// What the organizer tells the players.
    pub fn settings(&self) -> (r: &Settings)
        ensures
            r@ == self@.settings,
    {
        &self.settings
    }

    /// Tells whether `supplied` is the admin secret, character for
    /// character.
    pub fn secret_matches(&self, supplied: &str) -> (r: bool)
        ensures
            r == (self@.secret == supplied@),
    {
        same_text(self.secret.as_str(), supplied)
    }

    /// Enters a player under `id`. A player who had that id is replaced.
    pub fn enroll(&mut self, id: String, name: String)
        ensures
            final(self)@ == (TeamView {
                roster: old(self)@.roster.insert(id@, name@),
                ..old(self)@
            }),
    {
        proof {
            use_type_invariant(&*self);
        }
        let mut roster = Roster::new();
        core::mem::swap(&mut self.roster, &mut roster);
        roster.insert(id, name);
        self.roster = roster;
    }

    /// Enters the given players, each an id and a name, in order.
    pub fn enroll_all(&mut self, players: Vec<(String, String)>)
        ensures
            final(self)@ == (TeamView {
                roster: enrolled(old(self)@.roster, players_view(players@)),
                ..old(self)@
            }),
    {
        proof {
            use_type_invariant(&*self);
        }
        let ghost all = players@;
        let ghost mut seen: Seq<(String, String)> = Seq::empty();
        let mut roster = Roster::new();
        core::mem::swap(&mut self.roster, &mut roster);
        assert(players_view(seen) =~= Seq::empty());
        for player in it: players
            invariant
                it.seq() == all,
                seen == it.history(),
                roster@ == enrolled(old(self)@.roster, players_view(seen)),
        {
            proof {
                let next = players_view(seen.push(player));
                assert(next.drop_last() =~= players_view(seen));
                assert(next.last() == (player.0@, player.1@));
                seen = seen.push(player);
            }
            roster.insert(player.0, player.1);
        }
        assert(seen =~= all);
        self.roster = roster;
    }

    /// Takes the player with the given id off the roster, if there is one.
    pub fn remove_player(&mut self, player_id: &str)
        ensures
            final(self)@ == (TeamView {
                roster: old(self)@.roster.remove(player_id@),
                ..old(self)@
            }),
    {
        proof {
            use_type_invariant(&*self);
        }
        let mut roster = Roster::new();
        core::mem::swap(&mut self.roster, &mut roster);
        roster.remove(player_id);
        self.roster = roster;
    }

    /// Takes down the names that `field` lists as new players, each under
    /// a fresh id, and hands back the ids in the order of the names. A
    /// field that holds nothing but white space is refused. Nothing is
    /// entered unless an id could be had for every name.
    pub fn add_players(&mut self, field: &str) -> (r: Result<Vec<String>, CoreError>)
        ensures
            match r {
                Ok(ids) => {
                    &&& trimmed(field@).len() > 0
                    &&& ids@.len() == names_in(field@).len()
                    &&& forall|i: int| 0 <= i < ids@.len() ==> is_token(#[trigger] ids@[i]@)
                    &&& final(self)@ == (TeamView {
                        roster: enrolled(
                            old(self)@.roster,
                            paired(texts(ids@), names_in(field@)),
                        ),
                        ..old(self)@
                    })
                },
                Err(e) => {
                    &&& final(self)@ == old(self)@
                    &&& e == CoreError::InvalidInput || e == CoreError::EntropyUnavailable
                    &&& e == CoreError::InvalidInput <==> trimmed(field@).len() == 0
                },
            },
    {
        let names = match parse_names(field) {
            Some(names) => names,
            None => {
                return Err(CoreError::InvalidInput);
            },
        };
        let ghost all = names@;
        let ghost mut seen: Seq<String> = Seq::empty();
        let mut ids: Vec<String> = Vec::new();
        let mut players: Vec<(String, String)> = Vec::new();
        for name in it: names
            invariant
                it.seq() == all,
                seen == it.history(),
                self@ == old(self)@,
                trimmed(field@).len() > 0,
                ids@.len() == seen.len(),
                players@.len() == seen.len(),
                forall|i: int| 0 <= i < ids@.len() ==> is_token(#[trigger] ids@[i]@),
                forall|i: int|
                    0 <= i < players@.len() ==> (#[trigger] players@[i]).0@ == ids@[i]@
                        && players@[i].1@ == seen[i]@,
        {
            let id = match hex_string() {
                Ok(id) => id,
                Err(e) => {
                    return Err(e);
                },
            };
            proof {
                seen = seen.push(name);
            }
            ids.push(id.clone());
            players.push((id, name));
        }
        assert(seen =~= all);
        assert(players_view(players@) =~= paired(texts(ids@), names_in(field@)));
        self.enroll_all(players);
        Ok(ids)
    }

    /// Replaces the display fields and changes the schedule as `update`
    /// says. A new schedule is checked before it is stored; if its
    /// expression or its time zone is refused, so is the whole update.
    pub fn update_settings(&mut self, update: SettingsUpdate) -> (r: Result<(), CoreError>)
        ensures
            match r {
                Ok(_) => final(self)@ == (TeamView {
                    schedule: changed_schedule(old(self)@.schedule, update.schedule),
                    settings: update.settings@,
                    ..old(self)@
                }),
                Err(e) => e == CoreError::InvalidInput && update.schedule is Replace && final(self)@
                    == old(self)@,
            },
            update.schedule matches ScheduleChange::Replace(s) ==> (cron_of(s.expression@) is None
                ==> r is Err),
            !(update.schedule is Replace) ==> r is Ok,
    {
        let checked = match &update.schedule {
            ScheduleChange::Replace(schedule) => validate_schedule(
                schedule.expression.as_str(),
                schedule.timezone.as_str(),
            ),
            _ => Ok(()),
        };
        self.apply_update(update, checked)
    }

    /// Points the team at the sign-up sheet with the given key.
    pub fn point_at(&mut self, game_key: String)
        ensures
            final(self)@ == (TeamView { next_game: Some(game_key@), ..old(self)@ }),
    {
        proof {
            use_type_invariant(&*self);
        }
        self.next_game = Some(game_key);
    }

    /// Closes the sign-up sheet: clears the pointer to it and hands back the
    /// key that it held, so that the sheet can be deleted.
    pub fn reset(&mut self) -> (r: Option<String>)
        ensures
            final(self)@ == (TeamView { next_game: None, ..old(self)@ }),
            opt_text(r) == old(self)@.next_game,
    {
        proof {
            use_type_invariant(&*self);
        }
        let mut held: Option<String> = None;
        core::mem::swap(&mut self.next_game, &mut held);
        held
    }

    /// Applies an update of the settings, given what the check of the new
    /// schedule said. An update that sets a schedule which did not pass the
    /// check is refused as a whole.
    pub fn apply_update(
        &mut self,
        update: SettingsUpdate,
        checked: Result<(), ScheduleError>,
    ) -> (r: Result<(), CoreError>)
        ensures
            match r {
                Ok(_) => !(update.schedule is Replace && checked is Err) && final(self)@
                    == (TeamView {
                    schedule: changed_schedule(old(self)@.schedule, update.schedule),
                    settings: update.settings@,
                    ..old(self)@
                }),
                Err(e) => e == CoreError::InvalidInput && update.schedule is Replace && checked is Err
                    && final(self)@ == old(self)@,
            },
    {
        proof {
            use_type_invariant(&*self);
        }
        match update.schedule {
            ScheduleChange::Keep => {},
            ScheduleChange::Clear => {
                self.schedule = None;
            },
            ScheduleChange::Replace(schedule) => {
                if checked.is_err() {
                    return Err(CoreError::InvalidInput);
                }
                self.schedule = Some(schedule);
            },
        }
        self.settings = update.settings;
        Ok(())
    }
}

} // verus!
