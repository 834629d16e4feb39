//! The roster of a team and the answers recorded for one game.

use vstd::prelude::*;
use crate::table::{distinct_keys, has_key, holds, lemma_push, lemma_size, map_of, Listing, Table};

verus! {

/// What a player has said about the next game.
#[derive(Clone, Copy, Debug, PartialEq, Eq, Structural)]
pub enum Answer {
    /// Not yet responded.
    Unanswered,
    /// Will play.
    Playing,
    /// Will not play.
    NotPlaying,
}

impl View for Answer {
    type V = Answer;

    open spec fn view(&self) -> Answer {
        *self
    }
}

/// The members of a team: player id to display name.
pub type Roster = Table<String>;

/// The answers for one game: player id to answer.
pub type Attendance = Table<Answer>;

/// The players whose answer is "playing".
pub open spec fn playing(attendance: Map<Seq<char>, Answer>) -> Set<Seq<char>> {
    attendance.dom().filter(|id: Seq<char>| attendance[id] == Answer::Playing)
}

/// How many entries of `list` say "playing".
pub open spec fn tally(list: Listing<Answer>) -> nat
    decreases list.len(),
{
    if list.len() == 0 {
        0
    } else if list.last().1 == Answer::Playing {
        tally(list.drop_last()) + 1
    } else {
        tally(list.drop_last())
    }
}

/// In a listing without repeated ids, the entries that say "playing" are as
/// many as the players who play.
pub proof fn lemma_tally(list: Listing<Answer>)
    requires
        distinct_keys(list),
    ensures
        playing(map_of(list)).finite(),
        playing(map_of(list)).len() == tally(list),
        tally(list) <= list.len(),
    decreases list.len(),
{
    lemma_size(list);
    if list.len() == 0 {
        assert(playing(map_of(list)) =~= Set::<Seq<char>>::empty());
    } else {
        let front = list.drop_last();
        let last = list.last();
        assert forall|i: int, j: int| 0 <= i < j < front.len() implies front[i].0 != front[j].0 by {
            assert(front[i] == list[i] && front[j] == list[j]);
        }
        lemma_tally(front);
        if has_key(front, last.0) {
            let i = choose|i: int| holds(front, i, last.0);
            assert(list[i].0 != list[list.len() - 1].0);
        }
        assert(list =~= front.push((last.0, last.1)));
        lemma_push(front, last.0, last.1);
        assert(!map_of(front).dom().contains(last.0));
        if last.1 == Answer::Playing {
            assert(playing(map_of(list)) =~= playing(map_of(front)).insert(last.0));
        } else {
            assert(playing(map_of(list)) =~= playing(map_of(front)));
        }
    }
}

/// Counts the players who have answered "playing".
pub fn count_playing(attendance: &Attendance) -> (n: usize)
    ensures
        playing(attendance@).finite(),
        n == playing(attendance@).len(),
        n <= attendance@.dom().len(),
{
    let ghost list = attendance.listing();
    let len = attendance.len();
    let mut n: usize = 0;
    let mut i: usize = 0;
    assert(list.take(0) =~= Seq::empty());
    while i < len
        invariant
            i <= len,
            len == list.len(),
            list == attendance.listing(),
            n == tally(list.take(i as int)),
            n <= i,
        decreases len - i,
    {
        assert(list.take(i + 1).drop_last() =~= list.take(i as int));
        assert(list.take(i + 1).last() == list[i as int]);
        if *attendance.value_at(i) == Answer::Playing {
            n = n + 1;
        }
        i = i + 1;
    }
    proof {
        assert(list.take(len as int) =~= list);
        lemma_tally(list);
    }
    n
}

} // verus!
