//! The lines of a sign-up sheet as they are shown: one for each entry, with
//! the player's display name, ordered by name and then by id.

use vstd::prelude::*;
use crate::attendance::Answer;
use crate::game::Game;
use crate::table::lemma_entry_in_map;
use crate::team::Team;
use crate::text::{
    chars_of, comes_before, lemma_before_irreflexive, lemma_before_total,
    lemma_before_transitive, text_before,
};

verus! {

/// The name shown for a player id that the roster does not know.
pub const UNKNOWN_PLAYER: &'static str = "Unknown player";

/// One line of a sign-up sheet as it is shown.
#[derive(Debug)]
pub struct PlayerRow {
    /// The display name of the player.
    pub name: String,
    /// The id of the player.
    pub id: String,
    /// What the player has answered.
    pub answer: Answer,
}

/// The name shown for `id`.
pub open spec fn display_name(roster: Map<Seq<char>, Seq<char>>, id: Seq<char>) -> Seq<char> {
    if roster.dom().contains(id) {
        roster[id]
    } else {
        UNKNOWN_PLAYER@
    }
}

/// Whether `rows` shows the entries of `attendance`, each once, in some
/// order, with the names that `roster` gives.
pub open spec fn rows_show(
    rows: Seq<PlayerRow>,
    attendance: Map<Seq<char>, Answer>,
    roster: Map<Seq<char>, Seq<char>>,
) -> bool {
    &&& rows.len() == attendance.dom().len()
    &&& forall|i: int, j: int| 0 <= i < j < rows.len() ==> rows[i].id@ != rows[j].id@
    &&& forall|i: int|
        0 <= i < rows.len() ==> {
            let row = #[trigger] rows[i];
            &&& attendance.dom().contains(row.id@)
            &&& row.answer == attendance[row.id@]
            &&& row.name@ == display_name(roster, row.id@)
        }
}

/// Whether the line with the first name and id stands above the line with
/// the second: the names decide, and between equal names the ids.
pub open spec fn stands_above(
    name: Seq<char>,
    id: Seq<char>,
    other_name: Seq<char>,
    other_id: Seq<char>,
) -> bool {
    comes_before(name, other_name) || (name == other_name && comes_before(id, other_id))
}

/// Whether `a` stands above `b`.
pub open spec fn row_above(a: PlayerRow, b: PlayerRow) -> bool {
    stands_above(a.name@, a.id@, b.name@, b.id@)
}

/// Whether no line stands below one that it should stand above.
pub open spec fn rows_sorted(rows: Seq<PlayerRow>) -> bool {
    forall|i: int, j: int| 0 <= i < j < rows.len() ==> !row_above(rows[j], rows[i])
}

/// Whether line `i` of `rows` stands above line `j`.
pub open spec fn above(rows: Seq<PlayerRow>, i: int, j: int) -> bool {
    row_above(rows[i], rows[j])
}

/// No line stands above itself, and what stands above a line stands above
/// all that the line stands above.
proof fn lemma_above_is_an_order(rows: Seq<PlayerRow>, i: int, j: int, k: int)
    ensures
        !above(rows, i, i),
        above(rows, i, j) && above(rows, j, k) ==> above(rows, i, k),
{
    let a = rows[i];
    let b = rows[j];
    let c = rows[k];
    lemma_before_irreflexive(a.name@);
    lemma_before_irreflexive(a.id@);
    if above(rows, i, j) && above(rows, j, k) {
        if comes_before(a.name@, b.name@) && comes_before(b.name@, c.name@) {
            lemma_before_transitive(a.name@, b.name@, c.name@);
        }
        if a.name@ == b.name@ && b.name@ == c.name@ {
            lemma_before_transitive(a.id@, b.id@, c.id@);
        }
    }
}

/// The name shown for the player with the given id.
pub fn name_of(team: &Team, player_id: &str) -> (r: String)
    ensures
        r@ == display_name(team@.roster, player_id@),
{
    match team.roster().get(player_id) {
        Some(name) => name.clone(),
        None => UNKNOWN_PLAYER.to_owned(),
    }
}

/// The lines of a sheet in the order in which the sheet lists its entries.
fn listed_rows(team: &Team, game: &Game) -> (rows: Vec<PlayerRow>)
    ensures
        rows_show(rows@, game@.attendance, team@.roster),
{
    let record = game.attendance();
    let ghost list = record.listing();
    let count = record.len();
    let mut rows: Vec<PlayerRow> = Vec::new();
    let mut i: usize = 0;
    while i < count
        invariant
            i <= count,
            count == list.len(),
            list == record.listing(),
            record@ == game@.attendance,
            rows@.len() == i,
            forall|k: int|
                0 <= k < i ==> {
                    let row = #[trigger] rows@[k];
                    &&& row.id@ == list[k].0
                    &&& row.answer == list[k].1
                    &&& row.name@ == display_name(team@.roster, row.id@)
                },
        decreases count - i,
    {
        let id = record.key_at(i);
        let answer = *record.value_at(i);
        let name = name_of(team, id.as_str());
        rows.push(PlayerRow { name, id: id.clone(), answer });
        i = i + 1;
    }
    proof {
        assert forall|a: int, b: int| 0 <= a < b < rows@.len() implies rows@[a].id@
            != rows@[b].id@ by {
            assert(list[a].0 != list[b].0);
        }
        assert forall|k: int| 0 <= k < rows@.len() implies {
            let row = #[trigger] rows@[k];
            &&& game@.attendance.dom().contains(row.id@)
            &&& row.answer == game@.attendance[row.id@]
            &&& row.name@ == display_name(team@.roster, row.id@)
        } by {
            lemma_entry_in_map(list, k);
        }
    }
    rows
}

/// The characters of the names and of the ids of `rows`.
fn keys_of(rows: &Vec<PlayerRow>) -> (keys: (Vec<Vec<char>>, Vec<Vec<char>>))
    ensures
        keys.0@.len() == rows@.len(),
        keys.1@.len() == rows@.len(),
        forall|i: int| 0 <= i < rows@.len() ==> (#[trigger] keys.0@[i])@ == rows@[i].name@,
        forall|i: int| 0 <= i < rows@.len() ==> (#[trigger] keys.1@[i])@ == rows@[i].id@,
{
    let mut names: Vec<Vec<char>> = Vec::new();
    let mut ids: Vec<Vec<char>> = Vec::new();
    let mut i: usize = 0;
    while i < rows.len()
        invariant
            i <= rows@.len(),
            names@.len() == i,
            ids@.len() == i,
            forall|k: int| 0 <= k < i ==> (#[trigger] names@[k])@ == rows@[k].name@,
            forall|k: int| 0 <= k < i ==> (#[trigger] ids@[k])@ == rows@[k].id@,
        decreases rows@.len() - i,
    {
        names.push(chars_of(rows[i].name.as_str()));
        ids.push(chars_of(rows[i].id.as_str()));
        i = i + 1;
    }
    (names, ids)
}

/// Tells whether line `i` stands above line `j`, from the characters of
/// their names and ids.
fn is_above(
    names: &Vec<Vec<char>>,
    ids: &Vec<Vec<char>>,
    i: usize,
    j: usize,
    rows: Ghost<Seq<PlayerRow>>,
) -> (r: bool)
    requires
        names@.len() == rows@.len(),
        ids@.len() == rows@.len(),
        i < rows@.len(),
        j < rows@.len(),
        forall|k: int| 0 <= k < rows@.len() ==> (#[trigger] names@[k])@ == rows@[k].name@,
        forall|k: int| 0 <= k < rows@.len() ==> (#[trigger] ids@[k])@ == rows@[k].id@,
    ensures
        r == above(rows@, i as int, j as int),
{
    assert(names@[i as int]@ == rows@[i as int].name@);
    assert(names@[j as int]@ == rows@[j as int].name@);
    assert(ids@[i as int]@ == rows@[i as int].id@);
    assert(ids@[j as int]@ == rows@[j as int].id@);
    if text_before(&names[i], &names[j]) {
        true
    } else if text_before(&names[j], &names[i]) {
        proof {
            if rows@[i as int].name@ == rows@[j as int].name@ {
                lemma_before_irreflexive(rows@[i as int].name@);
            }
            if comes_before(rows@[i as int].name@, rows@[j as int].name@) {
                lemma_before_transitive(
                    rows@[i as int].name@,
                    rows@[j as int].name@,
                    rows@[i as int].name@,
                );
                lemma_before_irreflexive(rows@[i as int].name@);
            }
        }
        false
    } else {
        proof {
            lemma_before_total(rows@[i as int].name@, rows@[j as int].name@);
        }
        text_before(&ids[i], &ids[j])
    }
}

/// The positions of `rows` in the order in which the lines are shown.
fn shown_order(rows: &Vec<PlayerRow>) -> (order: Vec<usize>)
    ensures
        order@.len() == rows@.len(),
        forall|k: int| 0 <= k < order@.len() ==> (#[trigger] order@[k]) < rows@.len(),
        forall|a: int, b: int| 0 <= a < b < order@.len() ==> order@[a] != order@[b],
        forall|a: int, b: int|
            0 <= a < b < order@.len() ==> !above(rows@, order@[b] as int, order@[a] as int),
{
    let (names, ids) = keys_of(rows);
    let count = rows.len();
    let mut order: Vec<usize> = Vec::new();
    let mut i: usize = 0;
    while i < count
        invariant
            i <= count,
            count == rows@.len(),
            names@.len() == count,
            ids@.len() == count,
            forall|k: int| 0 <= k < count ==> (#[trigger] names@[k])@ == rows@[k].name@,
            forall|k: int| 0 <= k < count ==> (#[trigger] ids@[k])@ == rows@[k].id@,
            order@.len() == i,
            forall|k: int| 0 <= k < order@.len() ==> (#[trigger] order@[k]) < i,
            forall|a: int, b: int| 0 <= a < b < order@.len() ==> order@[a] != order@[b],
            forall|a: int, b: int|
                0 <= a < b < order@.len() ==> !above(rows@, order@[b] as int, order@[a] as int),
        decreases count - i,
    {
        let mut at: usize = 0;
        while at < order.len() && !is_above(&names, &ids, i, order[at], Ghost(rows@))
            invariant
                at <= order@.len(),
                i < count,
                count == rows@.len(),
                names@.len() == count,
                ids@.len() == count,
                forall|k: int| 0 <= k < count ==> (#[trigger] names@[k])@ == rows@[k].name@,
                forall|k: int| 0 <= k < count ==> (#[trigger] ids@[k])@ == rows@[k].id@,
                forall|k: int| 0 <= k < order@.len() ==> (#[trigger] order@[k]) < i,
                forall|k: int| 0 <= k < at ==> !above(rows@, i as int, #[trigger] order@[k] as int),
            decreases order@.len() - at,
        {
            at = at + 1;
        }
        let ghost before = order@;
        order.insert(at, i);
        proof {
            assert forall|a: int, b: int| 0 <= a < b < order@.len() implies !above(
                rows@,
                order@[b] as int,
                order@[a] as int,
            ) by {
                if a == at {
                    // The new line stands above the one that was at its place, which
                    // does not stand below any line that followed it.
                    lemma_above_is_an_order(
                        rows@,
                        before[b - 1] as int,
                        i as int,
                        before[at as int] as int,
                    );
                    lemma_above_is_an_order(rows@, before[at as int] as int, 0, 0);
                } else if b == at {
                    assert(order@[a] == before[a]);
                } else {
                    let a0 = if a < at { a } else { a - 1 };
                    let b0 = if b < at { b } else { b - 1 };
                    assert(order@[a] == before[a0] && order@[b] == before[b0]);
                }
            }
            assert forall|a: int, b: int| 0 <= a < b < order@.len() implies order@[a]
                != order@[b] by {
                let a0 = if a < at { a } else { a - 1 };
                let b0 = if b < at { b } else { b - 1 };
                if a != at && b != at {
                    assert(order@[a] == before[a0] && order@[b] == before[b0]);
                } else if a == at {
                    assert(order@[b] == before[b0]);
                } else {
                    assert(order@[a] == before[a0]);
                }
            }
            assert forall|k: int| 0 <= k < order@.len() implies (#[trigger] order@[k]) < i + 1 by {
                if k < at {
                    assert(order@[k] == before[k]);
                } else if k > at {
                    assert(order@[k] == before[k - 1]);
                }
            }
        }
        i = i + 1;
    }
    order
}

/// The lines of a sheet, one for each entry, ordered by name and then by
/// id.
pub fn rows_of(team: &Team, game: &Game) -> (rows: Vec<PlayerRow>)
    ensures
        rows_show(rows@, game@.attendance, team@.roster),
        rows_sorted(rows@),
{
    let listed = listed_rows(team, game);
    let order = shown_order(&listed);
    let mut rows: Vec<PlayerRow> = Vec::new();
    let mut k: usize = 0;
    while k < order.len()
        invariant
            k <= order@.len(),
            order@.len() == listed@.len(),
            forall|p: int| 0 <= p < order@.len() ==> (#[trigger] order@[p]) < listed@.len(),
            rows@.len() == k,
            forall|p: int|
                0 <= p < k ==> {
                    let row = #[trigger] rows@[p];
                    let from = listed@[order@[p] as int];
                    row.name@ == from.name@ && row.id@ == from.id@ && row.answer == from.answer
                },
        decreases order@.len() - k,
    {
        let from = &listed[order[k]];
        rows.push(PlayerRow { name: from.name.clone(), id: from.id.clone(), answer: from.answer });
        k = k + 1;
    }
    proof {
        assert forall|a: int, b: int| 0 <= a < b < rows@.len() implies rows@[a].id@
            != rows@[b].id@ by {
            let x = order@[a] as int;
            let y = order@[b] as int;
            assert(x != y);
            if x < y {
                assert(listed@[x].id@ != listed@[y].id@);
            } else {
                assert(listed@[y].id@ != listed@[x].id@);
            }
        }
        assert forall|p: int| 0 <= p < rows@.len() implies {
            let row = #[trigger] rows@[p];
            &&& game@.attendance.dom().contains(row.id@)
            &&& row.answer == game@.attendance[row.id@]
            &&& row.name@ == display_name(team@.roster, row.id@)
        } by {
            let from = listed@[order@[p] as int];
            assert(game@.attendance.dom().contains(from.id@));
        }
        assert forall|a: int, b: int| 0 <= a < b < rows@.len() implies !row_above(
            rows@[b],
            rows@[a],
        ) by {
            assert(!above(listed@, order@[b] as int, order@[a] as int));
        }
    }
    rows
}

} // verus!
