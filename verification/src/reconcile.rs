//! Keeping the attendance record of an open game in step with the roster.

use vstd::prelude::*;
use crate::attendance::{Answer, Attendance, Roster};
use crate::table::holds;

verus! {

/// The players of `roster` for whom `attendance` has no entry.
pub open spec fn missing(roster: Set<Seq<char>>, attendance: Map<Seq<char>, Answer>) -> Set<
    Seq<char>,
> {
    roster.difference(attendance.dom())
}

/// Whether some player of `roster` has no entry in `attendance`.
pub open spec fn lacking(roster: Set<Seq<char>>, attendance: Map<Seq<char>, Answer>) -> bool {
    exists|id: Seq<char>| missing(roster, attendance).contains(id)
}

/// `attendance` with an unanswered entry added for each missing player.
/// Every entry that `attendance` already has is kept as it is.
pub open spec fn reconciled(roster: Set<Seq<char>>, attendance: Map<Seq<char>, Answer>) -> Map<
    Seq<char>,
    Answer,
> {
    Map::new(
        |id: Seq<char>| attendance.dom().contains(id) || missing(roster, attendance).contains(id),
        |id: Seq<char>|
            if attendance.dom().contains(id) {
                attendance[id]
            } else {
                Answer::Unanswered
            },
    )
}

/// Reconciling a second time changes nothing, and reports no change.
pub proof fn lemma_reconcile_idempotent(
    roster: Set<Seq<char>>,
    attendance: Map<Seq<char>, Answer>,
)
    ensures
        reconciled(roster, reconciled(roster, attendance)) == reconciled(roster, attendance),
        !lacking(roster, reconciled(roster, attendance)),
{
    let once = reconciled(roster, attendance);
    assert(reconciled(roster, once) =~= once);
}

/// After reconciling, every roster member without an entry has an
/// unanswered one, and no entry that was there has been altered or removed.
pub proof fn lemma_reconcile_extends(roster: Set<Seq<char>>, attendance: Map<Seq<char>, Answer>)
    ensures
        forall|id: Seq<char>|
            roster.contains(id) && !attendance.dom().contains(id) ==> #[trigger] reconciled(
                roster,
                attendance,
            ).dom().contains(id) && reconciled(roster, attendance)[id] == Answer::Unanswered,
        forall|id: Seq<char>| #[trigger]
            attendance.dom().contains(id) ==> reconciled(roster, attendance).dom().contains(id)
                && reconciled(roster, attendance)[id] == attendance[id],
        forall|id: Seq<char>| #[trigger]
            reconciled(roster, attendance).dom().contains(id) ==> attendance.dom().contains(id)
                || roster.contains(id),
{
}

/// Where every member of the roster has an entry, reconciling changes
/// nothing, and reports no change.
pub proof fn lemma_reconcile_complete(roster: Set<Seq<char>>, attendance: Map<Seq<char>, Answer>)
    requires
        roster.subset_of(attendance.dom()),
    ensures
        reconciled(roster, attendance) == attendance,
        !lacking(roster, attendance),
{
    assert(reconciled(roster, attendance) =~= attendance);
}

/// A player who leaves the roster calls for no change of the record, and
/// the entry of that player stays.
pub proof fn lemma_reconcile_after_leaving(
    roster: Set<Seq<char>>,
    attendance: Map<Seq<char>, Answer>,
    player: Seq<char>,
)
    ensures
        lacking(roster.remove(player), attendance) ==> lacking(roster, attendance),
        attendance.dom().contains(player) ==> reconciled(
            roster.remove(player),
            attendance,
        ).dom().contains(player) && reconciled(roster.remove(player), attendance)[player]
            == attendance[player],
{
    if lacking(roster.remove(player), attendance) {
        let id = choose|id: Seq<char>| missing(roster.remove(player), attendance).contains(id);
        assert(missing(roster, attendance).contains(id));
    }
}

/// Gives every member of `roster` an entry in `attendance`. A member who has
/// none gets an unanswered one; entries that exist stay as they are, also
/// those of players who have left the roster. The flag tells whether any
/// entry was added, that is, whether the record has to be stored again.
pub fn reconcile(roster: &Roster, attendance: Attendance) -> (r: (Attendance, bool))
    ensures
        r.0@ == reconciled(roster@.dom(), attendance@),
        r.1 == lacking(roster@.dom(), attendance@),
{
    let ghost members = roster@.dom();
    let ghost before = attendance@;
    let ghost list = roster.listing();
    let mut record = attendance;
    let mut changed = false;
    let n = roster.len();
    let mut i: usize = 0;
    while i < n
        invariant
            i <= n,
            n == list.len(),
            list == roster.listing(),
            members == roster@.dom(),
            forall|id: Seq<char>| #[trigger]
                record@.dom().contains(id) <==> before.dom().contains(id) || exists|j: int|
                    0 <= j < i && holds(list, j, id),
            forall|id: Seq<char>| #[trigger]
                record@.dom().contains(id) ==> record@[id] == if before.dom().contains(id) {
                    before[id]
                } else {
                    Answer::Unanswered
                },
            changed <==> exists|j: int|
                0 <= j < i && !before.dom().contains(#[trigger] list[j].0),
        decreases n - i,
    {
        let id = roster.key_at(i);
        let ghost old_record = record@;
        assert(holds(list, i as int, id@));
        if !record.contains(id.as_str()) {
            record.insert(id.clone(), Answer::Unanswered);
            changed = true;
            assert(!before.dom().contains(list[i as int].0));
        } else {
            proof {
                if !before.dom().contains(id@) {
                    let j = choose|j: int| 0 <= j < i && holds(list, j, id@);
                    assert(!before.dom().contains(list[j].0));
                }
            }
        }
        assert forall|id2: Seq<char>| #[trigger]
            record@.dom().contains(id2) <==> before.dom().contains(id2) || exists|j: int|
                0 <= j < i + 1 && holds(list, j, id2) by {
            if record@.dom().contains(id2) && !before.dom().contains(id2) {
                if old_record.dom().contains(id2) {
                    let j = choose|j: int| 0 <= j < i && holds(list, j, id2);
                    assert(0 <= j < i + 1 && holds(list, j, id2));
                } else {
                    assert(id2 == id@);
                    assert(0 <= i < i + 1 && holds(list, i as int, id2));
                }
            }
            if exists|j: int| 0 <= j < i + 1 && holds(list, j, id2) {
                let j = choose|j: int| 0 <= j < i + 1 && holds(list, j, id2);
                if j < i {
                    assert(0 <= j < i && holds(list, j, id2));
                } else {
                    assert(id2 == id@);
                }
            }
        }
        i = i + 1;
    }
    proof {
        assert forall|id: Seq<char>| members.contains(id) <==> exists|j: int|
            0 <= j < n && holds(list, j, id) by {
            if members.contains(id) {
                let j = choose|j: int| holds(list, j, id);
                assert(0 <= j < n && holds(list, j, id));
            }
            if exists|j: int| 0 <= j < n && holds(list, j, id) {
                let j = choose|j: int| 0 <= j < n && holds(list, j, id);
                assert(holds(list, j, id));
            }
        }
        assert(record@ =~= reconciled(members, before));
        if changed {
            let j = choose|j: int| 0 <= j < n && !before.dom().contains(#[trigger] list[j].0);
            assert(holds(list, j, list[j].0));
            assert(missing(members, before).contains(list[j].0));
        }
        if lacking(members, before) {
            let id = choose|id: Seq<char>| missing(members, before).contains(id);
            let j = choose|j: int| 0 <= j < n && holds(list, j, id);
            assert(!before.dom().contains(list[j].0));
        }
    }
    (record, changed)
}

} // verus!
