//! Laws of the store, stated over the spec-level transitions that the
//! operations' contracts use.

use vstd::prelude::*;
use crate::models::{PersonV, AttendanceV};
use crate::dates::parse_day_of;
use crate::store::{
    StoreV, att_matches, ledger_matching, ledger_without, dates_within, attendance_kept,
};

verus! {

/// Adding a person and then looking up the id the store assigned yields a
/// person with exactly the given names, under an id that no person held
/// before the addition.
pub proof fn lemma_add_person_then_get_person(
    s: StoreV,
    first_name: Seq<char>,
    last_name: Seq<char>,
    nickname: Seq<char>,
)
    requires
        s.wf(),
        s.next_person_id < i32::MAX,
    ensures
        s.with_person_added(first_name, last_name, nickname).has_person(s.next_person_id),
        forall|i: int|
            0 <= i < s.with_person_added(first_name, last_name, nickname).persons.len() && (
            #[trigger] s.with_person_added(first_name, last_name, nickname).persons[i]).id
                == s.next_person_id ==> s.with_person_added(
                first_name,
                last_name,
                nickname,
            ).persons[i] == (PersonV { id: s.next_person_id, first_name, last_name, nickname }),
        forall|i: int| 0 <= i < s.persons.len() ==> (#[trigger] s.persons[i]).id != s.next_person_id,
{
    let added = s.with_person_added(first_name, last_name, nickname);
    assert(added.persons[s.persons.len() as int].id == s.next_person_id);
}

/// Exactly one record for a (person, date) pair matches after presence is
/// recorded for it: whether the pair was new (the fresh record is the sole
/// match) or already present (the ledger is unchanged and still holds one).
pub proof fn lemma_upsert_then_list_attendances(s: StoreV, date: Seq<char>, person_id: int)
    requires
        s.wf(),
    ensures
        !s.has_attendance(person_id, date) ==> ledger_matching(
            s.with_attendance_marked(date, person_id).attendances,
            Some(date),
            Some(person_id),
        ) == seq![AttendanceV { id: s.next_attendance_id, person_id, date }],
        s.has_attendance(person_id, date) ==> ledger_matching(
            s.attendances,
            Some(date),
            Some(person_id),
        ).len() == 1,
        forall|k: int|
            0 <= k < ledger_matching(s.attendances, Some(date), Some(person_id)).len() ==> (
            #[trigger] ledger_matching(s.attendances, Some(date), Some(person_id))[k]).person_id
                == person_id && ledger_matching(s.attendances, Some(date), Some(person_id))[k].date
                == date,
{
    lemma_ledger_matching_count(s.attendances, date, person_id);
    lemma_ledger_matching_sound(s.attendances, date, person_id);
    if !s.has_attendance(person_id, date) {
        let fresh = AttendanceV { id: s.next_attendance_id, person_id, date };
        lemma_ledger_matching_push(s.attendances, fresh, date, person_id);
        assert(ledger_matching(s.attendances, Some(date), Some(person_id)) =~= Seq::<
            AttendanceV,
        >::empty());
        assert(ledger_matching(
            s.with_attendance_marked(date, person_id).attendances,
            Some(date),
            Some(person_id),
        ) =~= seq![fresh]);
    }
}

/// After presence for a (person, date) pair is withdrawn, no record for the
/// pair matches, whatever was recorded before; in particular recording the
/// pair and then withdrawing it leaves nothing for it.
pub proof fn lemma_mark_then_clear_lists_nothing(s: StoreV, date: Seq<char>, person_id: int)
    ensures
        ledger_matching(
            s.with_attendance_marked(date, person_id).with_attendance_cleared(
                date,
                person_id,
            ).attendances,
            Some(date),
            Some(person_id),
        ) == Seq::<AttendanceV>::empty(),
        ledger_matching(
            s.with_attendance_cleared(date, person_id).attendances,
            Some(date),
            Some(person_id),
        ) == Seq::<AttendanceV>::empty(),
{
    lemma_cleared_lists_nothing(
        s.with_attendance_marked(date, person_id).attendances,
        date,
        person_id,
    );
    lemma_cleared_lists_nothing(s.attendances, date, person_id);
}

/// A date string that does not parse as a calendar date appears in no
/// person's history, for any ledger and any window.
pub proof fn lemma_malformed_date_excluded(
    atts: Seq<AttendanceV>,
    bad: Seq<char>,
    person_id: int,
    window_start: int,
)
    requires
        parse_day_of(bad) is None,
    ensures
        !dates_within(atts, person_id, window_start).contains(bad),
{
    broadcast use vstd::seq_lib::group_filter_ensures;

    let kept = atts.filter(|a: AttendanceV| attendance_kept(a, person_id, window_start));
    let out = dates_within(atts, person_id, window_start);
    assert forall|k: int| 0 <= k < out.len() implies out[k] != bad by {
        assert(attendance_kept(kept[k], person_id, window_start));
        assert(out[k] == kept[k].date);
    }
}

/// Deleting a person never touches the ledger: records referencing the
/// deleted id survive as orphans, and the deletion is defined whatever the
/// ledger holds.
pub proof fn lemma_delete_person_orphan_tolerant(s: StoreV, id: int)
    ensures
        s.with_person_deleted(id).attendances == s.attendances,
        s.with_person_deleted(id).next_person_id == s.next_person_id,
        forall|i: int|
            0 <= i < s.with_person_deleted(id).persons.len() ==> (
            #[trigger] s.with_person_deleted(id).persons[i]).id != id,
{
    broadcast use vstd::seq_lib::group_filter_ensures;

}

/// No transition lowers the fresh-id counters, so an id the store assigns is
/// distinct from every id it assigned before.
pub proof fn lemma_assigned_ids_monotone(
    s: StoreV,
    id: int,
    first_name: Seq<char>,
    last_name: Seq<char>,
    nickname: Seq<char>,
    date: Seq<char>,
)
    ensures
        s.with_person_added(first_name, last_name, nickname).next_person_id > s.next_person_id,
        s.with_person_updated(id, first_name, last_name, nickname).next_person_id
            == s.next_person_id,
        s.with_person_deleted(id).next_person_id == s.next_person_id,
        s.with_attendance_marked(date, id).next_attendance_id > s.next_attendance_id,
        s.with_attendance_cleared(date, id).next_attendance_id == s.next_attendance_id,
{
}

/// How many records match a (person, date) filter pair: one if the ledger
/// holds the pair, none otherwise, provided the ledger never holds a pair
/// twice.
proof fn lemma_ledger_matching_count(atts: Seq<AttendanceV>, date: Seq<char>, person_id: int)
    requires
        forall|i: int, j: int|
            0 <= i < j < atts.len() ==> !(atts[i].person_id == atts[j].person_id && atts[i].date
                == atts[j].date),
    ensures
        ledger_matching(atts, Some(date), Some(person_id)).len() == (if exists|i: int|
            0 <= i < atts.len() && (#[trigger] atts[i]).person_id == person_id && atts[i].date
                == date {
            1int
        } else {
            0int
        }),
    decreases atts.len(),
{
    reveal(Seq::filter);
    if atts.len() > 0 {
        let prefix = atts.drop_last();
        let last = atts.last();
        lemma_ledger_matching_count(prefix, date, person_id);
        if att_matches(last, Some(date), Some(person_id)) {
            assert forall|i: int|
                0 <= i < prefix.len() implies !((#[trigger] prefix[i]).person_id == person_id
                && prefix[i].date == date) by {
                assert(!(atts[i].person_id == atts[atts.len() - 1].person_id && atts[i].date
                    == atts[atts.len() - 1].date));
            }
            assert(atts[atts.len() - 1].person_id == person_id && atts[atts.len() - 1].date
                == date);
        } else {
            assert forall|i: int|
                0 <= i < atts.len() && (#[trigger] atts[i]).person_id == person_id && atts[i].date
                    == date implies 0 <= i < prefix.len() && prefix[i].person_id == person_id
                && prefix[i].date == date by {
                assert(i != atts.len() - 1);
            }
        }
    }
}

/// Every record that a (person, date) filter pair lists carries exactly that
/// person id and date.
proof fn lemma_ledger_matching_sound(atts: Seq<AttendanceV>, date: Seq<char>, person_id: int)
    ensures
        forall|k: int|
            0 <= k < ledger_matching(atts, Some(date), Some(person_id)).len() ==> (
            #[trigger] ledger_matching(atts, Some(date), Some(person_id))[k]).person_id == person_id
                && ledger_matching(atts, Some(date), Some(person_id))[k].date == date,
{
    broadcast use vstd::seq_lib::group_filter_ensures;

    let out = ledger_matching(atts, Some(date), Some(person_id));
    assert forall|k: int| 0 <= k < out.len() implies (#[trigger] out[k]).person_id == person_id
        && out[k].date == date by {
        assert(att_matches(out[k], Some(date), Some(person_id)));
    }
}

/// Withdrawing a (person, date) pair leaves the ledger with no record that
/// a filter on that pair would list.
proof fn lemma_cleared_lists_nothing(atts: Seq<AttendanceV>, date: Seq<char>, person_id: int)
    ensures
        ledger_matching(ledger_without(atts, person_id, date), Some(date), Some(person_id))
            == Seq::<AttendanceV>::empty(),
    decreases atts.len(),
{
    reveal(Seq::filter);
    if atts.len() == 0 {
        assert(ledger_matching(ledger_without(atts, person_id, date), Some(date), Some(person_id))
            =~= Seq::<AttendanceV>::empty());
    } else {
        let prefix = atts.drop_last();
        let last = atts.last();
        lemma_cleared_lists_nothing(prefix, date, person_id);
        assert(prefix.push(last) =~= atts);
        lemma_ledger_without_push(prefix, last, person_id, date);
        if !(last.person_id == person_id && last.date == date) {
            lemma_ledger_matching_push(
                ledger_without(prefix, person_id, date),
                last,
                date,
                person_id,
            );
        }
    }
}

/// How clearing treats one more record at the end of the ledger.
proof fn lemma_ledger_without_push(s: Seq<AttendanceV>, x: AttendanceV, person_id: int, date: Seq<char>)
    ensures
        !(x.person_id == person_id && x.date == date) ==> ledger_without(s.push(x), person_id, date)
            == ledger_without(s, person_id, date).push(x),
        (x.person_id == person_id && x.date == date) ==> ledger_without(s.push(x), person_id, date)
            == ledger_without(s, person_id, date),
{
    reveal(Seq::filter);
    assert(s.push(x).drop_last() =~= s);
    assert(s.push(x).last() == x);
}

/// How the filters treat one more record at the end of the ledger.
proof fn lemma_ledger_matching_push(s: Seq<AttendanceV>, x: AttendanceV, date: Seq<char>, person_id: int)
    ensures
        att_matches(x, Some(date), Some(person_id)) ==> ledger_matching(
            s.push(x),
            Some(date),
            Some(person_id),
        ) == ledger_matching(s, Some(date), Some(person_id)).push(x),
        !att_matches(x, Some(date), Some(person_id)) ==> ledger_matching(
            s.push(x),
            Some(date),
            Some(person_id),
        ) == ledger_matching(s, Some(date), Some(person_id)),
{
    reveal(Seq::filter);
    assert(s.push(x).drop_last() =~= s);
    assert(s.push(x).last() == x);
}

} // verus!
