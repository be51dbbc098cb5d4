//! The attendance store: the roster of persons, the presence ledger, and
//! the derived attendance-history view.
//!
//! The store holds both collections in memory behind one handle, the shape
//! the relational rows have; ids are store-assigned, starting at 1. Every
//! operation's contract is stated over [`StoreV`], the store's mathematical
//! value.

use vstd::prelude::*;
use crate::models::{
    Person, PersonV, Attendance, AttendanceV, AttendanceHistory, AttendanceHistoryV, NewPerson,
    NewAttendance, StoreError, persons_view, attendances_view, dates_view, histories_view,
};
use crate::text::{
    lex_lt, str_cmp, lemma_lex_lt_irreflexive, lemma_lex_lt_asymmetric, lemma_lex_lt_connected,
    lemma_lex_lt_transitive,
};
use crate::dates::{parse_day_of, parse_date_days, today_days};

verus! {

/// Roster presentation order: ascending by (last name, first name, nickname),
/// each field compared lexicographically.
pub open spec fn person_le(a: PersonV, b: PersonV) -> bool {
    ||| lex_lt(a.last_name, b.last_name)
    ||| (a.last_name == b.last_name && lex_lt(a.first_name, b.first_name))
    ||| (a.last_name == b.last_name && a.first_name == b.first_name && (lex_lt(
        a.nickname,
        b.nickname,
    ) || a.nickname == b.nickname))
}

/// The sequence is ascending under [`person_le`].
pub open spec fn sorted_by_name(s: Seq<PersonV>) -> bool {
    forall|i: int, j: int| 0 <= i < j < s.len() ==> person_le(s[i], s[j])
}

/// Any two persons are ordered at least one way.
pub proof fn lemma_person_le_total(a: PersonV, b: PersonV)
    ensures
        person_le(a, b) || person_le(b, a),
{
    lemma_lex_lt_connected(a.last_name, b.last_name);
    if a.last_name == b.last_name {
        lemma_lex_lt_connected(a.first_name, b.first_name);
        if a.first_name == b.first_name {
            lemma_lex_lt_connected(a.nickname, b.nickname);
        }
    }
}

/// The presentation order is transitive.
pub proof fn lemma_person_le_transitive(a: PersonV, b: PersonV, c: PersonV)
    requires
        person_le(a, b),
        person_le(b, c),
    ensures
        person_le(a, c),
{
    if lex_lt(a.last_name, b.last_name) && lex_lt(b.last_name, c.last_name) {
        lemma_lex_lt_transitive(a.last_name, b.last_name, c.last_name);
    }
    if a.last_name == b.last_name && b.last_name == c.last_name {
        if lex_lt(a.first_name, b.first_name) && lex_lt(b.first_name, c.first_name) {
            lemma_lex_lt_transitive(a.first_name, b.first_name, c.first_name);
        }
        if a.first_name == b.first_name && b.first_name == c.first_name {
            if lex_lt(a.nickname, b.nickname) && lex_lt(b.nickname, c.nickname) {
                lemma_lex_lt_transitive(a.nickname, b.nickname, c.nickname);
            }
        }
    }
}

/// Decide [`person_le`] by comparing the three name fields in turn.
fn person_le_exec(a: &Person, b: &Person) -> (r: bool)
    ensures
        r == person_le(a@, b@),
{
    let cl = str_cmp(a.last_name.as_str(), b.last_name.as_str());
    if cl == -1 {
        true
    } else if cl == 1 {
        proof {
            lemma_lex_lt_irreflexive(a@.last_name);
            lemma_lex_lt_asymmetric(a@.last_name, b@.last_name);
        }
        false
    } else {
        let cf = str_cmp(a.first_name.as_str(), b.first_name.as_str());
        if cf == -1 {
            true
        } else if cf == 1 {
            proof {
                lemma_lex_lt_irreflexive(a@.first_name);
                lemma_lex_lt_asymmetric(a@.first_name, b@.first_name);
            }
            false
        } else {
            let cn = str_cmp(a.nickname.as_str(), b.nickname.as_str());
            proof {
                if cn == 1 {
                    lemma_lex_lt_irreflexive(a@.nickname);
                    lemma_lex_lt_asymmetric(a@.nickname, b@.nickname);
                }
            }
            cn <= 0
        }
    }
}

/// The store over persons and attendance records held in memory.
pub struct AttendanceStore {
    persons: Vec<Person>,
    attendances: Vec<Attendance>,
    next_person_id: i32,
    next_attendance_id: i32,
}

/// The mathematical value of an [`AttendanceStore`].
#[verifier::ext_equal]
pub ghost struct StoreV {
    pub persons: Seq<PersonV>,
    pub attendances: Seq<AttendanceV>,
    pub next_person_id: int,
    pub next_attendance_id: int,
}

impl View for AttendanceStore {
    type V = StoreV;

    closed spec fn view(&self) -> StoreV {
        StoreV {
            persons: persons_view(self.persons@),
            attendances: attendances_view(self.attendances@),
            next_person_id: self.next_person_id as int,
            next_attendance_id: self.next_attendance_id as int,
        }
    }
}

impl StoreV {
    /// Well-formedness: ids are assigned from 1 up and never reused while the
    /// holder remains; at most one attendance record per (person, date).
    pub open spec fn wf(self) -> bool {
        &&& 1 <= self.next_person_id <= i32::MAX
        &&& 1 <= self.next_attendance_id <= i32::MAX
        &&& forall|i: int|
            0 <= i < self.persons.len() ==> 1 <= (#[trigger] self.persons[i]).id
                < self.next_person_id
        &&& forall|i: int, j: int|
            0 <= i < j < self.persons.len() ==> self.persons[i].id != self.persons[j].id
        &&& forall|i: int|
            0 <= i < self.attendances.len() ==> 1 <= (#[trigger] self.attendances[i]).id
                < self.next_attendance_id
        &&& forall|i: int, j: int|
            0 <= i < j < self.attendances.len() ==> self.attendances[i].id
                != self.attendances[j].id
        &&& forall|i: int, j: int|
            0 <= i < j < self.attendances.len() ==> !(self.attendances[i].person_id
                == self.attendances[j].person_id && self.attendances[i].date
                == self.attendances[j].date)
    }

    /// Whether some person in the roster has this id.
    pub open spec fn has_person(self, id: int) -> bool {
        exists|i: int| 0 <= i < self.persons.len() && (#[trigger] self.persons[i]).id == id
    }

    /// The store after a person with these names enters the roster under the
    /// next fresh id.
    pub open spec fn with_person_added(
        self,
        first_name: Seq<char>,
        last_name: Seq<char>,
        nickname: Seq<char>,
    ) -> StoreV {
        StoreV {
            persons: self.persons.push(
                PersonV { id: self.next_person_id, first_name, last_name, nickname },
            ),
            next_person_id: self.next_person_id + 1,
            ..self
        }
    }

    /// The store after the person with this id, if any, has all three name
    /// fields overwritten.
    pub open spec fn with_person_updated(
        self,
        id: int,
        first_name: Seq<char>,
        last_name: Seq<char>,
        nickname: Seq<char>,
    ) -> StoreV {
        StoreV {
            persons: self.persons.map_values(
                |p: PersonV|
                    if p.id == id {
                        PersonV { id, first_name, last_name, nickname }
                    } else {
                        p
                    },
            ),
            ..self
        }
    }

    /// The store after the person with this id, if any, leaves the roster.
    /// Attendance records are untouched: references may be orphaned.
    pub open spec fn with_person_deleted(self, id: int) -> StoreV {
        StoreV { persons: roster_without(self.persons, id), ..self }
    }

    /// Whether the ledger holds a record for this person on this date.
    pub open spec fn has_attendance(self, person_id: int, date: Seq<char>) -> bool {
        exists|i: int|
            0 <= i < self.attendances.len() && (#[trigger] self.attendances[i]).person_id
                == person_id && self.attendances[i].date == date
    }

    /// The store after presence is recorded for (person, date) under the
    /// next fresh record id.
    pub open spec fn with_attendance_marked(self, date: Seq<char>, person_id: int) -> StoreV {
        StoreV {
            attendances: self.attendances.push(
                AttendanceV { id: self.next_attendance_id, person_id, date },
            ),
            next_attendance_id: self.next_attendance_id + 1,
            ..self
        }
    }

    /// The store after every record for (person, date) is removed.
    pub open spec fn with_attendance_cleared(self, date: Seq<char>, person_id: int) -> StoreV {
        StoreV { attendances: ledger_without(self.attendances, person_id, date), ..self }
    }
}

/// Whether a record passes the optional filters: when a date is given the
/// record's date must equal it, and likewise for the person id.
pub open spec fn att_matches(a: AttendanceV, date: Option<Seq<char>>, person_id: Option<
    int,
>) -> bool {
    &&& (date matches Some(d) ==> a.date == d)
    &&& (person_id matches Some(p) ==> a.person_id == p)
}

/// The records that pass the optional filters, in ledger order.
pub open spec fn ledger_matching(
    atts: Seq<AttendanceV>,
    date: Option<Seq<char>>,
    person_id: Option<int>,
) -> Seq<AttendanceV> {
    atts.filter(|a: AttendanceV| att_matches(a, date, person_id))
}

/// The ledger without the records for (person, date).
pub open spec fn ledger_without(atts: Seq<AttendanceV>, person_id: int, date: Seq<char>) -> Seq<
    AttendanceV,
> {
    atts.filter(|a: AttendanceV| !(a.person_id == person_id && a.date == date))
}

/// The date filter's value, as an optional character sequence.
pub open spec fn opt_date_view(o: Option<String>) -> Option<Seq<char>> {
    match o {
        Some(s) => Some(s@),
        None => None,
    }
}

/// The person filter's value, as an optional integer.
pub open spec fn opt_id_view(o: Option<i32>) -> Option<int> {
    match o {
        Some(i) => Some(i as int),
        None => None,
    }
}

/// How the filters treat one more record at the end of the ledger.
proof fn lemma_ledger_matching_push(
    s: Seq<AttendanceV>,
    x: AttendanceV,
    date: Option<Seq<char>>,
    person_id: Option<int>,
)
    ensures
        att_matches(x, date, person_id) ==> ledger_matching(s.push(x), date, person_id)
            == ledger_matching(s, date, person_id).push(x),
        !att_matches(x, date, person_id) ==> ledger_matching(s.push(x), date, person_id)
            == ledger_matching(s, date, person_id),
{
    reveal(Seq::filter);
    assert(s.push(x).drop_last() =~= s);
    assert(s.push(x).last() == x);
}

/// How clearing treats one more record at the end of the ledger.
proof fn lemma_ledger_without_push(s: Seq<AttendanceV>, x: AttendanceV, person_id: int, date: Seq<
    char,
>)
    ensures
        !(x.person_id == person_id && x.date == date) ==> ledger_without(s.push(x), person_id, date)
            == ledger_without(s, person_id, date).push(x),
        (x.person_id == person_id && x.date == date) ==> ledger_without(s.push(x), person_id, date)
            == ledger_without(s, person_id, date),
{
    reveal(Seq::filter);
    assert(s.push(x).drop_last() =~= s);
    assert(s.push(x).last() == x);
}

/// Clearing keeps record ids and (person, date) pairs distinct and ids in
/// range: each survivor is one of the original records, and no two survivors
/// are the same original.
proof fn lemma_ledger_without_wf(vs: Seq<AttendanceV>, person_id: int, date: Seq<char>)
    requires
        forall|i: int, j: int| 0 <= i < j < vs.len() ==> vs[i].id != vs[j].id,
        forall|i: int, j: int|
            0 <= i < j < vs.len() ==> !(vs[i].person_id == vs[j].person_id && vs[i].date
                == vs[j].date),
    ensures
        forall|i: int, j: int|
            0 <= i < j < ledger_without(vs, person_id, date).len() ==> ledger_without(
                vs,
                person_id,
                date,
            )[i].id != ledger_without(vs, person_id, date)[j].id,
        forall|i: int, j: int|
            0 <= i < j < ledger_without(vs, person_id, date).len() ==> !(ledger_without(
                vs,
                person_id,
                date,
            )[i].person_id == ledger_without(vs, person_id, date)[j].person_id && ledger_without(
                vs,
                person_id,
                date,
            )[i].date == ledger_without(vs, person_id, date)[j].date),
        forall|i: int|
            0 <= i < ledger_without(vs, person_id, date).len() ==> exists|k: int|
                0 <= k < vs.len() && vs[k] == #[trigger] ledger_without(vs, person_id, date)[i],
    decreases vs.len(),
{
    reveal(Seq::filter);
    let out = ledger_without(vs, person_id, date);
    if vs.len() > 0 {
        let prefix = vs.drop_last();
        lemma_ledger_without_wf(prefix, person_id, date);
        let pout = ledger_without(prefix, person_id, date);
        assert forall|i: int| 0 <= i < out.len() implies exists|k: int|
            0 <= k < vs.len() && vs[k] == #[trigger] out[i] by {
            if i < pout.len() {
                let k = choose|k: int| 0 <= k < prefix.len() && prefix[k] == pout[i];
                assert(vs[k] == out[i]);
            } else {
                assert(vs[vs.len() - 1] == out[i]);
            }
        }
        assert forall|i: int, j: int| 0 <= i < j < out.len() implies out[i].id != out[j].id && !(
        out[i].person_id == out[j].person_id && out[i].date == out[j].date) by {
            if j < pout.len() {
                assert(pout[i].id != pout[j].id);
            } else if !(vs.last().person_id == person_id && vs.last().date == date) {
                let k = choose|k: int| 0 <= k < prefix.len() && prefix[k] == pout[i];
                assert(vs[k].id != vs[vs.len() - 1].id);
                assert(!(vs[k].person_id == vs[vs.len() - 1].person_id && vs[k].date == vs[vs.len()
                    - 1].date));
            }
        }
    }
}

/// Whether a record contributes to this person's history for a window: it
/// is the person's, its date string parses as a calendar date, and the day
/// is not before the window's start.
pub open spec fn attendance_kept(a: AttendanceV, person_id: int, window_start: int) -> bool {
    &&& a.person_id == person_id
    &&& parse_day_of(a.date) is Some
    &&& parse_day_of(a.date).unwrap() as int >= window_start
}

/// The person's attendance dates within the window, in ledger order.
/// Records whose date does not parse contribute nothing.
pub open spec fn dates_within(atts: Seq<AttendanceV>, person_id: int, window_start: int) -> Seq<
    Seq<char>,
> {
    atts.filter(|a: AttendanceV| attendance_kept(a, person_id, window_start)).map_values(
        |a: AttendanceV| a.date,
    )
}

/// What the history view states: one entry per roster member in presentation
/// order, each carrying exactly the member's dates within the window.
pub open spec fn is_history_of(h: Seq<AttendanceHistoryV>, s: StoreV, window_start: int) -> bool {
    &&& sorted_by_name(history_entry_persons(h))
    &&& history_entry_persons(h).to_multiset() == s.persons.to_multiset()
    &&& forall|k: int|
        0 <= k < h.len() ==> (#[trigger] h[k]).attendances == dates_within(
            s.attendances,
            h[k].person.id,
            window_start,
        )
}

/// The persons carried by a sequence of history entries, in order.
pub open spec fn history_entry_persons(h: Seq<AttendanceHistoryV>) -> Seq<PersonV> {
    h.map_values(|e: AttendanceHistoryV| e.person)
}

/// How the window filter treats one more record at the end of the ledger.
proof fn lemma_dates_within_push(s: Seq<AttendanceV>, x: AttendanceV, person_id: int, window_start: int)
    ensures
        attendance_kept(x, person_id, window_start) ==> dates_within(s.push(x), person_id, window_start)
            == dates_within(s, person_id, window_start).push(x.date),
        !attendance_kept(x, person_id, window_start) ==> dates_within(s.push(x), person_id, window_start)
            == dates_within(s, person_id, window_start),
{
    reveal(Seq::filter);
    assert(s.push(x).drop_last() =~= s);
    assert(s.push(x).last() == x);
    let pred = |a: AttendanceV| attendance_kept(a, person_id, window_start);
    let f = |a: AttendanceV| a.date;
    if pred(x) {
        assert(s.push(x).filter(pred) == s.filter(pred).push(x));
        assert(s.filter(pred).push(x).map_values(f) =~= s.filter(pred).map_values(f).push(x.date));
    }
}

/// The dates within the window for one person, drawn from the ledger in
/// order.
fn collect_dates(atts: &Vec<Attendance>, person_id: i32, window_start: i32) -> (r: Vec<String>)
    ensures
        dates_view(r@) == dates_within(attendances_view(atts@), person_id as int, window_start as int),
{
    let ghost vs = attendances_view(atts@);
    let mut out: Vec<String> = Vec::new();
    let mut i: usize = 0;
    proof {
        assert(dates_view(out@) =~= dates_within(vs.take(0), person_id as int, window_start as int));
    }
    while i < atts.len()
        invariant
            vs == attendances_view(atts@),
            i <= vs.len(),
            dates_view(out@) == dates_within(vs.take(i as int), person_id as int, window_start as int),
        decreases vs.len() - i,
    {
        let ghost prefix = vs.take(i as int);
        proof {
            assert(vs.take(i + 1) =~= prefix.push(vs[i as int]));
            lemma_dates_within_push(prefix, vs[i as int], person_id as int, window_start as int);
        }
        if atts[i].person_id == person_id {
            match parse_date_days(atts[i].date.as_str()) {
                Some(day) => {
                    if day >= window_start {
                        let ghost before = out@;
                        out.push(atts[i].date.clone());
                        proof {
                            assert(dates_view(out@) =~= dates_view(before).push(vs[i as int].date));
                        }
                    }
                },
                None => {},
            }
        }
        i += 1;
    }
    proof {
        assert(vs.take(vs.len() as int) =~= vs);
    }
    out
}

/// Decide [`att_matches`] against the optional filters.
fn att_matches_exec(a: &Attendance, date: &Option<String>, person_id: &Option<i32>) -> (r: bool)
    ensures
        r == att_matches(a@, opt_date_view(*date), opt_id_view(*person_id)),
{
    let date_ok = match date {
        Some(d) => a.date == *d,
        None => true,
    };
    let pid_ok = match person_id {
        Some(p) => a.person_id == *p,
        None => true,
    };
    date_ok && pid_ok
}

/// Whether rows read back from persistent storage can populate a store:
/// every id at least 1 with room left for fresh ones, no id held twice
/// within a collection, and no (person, date) pair recorded twice.
pub open spec fn rows_admissible(persons: Seq<PersonV>, atts: Seq<AttendanceV>) -> bool {
    &&& forall|i: int| 0 <= i < persons.len() ==> 1 <= (#[trigger] persons[i]).id < i32::MAX
    &&& forall|i: int, j: int| 0 <= i < j < persons.len() ==> persons[i].id != persons[j].id
    &&& forall|i: int| 0 <= i < atts.len() ==> 1 <= (#[trigger] atts[i]).id < i32::MAX
    &&& forall|i: int, j: int| 0 <= i < j < atts.len() ==> atts[i].id != atts[j].id
    &&& forall|i: int, j: int|
        0 <= i < j < atts.len() ==> !(atts[i].person_id == atts[j].person_id && atts[i].date
            == atts[j].date)
}

/// The roster without the person of this id.
pub open spec fn roster_without(vs: Seq<PersonV>, id: int) -> Seq<PersonV> {
    vs.filter(|p: PersonV| p.id != id)
}

/// How deleting treats one more person at the end of the roster.
proof fn lemma_roster_without_push(s: Seq<PersonV>, x: PersonV, id: int)
    ensures
        x.id != id ==> roster_without(s.push(x), id) == roster_without(s, id).push(x),
        x.id == id ==> roster_without(s.push(x), id) == roster_without(s, id),
{
    reveal(Seq::filter);
    assert(s.push(x).drop_last() =~= s);
    assert(s.push(x).last() == x);
}

/// Map commutes with inserting a person: the views of a sequence with one
/// person inserted are the views with that person's view inserted.
proof fn lemma_persons_view_insert(s: Seq<Person>, i: int, p: Person)
    requires
        0 <= i <= s.len(),
    ensures
        persons_view(s.insert(i, p)) =~= persons_view(s).insert(i, p@),
{
    s.insert_ensures(i, p);
    persons_view(s).insert_ensures(i, p@);
}

/// Insert a person into a name-sorted roster, keeping it sorted.
fn sorted_insert(v: &mut Vec<Person>, p: Person)
    requires
        sorted_by_name(persons_view(old(v)@)),
    ensures
        sorted_by_name(persons_view(final(v)@)),
        persons_view(final(v)@).to_multiset() == persons_view(old(v)@).to_multiset().insert(p@),
{
    let mut idx: usize = 0;
    loop
        invariant
            idx <= v@.len(),
            sorted_by_name(persons_view(v@)),
            forall|j: int| 0 <= j < idx ==> person_le(persons_view(v@)[j], p@),
        ensures
            idx <= v@.len(),
            forall|j: int| 0 <= j < idx ==> person_le(persons_view(v@)[j], p@),
            idx < v@.len() ==> !person_le(persons_view(v@)[idx as int], p@),
        decreases v@.len() - idx,
    {
        if idx == v.len() {
            break ;
        }
        if !person_le_exec(&v[idx], &p) {
            break ;
        }
        idx += 1;
    }
    let ghost pre = v@;
    v.insert(idx, p);
    proof {
        lemma_persons_view_insert(pre, idx as int, p);
        let s = persons_view(pre);
        let t = persons_view(v@);
        assert(t =~= s.insert(idx as int, p@));
        s.insert_ensures(idx as int, p@);
        assert forall|i: int, j: int| 0 <= i < j < t.len() implies person_le(t[i], t[j]) by {
            if j < idx {
                assert(person_le(s[i], s[j]));
            } else if i > idx {
                assert(person_le(s[i - 1], s[j - 1]));
            } else if i < idx && j == idx {
                assert(person_le(s[i], p@));
            } else if i == idx {
                // p precedes everything it displaced
                lemma_person_le_total(s[idx as int], p@);
                if j - 1 > idx {
                    lemma_person_le_transitive(p@, s[idx as int], s[j - 1]);
                }
            } else {
                // i < idx < j: through the old order and, past idx, through p
                if idx < s.len() {
                    assert(person_le(s[i], s[j - 1]));
                } else {
                    assert(person_le(s[i], p@));
                }
            }
        }
        broadcast use vstd::seq_lib::to_multiset_insert;

    }
}

/// The roster in presentation order: a name-sorted rearrangement.
fn sorted_roster(v: &Vec<Person>) -> (r: Vec<Person>)
    ensures
        sorted_by_name(persons_view(r@)),
        persons_view(r@).to_multiset() == persons_view(v@).to_multiset(),
{
    let mut out: Vec<Person> = Vec::new();
    let mut i: usize = 0;
    proof {
        assert(persons_view(out@) =~= persons_view(v@.take(0)));
    }
    while i < v.len()
        invariant
            i <= v@.len(),
            sorted_by_name(persons_view(out@)),
            persons_view(out@).to_multiset() == persons_view(v@.take(i as int)).to_multiset(),
        decreases v@.len() - i,
    {
        let ghost before = persons_view(out@).to_multiset();
        sorted_insert(&mut out, v[i].clone());
        proof {
            broadcast use vstd::seq_lib::group_to_multiset_ensures;

            assert(v@.take(i + 1) =~= v@.take(i as int).push(v@[i as int]));
            assert(persons_view(v@.take(i + 1)) =~= persons_view(v@.take(i as int)).push(
                v@[i as int]@,
            ));
        }
        i += 1;
    }
    proof {
        assert(v@.take(v@.len() as int) =~= v@);
    }
    out
}

impl AttendanceStore {
    /// A fresh, empty store.
    pub fn new() -> (r: AttendanceStore)
        ensures
            r@.wf(),
            r@.persons == Seq::<PersonV>::empty(),
            r@.attendances == Seq::<AttendanceV>::empty(),
            r@.next_person_id == 1,
            r@.next_attendance_id == 1,
    {
        let r = AttendanceStore {
            persons: Vec::new(),
            attendances: Vec::new(),
            next_person_id: 1,
            next_attendance_id: 1,
        };
        proof {
            assert(r@.persons =~= Seq::<PersonV>::empty());
            assert(r@.attendances =~= Seq::<AttendanceV>::empty());
        }
        r
    }

    /// A store populated from rows read back from persistent storage.
    /// Accepts the rows exactly when they are admissible; the fresh-id
    /// counters start past the largest id present.
    pub fn from_rows(persons: Vec<Person>, attendances: Vec<Attendance>) -> (r: Option<
        AttendanceStore,
    >)
        ensures
            r is Some <==> rows_admissible(persons_view(persons@), attendances_view(attendances@)),
            r is Some ==> r.unwrap()@.wf(),
            r is Some ==> r.unwrap()@.persons == persons_view(persons@),
            r is Some ==> r.unwrap()@.attendances == attendances_view(attendances@),
    {
        let ghost pv = persons_view(persons@);
        let ghost av = attendances_view(attendances@);
        let mut next_person_id: i32 = 1;
        let mut i: usize = 0;
        while i < persons.len()
            invariant
                pv == persons_view(persons@),
                av == attendances_view(attendances@),
                i <= pv.len(),
                1 <= next_person_id <= i32::MAX,
                forall|k: int| 0 <= k < i ==> 1 <= (#[trigger] pv[k]).id < next_person_id,
                forall|k: int, l: int| 0 <= k < l < i ==> pv[k].id != pv[l].id,
            decreases pv.len() - i,
        {
            let id = persons[i].id;
            if id < 1 || id == i32::MAX {
                proof {
                    assert(!(1 <= pv[i as int].id < i32::MAX));
                }
                return None;
            }
            let mut j: usize = 0;
            while j < i
                invariant
                    pv == persons_view(persons@),
                    av == attendances_view(attendances@),
                    j <= i <= pv.len(),
                    i < pv.len(),
                    id == persons@[i as int].id,
                    1 <= id < i32::MAX,
                    1 <= next_person_id <= i32::MAX,
                    forall|k: int| 0 <= k < i ==> 1 <= (#[trigger] pv[k]).id < next_person_id,
                    forall|k: int, l: int| 0 <= k < l < i ==> pv[k].id != pv[l].id,
                    forall|k: int| 0 <= k < j ==> (#[trigger] pv[k]).id != id as int,
                decreases i - j,
            {
                if persons[j].id == id {
                    proof {
                        assert(pv[j as int].id == pv[i as int].id);
                    }
                    return None;
                }
                j += 1;
            }
            if id >= next_person_id {
                next_person_id = id + 1;
            }
            i += 1;
        }
        let mut next_attendance_id: i32 = 1;
        let mut a: usize = 0;
        while a < attendances.len()
            invariant
                pv == persons_view(persons@),
                av == attendances_view(attendances@),
                a <= av.len(),
                1 <= next_attendance_id <= i32::MAX,
                forall|k: int| 0 <= k < pv.len() ==> 1 <= (#[trigger] pv[k]).id < i32::MAX,
                forall|k: int, l: int| 0 <= k < l < pv.len() ==> pv[k].id != pv[l].id,
                forall|k: int| 0 <= k < a ==> 1 <= (#[trigger] av[k]).id < next_attendance_id,
                forall|k: int, l: int| 0 <= k < l < a ==> av[k].id != av[l].id,
                forall|k: int, l: int|
                    0 <= k < l < a ==> !(av[k].person_id == av[l].person_id && av[k].date
                        == av[l].date),
            decreases av.len() - a,
        {
            let id = attendances[a].id;
            if id < 1 || id == i32::MAX {
                proof {
                    assert(!(1 <= av[a as int].id < i32::MAX));
                }
                return None;
            }
            let mut j: usize = 0;
            while j < a
                invariant
                    pv == persons_view(persons@),
                    av == attendances_view(attendances@),
                    j <= a <= av.len(),
                    a < av.len(),
                    id == attendances@[a as int].id,
                    1 <= id < i32::MAX,
                    1 <= next_attendance_id <= i32::MAX,
                    forall|k: int| 0 <= k < pv.len() ==> 1 <= (#[trigger] pv[k]).id < i32::MAX,
                    forall|k: int, l: int| 0 <= k < l < pv.len() ==> pv[k].id != pv[l].id,
                    forall|k: int| 0 <= k < a ==> 1 <= (#[trigger] av[k]).id < next_attendance_id,
                    forall|k: int, l: int| 0 <= k < l < a ==> av[k].id != av[l].id,
                    forall|k: int, l: int|
                        0 <= k < l < a ==> !(av[k].person_id == av[l].person_id && av[k].date
                            == av[l].date),
                    forall|k: int| 0 <= k < j ==> (#[trigger] av[k]).id != id as int,
                    forall|k: int|
                        0 <= k < j ==> !((#[trigger] av[k]).person_id == av[a as int].person_id
                            && av[k].date == av[a as int].date),
                decreases a - j,
            {
                if attendances[j].id == id {
                    proof {
                        assert(av[j as int].id == av[a as int].id);
                    }
                    return None;
                }
                if attendances[j].person_id == attendances[a].person_id && str_cmp(
                    attendances[j].date.as_str(),
                    attendances[a].date.as_str(),
                ) == 0 {
                    proof {
                        assert(av[j as int].person_id == av[a as int].person_id && av[j as int].date
                            == av[a as int].date);
                    }
                    return None;
                }
                j += 1;
            }
            if id >= next_attendance_id {
                next_attendance_id = id + 1;
            }
            a += 1;
        }
        let store = AttendanceStore { persons, attendances, next_person_id, next_attendance_id };
        proof {
            assert(rows_admissible(pv, av));
            assert(store@.wf());
        }
        Some(store)
    }

    /// All persons, ordered by (last name, first name, nickname) ascending.
    /// Never an error; the empty roster yields the empty sequence.
    pub fn list_persons(&self) -> (r: Result<Vec<Person>, StoreError>)
        ensures
            r is Ok,
            sorted_by_name(persons_view(r.unwrap()@)),
            persons_view(r.unwrap()@).to_multiset() == self@.persons.to_multiset(),
    {
        Ok(sorted_roster(&self.persons))
    }

    /// Add a person with these names under a fresh id. Affects exactly one
    /// row; fails only when the id space is exhausted, leaving the store
    /// unchanged.
    pub fn add_person(&mut self, first_name: &str, last_name: &str, nickname: &str) -> (r: Result<
        usize,
        StoreError,
    >)
        requires
            old(self)@.wf(),
        ensures
            final(self)@.wf(),
            old(self)@.next_person_id < i32::MAX ==> r == Ok::<usize, StoreError>(1usize),
            old(self)@.next_person_id < i32::MAX ==> final(self)@ == old(self)@.with_person_added(
                first_name@,
                last_name@,
                nickname@,
            ),
            old(self)@.next_person_id == i32::MAX ==> r == Err::<usize, StoreError>(
                StoreError::IdsExhausted,
            ) && final(self)@ == old(self)@,
    {
        if self.next_person_id == i32::MAX {
            return Err(StoreError::IdsExhausted);
        }
        let new_person = NewPerson {
            first_name: first_name.to_owned(),
            last_name: last_name.to_owned(),
            nickname: nickname.to_owned(),
        };
        let person = Person {
            id: self.next_person_id,
            first_name: new_person.first_name,
            last_name: new_person.last_name,
            nickname: new_person.nickname,
        };
        self.persons.push(person);
        self.next_person_id = self.next_person_id + 1;
        proof {
            assert(self@ =~= old(self)@.with_person_added(first_name@, last_name@, nickname@));
        }
        Ok(1)
    }

    /// The person with this id, or `None` when absent; never an error.
    pub fn get_person(&self, id: i32) -> (r: Result<Option<Person>, StoreError>)
        ensures
            r is Ok,
            r.unwrap() is Some <==> self@.has_person(id as int),
            r.unwrap() is Some ==> exists|i: int|
                0 <= i < self@.persons.len() && (#[trigger] self@.persons[i]) == r.unwrap().unwrap()@
                    && self@.persons[i].id == id as int,
    {
        let mut i: usize = 0;
        while i < self.persons.len()
            invariant
                i <= self.persons@.len(),
                forall|j: int| 0 <= j < i ==> (#[trigger] self@.persons[j]).id != id as int,
            decreases self.persons@.len() - i,
        {
            if self.persons[i].id == id {
                let found = self.persons[i].clone();
                proof {
                    assert(self@.persons[i as int] == found@);
                }
                return Ok(Some(found));
            }
            i += 1;
        }
        Ok(None)
    }

    /// Overwrite all three name fields of the person with this id. Affects
    /// one row when the id is present, none when it is absent; never an
    /// error.
    pub fn update_person(
        &mut self,
        id: i32,
        first_name: &str,
        last_name: &str,
        nickname: &str,
    ) -> (r: Result<usize, StoreError>)
        requires
            old(self)@.wf(),
        ensures
            final(self)@.wf(),
            final(self)@ == old(self)@.with_person_updated(
                id as int,
                first_name@,
                last_name@,
                nickname@,
            ),
            r == Ok::<usize, StoreError>(
                if old(self)@.has_person(id as int) {
                    1usize
                } else {
                    0usize
                },
            ),
    {
        let ghost target = (PersonV {
            id: id as int,
            first_name: first_name@,
            last_name: last_name@,
            nickname: nickname@,
        });
        let ghost vs = self@.persons;
        let mut out: Vec<Person> = Vec::new();
        let mut found = false;
        let mut i: usize = 0;
        while i < self.persons.len()
            invariant
                target == (PersonV {
                    id: id as int,
                    first_name: first_name@,
                    last_name: last_name@,
                    nickname: nickname@,
                }),
                self@.persons == vs,
                old(self)@.wf(),
                vs == old(self)@.persons,
                i <= vs.len(),
                out@.len() == i,
                forall|j: int|
                    0 <= j < i ==> persons_view(out@)[j] == (if vs[j].id == id as int {
                        target
                    } else {
                        vs[j]
                    }),
                found <==> exists|j: int| 0 <= j < i && (#[trigger] vs[j]).id == id as int,
            decreases vs.len() - i,
        {
            let ghost before = out@;
            if self.persons[i].id == id {
                let replacement = Person {
                    id,
                    first_name: first_name.to_owned(),
                    last_name: last_name.to_owned(),
                    nickname: nickname.to_owned(),
                };
                out.push(replacement);
                found = true;
                proof {
                    assert(vs[i as int].id == id as int);
                    assert(persons_view(out@) =~= persons_view(before).push(target));
                }
            } else {
                out.push(self.persons[i].clone());
                proof {
                    assert(vs[i as int].id != id as int);
                    assert(persons_view(out@) =~= persons_view(before).push(vs[i as int]));
                }
            }
            i += 1;
        }
        self.persons = out;
        proof {
            assert(self@ =~= old(self)@.with_person_updated(
                id as int,
                first_name@,
                last_name@,
                nickname@,
            ));
        }
        if found {
            Ok(1)
        } else {
            Ok(0)
        }
    }

    /// Remove the person with this id from the roster. Affects one row when
    /// the id is present, none when it is absent; never an error, even when
    /// attendance records still reference the id.
    pub fn delete_person(&mut self, id: i32) -> (r: Result<usize, StoreError>)
        requires
            old(self)@.wf(),
        ensures
            final(self)@.wf(),
            final(self)@ == old(self)@.with_person_deleted(id as int),
            r == Ok::<usize, StoreError>(
                if old(self)@.has_person(id as int) {
                    1usize
                } else {
                    0usize
                },
            ),
    {
        let ghost vs = self@.persons;
        let mut out: Vec<Person> = Vec::new();
        let mut found = false;
        let mut i: usize = 0;
        proof {
            assert(persons_view(out@) =~= roster_without(vs.take(0), id as int));
        }
        while i < self.persons.len()
            invariant
                self@.persons == vs,
                old(self)@.wf(),
                vs == old(self)@.persons,
                i <= vs.len(),
                persons_view(out@) == roster_without(vs.take(i as int), id as int),
                found <==> exists|j: int| 0 <= j < i && (#[trigger] vs[j]).id == id as int,
            decreases vs.len() - i,
        {
            let ghost prefix = vs.take(i as int);
            proof {
                assert(vs.take(i + 1) =~= prefix.push(vs[i as int]));
                lemma_roster_without_push(prefix, vs[i as int], id as int);
            }
            if self.persons[i].id == id {
                found = true;
                proof {
                    assert(vs[i as int].id == id as int);
                }
            } else {
                let kept = self.persons[i].clone();
                let ghost before = out@;
                out.push(kept);
                proof {
                    assert(vs[i as int].id != id as int);
                    assert(persons_view(out@) =~= persons_view(before).push(vs[i as int]));
                }
            }
            i += 1;
        }
        self.persons = out;
        proof {
            assert(vs.take(vs.len() as int) =~= vs);
            lemma_roster_without_wf(vs, id as int);
            assert(self@ =~= old(self)@.with_person_deleted(id as int));
        }
        if found {
            Ok(1)
        } else {
            Ok(0)
        }
    }

    /// The records passing the given filters, in ledger order: both filters
    /// optional, conjoined when both present, everything when neither.
    /// Never an error.
    pub fn list_attendances(&self, date: Option<String>, person_id: Option<i32>) -> (r: Result<
        Vec<Attendance>,
        StoreError,
    >)
        ensures
            r is Ok,
            attendances_view(r.unwrap()@) == ledger_matching(
                self@.attendances,
                opt_date_view(date),
                opt_id_view(person_id),
            ),
    {
        let ghost vs = self@.attendances;
        let ghost d = opt_date_view(date);
        let ghost p = opt_id_view(person_id);
        let mut out: Vec<Attendance> = Vec::new();
        let mut i: usize = 0;
        proof {
            assert(attendances_view(out@) =~= ledger_matching(vs.take(0), d, p));
        }
        while i < self.attendances.len()
            invariant
                self@.attendances == vs,
                d == opt_date_view(date),
                p == opt_id_view(person_id),
                i <= vs.len(),
                attendances_view(out@) == ledger_matching(vs.take(i as int), d, p),
            decreases vs.len() - i,
        {
            let ghost prefix = vs.take(i as int);
            proof {
                assert(vs.take(i + 1) =~= prefix.push(vs[i as int]));
                lemma_ledger_matching_push(prefix, vs[i as int], d, p);
            }
            let keep = att_matches_exec(&self.attendances[i], &date, &person_id);
            if keep {
                let ghost before = out@;
                out.push(self.attendances[i].clone());
                proof {
                    assert(attendances_view(out@) =~= attendances_view(before).push(vs[i as int]));
                }
            }
            i += 1;
        }
        proof {
            assert(vs.take(vs.len() as int) =~= vs);
        }
        Ok(out)
    }

    /// Record presence or absence for (person, date).
    ///
    /// Marking present inserts one record under a fresh id when none exists
    /// for the pair, and otherwise leaves the ledger as it is; it fails only
    /// when the id space is exhausted. Marking absent removes every record
    /// for the pair. The result counts the rows affected.
    pub fn upsert_attendance(&mut self, date: &str, person_id: i32, present: bool) -> (r: Result<
        usize,
        StoreError,
    >)
        requires
            old(self)@.wf(),
        ensures
            final(self)@.wf(),
            present && !old(self)@.has_attendance(person_id as int, date@) && old(
                self,
            )@.next_attendance_id < i32::MAX ==> final(self)@ == old(self)@.with_attendance_marked(
                date@,
                person_id as int,
            ) && r == Ok::<usize, StoreError>(1usize),
            present && old(self)@.has_attendance(person_id as int, date@) ==> final(self)@ == old(
                self,
            )@ && r == Ok::<usize, StoreError>(0usize),
            present && !old(self)@.has_attendance(person_id as int, date@) && old(
                self,
            )@.next_attendance_id == i32::MAX ==> final(self)@ == old(self)@ && r == Err::<
                usize,
                StoreError,
            >(StoreError::IdsExhausted),
            !present ==> final(self)@ == old(self)@.with_attendance_cleared(
                date@,
                person_id as int,
            ) && r == Ok::<usize, StoreError>(
                if old(self)@.has_attendance(person_id as int, date@) {
                    1usize
                } else {
                    0usize
                },
            ),
    {
        let ghost vs = self@.attendances;
        if present {
            let mut i: usize = 0;
            while i < self.attendances.len()
                invariant
                    present,
                    self@ == old(self)@,
                    old(self)@.wf(),
                    self@.attendances == vs,
                    vs == old(self)@.attendances,
                    i <= vs.len(),
                    forall|j: int|
                        0 <= j < i ==> !((#[trigger] vs[j]).person_id == person_id as int && vs[j].date
                            == date@),
                decreases vs.len() - i,
            {
                if self.attendances[i].person_id == person_id && str_cmp(
                    self.attendances[i].date.as_str(),
                    date,
                ) == 0 {
                    proof {
                        assert(vs[i as int].person_id == person_id as int && vs[i as int].date
                            == date@);
                    }
                    return Ok(0);
                }
                i += 1;
            }
            if self.next_attendance_id == i32::MAX {
                return Err(StoreError::IdsExhausted);
            }
            let new_attendance = NewAttendance { person_id, date: date.to_owned() };
            let record = Attendance {
                id: self.next_attendance_id,
                person_id: new_attendance.person_id,
                date: new_attendance.date,
            };
            self.attendances.push(record);
            self.next_attendance_id = self.next_attendance_id + 1;
            proof {
                assert(self@ =~= old(self)@.with_attendance_marked(date@, person_id as int));
            }
            Ok(1)
        } else {
            let mut out: Vec<Attendance> = Vec::new();
            let mut found = false;
            let mut i: usize = 0;
            proof {
                assert(attendances_view(out@) =~= ledger_without(
                    vs.take(0),
                    person_id as int,
                    date@,
                ));
            }
            while i < self.attendances.len()
                invariant
                    self@.attendances == vs,
                    old(self)@.wf(),
                    vs == old(self)@.attendances,
                    i <= vs.len(),
                    attendances_view(out@) == ledger_without(
                        vs.take(i as int),
                        person_id as int,
                        date@,
                    ),
                    found <==> exists|j: int|
                        0 <= j < i && (#[trigger] vs[j]).person_id == person_id as int && vs[j].date
                            == date@,
                decreases vs.len() - i,
            {
                let ghost prefix = vs.take(i as int);
                proof {
                    assert(vs.take(i + 1) =~= prefix.push(vs[i as int]));
                    lemma_ledger_without_push(prefix, vs[i as int], person_id as int, date@);
                }
                if self.attendances[i].person_id == person_id && str_cmp(
                    self.attendances[i].date.as_str(),
                    date,
                ) == 0 {
                    found = true;
                } else {
                    let ghost before = out@;
                    out.push(self.attendances[i].clone());
                    proof {
                        assert(attendances_view(out@) =~= attendances_view(before).push(
                            vs[i as int],
                        ));
                    }
                }
                i += 1;
            }
            self.attendances = out;
            proof {
                assert(vs.take(vs.len() as int) =~= vs);
                lemma_ledger_without_wf(vs, person_id as int, date@);
                assert(self@ =~= old(self)@.with_attendance_cleared(date@, person_id as int));
            }
            if found {
                Ok(1)
            } else {
                Ok(0)
            }
        }
    }

    /// The attendance history for an explicitly given window start: one
    /// entry per roster member, in presentation order, carrying exactly the
    /// member's parsable attendance dates on or after `window_start`.
    pub fn history_with_window(&self, window_start: i32) -> (r: Vec<AttendanceHistory>)
        ensures
            is_history_of(histories_view(r@), self@, window_start as int),
    {
        let persons = sorted_roster(&self.persons);
        let mut out: Vec<AttendanceHistory> = Vec::new();
        let mut i: usize = 0;
        while i < persons.len()
            invariant
                sorted_by_name(persons_view(persons@)),
                persons_view(persons@).to_multiset() == self@.persons.to_multiset(),
                i <= persons@.len(),
                out@.len() == i,
                forall|k: int|
                    0 <= k < i ==> (#[trigger] histories_view(out@)[k]).person == persons_view(
                        persons@,
                    )[k],
                forall|k: int|
                    0 <= k < i ==> (#[trigger] histories_view(out@)[k]).attendances == dates_within(
                        self@.attendances,
                        persons_view(persons@)[k].id,
                        window_start as int,
                    ),
            decreases persons@.len() - i,
        {
            let dates = collect_dates(&self.attendances, persons[i].id, window_start);
            let entry = AttendanceHistory { person: persons[i].clone(), attendances: dates };
            let ghost before = out@;
            out.push(entry);
            proof {
                assert(histories_view(out@) =~= histories_view(before).push(
                    histories_view(out@)[i as int],
                ));
            }
            i += 1;
        }
        proof {
            assert(history_entry_persons(histories_view(out@)) =~= persons_view(persons@));
        }
        out
    }

    /// The attendance history over the trailing 365-day window ending at the
    /// current UTC day. Never an error; what the clock read is not pinned,
    /// so the result is stated for some such window.
    pub fn list_persons_with_history(&self) -> (r: Result<Vec<AttendanceHistory>, StoreError>)
        ensures
            r is Ok,
            exists|window_start: int|
                -100_000_365 < window_start < 100_000_000 && #[trigger] is_history_of(
                    histories_view(r.unwrap()@),
                    self@,
                    window_start,
                ),
    {
        let today = today_days();
        let window_start = today - 365;
        let h = self.history_with_window(window_start);
        let r: Result<Vec<AttendanceHistory>, StoreError> = Ok(h);
        proof {
            assert(is_history_of(histories_view(r.unwrap()@), self@, today as int - 365));
            assert(exists|window_start: int|
                -100_000_365 < window_start < 100_000_000 && #[trigger] is_history_of(
                    histories_view(r.unwrap()@),
                    self@,
                    window_start,
                ));
        }
        r
    }
}

/// Deleting keeps ids distinct and in range: each survivor is one of the
/// original persons, and no two survivors are the same original.
proof fn lemma_roster_without_wf(vs: Seq<PersonV>, id: int)
    requires
        forall|i: int, j: int| 0 <= i < j < vs.len() ==> vs[i].id != vs[j].id,
    ensures
        forall|i: int, j: int|
            0 <= i < j < roster_without(vs, id).len() ==> roster_without(vs, id)[i].id
                != roster_without(vs, id)[j].id,
        forall|i: int|
            0 <= i < roster_without(vs, id).len() ==> exists|k: int|
                0 <= k < vs.len() && vs[k] == #[trigger] roster_without(vs, id)[i],
    decreases vs.len(),
{
    reveal(Seq::filter);
    if vs.len() > 0 {
        let prefix = vs.drop_last();
        lemma_roster_without_wf(prefix, id);
        assert(roster_without(prefix, id) == prefix.filter(|p: PersonV| p.id != id));
        assert forall|i: int|
            0 <= i < roster_without(vs, id).len() implies exists|k: int|
            0 <= k < vs.len() && vs[k] == #[trigger] roster_without(vs, id)[i] by {
            if i < roster_without(prefix, id).len() {
                let k = choose|k: int|
                    0 <= k < prefix.len() && prefix[k] == roster_without(prefix, id)[i];
                assert(vs[k] == roster_without(vs, id)[i]);
            } else {
                assert(vs[vs.len() - 1] == roster_without(vs, id)[i]);
            }
        }
        assert forall|i: int, j: int|
            0 <= i < j < roster_without(vs, id).len() implies roster_without(vs, id)[i].id
            != roster_without(vs, id)[j].id by {
            if j < roster_without(prefix, id).len() {
            } else if vs.last().id != id {
                let k = choose|k: int|
                    0 <= k < prefix.len() && prefix[k] == roster_without(prefix, id)[i];
                assert(vs[k].id != vs[vs.len() - 1].id);
            }
        }
    }
}

} // verus!
