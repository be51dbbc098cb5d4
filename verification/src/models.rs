//! Domain types of the ledger and their mathematical views.

use vstd::prelude::*;

verus! {

/// A roster entry, identified by a store-assigned id.
pub struct Person {
    pub id: i32,
    pub first_name: String,
    pub last_name: String,
    pub nickname: String,
}

/// The mathematical value of a [`Person`].
pub ghost struct PersonV {
    pub id: int,
    pub first_name: Seq<char>,
    pub last_name: Seq<char>,
    pub nickname: Seq<char>,
}

impl View for Person {
    type V = PersonV;

    open spec fn view(&self) -> PersonV {
        PersonV {
            id: self.id as int,
            first_name: self.first_name@,
            last_name: self.last_name@,
            nickname: self.nickname@,
        }
    }
}

impl Clone for Person {
    fn clone(&self) -> (r: Self)
        ensures
            r@ == self@,
    {
        Person {
            id: self.id,
            first_name: self.first_name.clone(),
            last_name: self.last_name.clone(),
            nickname: self.nickname.clone(),
        }
    }
}

/// The name fields of a person about to enter the roster; the store assigns the id.
pub struct NewPerson {
    pub first_name: String,
    pub last_name: String,
    pub nickname: String,
}

/// A request to add a person to the roster.
pub struct AddPersonRequest {
    pub first_name: String,
    pub last_name: String,
    pub nickname: String,
}

/// A request to list attendance records, with optional filters.
pub struct ListAttendancesRequest {
    pub date: Option<String>,
    pub person_id: Option<i32>,
}

/// A request to mark a person present or absent on a date.
pub struct UpsertAttendanceRequest {
    pub present: bool,
}

/// A presence marker: the person with id `person_id` attended on `date`.
///
/// The date is carried as an opaque ISO `YYYY-MM-DD` string; the store does
/// not re-validate it.
pub struct Attendance {
    pub id: i32,
    pub person_id: i32,
    pub date: String,
}

/// The mathematical value of an [`Attendance`].
pub ghost struct AttendanceV {
    pub id: int,
    pub person_id: int,
    pub date: Seq<char>,
}

impl View for Attendance {
    type V = AttendanceV;

    open spec fn view(&self) -> AttendanceV {
        AttendanceV { id: self.id as int, person_id: self.person_id as int, date: self.date@ }
    }
}

impl Clone for Attendance {
    fn clone(&self) -> (r: Self)
        ensures
            r@ == self@,
    {
        Attendance { id: self.id, person_id: self.person_id, date: self.date.clone() }
    }
}

/// The fields of an attendance record about to be inserted.
pub struct NewAttendance {
    pub person_id: i32,
    pub date: String,
}

/// One entry of the derived attendance-history view: a person together with
/// the dates, within the trailing window, on which they attended.
pub struct AttendanceHistory {
    pub person: Person,
    pub attendances: Vec<String>,
}

/// The mathematical value of an [`AttendanceHistory`] entry.
pub ghost struct AttendanceHistoryV {
    pub person: PersonV,
    pub attendances: Seq<Seq<char>>,
}

/// The views of a sequence of date strings, in order.
pub open spec fn dates_view(s: Seq<String>) -> Seq<Seq<char>> {
    s.map_values(|d: String| d@)
}

impl View for AttendanceHistory {
    type V = AttendanceHistoryV;

    open spec fn view(&self) -> AttendanceHistoryV {
        AttendanceHistoryV { person: self.person@, attendances: dates_view(self.attendances@) }
    }
}

/// The views of a sequence of history entries, in order.
pub open spec fn histories_view(s: Seq<AttendanceHistory>) -> Seq<AttendanceHistoryV> {
    s.map_values(|h: AttendanceHistory| h@)
}

/// The views of a sequence of persons, in order.
pub open spec fn persons_view(s: Seq<Person>) -> Seq<PersonV> {
    s.map_values(|p: Person| p@)
}

/// The views of a sequence of attendance records, in order.
pub open spec fn attendances_view(s: Seq<Attendance>) -> Seq<AttendanceV> {
    s.map_values(|a: Attendance| a@)
}

/// An error of the store itself. The in-memory store fails only when the id
/// space is exhausted.
#[derive(Debug, Clone, Copy, PartialEq, Eq, Structural)]
pub enum StoreError {
    IdsExhausted,
}

impl StoreError {
    /// A human-readable description of the error.
    pub fn message(&self) -> (r: String)
        ensures
            r@ == "the store has no unused ids left"@,
    {
        String::from_str("the store has no unused ids left")
    }
}

} // verus!
