//! The relational store, modelled in memory: slots, bookings, waiting-list
//! entries and rooms, with the uniqueness constraints the domain relies on
//! stated as one well-formedness invariant.

use vstd::prelude::*;

use crate::model::date_type::{spec_date_type_rank, DateType, Voice};
use crate::model::Room;
use crate::util::{lemma_lex_lt_asym, lemma_lex_lt_total, lex_lt, str_eq, str_lt};

verus! {

/// A persisted slot: a bookable time interval at a room for a date type.
pub struct StoredDate {
    pub id: u64,
    pub from_date: u64,
    pub to_date: u64,
    pub room_id: u64,
    pub room_number: String,
    pub date_type: DateType,
}

/// An occupancy of exactly one slot.
pub struct BookingRecord {
    pub date_id: u64,
    pub email: String,
    pub person_name: String,
    pub notes: String,
    pub voice: Voice,
    pub lang: String,
    pub token: u64,
}

/// A standing request to be notified of new openings of a date type.
pub struct WaitingListEntry {
    pub date_type: DateType,
    pub email: String,
    pub lang: String,
    pub token: u64,
    pub entered: u64,
}

/// The listing order of slots: start time, then date type, then room
/// number, with the unique id as the last tie break.
pub open spec fn date_lt(a: StoredDate, b: StoredDate) -> bool {
    if a.from_date != b.from_date {
        a.from_date < b.from_date
    } else if spec_date_type_rank(a.date_type) != spec_date_type_rank(b.date_type) {
        spec_date_type_rank(a.date_type) < spec_date_type_rank(b.date_type)
    } else if a.room_number@ != b.room_number@ {
        lex_lt(a.room_number@, b.room_number@)
    } else {
        a.id < b.id
    }
}

/// Slots with different ids are always ordered one way by `date_lt`.
pub proof fn lemma_date_lt_total(a: StoredDate, b: StoredDate)
    requires
        a.id != b.id,
    ensures
        date_lt(a, b) || date_lt(b, a),
        !(date_lt(a, b) && date_lt(b, a)),
{
    lemma_lex_lt_total(a.room_number@, b.room_number@);
    lemma_lex_lt_asym(a.room_number@, b.room_number@);
}

/// `date_lt` is transitive.
pub proof fn lemma_date_lt_trans(a: StoredDate, b: StoredDate, c: StoredDate)
    requires
        date_lt(a, b),
        date_lt(b, c),
    ensures
        date_lt(a, c),
{
    if lex_lt(a.room_number@, b.room_number@) && lex_lt(b.room_number@, c.room_number@) {
        crate::util::lemma_lex_lt_trans(a.room_number@, b.room_number@, c.room_number@);
    }
    lemma_lex_lt_asym(a.room_number@, b.room_number@);
    lemma_lex_lt_asym(b.room_number@, c.room_number@);
}

/// The slots stand in listing order.
pub open spec fn dates_sorted(s: Seq<StoredDate>) -> bool {
    forall|i: int, j: int| #![trigger s[i], s[j]] 0 <= i < j < s.len() ==> date_lt(s[i], s[j])
}

/// Some booking occupies the slot `date_id`.
pub open spec fn has_booking_for(s: Seq<BookingRecord>, date_id: u64) -> bool {
    exists|i: int| 0 <= i < s.len() && (#[trigger] s[i]).date_id == date_id
}

/// No stored booking or waiting-list entry carries the token. Tokens are
/// drawn outside the store (spec: unguessable, never reused); the store
/// demands only that a handed-in token is free and keeps all tokens
/// pairwise distinct.
pub open spec fn spec_token_unused(db: Database, t: u64) -> bool {
    &&& forall|i: int| 0 <= i < db.bookings@.len() ==> (#[trigger] db.bookings@[i]).token != t
    &&& forall|i: int|
        0 <= i < db.waiting_list@.len() ==> (#[trigger] db.waiting_list@[i]).token != t
}

/// The first slot with the given id, if any.
pub open spec fn spec_find_date(s: Seq<StoredDate>, id: u64) -> Option<StoredDate>
    decreases s.len(),
{
    if s.len() == 0 {
        None
    } else if s[0].id == id {
        Some(s[0])
    } else {
        spec_find_date(s.skip(1), id)
    }
}

/// The first waiting-list entry with the given token, if any.
pub open spec fn spec_find_waiting_by_token(
    s: Seq<WaitingListEntry>,
    token: u64,
) -> Option<WaitingListEntry>
    decreases s.len(),
{
    if s.len() == 0 {
        None
    } else if s[0].token == token {
        Some(s[0])
    } else {
        spec_find_waiting_by_token(s.skip(1), token)
    }
}

/// The first waiting-list entry of this date type and address, if any.
pub open spec fn spec_find_waiting_by_pair(
    s: Seq<WaitingListEntry>,
    date_type: DateType,
    email: Seq<char>,
) -> Option<WaitingListEntry>
    decreases s.len(),
{
    if s.len() == 0 {
        None
    } else if s[0].date_type == date_type && s[0].email@ == email {
        Some(s[0])
    } else {
        spec_find_waiting_by_pair(s.skip(1), date_type, email)
    }
}

/// The first booking with the given token, if any.
pub open spec fn spec_find_booking_by_token(
    s: Seq<BookingRecord>,
    token: u64,
) -> Option<BookingRecord>
    decreases s.len(),
{
    if s.len() == 0 {
        None
    } else if s[0].token == token {
        Some(s[0])
    } else {
        spec_find_booking_by_token(s.skip(1), token)
    }
}

/// The relational store: the sole source of truth of the application.
pub struct Database {
    pub rooms: Vec<Room>,
    pub dates: Vec<StoredDate>,
    pub bookings: Vec<BookingRecord>,
    pub waiting_list: Vec<WaitingListEntry>,
    pub announcements: Vec<crate::admin::Announcement>,
    pub next_room_id: u64,
    pub next_date_id: u64,
}

impl Database {
    /// The store's invariants: slots sorted with unique, bounded ids and
    /// non-empty intervals; at most one booking per slot; unique booking
    /// and waiting-list tokens; at most one waiting-list entry per address
    /// and date type; unique room ids.
    pub open spec fn wf(self) -> bool {
        &&& dates_sorted(self.dates@)
        &&& forall|i: int, j: int|
            #![trigger self.dates@[i], self.dates@[j]]
            0 <= i < j < self.dates@.len() ==> self.dates@[i].id != self.dates@[j].id
        &&& forall|i: int|
            0 <= i < self.dates@.len() ==> (#[trigger] self.dates@[i]).id < self.next_date_id
        &&& forall|i: int|
            0 <= i < self.dates@.len() ==> (#[trigger] self.dates@[i]).from_date
                < self.dates@[i].to_date
        &&& forall|i: int, j: int|
            #![trigger self.bookings@[i], self.bookings@[j]]
            0 <= i < j < self.bookings@.len() ==> self.bookings@[i].date_id
                != self.bookings@[j].date_id && self.bookings@[i].token != self.bookings@[j].token
        &&& forall|i: int|
            0 <= i < self.bookings@.len() ==> spec_find_date(
                self.dates@,
                (#[trigger] self.bookings@[i]).date_id,
            ) is Some
        &&& forall|i: int, j: int|
            #![trigger self.waiting_list@[i], self.waiting_list@[j]]
            0 <= i < j < self.waiting_list@.len() ==> !(self.waiting_list@[i].date_type
                == self.waiting_list@[j].date_type && self.waiting_list@[i].email@
                == self.waiting_list@[j].email@) && self.waiting_list@[i].token
                != self.waiting_list@[j].token
        &&& forall|i: int, j: int|
            #![trigger self.rooms@[i], self.rooms@[j]]
            0 <= i < j < self.rooms@.len() ==> self.rooms@[i].id != self.rooms@[j].id
        &&& forall|i: int|
            0 <= i < self.rooms@.len() ==> (#[trigger] self.rooms@[i]).id < self.next_room_id
    }

    /// An empty store.
    pub fn new() -> (db: Database)
        ensures
            db.wf(),
            db.rooms@.len() == 0,
            db.dates@.len() == 0,
            db.bookings@.len() == 0,
            db.waiting_list@.len() == 0,
            db.announcements@.len() == 0,
    {
        Database {
            rooms: Vec::new(),
            dates: Vec::new(),
            bookings: Vec::new(),
            waiting_list: Vec::new(),
            announcements: Vec::new(),
            next_room_id: 0,
            next_date_id: 0,
        }
    }

    /// The index of the slot with this id, if it is persisted.
    #[verifier::loop_isolation(false)]
    pub fn date_index(&self, id: u64) -> (r: Option<usize>)
        ensures
            match r {
                Some(i) => i < self.dates@.len() && self.dates@[i as int].id == id
                    && spec_find_date(self.dates@, id) == Some(self.dates@[i as int]),
                None => spec_find_date(self.dates@, id) is None,
            },
    {
        let mut i: usize = 0;
        proof {
            assert(self.dates@.skip(0) =~= self.dates@);
        }
        while i < self.dates.len()
            invariant
                i <= self.dates@.len(),
                spec_find_date(self.dates@, id) == spec_find_date(
                    self.dates@.skip(i as int),
                    id,
                ),
            decreases self.dates@.len() - i,
        {
            proof {
                assert(self.dates@.skip(i as int)[0] == self.dates@[i as int]);
                assert(self.dates@.skip(i as int).skip(1) =~= self.dates@.skip(i + 1));
            }
            if self.dates[i].id == id {
                return Some(i);
            }
            i += 1;
        }
        None
    }

    /// The index of the booking that occupies this slot, if any.
    #[verifier::loop_isolation(false)]
    pub fn booking_index_for_date(&self, date_id: u64) -> (r: Option<usize>)
        ensures
            match r {
                Some(i) => i < self.bookings@.len() && self.bookings@[i as int].date_id == date_id,
                None => !has_booking_for(self.bookings@, date_id),
            },
    {
        let mut i: usize = 0;
        while i < self.bookings.len()
            invariant
                i <= self.bookings@.len(),
                forall|j: int| 0 <= j < i ==> (#[trigger] self.bookings@[j]).date_id != date_id,
            decreases self.bookings@.len() - i,
        {
            if self.bookings[i].date_id == date_id {
                return Some(i);
            }
            i += 1;
        }
        None
    }

    /// The index of the booking with this token, if any.
    #[verifier::loop_isolation(false)]
    pub fn booking_index_for_token(&self, token: u64) -> (r: Option<usize>)
        ensures
            match r {
                Some(i) => i < self.bookings@.len() && self.bookings@[i as int].token == token
                    && spec_find_booking_by_token(self.bookings@, token) == Some(
                    self.bookings@[i as int],
                ),
                None => spec_find_booking_by_token(self.bookings@, token) is None,
            },
    {
        let mut i: usize = 0;
        proof {
            assert(self.bookings@.skip(0) =~= self.bookings@);
        }
        while i < self.bookings.len()
            invariant
                i <= self.bookings@.len(),
                spec_find_booking_by_token(self.bookings@, token) == spec_find_booking_by_token(
                    self.bookings@.skip(i as int),
                    token,
                ),
            decreases self.bookings@.len() - i,
        {
            proof {
                assert(self.bookings@.skip(i as int)[0] == self.bookings@[i as int]);
                assert(self.bookings@.skip(i as int).skip(1) =~= self.bookings@.skip(i + 1));
            }
            if self.bookings[i].token == token {
                return Some(i);
            }
            i += 1;
        }
        None
    }

    /// The index of the waiting-list entry with this token, if any.
    #[verifier::loop_isolation(false)]
    pub fn waiting_index_for_token(&self, token: u64) -> (r: Option<usize>)
        ensures
            match r {
                Some(i) => i < self.waiting_list@.len() && self.waiting_list@[i as int].token
                    == token && spec_find_waiting_by_token(self.waiting_list@, token) == Some(
                    self.waiting_list@[i as int],
                ),
                None => spec_find_waiting_by_token(self.waiting_list@, token) is None,
            },
    {
        let mut i: usize = 0;
        proof {
            assert(self.waiting_list@.skip(0) =~= self.waiting_list@);
        }
        while i < self.waiting_list.len()
            invariant
                i <= self.waiting_list@.len(),
                spec_find_waiting_by_token(self.waiting_list@, token) == spec_find_waiting_by_token(
                    self.waiting_list@.skip(i as int),
                    token,
                ),
            decreases self.waiting_list@.len() - i,
        {
            proof {
                assert(self.waiting_list@.skip(i as int)[0] == self.waiting_list@[i as int]);
                assert(self.waiting_list@.skip(i as int).skip(1) =~= self.waiting_list@.skip(
                    i + 1,
                ));
            }
            if self.waiting_list[i].token == token {
                return Some(i);
            }
            i += 1;
        }
        None
    }

    /// The index of the waiting-list entry of this date type and address.
    #[verifier::loop_isolation(false)]
    pub fn waiting_index_for_pair(&self, date_type: DateType, email: &str) -> (r: Option<usize>)
        ensures
            match r {
                Some(i) => i < self.waiting_list@.len() && self.waiting_list@[i as int].date_type
                    == date_type && self.waiting_list@[i as int].email@ == email@
                    && spec_find_waiting_by_pair(self.waiting_list@, date_type, email@) == Some(
                    self.waiting_list@[i as int],
                ),
                None => spec_find_waiting_by_pair(self.waiting_list@, date_type, email@) is None,
            },
    {
        let mut i: usize = 0;
        proof {
            assert(self.waiting_list@.skip(0) =~= self.waiting_list@);
        }
        while i < self.waiting_list.len()
            invariant
                i <= self.waiting_list@.len(),
                spec_find_waiting_by_pair(self.waiting_list@, date_type, email@)
                    == spec_find_waiting_by_pair(
                    self.waiting_list@.skip(i as int),
                    date_type,
                    email@,
                ),
            decreases self.waiting_list@.len() - i,
        {
            proof {
                assert(self.waiting_list@.skip(i as int)[0] == self.waiting_list@[i as int]);
                assert(self.waiting_list@.skip(i as int).skip(1) =~= self.waiting_list@.skip(
                    i + 1,
                ));
            }
            let entry = &self.waiting_list[i];
            if entry.date_type == date_type && str_eq(entry.email.as_str(), email) {
                return Some(i);
            }
            i += 1;
        }
        None
    }
}

/// Some slot has this id.
pub open spec fn has_date_id(s: Seq<StoredDate>, id: u64) -> bool {
    exists|i: int| 0 <= i < s.len() && (#[trigger] s[i]).id == id
}

/// `spec_find_date` succeeds exactly on persisted ids.
pub proof fn lemma_find_date_is_has(s: Seq<StoredDate>, id: u64)
    ensures
        (spec_find_date(s, id) is Some) == has_date_id(s, id),
        match spec_find_date(s, id) {
            Some(d) => d.id == id && s.contains(d),
            None => true,
        },
    decreases s.len(),
{
    if s.len() > 0 {
        lemma_find_date_is_has(s.skip(1), id);
        assert(forall|i: int| 0 <= i < s.skip(1).len() ==> s.skip(1)[i] == s[i + 1]);
        if s[0].id != id {
            if has_date_id(s, id) {
                let i = choose|i: int| 0 <= i < s.len() && (#[trigger] s[i]).id == id;
                assert(s.skip(1)[i - 1] == s[i]);
            }
            match spec_find_date(s.skip(1), id) {
                Some(d) => {
                    let i = choose|i: int|
                        0 <= i < s.skip(1).len() && (#[trigger] s.skip(1)[i]) == d;
                    assert(s[i + 1] == d);
                },
                None => {},
            }
        } else {
            assert(s.contains(s[0]));
        }
    }
}

/// The slot list with `d` inserted at its listing position.
pub open spec fn spec_insert_date(s: Seq<StoredDate>, d: StoredDate) -> Seq<StoredDate>
    decreases s.len(),
{
    if s.len() == 0 {
        seq![d]
    } else if date_lt(d, s[0]) {
        seq![d] + s
    } else {
        seq![s[0]] + spec_insert_date(s.skip(1), d)
    }
}

/// Where the first position not before `d` is `idx`, inserting is splicing.
pub proof fn lemma_insert_date_at(s: Seq<StoredDate>, d: StoredDate, idx: int)
    requires
        0 <= idx <= s.len(),
        forall|i: int| 0 <= i < idx ==> !date_lt(d, #[trigger] s[i]),
        idx < s.len() ==> date_lt(d, s[idx]),
    ensures
        spec_insert_date(s, d) == s.take(idx) + seq![d] + s.skip(idx),
    decreases idx,
{
    if idx == 0 {
        if s.len() == 0 {
            assert(spec_insert_date(s, d) =~= s.take(0) + seq![d] + s.skip(0));
        } else {
            assert(spec_insert_date(s, d) =~= s.take(0) + seq![d] + s.skip(0));
        }
    } else {
        assert(!date_lt(d, s[0]));
        assert(forall|i: int| 0 <= i < s.skip(1).len() ==> s.skip(1)[i] == s[i + 1]);
        lemma_insert_date_at(s.skip(1), d, idx - 1);
        assert(s.skip(1).take(idx - 1) =~= s.take(idx).skip(1));
        assert(spec_insert_date(s, d) == seq![s[0]] + (s.skip(1).take(idx - 1) + seq![d] + s.skip(
            1,
        ).skip(idx - 1)));
        assert(s.skip(1).skip(idx - 1) =~= s.skip(idx));
        assert(seq![s[0]] + (s.take(idx).skip(1) + seq![d] + s.skip(idx)) =~= s.take(idx)
            + seq![d] + s.skip(idx));
    }
}

/// The slot list with the slot `id` taken out; without a match it is kept
/// as it is.
pub open spec fn spec_remove_date(s: Seq<StoredDate>, id: u64) -> Seq<StoredDate>
    decreases s.len(),
{
    if s.len() == 0 {
        s
    } else if s[0].id == id {
        s.skip(1)
    } else {
        seq![s[0]] + spec_remove_date(s.skip(1), id)
    }
}

/// Where the first slot with `id` stands at `idx`, removal is splicing.
pub proof fn lemma_remove_date_at(s: Seq<StoredDate>, id: u64, idx: int)
    requires
        0 <= idx < s.len(),
        s[idx].id == id,
        forall|i: int| 0 <= i < idx ==> (#[trigger] s[i]).id != id,
    ensures
        spec_remove_date(s, id) == s.remove(idx),
    decreases idx,
{
    if idx == 0 {
        assert(spec_remove_date(s, id) =~= s.remove(0));
    } else {
        assert(forall|i: int| 0 <= i < s.skip(1).len() ==> s.skip(1)[i] == s[i + 1]);
        lemma_remove_date_at(s.skip(1), id, idx - 1);
        assert(spec_remove_date(s, id) == seq![s[0]] + s.skip(1).remove(idx - 1));
        assert(seq![s[0]] + s.skip(1).remove(idx - 1) =~= s.remove(idx));
    }
}

/// Without a match, `spec_remove_date` keeps the list as it is.
pub proof fn lemma_remove_date_absent(s: Seq<StoredDate>, id: u64)
    requires
        forall|i: int| 0 <= i < s.len() ==> (#[trigger] s[i]).id != id,
    ensures
        spec_remove_date(s, id) == s,
    decreases s.len(),
{
    if s.len() > 0 {
        assert(forall|i: int| 0 <= i < s.skip(1).len() ==> s.skip(1)[i] == s[i + 1]);
        lemma_remove_date_absent(s.skip(1), id);
        assert(seq![s[0]] + s.skip(1) =~= s);
    }
}

/// The booking list with the occupant of slot `id` taken out.
pub open spec fn spec_remove_booking_for(s: Seq<BookingRecord>, id: u64) -> Seq<BookingRecord>
    decreases s.len(),
{
    if s.len() == 0 {
        s
    } else if s[0].date_id == id {
        s.skip(1)
    } else {
        seq![s[0]] + spec_remove_booking_for(s.skip(1), id)
    }
}

/// Where the first booking of slot `id` stands at `idx`, removal is
/// splicing.
pub proof fn lemma_remove_booking_for_at(s: Seq<BookingRecord>, id: u64, idx: int)
    requires
        0 <= idx < s.len(),
        s[idx].date_id == id,
        forall|i: int| 0 <= i < idx ==> (#[trigger] s[i]).date_id != id,
    ensures
        spec_remove_booking_for(s, id) == s.remove(idx),
    decreases idx,
{
    if idx == 0 {
        assert(spec_remove_booking_for(s, id) =~= s.remove(0));
    } else {
        assert(forall|i: int| 0 <= i < s.skip(1).len() ==> s.skip(1)[i] == s[i + 1]);
        lemma_remove_booking_for_at(s.skip(1), id, idx - 1);
        assert(spec_remove_booking_for(s, id) == seq![s[0]] + s.skip(1).remove(idx - 1));
        assert(seq![s[0]] + s.skip(1).remove(idx - 1) =~= s.remove(idx));
    }
}

/// Without an occupant, `spec_remove_booking_for` keeps the list as it is.
pub proof fn lemma_remove_booking_for_absent(s: Seq<BookingRecord>, id: u64)
    requires
        forall|i: int| 0 <= i < s.len() ==> (#[trigger] s[i]).date_id != id,
    ensures
        spec_remove_booking_for(s, id) == s,
    decreases s.len(),
{
    if s.len() > 0 {
        assert(forall|i: int| 0 <= i < s.skip(1).len() ==> s.skip(1)[i] == s[i + 1]);
        lemma_remove_booking_for_absent(s.skip(1), id);
        assert(seq![s[0]] + s.skip(1) =~= s);
    }
}

/// The booking list with the booking carrying `token` taken out.
pub open spec fn spec_remove_booking_by_token(s: Seq<BookingRecord>, token: u64) -> Seq<
    BookingRecord,
>
    decreases s.len(),
{
    if s.len() == 0 {
        s
    } else if s[0].token == token {
        s.skip(1)
    } else {
        seq![s[0]] + spec_remove_booking_by_token(s.skip(1), token)
    }
}

/// Where the first booking with `token` stands at `idx`, removal is
/// splicing.
pub proof fn lemma_remove_booking_by_token_at(s: Seq<BookingRecord>, token: u64, idx: int)
    requires
        0 <= idx < s.len(),
        s[idx].token == token,
        forall|i: int| 0 <= i < idx ==> (#[trigger] s[i]).token != token,
    ensures
        spec_remove_booking_by_token(s, token) == s.remove(idx),
    decreases idx,
{
    if idx == 0 {
        assert(spec_remove_booking_by_token(s, token) =~= s.remove(0));
    } else {
        assert(forall|i: int| 0 <= i < s.skip(1).len() ==> s.skip(1)[i] == s[i + 1]);
        lemma_remove_booking_by_token_at(s.skip(1), token, idx - 1);
        assert(seq![s[0]] + s.skip(1).remove(idx - 1) =~= s.remove(idx));
    }
}

/// The waiting list with the entry carrying `token` taken out.
pub open spec fn spec_remove_waiting_by_token(s: Seq<WaitingListEntry>, token: u64) -> Seq<
    WaitingListEntry,
>
    decreases s.len(),
{
    if s.len() == 0 {
        s
    } else if s[0].token == token {
        s.skip(1)
    } else {
        seq![s[0]] + spec_remove_waiting_by_token(s.skip(1), token)
    }
}

/// Where the first entry with `token` stands at `idx`, removal is splicing.
pub proof fn lemma_remove_waiting_by_token_at(s: Seq<WaitingListEntry>, token: u64, idx: int)
    requires
        0 <= idx < s.len(),
        s[idx].token == token,
        forall|i: int| 0 <= i < idx ==> (#[trigger] s[i]).token != token,
    ensures
        spec_remove_waiting_by_token(s, token) == s.remove(idx),
    decreases idx,
{
    if idx == 0 {
        assert(spec_remove_waiting_by_token(s, token) =~= s.remove(0));
    } else {
        assert(forall|i: int| 0 <= i < s.skip(1).len() ==> s.skip(1)[i] == s[i + 1]);
        lemma_remove_waiting_by_token_at(s.skip(1), token, idx - 1);
        assert(seq![s[0]] + s.skip(1).remove(idx - 1) =~= s.remove(idx));
    }
}

/// Without a match, `spec_remove_waiting_by_token` keeps the list as it is.
pub proof fn lemma_remove_waiting_by_token_absent(s: Seq<WaitingListEntry>, token: u64)
    requires
        forall|i: int| 0 <= i < s.len() ==> (#[trigger] s[i]).token != token,
    ensures
        spec_remove_waiting_by_token(s, token) == s,
    decreases s.len(),
{
    if s.len() > 0 {
        assert(forall|i: int| 0 <= i < s.skip(1).len() ==> s.skip(1)[i] == s[i + 1]);
        lemma_remove_waiting_by_token_absent(s.skip(1), token);
        assert(seq![s[0]] + s.skip(1) =~= s);
    }
}

/// The waiting list with the entry of this date type and address taken out.
pub open spec fn spec_remove_waiting_by_pair(
    s: Seq<WaitingListEntry>,
    date_type: DateType,
    email: Seq<char>,
) -> Seq<WaitingListEntry>
    decreases s.len(),
{
    if s.len() == 0 {
        s
    } else if s[0].date_type == date_type && s[0].email@ == email {
        s.skip(1)
    } else {
        seq![s[0]] + spec_remove_waiting_by_pair(s.skip(1), date_type, email)
    }
}

/// Where the first entry of the pair stands at `idx`, removal is splicing.
pub proof fn lemma_remove_waiting_by_pair_at(
    s: Seq<WaitingListEntry>,
    date_type: DateType,
    email: Seq<char>,
    idx: int,
)
    requires
        0 <= idx < s.len(),
        s[idx].date_type == date_type && s[idx].email@ == email,
        forall|i: int|
            0 <= i < idx ==> !((#[trigger] s[i]).date_type == date_type && s[i].email@ == email),
    ensures
        spec_remove_waiting_by_pair(s, date_type, email) == s.remove(idx),
    decreases idx,
{
    if idx == 0 {
        assert(spec_remove_waiting_by_pair(s, date_type, email) =~= s.remove(0));
    } else {
        assert(forall|i: int| 0 <= i < s.skip(1).len() ==> s.skip(1)[i] == s[i + 1]);
        lemma_remove_waiting_by_pair_at(s.skip(1), date_type, email, idx - 1);
        assert(seq![s[0]] + s.skip(1).remove(idx - 1) =~= s.remove(idx));
    }
}

/// How many waiting-list entries this date type and address have.
pub open spec fn spec_count_pair(
    s: Seq<WaitingListEntry>,
    date_type: DateType,
    email: Seq<char>,
) -> int
    decreases s.len(),
{
    if s.len() == 0 {
        0
    } else {
        (if s[0].date_type == date_type && s[0].email@ == email {
            1int
        } else {
            0int
        }) + spec_count_pair(s.skip(1), date_type, email)
    }
}

/// A successful pair search means at least one entry; a failed one, none.
pub proof fn lemma_find_pair_count(s: Seq<WaitingListEntry>, date_type: DateType, email: Seq<char>)
    ensures
        (spec_find_waiting_by_pair(s, date_type, email) is Some) ==> spec_count_pair(
            s,
            date_type,
            email,
        ) >= 1,
        (spec_find_waiting_by_pair(s, date_type, email) is None) ==> spec_count_pair(
            s,
            date_type,
            email,
        ) == 0,
    decreases s.len(),
{
    if s.len() > 0 {
        lemma_find_pair_count(s.skip(1), date_type, email);
    }
}

/// Under the uniqueness invariant the pair count never exceeds one.
pub proof fn lemma_unique_pair_count(s: Seq<WaitingListEntry>, date_type: DateType, email: Seq<char>)
    requires
        forall|i: int, j: int|
            #![trigger s[i], s[j]]
            0 <= i < j < s.len() ==> !(s[i].date_type == s[j].date_type && s[i].email@
                == s[j].email@),
    ensures
        spec_count_pair(s, date_type, email) <= 1,
    decreases s.len(),
{
    if s.len() > 0 {
        assert(forall|i: int| 0 <= i < s.skip(1).len() ==> s.skip(1)[i] == s[i + 1]);
        lemma_unique_pair_count(s.skip(1), date_type, email);
        if s[0].date_type == date_type && s[0].email@ == email {
            lemma_find_pair_count(s.skip(1), date_type, email);
            if spec_count_pair(s.skip(1), date_type, email) >= 1 {
                lemma_find_pair_witness(s.skip(1), date_type, email);
            }
        }
    }
}

/// A positive pair count yields a witness index.
pub proof fn lemma_find_pair_witness(
    s: Seq<WaitingListEntry>,
    date_type: DateType,
    email: Seq<char>,
)
    requires
        spec_count_pair(s, date_type, email) >= 1,
    ensures
        exists|i: int|
            0 <= i < s.len() && (#[trigger] s[i]).date_type == date_type && s[i].email@ == email,
    decreases s.len(),
{
    if s.len() > 0 {
        if s[0].date_type == date_type && s[0].email@ == email {
            assert(s[0].date_type == date_type && s[0].email@ == email);
        } else {
            lemma_find_pair_witness(s.skip(1), date_type, email);
            let i = choose|i: int|
                0 <= i < s.skip(1).len() && (#[trigger] s.skip(1)[i]).date_type == date_type
                    && s.skip(1)[i].email@ == email;
            assert(s[i + 1] == s.skip(1)[i]);
            assert(s[i + 1].date_type == date_type && s[i + 1].email@ == email);
        }
    }
}

/// A failed pair search means no entry matches.
pub proof fn lemma_find_pair_none(s: Seq<WaitingListEntry>, date_type: DateType, email: Seq<char>)
    requires
        spec_find_waiting_by_pair(s, date_type, email) is None,
    ensures
        forall|i: int|
            0 <= i < s.len() ==> !((#[trigger] s[i]).date_type == date_type && s[i].email@
                == email),
    decreases s.len(),
{
    if s.len() > 0 {
        lemma_find_pair_none(s.skip(1), date_type, email);
        assert forall|i: int|
            0 <= i < s.len() implies !((#[trigger] s[i]).date_type == date_type && s[i].email@
            == email) by {
            if i > 0 {
                assert(s.skip(1)[i - 1] == s[i]);
            }
        }
    }
}

/// Where the first matching entry stands at `idx`, the search returns it.
pub proof fn lemma_find_pair_first(
    s: Seq<WaitingListEntry>,
    date_type: DateType,
    email: Seq<char>,
    idx: int,
)
    requires
        0 <= idx < s.len(),
        s[idx].date_type == date_type && s[idx].email@ == email,
        forall|i: int|
            0 <= i < idx ==> !((#[trigger] s[i]).date_type == date_type && s[i].email@ == email),
    ensures
        spec_find_waiting_by_pair(s, date_type, email) == Some(s[idx]),
    decreases idx,
{
    if idx > 0 {
        assert(forall|i: int| 0 <= i < s.skip(1).len() ==> s.skip(1)[i] == s[i + 1]);
        lemma_find_pair_first(s.skip(1), date_type, email, idx - 1);
    }
}

/// No two bookings ever occupy the same slot: this is the store invariant,
/// stated on its own.
pub proof fn lemma_at_most_one_booking(db: Database)
    requires
        db.wf(),
    ensures
        forall|i: int, j: int|
            #![trigger db.bookings@[i], db.bookings@[j]]
            0 <= i < j < db.bookings@.len() ==> db.bookings@[i].date_id != db.bookings@[j].date_id,
{
}

/// The room list with the room `id` taken out; without a match it is kept
/// as it is.
pub open spec fn spec_remove_room(s: Seq<Room>, id: u64) -> Seq<Room>
    decreases s.len(),
{
    if s.len() == 0 {
        s
    } else if s[0].id == id {
        s.skip(1)
    } else {
        seq![s[0]] + spec_remove_room(s.skip(1), id)
    }
}

/// Where the first room with `id` stands at `idx`, removal is splicing.
pub proof fn lemma_remove_room_at(s: Seq<Room>, id: u64, idx: int)
    requires
        0 <= idx < s.len(),
        s[idx].id == id,
        forall|i: int| 0 <= i < idx ==> (#[trigger] s[i]).id != id,
    ensures
        spec_remove_room(s, id) == s.remove(idx),
    decreases idx,
{
    if idx == 0 {
        assert(spec_remove_room(s, id) =~= s.remove(0));
    } else {
        assert(forall|i: int| 0 <= i < s.skip(1).len() ==> s.skip(1)[i] == s[i + 1]);
        lemma_remove_room_at(s.skip(1), id, idx - 1);
        assert(seq![s[0]] + s.skip(1).remove(idx - 1) =~= s.remove(idx));
    }
}

/// Without a match, `spec_remove_room` keeps the list as it is.
pub proof fn lemma_remove_room_absent(s: Seq<Room>, id: u64)
    requires
        forall|i: int| 0 <= i < s.len() ==> (#[trigger] s[i]).id != id,
    ensures
        spec_remove_room(s, id) == s,
    decreases s.len(),
{
    if s.len() > 0 {
        assert(forall|i: int| 0 <= i < s.skip(1).len() ==> s.skip(1)[i] == s[i + 1]);
        lemma_remove_room_absent(s.skip(1), id);
        assert(seq![s[0]] + s.skip(1) =~= s);
    }
}

impl Database {
    /// Creates a room and hands back its id.
    pub fn add_room(&mut self, room_number: &str) -> (id: u64)
        requires
            old(self).wf(),
            old(self).next_room_id < u64::MAX,
        ensures
            final(self).wf(),
            id == old(self).next_room_id,
            final(self).next_room_id == old(self).next_room_id + 1,
            final(self).rooms@.len() == old(self).rooms@.len() + 1,
            final(self).rooms@.last().id == id,
            final(self).rooms@.last().room_number@ == room_number@,
            final(self).rooms@.take(old(self).rooms@.len() as int) == old(self).rooms@,
            final(self).dates == old(self).dates,
            final(self).bookings == old(self).bookings,
            final(self).waiting_list == old(self).waiting_list,
            final(self).announcements == old(self).announcements,
            final(self).next_date_id == old(self).next_date_id,
    {
        let id = self.next_room_id;
        self.rooms.push(Room { id, room_number: room_number.to_owned() });
        self.next_room_id = id + 1;
        proof {
            assert(self.rooms@.take(old(self).rooms@.len() as int) =~= old(self).rooms@);
        }
        id
    }

    /// Deletes the room with this id; a missing id is a silent no-op.
    #[verifier::loop_isolation(false)]
    pub fn remove_room(&mut self, id: u64) -> (removed: bool)
        requires
            old(self).wf(),
        ensures
            final(self).wf(),
            final(self).rooms@ == spec_remove_room(old(self).rooms@, id),
            forall|i: int|
                0 <= i < final(self).rooms@.len() ==> (#[trigger] final(self).rooms@[i]).id != id,
            final(self).dates == old(self).dates,
            final(self).bookings == old(self).bookings,
            final(self).waiting_list == old(self).waiting_list,
            final(self).announcements == old(self).announcements,
            final(self).next_room_id == old(self).next_room_id,
            final(self).next_date_id == old(self).next_date_id,
            removed ==> final(self).rooms@.len() + 1 == old(self).rooms@.len(),
            !removed ==> final(self).rooms == old(self).rooms,
    {
        let mut i: usize = 0;
        while i < self.rooms.len()
            invariant
                i <= self.rooms@.len(),
                forall|j: int| 0 <= j < i ==> (#[trigger] self.rooms@[j]).id != id,
                self == old(self),
            decreases self.rooms@.len() - i,
        {
            if self.rooms[i].id == id {
                self.rooms.remove(i);
                proof {
                    lemma_remove_room_at(old(self).rooms@, id, i as int);
                    old(self).rooms@.remove_ensures(i as int);
                    assert(forall|a: int|
                        0 <= a < i ==> #[trigger] self.rooms@[a] == old(self).rooms@[a]);
                    assert(forall|a: int|
                        i <= a < self.rooms@.len() ==> #[trigger] self.rooms@[a] == old(
                            self,
                        ).rooms@[a + 1]);
                    assert forall|a: int|
                        0 <= a < self.rooms@.len() implies (#[trigger] self.rooms@[a]).id
                        != id by {
                        if a >= i {
                            assert(self.rooms@[a] == old(self).rooms@[a + 1]);
                        }
                    }
                    assert forall|a: int, b: int|
                        #![trigger self.rooms@[a], self.rooms@[b]]
                        0 <= a < b < self.rooms@.len() implies self.rooms@[a].id
                        != self.rooms@[b].id by {
                        let a0 = if a < i { a } else { a + 1 };
                        let b0 = if b < i { b } else { b + 1 };
                        assert(self.rooms@[a] == old(self).rooms@[a0]);
                        assert(self.rooms@[b] == old(self).rooms@[b0]);
                    }
                }
                return true;
            }
            i += 1;
        }
        proof {
            lemma_remove_room_absent(self.rooms@, id);
        }
        false
    }

    /// Inserts a slot at its listing position. The caller hands in the slot
    /// under the next free id.
    #[verifier::loop_isolation(false)]
    pub fn insert_date(&mut self, d: StoredDate)
        requires
            old(self).wf(),
            d.id == old(self).next_date_id,
            old(self).next_date_id < u64::MAX,
            d.from_date < d.to_date,
        ensures
            final(self).wf(),
            final(self).dates@ == spec_insert_date(old(self).dates@, d),
            final(self).dates@.len() == old(self).dates@.len() + 1,
            forall|x: StoredDate|
                final(self).dates@.contains(x) <==> (old(self).dates@.contains(x) || x == d),
            final(self).next_date_id == old(self).next_date_id + 1,
            final(self).rooms == old(self).rooms,
            final(self).bookings == old(self).bookings,
            final(self).waiting_list == old(self).waiting_list,
            final(self).announcements == old(self).announcements,
            final(self).next_room_id == old(self).next_room_id,
    {
        let ghost s0 = self.dates@;
        let mut idx: usize = 0;
        while idx < self.dates.len() && !date_lt_exec(&d, &self.dates[idx])
            invariant
                idx <= self.dates@.len(),
                forall|i: int| 0 <= i < idx ==> !date_lt(d, #[trigger] self.dates@[i]),
                self.dates@ == s0,
            decreases self.dates@.len() - idx,
        {
            idx += 1;
        }
        proof {
            lemma_insert_date_at(s0, d, idx as int);
            assert forall|i: int| 0 <= i < idx implies date_lt(#[trigger] s0[i], d) by {
                assert(s0[i].id < d.id);
                lemma_date_lt_total(s0[i], d);
            }
        }
        self.dates.insert(idx, d);
        self.next_date_id = self.next_date_id + 1;
        proof {
            let s1 = self.dates@;
            assert(s1 =~= s0.take(idx as int) + seq![d] + s0.skip(idx as int));
            assert(forall|i: int| 0 <= i < idx ==> s1[i] == s0[i]);
            assert(s1[idx as int] == d);
            assert(forall|i: int| idx < i < s1.len() ==> s1[i] == s0[i - 1]);
            assert forall|j: int| idx < j < s1.len() implies date_lt(d, s1[j]) by {
                assert(s1[j] == s0[j - 1]);
                if j - 1 > idx {
                    lemma_date_lt_trans(d, s0[idx as int], s0[j - 1]);
                }
            }
            assert forall|i: int, j: int|
                #![trigger s1[i], s1[j]]
                0 <= i < j < s1.len() implies date_lt(s1[i], s1[j]) && s1[i].id != s1[j].id by {
                if j < idx {
                } else if i < idx && j == idx {
                    assert(date_lt(s0[i], d));
                } else if i == idx && j > idx {
                    assert(date_lt(d, s1[j]));
                } else if i < idx && j > idx {
                    assert(date_lt(d, s1[j]));
                    lemma_date_lt_trans(s0[i], d, s1[j]);
                } else {
                    assert(s1[i] == s0[i - 1] && s1[j] == s0[j - 1]);
                }
            }
            assert forall|x: StoredDate| s1.contains(x) implies (s0.contains(x) || x == d) by {
                let w = choose|w: int| 0 <= w < s1.len() && s1[w] == x;
                if w < idx {
                    assert(s0[w] == x);
                } else if w == idx {
                } else {
                    assert(s0[w - 1] == x);
                }
            }
            assert forall|x: StoredDate| s0.contains(x) || x == d implies s1.contains(x) by {
                if x == d {
                    assert(s1[idx as int] == x);
                } else {
                    let w = choose|w: int| 0 <= w < s0.len() && s0[w] == x;
                    if w < idx {
                        assert(s1[w] == x);
                    } else {
                        assert(s1[w + 1] == x);
                    }
                }
            }
            assert forall|i: int|
                0 <= i < self.bookings@.len() implies spec_find_date(
                s1,
                (#[trigger] self.bookings@[i]).date_id,
            ) is Some by {
                lemma_find_date_is_has(s0, self.bookings@[i].date_id);
                lemma_find_date_is_has(s1, self.bookings@[i].date_id);
                let w = choose|w: int| 0 <= w < s0.len() && (#[trigger] s0[w]).id
                    == self.bookings@[i].date_id;
                if w < idx {
                    assert(s1[w].id == self.bookings@[i].date_id);
                } else {
                    assert(s1[w + 1].id == self.bookings@[i].date_id);
                }
            }
        }
    }
}

/// Decides the listing order on two slots.
pub fn date_lt_exec(a: &StoredDate, b: &StoredDate) -> (r: bool)
    ensures
        r == date_lt(*a, *b),
{
    if a.from_date != b.from_date {
        a.from_date < b.from_date
    } else {
        let ra = date_type_rank_exec(a.date_type);
        let rb = date_type_rank_exec(b.date_type);
        if ra != rb {
            ra < rb
        } else if !str_eq(a.room_number.as_str(), b.room_number.as_str()) {
            str_lt(a.room_number.as_str(), b.room_number.as_str())
        } else {
            a.id < b.id
        }
    }
}

/// Computes `spec_date_type_rank`.
fn date_type_rank_exec(d: DateType) -> (r: u64)
    ensures
        r as int == spec_date_type_rank(d),
{
    match d {
        DateType::ChamberChoir => 0,
        DateType::Choir => 1,
        DateType::Orchestra => 2,
    }
}

} // verus!

use vstd::prelude::*;

verus! {

/// The first booking that occupies slot `date_id`, if any.
pub open spec fn spec_find_booking_for(s: Seq<BookingRecord>, date_id: u64) -> Option<BookingRecord>
    decreases s.len(),
{
    if s.len() == 0 {
        None
    } else if s[0].date_id == date_id {
        Some(s[0])
    } else {
        spec_find_booking_for(s.skip(1), date_id)
    }
}

/// Under the one-booking-per-slot invariant, any booking of the slot is the
/// one the search returns.
pub proof fn lemma_find_booking_for_unique(s: Seq<BookingRecord>, date_id: u64)
    requires
        forall|i: int, j: int|
            #![trigger s[i], s[j]]
            0 <= i < j < s.len() ==> s[i].date_id != s[j].date_id,
    ensures
        match spec_find_booking_for(s, date_id) {
            Some(b) => b.date_id == date_id && s.contains(b) && forall|j: int|
                0 <= j < s.len() && (#[trigger] s[j]).date_id == date_id ==> s[j] == b,
            None => forall|j: int| 0 <= j < s.len() ==> (#[trigger] s[j]).date_id != date_id,
        },
    decreases s.len(),
{
    if s.len() > 0 {
        assert(forall|i: int| 0 <= i < s.skip(1).len() ==> s.skip(1)[i] == s[i + 1]);
        lemma_find_booking_for_unique(s.skip(1), date_id);
        match spec_find_booking_for(s, date_id) {
            Some(b) => {
                if s[0].date_id == date_id {
                    assert(s.contains(b)) by {
                        assert(s[0] == b);
                    }
                } else {
                    assert(s.skip(1).contains(b));
                    let w = choose|w: int| 0 <= w < s.skip(1).len() && s.skip(1)[w] == b;
                    assert(s[w + 1] == b);
                    assert(s.contains(b));
                }
                assert forall|j: int|
                    0 <= j < s.len() && (#[trigger] s[j]).date_id == date_id implies s[j] == b by {
                    if s[0].date_id == date_id {
                        if j > 0 {
                            assert(s.skip(1)[j - 1] == s[j]);
                        }
                    } else {
                        assert(j > 0);
                        assert(s.skip(1)[j - 1] == s[j]);
                    }
                }
            },
            None => {
                assert forall|j: int|
                    0 <= j < s.len() implies (#[trigger] s[j]).date_id != date_id by {
                    if j > 0 {
                        assert(s.skip(1)[j - 1] == s[j]);
                    }
                }
            },
        }
    }
}

/// The first room with this id, if any.
pub open spec fn spec_find_room(s: Seq<Room>, id: u64) -> Option<Room>
    decreases s.len(),
{
    if s.len() == 0 {
        None
    } else if s[0].id == id {
        Some(s[0])
    } else {
        spec_find_room(s.skip(1), id)
    }
}

impl Database {
    /// The index of the room with this id, if any.
    #[verifier::loop_isolation(false)]
    pub fn room_index(&self, id: u64) -> (r: Option<usize>)
        ensures
            match r {
                Some(i) => i < self.rooms@.len() && self.rooms@[i as int].id == id
                    && spec_find_room(self.rooms@, id) == Some(self.rooms@[i as int]),
                None => spec_find_room(self.rooms@, id) is None,
            },
    {
        let mut i: usize = 0;
        proof {
            assert(self.rooms@.skip(0) =~= self.rooms@);
        }
        while i < self.rooms.len()
            invariant
                i <= self.rooms@.len(),
                spec_find_room(self.rooms@, id) == spec_find_room(self.rooms@.skip(i as int), id),
            decreases self.rooms@.len() - i,
        {
            proof {
                assert(self.rooms@.skip(i as int)[0] == self.rooms@[i as int]);
                assert(self.rooms@.skip(i as int).skip(1) =~= self.rooms@.skip(i + 1));
            }
            if self.rooms[i].id == id {
                return Some(i);
            }
            i += 1;
        }
        None
    }
}

} // verus!
