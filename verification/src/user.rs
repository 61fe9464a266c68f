//! The public operations: booking a slot, self-service cancellation and
//! the waiting list.

use vstd::prelude::*;

use crate::model::date_type::{spec_available_date, spec_voice_for, Date, DateType};
use crate::model::form::{Email, SelectString};
use crate::store::{
    has_booking_for, lemma_find_pair_count, lemma_find_pair_first, lemma_find_pair_none,
    lemma_remove_booking_by_token_at, lemma_remove_waiting_by_pair_at,
    lemma_remove_waiting_by_token_at, lemma_remove_waiting_by_token_absent, lemma_unique_pair_count,
    spec_count_pair, spec_find_booking_by_token, spec_find_date, spec_find_waiting_by_pair,
    spec_find_waiting_by_token, spec_remove_booking_by_token, spec_remove_waiting_by_pair,
    spec_remove_waiting_by_token, spec_token_unused, BookingRecord, Database,
};
use crate::util::str_eq;
use crate::Config;

verus! {

/// A booking request, already parsed and validated field by field.
pub struct BookingForm {
    pub email: Email,
    pub person_name: String,
    pub notes: String,
    pub voice: SelectString,
    pub token: Option<u64>,
}

/// A waiting-list subscription request.
pub struct WaitingListForm {
    pub email: Email,
}

/// Why a booking request was turned down.
#[derive(Clone, Copy, PartialEq, Eq, Structural, Debug)]
pub enum BookingError {
    /// The slot does not exist or is not visible to this viewer.
    Gone,
    /// Another booking occupies the slot.
    Conflict,
    /// The voice is not valid for the slot's date type.
    InvalidVoice,
}

/// The date type of the persisted slot `id`.
pub open spec fn spec_slot_type(db: Database, id: u64) -> DateType {
    spec_find_date(db.dates@, id).unwrap().date_type
}

/// What a booking request decides, given the store it meets.
pub open spec fn spec_booking_decision(
    db: Database,
    id: u64,
    email: Seq<char>,
    voice: Seq<char>,
    token: Option<u64>,
    config: Config,
    now: u64,
) -> Result<(), BookingError> {
    if spec_find_date(db.dates@, id) is None {
        Err(BookingError::Gone)
    } else if has_booking_for(db.bookings@, id) {
        Err(BookingError::Conflict)
    } else if spec_available_date(db, id, config, now, token) is None {
        Err(BookingError::Gone)
    } else if (match token {
        Some(t) => match spec_find_waiting_by_token(db.waiting_list@, t) {
            Some(e) => e.email@ != email,
            None => false,
        },
        None => false,
    }) {
        Err(BookingError::Gone)
    } else if spec_voice_for(spec_slot_type(db, id), voice) is None {
        Err(BookingError::InvalidVoice)
    } else {
        Ok(())
    }
}

/// Books the slot `id` for the party described by `form`, re-checking its
/// availability at submission time. The caller hands in `fresh_token`, an
/// unguessable value drawn outside the store and not carried by any stored
/// booking or waiting-list entry; on success the booking is persisted
/// under it and the booker's waiting-list entry for the date type, if any,
/// is cleared.
#[verifier::rlimit(30)]
pub fn booking_new(
    db: &mut Database,
    id: u64,
    form: BookingForm,
    config: &Config,
    now: u64,
    lang: &str,
    fresh_token: u64,
) -> (r: Result<u64, BookingError>)
    requires
        old(db).wf(),
        spec_token_unused(*old(db), fresh_token),
    ensures
        final(db).wf(),
        match spec_booking_decision(
            *old(db),
            id,
            form.email.0@,
            form.voice.0@,
            form.token,
            *config,
            now,
        ) {
            Err(e) => r == Err::<u64, BookingError>(e) && *final(db) == *old(db),
            Ok(()) => {
                &&& r == Ok::<u64, BookingError>(fresh_token)
                &&& final(db).bookings@.len() == old(db).bookings@.len() + 1
                &&& final(db).bookings@.take(old(db).bookings@.len() as int) == old(db).bookings@
                &&& ({
                    let b = final(db).bookings@.last();
                    &&& b.date_id == id
                    &&& b.email@ == form.email.0@
                    &&& b.person_name@ == form.person_name@
                    &&& b.notes@ == form.notes@
                    &&& Some(b.voice) == spec_voice_for(spec_slot_type(*old(db), id), form.voice.0@)
                    &&& b.lang@ == lang@
                    &&& b.token == fresh_token
                })
                &&& final(db).waiting_list@ == (match spec_find_waiting_by_pair(
                    old(db).waiting_list@,
                    spec_slot_type(*old(db), id),
                    form.email.0@,
                ) {
                    Some(_) => spec_remove_waiting_by_pair(
                        old(db).waiting_list@,
                        spec_slot_type(*old(db), id),
                        form.email.0@,
                    ),
                    None => old(db).waiting_list@,
                })
                &&& final(db).dates == old(db).dates
                &&& final(db).rooms == old(db).rooms
                &&& final(db).announcements == old(db).announcements
                &&& final(db).next_date_id == old(db).next_date_id
                &&& final(db).next_room_id == old(db).next_room_id
            },
        },
{
    let BookingForm { email: Email(email), person_name, notes, voice: SelectString(voice), token } =
        form;
    let didx = match db.date_index(id) {
        None => {
            return Err(BookingError::Gone);
        },
        Some(didx) => didx,
    };
    if db.booking_index_for_date(id).is_some() {
        return Err(BookingError::Conflict);
    }
    if Date::get_available_date(db, id, config, now, token).is_none() {
        return Err(BookingError::Gone);
    }
    if let Some(t) = token {
        if let Some(w) = db.waiting_index_for_token(t) {
            if !str_eq(db.waiting_list[w].email.as_str(), email.as_str()) {
                return Err(BookingError::Gone);
            }
        }
    }
    let date_type = db.dates[didx].date_type;
    proof {
        assert(spec_find_date(db.dates@, id) == Some(db.dates@[didx as int]));
        assert(spec_slot_type(*db, id) == date_type);
    }
    let booked_voice = match date_type.voice_by_value(voice.as_str()) {
        None => {
            return Err(BookingError::InvalidVoice);
        },
        Some(v) => v,
    };
    let widx = db.waiting_index_for_pair(date_type, email.as_str());
    let tok = fresh_token;
    let ghost bookings0 = db.bookings@;
    let ghost waiting0 = db.waiting_list@;
    db.bookings.push(
        BookingRecord {
            date_id: id,
            email,
            person_name,
            notes,
            voice: booked_voice,
            lang: lang.to_owned(),
            token: tok,
        },
    );
    proof {
        assert(db.bookings@.take(bookings0.len() as int) =~= bookings0);
        assert forall|i: int|
            0 <= i < db.bookings@.len() implies spec_find_date(
            db.dates@,
            (#[trigger] db.bookings@[i]).date_id,
        ) is Some by {
            if i < bookings0.len() {
                assert(db.bookings@[i] == bookings0[i]);
            } else {
                assert(db.bookings@[i].date_id == id);
            }
        }
        assert forall|i: int, j: int|
            #![trigger db.bookings@[i], db.bookings@[j]]
            0 <= i < j < db.bookings@.len() implies db.bookings@[i].date_id
            != db.bookings@[j].date_id && db.bookings@[i].token != db.bookings@[j].token by {
            if j == bookings0.len() {
                assert(db.bookings@[i] == bookings0[i]);
                assert(!has_booking_for(bookings0, id));
                assert(bookings0[i].token != tok);
            }
        }
    }
    if let Some(w) = widx {
        let ghost wl = db.waiting_list@;
        db.waiting_list.remove(w);
        proof {
            wl.remove_ensures(w as int);
            assert forall|i: int|
                0 <= i < w implies !((#[trigger] wl[i]).date_type == date_type && wl[i].email@
                == email@) by {
                assert(wl[w as int].date_type == date_type && wl[w as int].email@ == email@);
            }
            lemma_remove_waiting_by_pair_at(wl, date_type, email@, w as int);
            assert(forall|a: int|
                0 <= a < w ==> #[trigger] db.waiting_list@[a] == wl[a]);
            assert(forall|a: int|
                w <= a < db.waiting_list@.len() ==> #[trigger] db.waiting_list@[a] == wl[a + 1]);
            assert forall|a: int, b: int|
                #![trigger db.waiting_list@[a], db.waiting_list@[b]]
                0 <= a < b < db.waiting_list@.len() implies !(db.waiting_list@[a].date_type
                == db.waiting_list@[b].date_type && db.waiting_list@[a].email@
                == db.waiting_list@[b].email@) && db.waiting_list@[a].token
                != db.waiting_list@[b].token by {
                let a0 = if a < w { a } else { a + 1 };
                let b0 = if b < w { b } else { b + 1 };
                assert(db.waiting_list@[a] == wl[a0]);
                assert(db.waiting_list@[b] == wl[b0]);
            }
        }
    } else {
        proof {
            lemma_find_pair_none(waiting0, date_type, email@);
        }
    }
    Ok(tok)
}

/// The outcome of a self-service cancellation.
#[derive(Clone, Copy, PartialEq, Eq, Structural, Debug)]
pub enum CancelOutcome {
    /// The booking was removed; the waiting list of this date type should
    /// be notified.
    Cancelled(DateType),
    /// The slot has already started; nothing was changed.
    TooLate,
    /// No booking carries this token; nothing was changed.
    NotFound,
}

/// Cancels the booking that carries `token`, strictly before the slot's
/// start. At or after the start the request is rejected unchanged; an
/// unknown token is a no-op.
pub fn booking_delete(db: &mut Database, token: u64, now: u64) -> (r: CancelOutcome)
    requires
        old(db).wf(),
    ensures
        final(db).wf(),
        match spec_find_booking_by_token(old(db).bookings@, token) {
            None => r == CancelOutcome::NotFound && *final(db) == *old(db),
            Some(b) => {
                let d = spec_find_date(old(db).dates@, b.date_id).unwrap();
                if now >= d.from_date {
                    r == CancelOutcome::TooLate && *final(db) == *old(db)
                } else {
                    &&& r == CancelOutcome::Cancelled(d.date_type)
                    &&& final(db).bookings@ == spec_remove_booking_by_token(
                        old(db).bookings@,
                        token,
                    )
                    &&& final(db).dates == old(db).dates
                    &&& final(db).rooms == old(db).rooms
                    &&& final(db).waiting_list == old(db).waiting_list
                    &&& final(db).announcements == old(db).announcements
                    &&& final(db).next_date_id == old(db).next_date_id
                    &&& final(db).next_room_id == old(db).next_room_id
                }
            },
        },
{
    let bidx = match db.booking_index_for_token(token) {
        None => {
            return CancelOutcome::NotFound;
        },
        Some(bidx) => bidx,
    };
    let date_id = db.bookings[bidx].date_id;
    let didx = match db.date_index(date_id) {
        None => {
            proof {
                assert(spec_find_date(db.dates@, db.bookings@[bidx as int].date_id) is Some);
            }
            return CancelOutcome::NotFound;
        },
        Some(didx) => didx,
    };
    let slot = &db.dates[didx];
    if now >= slot.from_date {
        return CancelOutcome::TooLate;
    }
    let date_type = slot.date_type;
    let ghost bookings0 = db.bookings@;
    db.bookings.remove(bidx);
    proof {
        bookings0.remove_ensures(bidx as int);
        assert forall|i: int| 0 <= i < bidx implies (#[trigger] bookings0[i]).token != token by {
            assert(bookings0[bidx as int].token == token);
        }
        lemma_remove_booking_by_token_at(bookings0, token, bidx as int);
        assert(forall|a: int| 0 <= a < bidx ==> #[trigger] db.bookings@[a] == bookings0[a]);
        assert(forall|a: int|
            bidx <= a < db.bookings@.len() ==> #[trigger] db.bookings@[a] == bookings0[a + 1]);
        assert forall|a: int, b: int|
            #![trigger db.bookings@[a], db.bookings@[b]]
            0 <= a < b < db.bookings@.len() implies db.bookings@[a].date_id
            != db.bookings@[b].date_id && db.bookings@[a].token != db.bookings@[b].token by {
            let a0 = if a < bidx { a } else { a + 1 };
            let b0 = if b < bidx { b } else { b + 1 };
            assert(db.bookings@[a] == bookings0[a0]);
            assert(db.bookings@[b] == bookings0[b0]);
        }
        assert forall|a: int|
            0 <= a < db.bookings@.len() implies spec_find_date(
            db.dates@,
            (#[trigger] db.bookings@[a]).date_id,
        ) is Some by {
            let a0 = if a < bidx { a } else { a + 1 };
            assert(db.bookings@[a] == bookings0[a0]);
        }
    }
    CancelOutcome::Cancelled(date_type)
}

/// What one subscription call does to the store: an existing entry of the
/// same address and date type is returned unchanged; otherwise a new
/// entry is appended under the handed-in token.
pub open spec fn spec_subscribe_rel(
    pre: Database,
    date_type: DateType,
    email: Seq<char>,
    lang: Seq<char>,
    now: u64,
    post: Database,
    token: u64,
) -> bool {
    match spec_find_waiting_by_pair(pre.waiting_list@, date_type, email) {
        Some(e) => token == e.token && post == pre,
        None => {
            &&& post.waiting_list@.len() == pre.waiting_list@.len() + 1
            &&& post.waiting_list@.take(pre.waiting_list@.len() as int) == pre.waiting_list@
            &&& post.waiting_list@.last().date_type == date_type
            &&& post.waiting_list@.last().email@ == email
            &&& post.waiting_list@.last().lang@ == lang
            &&& post.waiting_list@.last().token == token
            &&& post.waiting_list@.last().entered == now
            &&& post.rooms == pre.rooms
            &&& post.dates == pre.dates
            &&& post.bookings == pre.bookings
            &&& post.announcements == pre.announcements
            &&& post.next_room_id == pre.next_room_id
            &&& post.next_date_id == pre.next_date_id
        },
    }
}

/// Subscribes an address to the waiting list of a date type. The call is
/// idempotent: an existing entry keeps its token and nothing is
/// duplicated. The caller hands in `fresh_token`, an unguessable value
/// drawn outside the store; it is used only when a new entry is created.
pub fn waiting_list_subscribe(
    db: &mut Database,
    date_type: DateType,
    email: &str,
    lang: &str,
    now: u64,
    fresh_token: u64,
) -> (token: u64)
    requires
        old(db).wf(),
        spec_token_unused(*old(db), fresh_token),
    ensures
        final(db).wf(),
        spec_subscribe_rel(*old(db), date_type, email@, lang@, now, *final(db), token),
        (spec_find_waiting_by_pair(old(db).waiting_list@, date_type, email@) is None) ==> token
            == fresh_token,
{
    match db.waiting_index_for_pair(date_type, email) {
        Some(i) => db.waiting_list[i].token,
        None => {
            let token = fresh_token;
            let ghost waiting0 = db.waiting_list@;
            db.waiting_list.push(
                crate::store::WaitingListEntry {
                    date_type,
                    email: email.to_owned(),
                    lang: lang.to_owned(),
                    token,
                    entered: now,
                },
            );
            proof {
                self_subscribe_wf_proof(db, waiting0, date_type, email@, token);
                assert(db.waiting_list@.take(waiting0.len() as int) =~= waiting0);
            }
            token
        },
    }
}

/// Removes the waiting-list entry that carries `token`; an unknown token is
/// a silent no-op.
pub fn waiting_list_unsubscribe(db: &mut Database, token: u64)
    requires
        old(db).wf(),
    ensures
        final(db).wf(),
        final(db).waiting_list@ == spec_remove_waiting_by_token(old(db).waiting_list@, token),
        final(db).rooms == old(db).rooms,
        final(db).dates == old(db).dates,
        final(db).bookings == old(db).bookings,
        final(db).announcements == old(db).announcements,
        final(db).next_date_id == old(db).next_date_id,
        final(db).next_room_id == old(db).next_room_id,
{
    match db.waiting_index_for_token(token) {
        None => {
            proof {
                assert forall|i: int|
                    0 <= i < db.waiting_list@.len() implies (#[trigger] db.waiting_list@[i]).token
                    != token by {
                    if db.waiting_list@[i].token == token {
                        assert(spec_find_waiting_by_token(db.waiting_list@, token) is Some) by {
                            lemma_find_waiting_token_witness(db.waiting_list@, token, i);
                        }
                    }
                }
                lemma_remove_waiting_by_token_absent(db.waiting_list@, token);
            }
        },
        Some(w) => {
            let ghost wl = db.waiting_list@;
            db.waiting_list.remove(w);
            proof {
                wl.remove_ensures(w as int);
                assert forall|i: int| 0 <= i < w implies (#[trigger] wl[i]).token != token by {
                    assert(wl[w as int].token == token);
                }
                lemma_remove_waiting_by_token_at(wl, token, w as int);
                assert(forall|a: int| 0 <= a < w ==> #[trigger] db.waiting_list@[a] == wl[a]);
                assert(forall|a: int|
                    w <= a < db.waiting_list@.len() ==> #[trigger] db.waiting_list@[a] == wl[a
                        + 1]);
                assert forall|a: int, b: int|
                    #![trigger db.waiting_list@[a], db.waiting_list@[b]]
                    0 <= a < b < db.waiting_list@.len() implies !(db.waiting_list@[a].date_type
                    == db.waiting_list@[b].date_type && db.waiting_list@[a].email@
                    == db.waiting_list@[b].email@) && db.waiting_list@[a].token
                    != db.waiting_list@[b].token by {
                    let a0 = if a < w { a } else { a + 1 };
                    let b0 = if b < w { b } else { b + 1 };
                    assert(db.waiting_list@[a] == wl[a0]);
                    assert(db.waiting_list@[b] == wl[b0]);
                }
            }
        },
    }
}

/// The date type of the waiting-list entry that carries `token`, if any.
pub fn waiting_list_unsubscribe_info(db: &Database, token: u64) -> (r: Option<DateType>)
    ensures
        r == (match spec_find_waiting_by_token(db.waiting_list@, token) {
            Some(e) => Some(e.date_type),
            None => None::<DateType>,
        }),
{
    match db.waiting_index_for_token(token) {
        Some(i) => Some(db.waiting_list[i].date_type),
        None => None,
    }
}

/// If an entry carrying the token stands at `idx`, the token search
/// succeeds.
proof fn lemma_find_waiting_token_witness(s: Seq<crate::store::WaitingListEntry>, token: u64, idx: int)
    requires
        0 <= idx < s.len(),
        s[idx].token == token,
    ensures
        spec_find_waiting_by_token(s, token) is Some,
    decreases idx,
{
    if idx > 0 && s[0].token != token {
        assert(forall|i: int| 0 <= i < s.skip(1).len() ==> s.skip(1)[i] == s[i + 1]);
        lemma_find_waiting_token_witness(s.skip(1), token, idx - 1);
    }
}

/// Re-establishes the waiting-list invariants after appending a fresh
/// entry.
proof fn self_subscribe_wf_proof(
    db: &Database,
    waiting0: Seq<crate::store::WaitingListEntry>,
    date_type: DateType,
    email: Seq<char>,
    token: u64,
)
    requires
        db.waiting_list@.len() == waiting0.len() + 1,
        forall|i: int| 0 <= i < waiting0.len() ==> #[trigger] db.waiting_list@[i] == waiting0[i],
        db.waiting_list@.last().date_type == date_type,
        db.waiting_list@.last().email@ == email,
        db.waiting_list@.last().token == token,
        forall|i: int| 0 <= i < waiting0.len() ==> (#[trigger] waiting0[i]).token != token,
        spec_find_waiting_by_pair(waiting0, date_type, email) is None,
        forall|i: int, j: int|
            #![trigger waiting0[i], waiting0[j]]
            0 <= i < j < waiting0.len() ==> !(waiting0[i].date_type == waiting0[j].date_type
                && waiting0[i].email@ == waiting0[j].email@) && waiting0[i].token
                != waiting0[j].token,
    ensures
        forall|i: int, j: int|
            #![trigger db.waiting_list@[i], db.waiting_list@[j]]
            0 <= i < j < db.waiting_list@.len() ==> !(db.waiting_list@[i].date_type
                == db.waiting_list@[j].date_type && db.waiting_list@[i].email@
                == db.waiting_list@[j].email@) && db.waiting_list@[i].token
                != db.waiting_list@[j].token,
{
    lemma_find_pair_none(waiting0, date_type, email);
    assert forall|i: int, j: int|
        #![trigger db.waiting_list@[i], db.waiting_list@[j]]
        0 <= i < j < db.waiting_list@.len() implies !(db.waiting_list@[i].date_type
        == db.waiting_list@[j].date_type && db.waiting_list@[i].email@
        == db.waiting_list@[j].email@) && db.waiting_list@[i].token
        != db.waiting_list@[j].token by {
        if j == waiting0.len() {
            assert(db.waiting_list@[i] == waiting0[i]);
            assert(db.waiting_list@[j] == db.waiting_list@.last());
        } else {
            assert(db.waiting_list@[i] == waiting0[i]);
            assert(db.waiting_list@[j] == waiting0[j]);
        }
    }
}

/// Subscribing twice with the same address and date type hands back the
/// same token both times and leaves exactly one entry for the pair.
pub proof fn lemma_subscribe_idempotent(
    s0: Database,
    s1: Database,
    s2: Database,
    date_type: DateType,
    email: Seq<char>,
    lang1: Seq<char>,
    lang2: Seq<char>,
    now1: u64,
    now2: u64,
    t1: u64,
    t2: u64,
)
    requires
        s0.wf(),
        s1.wf(),
        spec_subscribe_rel(s0, date_type, email, lang1, now1, s1, t1),
        spec_subscribe_rel(s1, date_type, email, lang2, now2, s2, t2),
    ensures
        t2 == t1,
        s2 == s1,
        spec_count_pair(s1.waiting_list@, date_type, email) == 1,
{
    match spec_find_waiting_by_pair(s0.waiting_list@, date_type, email) {
        Some(e) => {
            assert(s1 == s0);
            lemma_find_pair_count(s1.waiting_list@, date_type, email);
            lemma_unique_pair_count(s1.waiting_list@, date_type, email);
        },
        None => {
            lemma_find_pair_none(s0.waiting_list@, date_type, email);
            let wl1 = s1.waiting_list@;
            assert(forall|i: int|
                0 <= i < s0.waiting_list@.len() ==> #[trigger] wl1[i] == s0.waiting_list@[i]);
            lemma_find_pair_first(wl1, date_type, email, wl1.len() - 1);
            assert(spec_find_waiting_by_pair(wl1, date_type, email) == Some(wl1.last()));
            lemma_find_pair_count(wl1, date_type, email);
            lemma_unique_pair_count(wl1, date_type, email);
        },
    }
}

} // verus!
