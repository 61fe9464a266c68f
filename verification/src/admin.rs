//! The administrator's operations: proposing and confirming slot batches,
//! bulk cancellation, room management, announcements and the dashboard.

use vstd::prelude::*;

use crate::model::date_type::{DateType, Voice};
use crate::model::{Message, MessageType};
use crate::store::{
    spec_find_booking_for, spec_find_date, spec_remove_room, Database, StoredDate,
};
use crate::util::{
    lemma_digits_value_bound, parse_u64, spec_day_of, spec_digits_value, spec_parses_u64, str_eq,
    datetime_to_day,
};

verus! {

/// One administrator-editable text block, per page position and language.
#[derive(Debug)]
pub struct Announcement {
    pub lang: String,
    pub position: String,
    pub description: String,
    pub content: String,
}

/// A candidate slot proposed by the generator; nothing is persisted until
/// the administrator confirms a selection.
#[derive(Clone, Copy, PartialEq, Eq, Structural, Debug)]
pub struct Date {
    pub from_date: u64,
    pub to_date: u64,
    pub room_id: u64,
    pub date_type: DateType,
}

/// An occupancy as the dashboard shows it.
#[derive(Debug)]
pub struct Booking {
    pub email: String,
    pub person_name: String,
    pub notes: String,
    pub voice: Voice,
}

/// A slot on the dashboard, with its occupancy if it has one.
#[derive(Debug)]
pub struct BookableDate {
    pub id: u64,
    pub from_date: u64,
    pub to_date: u64,
    pub room_number: String,
    pub booking: Option<Booking>,
    pub date_type: DateType,
}

/// A bulk-cancellation request: slot ids and one explanation per language.
pub struct DateCancelForm {
    pub dates: Vec<u64>,
    pub explanations: Vec<(String, String)>,
}

/// The generator's input form, already parsed into plain values.
pub struct DateNew1Form {
    pub date_type: DateType,
    pub room: String,
    pub from_date: u64,
    pub to_date: u64,
    pub interval: u64,
}

/// The confirmation form: the proposed batch and the selection over it.
pub struct DateNew2Form {
    pub date_selected: Vec<bool>,
    pub dates: Vec<Date>,
}

/// A room-management request: a number to create, or a delete button.
pub struct RoomManageForm {
    pub room_number: String,
    pub button: String,
}

/// An announcements update: position, language and new content per entry.
pub struct AnnouncementsForm {
    pub announcements: Vec<(String, String, String)>,
}

/// A cancellation notice owed to a booking party.
#[derive(Debug)]
pub struct CancelNotice {
    pub email: String,
    pub lang: String,
    pub explanation: String,
}

/// Proposes the batch of slots covering `[from_date, to_date)` in steps of
/// `interval` minutes. An inverted range, an interval of zero or one that
/// does not divide the range evenly, and a batch of more than a thousand
/// slots are each rejected with a validation message.
#[verifier::loop_isolation(false)]
pub fn propose_dates(
    from_date: u64,
    to_date: u64,
    interval: u64,
    room_id: u64,
    date_type: DateType,
) -> (r: Result<Vec<Date>, Message>)
    ensures
        match r {
            Ok(v) => {
                &&& from_date < to_date
                &&& interval >= 1
                &&& (to_date - from_date) % (interval as int) == 0
                &&& (to_date - from_date) / (interval as int) <= 1000
                &&& v@.len() == (to_date - from_date) / (interval as int)
                &&& v@.len() >= 1
                &&& forall|i: int|
                    0 <= i < v@.len() ==> (#[trigger] v@[i]).from_date == from_date + i * interval
                        && v@[i].to_date == from_date + (i + 1) * interval && v@[i].room_id
                        == room_id && v@[i].date_type == date_type
                &&& forall|i: int|
                    0 <= i < v@.len() ==> (#[trigger] v@[i]).to_date - v@[i].from_date == interval
                &&& forall|i: int|
                    0 <= i < v@.len() - 1 ==> (#[trigger] v@[i]).to_date == v@[i + 1].from_date
                &&& v@[0].from_date == from_date
                &&& v@.last().to_date == to_date
            },
            Err(m) => {
                &&& m.message_type == MessageType::Error
                &&& if from_date >= to_date {
                    m.text_key@ == "wrong-date-order"@
                } else if interval == 0 || (to_date - from_date) % (interval as int) != 0 {
                    m.text_key@ == "interval-not-even"@
                } else {
                    (to_date - from_date) / (interval as int) > 1000 && m.text_key@
                        == "too-many-dates"@
                }
            },
        },
{
    if from_date >= to_date {
        return Err(
            Message { text_key: "wrong-date-order".to_owned(), message_type: MessageType::Error },
        );
    }
    let num_minutes = to_date - from_date;
    if interval == 0 || num_minutes % interval != 0 {
        return Err(
            Message { text_key: "interval-not-even".to_owned(), message_type: MessageType::Error },
        );
    }
    let count = num_minutes / interval;
    if count > 1000 {
        return Err(
            Message { text_key: "too-many-dates".to_owned(), message_type: MessageType::Error },
        );
    }
    proof {
        vstd::arithmetic::div_mod::lemma_fundamental_div_mod(
            num_minutes as int,
            interval as int,
        );
        vstd::arithmetic::mul::lemma_mul_is_commutative(interval as int, count as int);
        assert(count * interval == num_minutes);
    }
    let mut v: Vec<Date> = Vec::new();
    let mut cur: u64 = from_date;
    let mut i: u64 = 0;
    while i < count
        invariant
            i <= count,
            v@.len() == i,
            cur == from_date + i * interval,
            cur <= to_date,
            forall|j: int|
                0 <= j < i ==> (#[trigger] v@[j]).from_date == from_date + j * interval
                    && v@[j].to_date == from_date + (j + 1) * interval && v@[j].room_id == room_id
                    && v@[j].date_type == date_type,
        decreases count - i,
    {
        proof {
            vstd::arithmetic::mul::lemma_mul_inequality(
                i as int + 1,
                count as int,
                interval as int,
            );
            vstd::arithmetic::mul::lemma_mul_is_distributive_add_other_way(
                interval as int,
                i as int,
                1,
            );
            assert((i + 1) * interval <= num_minutes);
        }
        let next = cur + interval;
        v.push(Date { from_date: cur, to_date: next, room_id, date_type });
        cur = next;
        i += 1;
    }
    proof {
        assert(count >= 1) by {
            if count == 0 {
                assert(count * interval == 0);
            }
        }
        assert(v@.last().to_date == from_date + count * interval);
        assert forall|j: int|
            0 <= j < v@.len() implies (#[trigger] v@[j]).to_date - v@[j].from_date
            == interval by {
            vstd::arithmetic::mul::lemma_mul_is_distributive_add_other_way(
                interval as int,
                j,
                1,
            );
        }
    }
    Ok(v)
}

/// Whether the button names a room deletion.
pub open spec fn spec_is_delete_button(s: Seq<char>) -> bool {
    s.len() >= 7 && s.take(7) == "delete-"@
}

/// Creates or deletes a room, as the form's button says. An unparsable
/// delete button is a fatal error; an unknown button only reports itself.
pub fn room_manage(db: &mut Database, form: &RoomManageForm) -> (r: Result<Vec<Message>, Message>)
    requires
        old(db).wf(),
        old(db).next_room_id < u64::MAX,
    ensures
        final(db).wf(),
        final(db).dates == old(db).dates,
        final(db).bookings == old(db).bookings,
        final(db).waiting_list == old(db).waiting_list,
        final(db).announcements == old(db).announcements,
        final(db).next_date_id == old(db).next_date_id,
        if form.button@ == "create"@ {
            match r {
                Ok(ms) => {
                    &&& final(db).rooms@.len() == old(db).rooms@.len() + 1
                    &&& final(db).rooms@.take(old(db).rooms@.len() as int) == old(db).rooms@
                    &&& final(db).rooms@.last().room_number@ == form.room_number@
                    &&& final(db).rooms@.last().id == old(db).next_room_id
                    &&& final(db).next_room_id == old(db).next_room_id + 1
                    &&& ms@.len() == 1
                    &&& ms@[0].text_key@ == "room-created"@
                    &&& ms@[0].message_type == MessageType::Success
                },
                Err(_) => false,
            }
        } else if spec_is_delete_button(form.button@) {
            if spec_parses_u64(form.button@.skip(7)) {
                match r {
                    Ok(ms) => {
                        &&& final(db).rooms@ == spec_remove_room(
                            old(db).rooms@,
                            spec_digits_value(form.button@.skip(7)) as u64,
                        )
                        &&& final(db).next_room_id == old(db).next_room_id
                        &&& ms@.len() == 1
                        &&& ms@[0].text_key@ == "room-deleted"@
                        &&& ms@[0].message_type == MessageType::Success
                    },
                    Err(_) => false,
                }
            } else {
                r matches Err(m) && m.text_key@ == "validation-unknown"@ && *final(db) == *old(db)
            }
        } else {
            match r {
                Ok(ms) => {
                    &&& *final(db) == *old(db)
                    &&& ms@.len() == 1
                    &&& ms@[0].text_key@ == "validation-unknown"@
                    &&& ms@[0].message_type == MessageType::Error
                },
                Err(_) => false,
            }
        },
{
    if str_eq(form.button.as_str(), "create") {
        db.add_room(form.room_number.as_str());
        let ms = vec![
            Message { text_key: "room-created".to_owned(), message_type: MessageType::Success },
        ];
        assert(ms@[0].text_key@ == "room-created"@);
        return Ok(ms);
    }
    if is_delete_button(form.button.as_str()) {
        let len = form.button.unicode_len();
        let rest = form.button.as_str().substring_char(7, len);
        proof {
            assert(rest@ =~= form.button@.skip(7));
        }
        match parse_u64(rest) {
            None => {
                return Err(
                    Message {
                        text_key: "validation-unknown".to_owned(),
                        message_type: MessageType::Error,
                    },
                );
            },
            Some(id) => {
                proof {
                    lemma_digits_value_bound(rest@);
                }
                db.remove_room(id);
                let ms = vec![
                    Message {
                        text_key: "room-deleted".to_owned(),
                        message_type: MessageType::Success,
                    },
                ];
                assert(ms@[0].text_key@ == "room-deleted"@);
                return Ok(ms);
            },
        }
    }
    let ms = vec![
        Message { text_key: "validation-unknown".to_owned(), message_type: MessageType::Error },
    ];
    assert(ms@[0].text_key@ == "validation-unknown"@);
    Ok(ms)
}

/// Decides `spec_is_delete_button`.
fn is_delete_button(s: &str) -> (r: bool)
    ensures
        r == spec_is_delete_button(s@),
{
    proof {
        reveal_strlit("delete-");
    }
    if s.unicode_len() < 7 {
        return false;
    }
    let r = s.get_char(0) == 'd' && s.get_char(1) == 'e' && s.get_char(2) == 'l' && s.get_char(3)
        == 'e' && s.get_char(4) == 't' && s.get_char(5) == 'e' && s.get_char(6) == '-';
    proof {
        if r {
            assert(s@.take(7) =~= "delete-"@);
        } else {
            assert(s@.take(7) != "delete-"@) by {
                if s@.take(7) == "delete-"@ {
                    assert(s@.take(7)[0] == s@[0]);
                    assert(s@.take(7)[1] == s@[1]);
                    assert(s@.take(7)[2] == s@[2]);
                    assert(s@.take(7)[3] == s@[3]);
                    assert(s@.take(7)[4] == s@[4]);
                    assert(s@.take(7)[5] == s@[5]);
                    assert(s@.take(7)[6] == s@[6]);
                }
            }
        }
    }
    r
}

/// A slot list entry updated to new content where position and language
/// match.
pub open spec fn spec_set_announcement(
    s: Seq<Announcement>,
    u: (String, String, String),
) -> Seq<Announcement> {
    Seq::new(
        s.len(),
        |i: int|
            if s[i].position@ == u.0@ && s[i].lang@ == u.1@ {
                Announcement {
                    lang: s[i].lang,
                    position: s[i].position,
                    description: s[i].description,
                    content: u.2,
                }
            } else {
                s[i]
            },
    )
}

/// The announcements after every update of the form was applied in order.
pub open spec fn spec_apply_announcements(
    s: Seq<Announcement>,
    updates: Seq<(String, String, String)>,
) -> Seq<Announcement>
    decreases updates.len(),
{
    if updates.len() == 0 {
        s
    } else {
        spec_apply_announcements(spec_set_announcement(s, updates[0]), updates.skip(1))
    }
}

/// Overwrites the stored announcement texts named by the form.
#[verifier::loop_isolation(false)]
pub fn update_announcements(db: &mut Database, form: &AnnouncementsForm)
    requires
        old(db).wf(),
    ensures
        final(db).wf(),
        final(db).announcements@ == spec_apply_announcements(
            old(db).announcements@,
            form.announcements@,
        ),
        final(db).rooms == old(db).rooms,
        final(db).dates == old(db).dates,
        final(db).bookings == old(db).bookings,
        final(db).waiting_list == old(db).waiting_list,
        final(db).next_room_id == old(db).next_room_id,
        final(db).next_date_id == old(db).next_date_id,
{
    let updates = &form.announcements;
    let mut k: usize = 0;
    proof {
        assert(updates@.skip(0) =~= updates@);
    }
    while k < updates.len()
        invariant
            k <= updates@.len(),
            spec_apply_announcements(db.announcements@, updates@.skip(k as int))
                == spec_apply_announcements(old(db).announcements@, updates@),
            db.wf(),
            db.rooms == old(db).rooms,
            db.dates == old(db).dates,
            db.bookings == old(db).bookings,
            db.waiting_list == old(db).waiting_list,
            db.next_room_id == old(db).next_room_id,
            db.next_date_id == old(db).next_date_id,
        decreases updates@.len() - k,
    {
        proof {
            assert(updates@.skip(k as int)[0] == updates@[k as int]);
            assert(updates@.skip(k as int).skip(1) =~= updates@.skip(k + 1));
        }
        let ghost pre = db.announcements@;
        let ghost u = updates@[k as int];
        let mut i: usize = 0;
        while i < db.announcements.len()
            invariant
                i <= db.announcements@.len(),
                db.announcements@.len() == pre.len(),
                db.wf(),
                db.rooms == old(db).rooms,
                db.dates == old(db).dates,
                db.bookings == old(db).bookings,
                db.waiting_list == old(db).waiting_list,
                db.next_room_id == old(db).next_room_id,
                db.next_date_id == old(db).next_date_id,
                forall|j: int|
                    0 <= j < i ==> #[trigger] db.announcements@[j] == spec_set_announcement(
                        pre,
                        u,
                    )[j],
                forall|j: int| i <= j < pre.len() ==> #[trigger] db.announcements@[j] == pre[j],
            decreases db.announcements@.len() - i,
        {
            let matches_update = str_eq(
                db.announcements[i].position.as_str(),
                updates[k].0.as_str(),
            ) && str_eq(db.announcements[i].lang.as_str(), updates[k].1.as_str());
            if matches_update {
                let ghost cur0 = db.announcements@;
                let olda = db.announcements.remove(i);
                let newa = Announcement {
                    lang: olda.lang,
                    position: olda.position,
                    description: olda.description,
                    content: updates[k].2.clone(),
                };
                db.announcements.insert(i, newa);
                proof {
                    assert(db.announcements@ =~= cur0.update(
                        i as int,
                        db.announcements@[i as int],
                    ));
                    assert(cur0[i as int] == pre[i as int]);
                    assert(db.announcements@[i as int] == spec_set_announcement(
                        pre,
                        u,
                    )[i as int]);
                }
            }
            i += 1;
        }
        proof {
            assert(db.announcements@ =~= spec_set_announcement(pre, u));
        }
        k += 1;
    }
    proof {
        assert(updates@.skip(updates@.len() as int) =~= Seq::<(String, String, String)>::empty());
    }
}

/// The calendar days on which any slot starts, first occurrence first.
pub open spec fn spec_available_days(dates: Seq<StoredDate>) -> Seq<u64>
    decreases dates.len(),
{
    if dates.len() == 0 {
        Seq::empty()
    } else {
        let rest = spec_available_days(dates.drop_last());
        let day = spec_day_of(dates.last().from_date) as u64;
        if rest.contains(day) {
            rest
        } else {
            rest.push(day)
        }
    }
}

/// Whether a slot starts within one day of `day` (both ends included).
pub open spec fn spec_in_day_window(d: StoredDate, day: u64) -> bool {
    day <= d.from_date && d.from_date <= day + 1440
}

/// The dashboard listing of the day beginning at `day`: each slot in the
/// window, joined with its occupancy.
pub open spec fn spec_dashboard(
    dates: Seq<StoredDate>,
    bookings: Seq<crate::store::BookingRecord>,
    day: u64,
) -> Seq<BookableDate>
    decreases dates.len(),
{
    if dates.len() == 0 {
        Seq::empty()
    } else {
        let rest = spec_dashboard(dates.drop_last(), bookings, day);
        let d = dates.last();
        if spec_in_day_window(d, day) {
            rest.push(
                BookableDate {
                    id: d.id,
                    from_date: d.from_date,
                    to_date: d.to_date,
                    room_number: d.room_number,
                    booking: match spec_find_booking_for(bookings, d.id) {
                        Some(b) => Some(
                            Booking {
                                email: b.email,
                                person_name: b.person_name,
                                notes: b.notes,
                                voice: b.voice,
                            },
                        ),
                        None => None,
                    },
                    date_type: d.date_type,
                },
            )
        } else {
            rest
        }
    }
}

/// The distinct calendar days that hold slots, for the dashboard's day
/// picker.
#[verifier::loop_isolation(false)]
pub fn available_days(db: &Database) -> (r: Vec<u64>)
    ensures
        r@ == spec_available_days(db.dates@),
{
    let mut r: Vec<u64> = Vec::new();
    let mut i: usize = 0;
    proof {
        assert(db.dates@.take(0) =~= Seq::<StoredDate>::empty());
    }
    while i < db.dates.len()
        invariant
            i <= db.dates@.len(),
            r@ == spec_available_days(db.dates@.take(i as int)),
        decreases db.dates@.len() - i,
    {
        proof {
            assert(db.dates@.take(i + 1).drop_last() =~= db.dates@.take(i as int));
            assert(db.dates@.take(i + 1).last() == db.dates@[i as int]);
        }
        let day = datetime_to_day(db.dates[i].from_date);
        if !contains_u64(&r, day) {
            r.push(day);
        }
        i += 1;
    }
    proof {
        assert(db.dates@.take(db.dates@.len() as int) =~= db.dates@);
    }
    r
}

/// Whether the vector holds the value.
fn contains_u64(v: &Vec<u64>, x: u64) -> (r: bool)
    ensures
        r == v@.contains(x),
{
    let mut i: usize = 0;
    while i < v.len()
        invariant
            i <= v@.len(),
            forall|j: int| 0 <= j < i ==> v@[j] != x,
        decreases v@.len() - i,
    {
        if v[i] == x {
            assert(v@[i as int] == x);
            return true;
        }
        i += 1;
    }
    false
}

/// The dashboard listing for the day beginning at `day`.
#[verifier::loop_isolation(false)]
pub fn dashboard_dates(db: &Database, day: u64) -> (r: Vec<BookableDate>)
    requires
        db.wf(),
    ensures
        r@ == spec_dashboard(db.dates@, db.bookings@, day),
{
    let mut r: Vec<BookableDate> = Vec::new();
    let mut i: usize = 0;
    proof {
        assert(db.dates@.take(0) =~= Seq::<StoredDate>::empty());
    }
    while i < db.dates.len()
        invariant
            i <= db.dates@.len(),
            r@ == spec_dashboard(db.dates@.take(i as int), db.bookings@, day),
        decreases db.dates@.len() - i,
    {
        proof {
            assert(db.dates@.take(i + 1).drop_last() =~= db.dates@.take(i as int));
            assert(db.dates@.take(i + 1).last() == db.dates@[i as int]);
        }
        let d = &db.dates[i];
        let in_window = day <= d.from_date && (d.from_date as u128) <= (day as u128) + 1440;
        if in_window {
            let booking = match db.booking_index_for_date(d.id) {
                Some(b) => {
                    proof {
                        crate::store::lemma_find_booking_for_unique(db.bookings@, d.id);
                    }
                    let rec = &db.bookings[b];
                    Some(
                        Booking {
                            email: rec.email.clone(),
                            person_name: rec.person_name.clone(),
                            notes: rec.notes.clone(),
                            voice: rec.voice,
                        },
                    )
                },
                None => {
                    proof {
                        crate::store::lemma_find_booking_for_unique(db.bookings@, d.id);
                        if spec_find_booking_for(db.bookings@, d.id) is Some {
                            let b0 = spec_find_booking_for(db.bookings@, d.id).unwrap();
                            assert(db.bookings@.contains(b0));
                            let w = choose|w: int|
                                0 <= w < db.bookings@.len() && db.bookings@[w] == b0;
                            assert(crate::store::has_booking_for(db.bookings@, d.id));
                        }
                    }
                    None
                },
            };
            r.push(
                BookableDate {
                    id: d.id,
                    from_date: d.from_date,
                    to_date: d.to_date,
                    room_number: d.room_number.clone(),
                    booking,
                    date_type: d.date_type,
                },
            );
        }
        i += 1;
    }
    proof {
        assert(db.dates@.take(db.dates@.len() as int) =~= db.dates@);
    }
    r
}

} // verus!

use vstd::prelude::*;

verus! {

/// The candidates the administrator ticked, in order.
pub open spec fn spec_selected(dates: Seq<Date>, sel: Seq<bool>) -> Seq<Date>
    decreases dates.len(),
{
    if dates.len() == 0 || sel.len() == 0 {
        Seq::empty()
    } else {
        (if sel[0] {
            seq![dates[0]]
        } else {
            Seq::empty()
        }) + spec_selected(dates.skip(1), sel.skip(1))
    }
}

/// Whether a persisted slot carries the same data as a candidate.
pub open spec fn spec_same_slot(d: StoredDate, c: Date) -> bool {
    d.from_date == c.from_date && d.to_date == c.to_date && d.room_id == c.room_id && d.date_type
        == c.date_type
}

/// Whether a candidate was already persisted.
pub open spec fn spec_already_persisted(dates: Seq<StoredDate>, c: Date) -> bool {
    exists|i: int| 0 <= i < dates.len() && spec_same_slot(#[trigger] dates[i], c)
}

/// Whether a ticked candidate may be persisted: a non-empty interval, an
/// existing room, and no identical slot already stored.
pub open spec fn spec_candidate_ok(db: Database, c: Date) -> bool {
    &&& c.from_date < c.to_date
    &&& crate::store::spec_find_room(db.rooms@, c.room_id) is Some
    &&& !spec_already_persisted(db.dates@, c)
}

/// The date types of the batch, first occurrence first.
pub open spec fn spec_distinct_types(s: Seq<Date>) -> Seq<DateType>
    decreases s.len(),
{
    if s.len() == 0 {
        Seq::empty()
    } else {
        let rest = spec_distinct_types(s.drop_last());
        if rest.contains(s.last().date_type) {
            rest
        } else {
            rest.push(s.last().date_type)
        }
    }
}

/// Whether the vector holds the date type.
fn contains_date_type(v: &Vec<DateType>, x: DateType) -> (r: bool)
    ensures
        r == v@.contains(x),
{
    let mut i: usize = 0;
    while i < v.len()
        invariant
            i <= v@.len(),
            forall|j: int| 0 <= j < i ==> v@[j] != x,
        decreases v@.len() - i,
    {
        if v[i] == x {
            assert(v@[i as int] == x);
            return true;
        }
        i += 1;
    }
    false
}

/// Decides `spec_already_persisted`.
fn already_persisted(db: &Database, c: &Date) -> (r: bool)
    ensures
        r == spec_already_persisted(db.dates@, *c),
{
    let mut i: usize = 0;
    while i < db.dates.len()
        invariant
            i <= db.dates@.len(),
            forall|j: int| 0 <= j < i ==> !spec_same_slot(#[trigger] db.dates@[j], *c),
        decreases db.dates@.len() - i,
    {
        let d = &db.dates[i];
        if d.from_date == c.from_date && d.to_date == c.to_date && d.room_id == c.room_id
            && d.date_type == c.date_type {
            assert(spec_same_slot(db.dates@[i as int], *c));
            return true;
        }
        i += 1;
    }
    false
}

/// Persists the ticked subset of a proposed batch. The batch is
/// re-validated defensively: an inverted interval, an unknown room or an
/// already-persisted slot aborts the whole batch unchanged. On success the
/// distinct date types of the batch are handed back so their waiting lists
/// can be notified.
#[verifier::loop_isolation(false)]
#[verifier::rlimit(50)]
pub fn confirm_dates(db: &mut Database, form: &DateNew2Form) -> (r: Result<Vec<DateType>, Message>)
    requires
        old(db).wf(),
        old(db).next_date_id + form.dates@.len() <= u64::MAX,
    ensures
        final(db).wf(),
        ({
            let sel = spec_selected(form.dates@, form.date_selected@);
            match r {
                Err(m) => {
                    &&& *final(db) == *old(db)
                    &&& m.text_key@ == "invalid-buffered-dates"@
                    &&& m.message_type == MessageType::Error
                    &&& !(forall|k: int|
                        0 <= k < sel.len() ==> spec_candidate_ok(*old(db), #[trigger] sel[k]))
                },
                Ok(types) => {
                    &&& forall|k: int|
                        0 <= k < sel.len() ==> spec_candidate_ok(*old(db), #[trigger] sel[k])
                    &&& types@ == spec_distinct_types(sel)
                    &&& final(db).dates@.len() == old(db).dates@.len() + sel.len()
                    &&& forall|x: StoredDate|
                        old(db).dates@.contains(x) ==> final(db).dates@.contains(x)
                    &&& forall|k: int|
                        0 <= k < sel.len() ==> exists|x: StoredDate|
                            {
                                &&& #[trigger] final(db).dates@.contains(x)
                                &&& x.id == old(db).next_date_id + k
                                &&& spec_same_slot(x, #[trigger] sel[k])
                                &&& x.room_number@ == crate::store::spec_find_room(
                                    old(db).rooms@,
                                    sel[k].room_id,
                                ).unwrap().room_number@
                            }
                    &&& final(db).next_date_id == old(db).next_date_id + sel.len()
                    &&& final(db).rooms == old(db).rooms
                    &&& final(db).bookings == old(db).bookings
                    &&& final(db).waiting_list == old(db).waiting_list
                    &&& final(db).announcements == old(db).announcements
                    &&& final(db).next_room_id == old(db).next_room_id
                },
            }
        }),
{
    let ghost selspec = spec_selected(form.dates@, form.date_selected@);
    let n = if form.dates.len() < form.date_selected.len() {
        form.dates.len()
    } else {
        form.date_selected.len()
    };
    let mut sel: Vec<Date> = Vec::new();
    let mut i: usize = 0;
    proof {
        assert(form.dates@.skip(0) =~= form.dates@);
        assert(form.date_selected@.skip(0) =~= form.date_selected@);
    }
    while i < n
        invariant
            i <= n,
            n <= form.dates@.len(),
            sel@.len() <= i,
            sel@ + spec_selected(form.dates@.skip(i as int), form.date_selected@.skip(i as int))
                == selspec,
        decreases n - i,
    {
        proof {
            assert(form.dates@.skip(i as int)[0] == form.dates@[i as int]);
            assert(form.dates@.skip(i as int).skip(1) =~= form.dates@.skip(i + 1));
            assert(form.date_selected@.skip(i as int)[0] == form.date_selected@[i as int]);
            assert(form.date_selected@.skip(i as int).skip(1) =~= form.date_selected@.skip(i + 1));
        }
        if form.date_selected[i] {
            sel.push(form.dates[i]);
        }
        proof {
            assert(sel@ + spec_selected(
                form.dates@.skip(i + 1),
                form.date_selected@.skip(i + 1),
            ) =~= selspec) by {
                if form.date_selected@[i as int] {
                    assert(sel@.drop_last() + (seq![form.dates@[i as int]] + spec_selected(
                        form.dates@.skip(i + 1),
                        form.date_selected@.skip(i + 1),
                    )) =~= sel@ + spec_selected(
                        form.dates@.skip(i + 1),
                        form.date_selected@.skip(i + 1),
                    ));
                }
            }
        }
        i += 1;
    }
    proof {
        assert(spec_selected(
            form.dates@.skip(i as int),
            form.date_selected@.skip(i as int),
        ) =~= Seq::<Date>::empty());
        assert(sel@ + Seq::<Date>::empty() =~= sel@);
        assert(sel@ == selspec);
    }
    // Defensive re-validation of the whole batch.
    let mut k: usize = 0;
    while k < sel.len()
        invariant
            k <= sel@.len(),
            sel@ == selspec,
            forall|j: int| 0 <= j < k ==> spec_candidate_ok(*old(db), #[trigger] sel@[j]),
            db == old(db),
        decreases sel@.len() - k,
    {
        let c = &sel[k];
        let ok = c.from_date < c.to_date && db.room_index(c.room_id).is_some()
            && !already_persisted(db, c);
        if !ok {
            return Err(
                Message {
                    text_key: "invalid-buffered-dates".to_owned(),
                    message_type: MessageType::Error,
                },
            );
        }
        k += 1;
    }
    // Persist the batch.
    let mut k: usize = 0;
    while k < sel.len()
        invariant
            k <= sel@.len(),
            sel@ == selspec,
            sel@.len() <= form.dates@.len(),
            forall|j: int| 0 <= j < sel@.len() ==> spec_candidate_ok(*old(db), #[trigger] sel@[j]),
            db.wf(),
            db.next_date_id == old(db).next_date_id + k,
            db.dates@.len() == old(db).dates@.len() + k,
            forall|x: StoredDate| old(db).dates@.contains(x) ==> db.dates@.contains(x),
            forall|j: int|
                0 <= j < k ==> exists|x: StoredDate|
                    {
                        &&& #[trigger] db.dates@.contains(x)
                        &&& x.id == old(db).next_date_id + j
                        &&& spec_same_slot(x, #[trigger] sel@[j])
                        &&& x.room_number@ == crate::store::spec_find_room(
                            old(db).rooms@,
                            sel@[j].room_id,
                        ).unwrap().room_number@
                    },
            db.rooms == old(db).rooms,
            db.bookings == old(db).bookings,
            db.waiting_list == old(db).waiting_list,
            db.announcements == old(db).announcements,
            db.next_room_id == old(db).next_room_id,
        decreases sel@.len() - k,
    {
        let c = sel[k];
        let ridx = match db.room_index(c.room_id) {
            Some(ridx) => ridx,
            None => {
                proof {
                    assert(spec_candidate_ok(*old(db), sel@[k as int]));
                    assert(false);
                }
                return Err(
                    Message {
                        text_key: "invalid-buffered-dates".to_owned(),
                        message_type: MessageType::Error,
                    },
                );
            },
        };
        let room_number = db.rooms[ridx].room_number.clone();
        let sd = StoredDate {
            id: db.next_date_id,
            from_date: c.from_date,
            to_date: c.to_date,
            room_id: c.room_id,
            room_number,
            date_type: c.date_type,
        };
        proof {
            assert(spec_candidate_ok(*old(db), sel@[k as int]));
        }
        let ghost pre = db.dates@;
        db.insert_date(sd);
        proof {
            assert(db.dates@.contains(sd));
            assert forall|j: int|
                0 <= j < k + 1 implies exists|x: StoredDate|
                {
                    &&& #[trigger] db.dates@.contains(x)
                    &&& x.id == old(db).next_date_id + j
                    &&& spec_same_slot(x, #[trigger] sel@[j])
                    &&& x.room_number@ == crate::store::spec_find_room(
                        old(db).rooms@,
                        sel@[j].room_id,
                    ).unwrap().room_number@
                } by {
                if j < k {
                    let x0 = choose|x0: StoredDate|
                        {
                            &&& #[trigger] pre.contains(x0)
                            &&& x0.id == old(db).next_date_id + j
                            &&& spec_same_slot(x0, sel@[j])
                            &&& x0.room_number@ == crate::store::spec_find_room(
                                old(db).rooms@,
                                sel@[j].room_id,
                            ).unwrap().room_number@
                        };
                    assert(db.dates@.contains(x0));
                } else {
                    assert(sd.id == old(db).next_date_id + j && spec_same_slot(sd, sel@[j]));
                }
            }
        }
        k += 1;
    }
    // The distinct date types of the batch, to notify their waiting lists.
    let mut types: Vec<DateType> = Vec::new();
    let mut k: usize = 0;
    proof {
        assert(sel@.take(0) =~= Seq::<Date>::empty());
    }
    while k < sel.len()
        invariant
            k <= sel@.len(),
            sel@ == selspec,
            types@ == spec_distinct_types(sel@.take(k as int)),
        decreases sel@.len() - k,
    {
        proof {
            assert(sel@.take(k + 1).drop_last() =~= sel@.take(k as int));
            assert(sel@.take(k + 1).last() == sel@[k as int]);
        }
        let t = sel[k].date_type;
        if !contains_date_type(&types, t) {
            types.push(t);
        }
        k += 1;
    }
    proof {
        assert(sel@.take(sel@.len() as int) =~= sel@);
    }
    Ok(types)
}

} // verus!

use vstd::prelude::*;

verus! {

/// The first explanation configured for a language, if any.
pub open spec fn spec_lookup_explanation(
    ex: Seq<(String, String)>,
    lang: Seq<char>,
) -> Option<String>
    decreases ex.len(),
{
    if ex.len() == 0 {
        None
    } else if ex[0].0@ == lang {
        Some(ex[0].1)
    } else {
        spec_lookup_explanation(ex.skip(1), lang)
    }
}

/// The slots after every listed id was removed in order.
pub open spec fn spec_cancel_dates(s: Seq<StoredDate>, ids: Seq<u64>) -> Seq<StoredDate>
    decreases ids.len(),
{
    if ids.len() == 0 {
        s
    } else {
        spec_cancel_dates(crate::store::spec_remove_date(s, ids[0]), ids.skip(1))
    }
}

/// The bookings after the occupant of every listed slot was removed.
pub open spec fn spec_cancel_bookings(
    s: Seq<crate::store::BookingRecord>,
    ids: Seq<u64>,
) -> Seq<crate::store::BookingRecord>
    decreases ids.len(),
{
    if ids.len() == 0 {
        s
    } else {
        spec_cancel_bookings(crate::store::spec_remove_booking_for(s, ids[0]), ids.skip(1))
    }
}

/// The notices owed to the parties whose bookings the cancellation
/// removes; a notice is skipped where the explanation for the party's
/// language is absent or empty.
pub open spec fn spec_cancel_notices(
    bookings: Seq<crate::store::BookingRecord>,
    ids: Seq<u64>,
    ex: Seq<(String, String)>,
) -> Seq<CancelNotice>
    decreases ids.len(),
{
    if ids.len() == 0 {
        Seq::empty()
    } else {
        let head = match spec_find_booking_for(bookings, ids[0]) {
            Some(b) => match spec_lookup_explanation(ex, b.lang@) {
                Some(t) => if t@.len() > 0 {
                    seq![CancelNotice { email: b.email, lang: b.lang, explanation: t }]
                } else {
                    Seq::empty()
                },
                None => Seq::empty(),
            },
            None => Seq::empty(),
        };
        head + spec_cancel_notices(
            crate::store::spec_remove_booking_for(bookings, ids[0]),
            ids.skip(1),
            ex,
        )
    }
}

/// The date types of the slots the cancellation removes, in order, one
/// entry per removed slot.
pub open spec fn spec_cancelled_types(s: Seq<StoredDate>, ids: Seq<u64>) -> Seq<DateType>
    decreases ids.len(),
{
    if ids.len() == 0 {
        Seq::empty()
    } else {
        let head = match spec_find_date(s, ids[0]) {
            Some(d) => seq![d.date_type],
            None => Seq::empty(),
        };
        head + spec_cancelled_types(crate::store::spec_remove_date(s, ids[0]), ids.skip(1))
    }
}

/// A date-type list with later repetitions dropped.
pub open spec fn spec_distinct_datetypes(s: Seq<DateType>) -> Seq<DateType>
    decreases s.len(),
{
    if s.len() == 0 {
        Seq::empty()
    } else {
        let rest = spec_distinct_datetypes(s.drop_last());
        if rest.contains(s.last()) {
            rest
        } else {
            rest.push(s.last())
        }
    }
}

/// The index of the first explanation for a language, if any.
#[verifier::loop_isolation(false)]
fn explanation_index(ex: &Vec<(String, String)>, lang: &str) -> (r: Option<usize>)
    ensures
        match r {
            Some(i) => i < ex@.len() && spec_lookup_explanation(ex@, lang@) == Some(
                ex@[i as int].1,
            ),
            None => spec_lookup_explanation(ex@, lang@) is None,
        },
{
    let mut i: usize = 0;
    proof {
        assert(ex@.skip(0) =~= ex@);
    }
    while i < ex.len()
        invariant
            i <= ex@.len(),
            spec_lookup_explanation(ex@, lang@) == spec_lookup_explanation(
                ex@.skip(i as int),
                lang@,
            ),
        decreases ex@.len() - i,
    {
        proof {
            assert(ex@.skip(i as int)[0] == ex@[i as int]);
            assert(ex@.skip(i as int).skip(1) =~= ex@.skip(i + 1));
        }
        if str_eq(ex[i].0.as_str(), lang) {
            return Some(i);
        }
        i += 1;
    }
    None
}

/// Cancels the listed slots outright: each occupant that has a non-empty
/// explanation in its language is owed a notice, every occupant's booking
/// is removed, and the slots themselves are deleted. The distinct date
/// types of the removed slots are handed back so their waiting lists can
/// be notified.
#[verifier::loop_isolation(false)]
#[verifier::rlimit(100)]
pub fn cancel_dates(db: &mut Database, form: &DateCancelForm) -> (r: (
    Vec<CancelNotice>,
    Vec<DateType>,
))
    requires
        old(db).wf(),
    ensures
        final(db).wf(),
        final(db).dates@ == spec_cancel_dates(old(db).dates@, form.dates@),
        final(db).bookings@ == spec_cancel_bookings(old(db).bookings@, form.dates@),
        r.0@ == spec_cancel_notices(old(db).bookings@, form.dates@, form.explanations@),
        r.1@ == spec_distinct_datetypes(spec_cancelled_types(old(db).dates@, form.dates@)),
        final(db).rooms == old(db).rooms,
        final(db).waiting_list == old(db).waiting_list,
        final(db).announcements == old(db).announcements,
        final(db).next_room_id == old(db).next_room_id,
        final(db).next_date_id == old(db).next_date_id,
{
    let ids = &form.dates;
    let mut notices: Vec<CancelNotice> = Vec::new();
    let mut raw_types: Vec<DateType> = Vec::new();
    let mut k: usize = 0;
    proof {
        assert(ids@.skip(0) =~= ids@);
    }
    while k < ids.len()
        invariant
            k <= ids@.len(),
            db.wf(),
            spec_cancel_dates(db.dates@, ids@.skip(k as int)) == spec_cancel_dates(
                old(db).dates@,
                ids@,
            ),
            spec_cancel_bookings(db.bookings@, ids@.skip(k as int)) == spec_cancel_bookings(
                old(db).bookings@,
                ids@,
            ),
            notices@ + spec_cancel_notices(db.bookings@, ids@.skip(k as int), form.explanations@)
                == spec_cancel_notices(old(db).bookings@, ids@, form.explanations@),
            raw_types@ + spec_cancelled_types(db.dates@, ids@.skip(k as int))
                == spec_cancelled_types(old(db).dates@, ids@),
            db.rooms == old(db).rooms,
            db.waiting_list == old(db).waiting_list,
            db.announcements == old(db).announcements,
            db.next_room_id == old(db).next_room_id,
            db.next_date_id == old(db).next_date_id,
        decreases ids@.len() - k,
    {
        proof {
            assert(ids@.skip(k as int)[0] == ids@[k as int]);
            assert(ids@.skip(k as int).skip(1) =~= ids@.skip(k + 1));
        }
        let id = ids[k];
        let ghost bookings_pre = db.bookings@;
        // The occupant, if any: collect its notice and remove the booking.
        match db.booking_index_for_date(id) {
            Some(bidx) => {
                proof {
                    crate::store::lemma_find_booking_for_unique(bookings_pre, id);
                }
                let rec_email = db.bookings[bidx].email.clone();
                let rec_lang = db.bookings[bidx].lang.clone();
                match explanation_index(&form.explanations, rec_lang.as_str()) {
                    Some(e) => {
                        if form.explanations[e].1.unicode_len() > 0 {
                            notices.push(
                                CancelNotice {
                                    email: rec_email,
                                    lang: rec_lang,
                                    explanation: form.explanations[e].1.clone(),
                                },
                            );
                        }
                    },
                    None => {},
                }
                db.bookings.remove(bidx);
                proof {
                    bookings_pre.remove_ensures(bidx as int);
                    assert forall|i: int|
                        0 <= i < bidx implies (#[trigger] bookings_pre[i]).date_id != id by {
                        assert(bookings_pre[bidx as int].date_id == id);
                    }
                    crate::store::lemma_remove_booking_for_at(bookings_pre, id, bidx as int);
                    assert(forall|a: int|
                        0 <= a < bidx ==> #[trigger] db.bookings@[a] == bookings_pre[a]);
                    assert(forall|a: int|
                        bidx <= a < db.bookings@.len() ==> #[trigger] db.bookings@[a]
                            == bookings_pre[a + 1]);
                    assert forall|a: int, b: int|
                        #![trigger db.bookings@[a], db.bookings@[b]]
                        0 <= a < b < db.bookings@.len() implies db.bookings@[a].date_id
                        != db.bookings@[b].date_id && db.bookings@[a].token
                        != db.bookings@[b].token by {
                        let a0 = if a < bidx { a } else { a + 1 };
                        let b0 = if b < bidx { b } else { b + 1 };
                        assert(db.bookings@[a] == bookings_pre[a0]);
                        assert(db.bookings@[b] == bookings_pre[b0]);
                    }
                    assert forall|a: int|
                        0 <= a < db.bookings@.len() implies spec_find_date(
                        db.dates@,
                        (#[trigger] db.bookings@[a]).date_id,
                    ) is Some by {
                        let a0 = if a < bidx { a } else { a + 1 };
                        assert(db.bookings@[a] == bookings_pre[a0]);
                    }
                }
            },
            None => {
                proof {
                    crate::store::lemma_find_booking_for_unique(bookings_pre, id);
                    crate::store::lemma_remove_booking_for_absent(bookings_pre, id);
                }
            },
        }
        // Remaining bookings never reference the slot being deleted.
        proof {
            assert forall|a: int|
                0 <= a < db.bookings@.len() implies (#[trigger] db.bookings@[a]).date_id != id by {
                crate::store::lemma_find_booking_for_unique(bookings_pre, id);
            }
        }
        // Delete the slot itself, remembering its date type.
        let ghost dates_pre = db.dates@;
        match db.date_index(id) {
            Some(didx) => {
                raw_types.push(db.dates[didx].date_type);
                db.dates.remove(didx);
                proof {
                    dates_pre.remove_ensures(didx as int);
                    assert forall|i: int|
                        0 <= i < didx implies (#[trigger] dates_pre[i]).id != id by {
                        assert(dates_pre[didx as int].id == id);
                    }
                    crate::store::lemma_remove_date_at(dates_pre, id, didx as int);
                    assert(forall|a: int|
                        0 <= a < didx ==> #[trigger] db.dates@[a] == dates_pre[a]);
                    assert(forall|a: int|
                        didx <= a < db.dates@.len() ==> #[trigger] db.dates@[a] == dates_pre[a
                            + 1]);
                    assert forall|a: int, b: int|
                        #![trigger db.dates@[a], db.dates@[b]]
                        0 <= a < b < db.dates@.len() implies crate::store::date_lt(
                        db.dates@[a],
                        db.dates@[b],
                    ) && db.dates@[a].id != db.dates@[b].id by {
                        let a0 = if a < didx { a } else { a + 1 };
                        let b0 = if b < didx { b } else { b + 1 };
                        assert(db.dates@[a] == dates_pre[a0]);
                        assert(db.dates@[b] == dates_pre[b0]);
                    }
                    assert forall|a: int|
                        0 <= a < db.dates@.len() implies (#[trigger] db.dates@[a]).id
                        < db.next_date_id && db.dates@[a].from_date < db.dates@[a].to_date by {
                        let a0 = if a < didx { a } else { a + 1 };
                        assert(db.dates@[a] == dates_pre[a0]);
                    }
                    assert forall|a: int|
                        0 <= a < db.bookings@.len() implies spec_find_date(
                        db.dates@,
                        (#[trigger] db.bookings@[a]).date_id,
                    ) is Some by {
                        crate::store::lemma_find_date_is_has(dates_pre, db.bookings@[a].date_id);
                        crate::store::lemma_find_date_is_has(db.dates@, db.bookings@[a].date_id);
                        let w = choose|w: int|
                            0 <= w < dates_pre.len() && (#[trigger] dates_pre[w]).id
                                == db.bookings@[a].date_id;
                        assert(w != didx);
                        if w < didx {
                            assert(db.dates@[w].id == db.bookings@[a].date_id);
                        } else {
                            assert(db.dates@[w - 1].id == db.bookings@[a].date_id);
                        }
                    }
                }
            },
            None => {
                proof {
                    crate::store::lemma_find_date_is_has(dates_pre, id);
                    assert forall|i: int|
                        0 <= i < dates_pre.len() implies (#[trigger] dates_pre[i]).id != id by {
                        if dates_pre[i].id == id {
                            assert(crate::store::has_date_id(dates_pre, id));
                        }
                    }
                    crate::store::lemma_remove_date_absent(dates_pre, id);
                }
            },
        }
        k += 1;
    }
    proof {
        assert(ids@.skip(ids@.len() as int) =~= Seq::<u64>::empty());
        assert(notices@ + Seq::<CancelNotice>::empty() =~= notices@);
        assert(raw_types@ + Seq::<DateType>::empty() =~= raw_types@);
    }
    let mut types: Vec<DateType> = Vec::new();
    let mut t: usize = 0;
    proof {
        assert(raw_types@.take(0) =~= Seq::<DateType>::empty());
    }
    while t < raw_types.len()
        invariant
            t <= raw_types@.len(),
            types@ == spec_distinct_datetypes(raw_types@.take(t as int)),
        decreases raw_types@.len() - t,
    {
        proof {
            assert(raw_types@.take(t + 1).drop_last() =~= raw_types@.take(t as int));
            assert(raw_types@.take(t + 1).last() == raw_types@[t as int]);
        }
        if !contains_date_type(&types, raw_types[t]) {
            types.push(raw_types[t]);
        }
        t += 1;
    }
    proof {
        assert(raw_types@.take(raw_types@.len() as int) =~= raw_types@);
    }
    (notices, types)
}

} // verus!
