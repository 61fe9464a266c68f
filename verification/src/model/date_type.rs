//! Date types, voices, and the availability pipeline that decides which
//! slots a viewer may book.

use vstd::prelude::*;

use crate::store::{
    has_booking_for, spec_find_date, spec_find_waiting_by_token, BookingRecord, Database,
    StoredDate,
};
use crate::util::{datetime_to_day, spec_day_of, str_eq};
use crate::{spec_deadline_of, Config};

verus! {

/// A category of bookable activity; it decides which voices are valid and
/// which deadline and waiting-list pool apply. The offered categories and
/// their voice sets are the organisation's shipped configuration, fixed in
/// code here rather than read from a lookup table.
#[derive(Clone, Copy, PartialEq, Eq, Structural, Debug)]
pub enum DateType {
    Choir,
    Orchestra,
    ChamberChoir,
}

/// A role a booking party selects; each date type allows a fixed set.
#[derive(Clone, Copy, PartialEq, Eq, Structural, Debug)]
pub enum Voice {
    Female,
    Male,
    Violin,
    Trumpet,
    Horn,
    Soprano,
    Alto,
    Tenor,
    Bass,
}

/// A machine value together with its translation key, for rendering layers.
#[derive(Clone, Copy, Debug)]
pub struct InteropEnumTera {
    pub display_name: &'static str,
    pub value: &'static str,
}

/// The stable machine key of a date type.
pub open spec fn spec_date_type_value(d: DateType) -> Seq<char> {
    match d {
        DateType::Choir => "choir"@,
        DateType::Orchestra => "orchestra"@,
        DateType::ChamberChoir => "chamber-choir"@,
    }
}

/// The translation key of a date type's display name.
pub open spec fn spec_date_type_display(d: DateType) -> Seq<char> {
    match d {
        DateType::Choir => "date-type-choir"@,
        DateType::Orchestra => "date-type-orchestra"@,
        DateType::ChamberChoir => "date-type-chamber-choir"@,
    }
}

/// Position of a date type in the order of its machine keys; it is the
/// tie-break order of overview and dashboard listings.
pub open spec fn spec_date_type_rank(d: DateType) -> int {
    match d {
        DateType::ChamberChoir => 0,
        DateType::Choir => 1,
        DateType::Orchestra => 2,
    }
}

/// The stable machine key of a voice.
pub open spec fn spec_voice_value(v: Voice) -> Seq<char> {
    match v {
        Voice::Female => "female"@,
        Voice::Male => "male"@,
        Voice::Violin => "violin"@,
        Voice::Trumpet => "trumpet"@,
        Voice::Horn => "horn"@,
        Voice::Soprano => "soprano"@,
        Voice::Alto => "alto"@,
        Voice::Tenor => "tenor"@,
        Voice::Bass => "bass"@,
    }
}

/// The translation key of a voice's display name.
pub open spec fn spec_voice_display(v: Voice) -> Seq<char> {
    match v {
        Voice::Female => "voice-female"@,
        Voice::Male => "voice-male"@,
        Voice::Violin => "voice-violin"@,
        Voice::Trumpet => "voice-trumpet"@,
        Voice::Horn => "voice-horn"@,
        Voice::Soprano => "voice-soprano"@,
        Voice::Alto => "voice-alto"@,
        Voice::Tenor => "voice-tenor"@,
        Voice::Bass => "voice-bass"@,
    }
}

/// The date types that are offered for new slots.
pub open spec fn spec_date_type_variants() -> Seq<DateType> {
    seq![DateType::Choir, DateType::ChamberChoir]
}

/// The voices that are valid for a date type.
pub open spec fn spec_voices_of(d: DateType) -> Seq<Voice> {
    match d {
        DateType::Choir => seq![Voice::Female, Voice::Male],
        DateType::Orchestra => seq![Voice::Violin, Voice::Trumpet, Voice::Horn],
        DateType::ChamberChoir => seq![Voice::Soprano, Voice::Alto, Voice::Tenor, Voice::Bass],
    }
}

impl DateType {
    /// The stable machine key of this date type.
    pub fn get_value(&self) -> (r: &'static str)
        ensures
            r@ == spec_date_type_value(*self),
    {
        match self {
            DateType::Choir => "choir",
            DateType::Orchestra => "orchestra",
            DateType::ChamberChoir => "chamber-choir",
        }
    }

    /// The machine key paired with the display-name translation key.
    pub fn tera(&self) -> (r: InteropEnumTera)
        ensures
            r.value@ == spec_date_type_value(*self),
            r.display_name@ == spec_date_type_display(*self),
    {
        match self {
            DateType::Choir => InteropEnumTera {
                value: "choir",
                display_name: "date-type-choir",
            },
            DateType::Orchestra => InteropEnumTera {
                value: "orchestra",
                display_name: "date-type-orchestra",
            },
            DateType::ChamberChoir => InteropEnumTera {
                value: "chamber-choir",
                display_name: "date-type-chamber-choir",
            },
        }
    }

    /// The date type whose machine key is `value`, if any.
    pub fn get_by_value(value: &str) -> (r: Option<DateType>)
        ensures
            r == spec_date_type_by_value(value@),
    {
        if str_eq(value, "choir") {
            Some(DateType::Choir)
        } else if str_eq(value, "orchestra") {
            Some(DateType::Orchestra)
        } else if str_eq(value, "chamber-choir") {
            Some(DateType::ChamberChoir)
        } else {
            None
        }
    }

    /// The date types that are offered for new slots.
    pub fn get_variants() -> (r: Vec<DateType>)
        ensures
            r@ == spec_date_type_variants(),
    {
        let v = vec![DateType::Choir, DateType::ChamberChoir];
        assert(v@ =~= spec_date_type_variants());
        v
    }

    /// The offered date types, each as key and display-name translation key.
    pub fn get_variants_tera() -> (r: Vec<InteropEnumTera>)
        ensures
            r@.len() == spec_date_type_variants().len(),
            forall|i: int|
                0 <= i < r@.len() ==> r@[i].value@ == spec_date_type_value(
                    spec_date_type_variants()[i],
                ) && r@[i].display_name@ == spec_date_type_display(spec_date_type_variants()[i]),
    {
        let variants = Self::get_variants();
        let mut r: Vec<InteropEnumTera> = Vec::new();
        let mut i: usize = 0;
        while i < variants.len()
            invariant
                i <= variants@.len(),
                variants@ == spec_date_type_variants(),
                r@.len() == i,
                forall|j: int|
                    0 <= j < i ==> r@[j].value@ == spec_date_type_value(spec_date_type_variants()[j])
                        && r@[j].display_name@ == spec_date_type_display(
                        spec_date_type_variants()[j],
                    ),
            decreases variants@.len() - i,
        {
            r.push(variants[i].tera());
            i += 1;
        }
        r
    }

    /// The voices that are valid for this date type.
    pub fn get_voices(&self) -> (r: Vec<Voice>)
        ensures
            r@ == spec_voices_of(*self),
    {
        match self {
            DateType::Choir => {
                let v = vec![Voice::Female, Voice::Male];
                assert(v@ =~= spec_voices_of(*self));
                v
            },
            DateType::Orchestra => {
                let v = vec![Voice::Violin, Voice::Trumpet, Voice::Horn];
                assert(v@ =~= spec_voices_of(*self));
                v
            },
            DateType::ChamberChoir => {
                let v = vec![Voice::Soprano, Voice::Alto, Voice::Tenor, Voice::Bass];
                assert(v@ =~= spec_voices_of(*self));
                v
            },
        }
    }

    /// The valid voices, each as key and display-name translation key.
    pub fn get_voices_tera(&self) -> (r: Vec<InteropEnumTera>)
        ensures
            r@.len() == spec_voices_of(*self).len(),
            forall|i: int|
                0 <= i < r@.len() ==> r@[i].value@ == spec_voice_value(spec_voices_of(*self)[i])
                    && r@[i].display_name@ == spec_voice_display(spec_voices_of(*self)[i]),
    {
        let voices = self.get_voices();
        let mut r: Vec<InteropEnumTera> = Vec::new();
        let mut i: usize = 0;
        while i < voices.len()
            invariant
                i <= voices@.len(),
                voices@ == spec_voices_of(*self),
                r@.len() == i,
                forall|j: int|
                    0 <= j < i ==> r@[j].value@ == spec_voice_value(spec_voices_of(*self)[j])
                        && r@[j].display_name@ == spec_voice_display(spec_voices_of(*self)[j]),
            decreases voices@.len() - i,
        {
            r.push(voices[i].tera());
            i += 1;
        }
        r
    }

    /// The voice with machine key `value` that is valid for this date type.
    pub fn voice_by_value(&self, value: &str) -> (r: Option<Voice>)
        ensures
            r == spec_voice_for(*self, value@),
    {
        let voices = self.get_voices();
        let mut i: usize = 0;
        proof {
            assert(voices@.skip(0) =~= voices@);
        }
        while i < voices.len()
            invariant
                i <= voices@.len(),
                voices@ == spec_voices_of(*self),
                spec_voice_for(*self, value@) == first_voice_match(
                    voices@.skip(i as int),
                    value@,
                ),
            decreases voices@.len() - i,
        {
            proof {
                assert(voices@.skip(i as int)[0] == voices@[i as int]);
                assert(voices@.skip(i as int).skip(1) =~= voices@.skip(i + 1));
            }
            if str_eq(voices[i].get_value(), value) {
                return Some(voices[i]);
            }
            i += 1;
        }
        None
    }
}

/// The date type whose machine key is `s`, if any.
pub open spec fn spec_date_type_by_value(s: Seq<char>) -> Option<DateType> {
    if s == "choir"@ {
        Some(DateType::Choir)
    } else if s == "orchestra"@ {
        Some(DateType::Orchestra)
    } else if s == "chamber-choir"@ {
        Some(DateType::ChamberChoir)
    } else {
        None
    }
}

/// The first voice in `vs` whose machine key is `s`, if any.
pub open spec fn first_voice_match(vs: Seq<Voice>, s: Seq<char>) -> Option<Voice>
    decreases vs.len(),
{
    if vs.len() == 0 {
        None
    } else if spec_voice_value(vs[0]) == s {
        Some(vs[0])
    } else {
        first_voice_match(vs.skip(1), s)
    }
}

/// The valid voice of `d` whose machine key is `s`, if any.
pub open spec fn spec_voice_for(d: DateType, s: Seq<char>) -> Option<Voice> {
    first_voice_match(spec_voices_of(d), s)
}

impl Voice {
    /// The stable machine key of this voice.
    pub fn get_value(&self) -> (r: &'static str)
        ensures
            r@ == spec_voice_value(*self),
    {
        match self {
            Voice::Female => "female",
            Voice::Male => "male",
            Voice::Violin => "violin",
            Voice::Trumpet => "trumpet",
            Voice::Horn => "horn",
            Voice::Soprano => "soprano",
            Voice::Alto => "alto",
            Voice::Tenor => "tenor",
            Voice::Bass => "bass",
        }
    }

    /// The machine key paired with the display-name translation key.
    pub fn tera(&self) -> (r: InteropEnumTera)
        ensures
            r.value@ == spec_voice_value(*self),
            r.display_name@ == spec_voice_display(*self),
    {
        match self {
            Voice::Female => InteropEnumTera { value: "female", display_name: "voice-female" },
            Voice::Male => InteropEnumTera { value: "male", display_name: "voice-male" },
            Voice::Violin => InteropEnumTera { value: "violin", display_name: "voice-violin" },
            Voice::Trumpet => InteropEnumTera { value: "trumpet", display_name: "voice-trumpet" },
            Voice::Horn => InteropEnumTera { value: "horn", display_name: "voice-horn" },
            Voice::Soprano => InteropEnumTera { value: "soprano", display_name: "voice-soprano" },
            Voice::Alto => InteropEnumTera { value: "alto", display_name: "voice-alto" },
            Voice::Tenor => InteropEnumTera { value: "tenor", display_name: "voice-tenor" },
            Voice::Bass => InteropEnumTera { value: "bass", display_name: "voice-bass" },
        }
    }
}

} // verus!

use vstd::prelude::*;

verus! {

/// A slot as shown to viewers: the persisted fields joined with the room
/// number.
pub struct Date {
    pub id: u64,
    pub from_date: u64,
    pub to_date: u64,
    pub room_number: String,
    pub date_type: DateType,
}

/// The viewer-facing form of a persisted slot.
pub open spec fn spec_date_view(d: StoredDate) -> Date {
    Date {
        id: d.id,
        from_date: d.from_date,
        to_date: d.to_date,
        room_number: d.room_number,
        date_type: d.date_type,
    }
}

/// Whether a slot lies far enough in the future: under a rolling deadline
/// of `days_deadline` days its calendar day must be that many days ahead;
/// otherwise its start must not lie in the past.
pub open spec fn spec_passes_time(d: StoredDate, days_deadline: u32, now: u64) -> bool {
    if days_deadline > 0 {
        spec_day_of(d.from_date) >= spec_day_of(now) + (days_deadline as int) * 1440
    } else {
        d.from_date >= now
    }
}

/// An unoccupied slot of the requested date type that passes the time rule.
pub open spec fn spec_is_candidate(
    d: StoredDate,
    bookings: Seq<BookingRecord>,
    dt: DateType,
    days_deadline: u32,
    now: u64,
) -> bool {
    d.date_type == dt && !has_booking_for(bookings, d.id) && spec_passes_time(d, days_deadline, now)
}

/// The candidate slots of a date type, in store order.
pub open spec fn spec_filtered(
    dates: Seq<StoredDate>,
    bookings: Seq<BookingRecord>,
    dt: DateType,
    days_deadline: u32,
    now: u64,
) -> Seq<Date>
    decreases dates.len(),
{
    if dates.len() == 0 {
        Seq::empty()
    } else {
        let rest = spec_filtered(dates.drop_last(), bookings, dt, days_deadline, now);
        if spec_is_candidate(dates.last(), bookings, dt, days_deadline, now) {
            rest.push(spec_date_view(dates.last()))
        } else {
            rest
        }
    }
}

/// How many listed slots fall on the given calendar day.
pub open spec fn spec_count_on_day(s: Seq<Date>, day: int) -> int
    decreases s.len(),
{
    if s.len() == 0 {
        0
    } else {
        spec_count_on_day(s.drop_last(), day) + if spec_day_of(s.last().from_date) == day {
            1int
        } else {
            0int
        }
    }
}

/// Keeps, per calendar day, only the first `cap` slots of the list.
pub open spec fn spec_day_capped(s: Seq<Date>, cap: int) -> Seq<Date>
    decreases s.len(),
{
    if s.len() == 0 {
        s
    } else {
        let rest = spec_day_capped(s.drop_last(), cap);
        if spec_count_on_day(s.drop_last(), spec_day_of(s.last().from_date)) < cap {
            rest.push(s.last())
        } else {
            rest
        }
    }
}

/// Whether the overview is closed for this viewer: a configured deadline
/// has passed and the viewer holds no early-registrant bypass.
pub open spec fn spec_gated(config: Config, dt: DateType, now: u64, access: bool) -> bool {
    !access && match spec_deadline_of(config.application_deadlines@, dt) {
        Some(dl) => now >= dl,
        None => false,
    }
}

/// The overview a viewer sees: an empty list after the deadline without a
/// bypass; otherwise the candidate slots, capped per calendar day.
pub open spec fn spec_available_dates(
    db: Database,
    dt: DateType,
    config: Config,
    now: u64,
    access: bool,
) -> Seq<Date> {
    if spec_gated(config, dt, now, access) {
        Seq::empty()
    } else {
        let f = spec_filtered(db.dates@, db.bookings@, dt, config.days_deadline, now);
        if config.dates_per_day == 0 {
            f
        } else {
            spec_day_capped(f, config.dates_per_day as int)
        }
    }
}

/// The first listed slot with this id, if any.
pub open spec fn spec_first_with_id(s: Seq<Date>, id: u64) -> Option<Date>
    decreases s.len(),
{
    if s.len() == 0 {
        None
    } else if s[0].id == id {
        Some(s[0])
    } else {
        spec_first_with_id(s.skip(1), id)
    }
}

/// Whether this viewer may still see the date type: either no deadline is
/// configured, or the presented waiting-list token was entered before it.
pub open spec fn spec_check_access(
    db: Database,
    dt: DateType,
    token: Option<u64>,
    config: Config,
) -> bool {
    match spec_deadline_of(config.application_deadlines@, dt) {
        None => true,
        Some(dl) => match token {
            None => false,
            Some(t) => match spec_find_waiting_by_token(db.waiting_list@, t) {
                Some(e) => e.entered < dl,
                None => false,
            },
        },
    }
}

/// The single-slot lookup: the same pipeline as the overview, searched for
/// the id.
pub open spec fn spec_available_date(
    db: Database,
    id: u64,
    config: Config,
    now: u64,
    token: Option<u64>,
) -> Option<Date> {
    match spec_find_date(db.dates@, id) {
        None => None,
        Some(d) => spec_first_with_id(
            spec_available_dates(
                db,
                d.date_type,
                config,
                now,
                spec_check_access(db, d.date_type, token, config),
            ),
            id,
        ),
    }
}

/// Decides `spec_passes_time` on one slot.
fn passes_time(d: &StoredDate, days_deadline: u32, now: u64) -> (r: bool)
    ensures
        r == spec_passes_time(*d, days_deadline, now),
{
    if days_deadline > 0 {
        (datetime_to_day(d.from_date) as u128) >= (datetime_to_day(now) as u128) + (
        days_deadline as u128) * 1440
    } else {
        d.from_date >= now
    }
}

/// Copies one listed slot.
fn clone_date(d: &Date) -> (r: Date)
    ensures
        r == *d,
{
    Date {
        id: d.id,
        from_date: d.from_date,
        to_date: d.to_date,
        room_number: d.room_number.clone(),
        date_type: d.date_type,
    }
}

/// Counts the slots on `day` among the first `upto` listed.
#[verifier::loop_isolation(false)]
fn count_on_day_prefix(v: &Vec<Date>, upto: usize, day: u64) -> (c: usize)
    requires
        upto <= v@.len(),
    ensures
        c as int == spec_count_on_day(v@.take(upto as int), day as int),
{
    let mut c: usize = 0;
    let mut j: usize = 0;
    proof {
        assert(v@.take(0) =~= Seq::<Date>::empty());
    }
    while j < upto
        invariant
            j <= upto,
            c <= j,
            c as int == spec_count_on_day(v@.take(j as int), day as int),
        decreases upto - j,
    {
        proof {
            assert(v@.take(j + 1).drop_last() =~= v@.take(j as int));
            assert(v@.take(j + 1).last() == v@[j as int]);
        }
        if datetime_to_day(v[j].from_date) == day {
            c += 1;
        }
        j += 1;
    }
    c
}

/// Keeps, per calendar day, only the first `cap` slots.
#[verifier::loop_isolation(false)]
fn apply_day_cap(v: Vec<Date>, cap: usize) -> (r: Vec<Date>)
    ensures
        r@ == spec_day_capped(v@, cap as int),
{
    let mut r: Vec<Date> = Vec::new();
    let mut i: usize = 0;
    proof {
        assert(v@.take(0) =~= Seq::<Date>::empty());
    }
    while i < v.len()
        invariant
            i <= v@.len(),
            r@ == spec_day_capped(v@.take(i as int), cap as int),
        decreases v@.len() - i,
    {
        proof {
            assert(v@.take(i + 1).drop_last() =~= v@.take(i as int));
            assert(v@.take(i + 1).last() == v@[i as int]);
        }
        let day = datetime_to_day(v[i].from_date);
        let cnt = count_on_day_prefix(&v, i, day);
        if cnt < cap {
            r.push(clone_date(&v[i]));
        }
        i += 1;
    }
    proof {
        assert(v@.take(v@.len() as int) =~= v@);
    }
    r
}

/// Whether this viewer may still see the date type (the early-registrant
/// bypass of the application deadline).
pub fn check_date_type_access(
    db: &Database,
    date_type: DateType,
    token: Option<u64>,
    config: &Config,
) -> (r: bool)
    ensures
        r == spec_check_access(*db, date_type, token, *config),
{
    match config.deadline_of(date_type) {
        None => true,
        Some(deadline) => match token {
            None => false,
            Some(t) => match db.waiting_index_for_token(t) {
                Some(i) => db.waiting_list[i].entered < deadline,
                None => false,
            },
        },
    }
}

impl Date {
    /// The overview of a date type for one viewer: unoccupied future slots,
    /// gated by the application deadline and capped per calendar day.
    #[verifier::loop_isolation(false)]
    pub fn get_available_dates(
        db: &Database,
        date_type: DateType,
        config: &Config,
        now: u64,
        ignore_waiting_list: bool,
    ) -> (r: Vec<Date>)
        requires
            db.wf(),
        ensures
            r@ == spec_available_dates(*db, date_type, *config, now, ignore_waiting_list),
    {
        if !ignore_waiting_list {
            if let Some(deadline) = config.deadline_of(date_type) {
                if now >= deadline {
                    return Vec::new();
                }
            }
        }
        let mut filtered: Vec<Date> = Vec::new();
        let mut i: usize = 0;
        proof {
            assert(db.dates@.take(0) =~= Seq::<StoredDate>::empty());
        }
        while i < db.dates.len()
            invariant
                i <= db.dates@.len(),
                filtered@ == spec_filtered(
                    db.dates@.take(i as int),
                    db.bookings@,
                    date_type,
                    config.days_deadline,
                    now,
                ),
            decreases db.dates@.len() - i,
        {
            proof {
                assert(db.dates@.take(i + 1).drop_last() =~= db.dates@.take(i as int));
                assert(db.dates@.take(i + 1).last() == db.dates@[i as int]);
            }
            let d = &db.dates[i];
            if d.date_type == date_type && db.booking_index_for_date(d.id).is_none() && passes_time(
                d,
                config.days_deadline,
                now,
            ) {
                filtered.push(
                    Date {
                        id: d.id,
                        from_date: d.from_date,
                        to_date: d.to_date,
                        room_number: d.room_number.clone(),
                        date_type: d.date_type,
                    },
                );
            } else {
                proof {
                    if d.date_type == date_type && spec_passes_time(
                        *d,
                        config.days_deadline,
                        now,
                    ) {
                        assert(has_booking_for(db.bookings@, d.id));
                    }
                }
            }
            i += 1;
        }
        proof {
            assert(db.dates@.take(db.dates@.len() as int) =~= db.dates@);
        }
        if config.dates_per_day == 0 {
            filtered
        } else {
            apply_day_cap(filtered, config.dates_per_day)
        }
    }

    /// The single-slot lookup; it applies the same pipeline as the overview
    /// and then searches for the id.
    #[verifier::loop_isolation(false)]
    pub fn get_available_date(
        db: &Database,
        id: u64,
        config: &Config,
        now: u64,
        token: Option<u64>,
    ) -> (r: Option<Date>)
        requires
            db.wf(),
        ensures
            r == spec_available_date(*db, id, *config, now, token),
    {
        let idx = match db.date_index(id) {
            None => {
                return None;
            },
            Some(idx) => idx,
        };
        let date_type = db.dates[idx].date_type;
        let access = check_date_type_access(db, date_type, token, config);
        let list = Self::get_available_dates(db, date_type, config, now, access);
        let mut i: usize = 0;
        proof {
            assert(list@.skip(0) =~= list@);
        }
        while i < list.len()
            invariant
                i <= list@.len(),
                spec_first_with_id(list@, id) == spec_first_with_id(list@.skip(i as int), id),
            decreases list@.len() - i,
        {
            proof {
                assert(list@.skip(i as int)[0] == list@[i as int]);
                assert(list@.skip(i as int).skip(1) =~= list@.skip(i + 1));
            }
            if list[i].id == id {
                let r = clone_date(&list[i]);
                return Some(r);
            }
            i += 1;
        }
        None
    }
}

} // verus!

use vstd::prelude::*;

verus! {

/// A listed slot is exactly the view of a stored, unoccupied, in-time slot
/// of the date type.
pub proof fn lemma_filtered_membership(
    dates: Seq<StoredDate>,
    bookings: Seq<BookingRecord>,
    dt: DateType,
    days_deadline: u32,
    now: u64,
    x: Date,
)
    ensures
        spec_filtered(dates, bookings, dt, days_deadline, now).contains(x) <==> exists|i: int|
            0 <= i < dates.len() && spec_is_candidate(
                #[trigger] dates[i],
                bookings,
                dt,
                days_deadline,
                now,
            ) && x == spec_date_view(dates[i]),
    decreases dates.len(),
{
    if dates.len() > 0 {
        lemma_filtered_membership(dates.drop_last(), bookings, dt, days_deadline, now, x);
        let rest = spec_filtered(dates.drop_last(), bookings, dt, days_deadline, now);
        let full = spec_filtered(dates, bookings, dt, days_deadline, now);
        assert(forall|i: int| 0 <= i < dates.len() - 1 ==> dates.drop_last()[i] == dates[i]);
        if spec_is_candidate(dates.last(), bookings, dt, days_deadline, now) {
            assert(full == rest.push(spec_date_view(dates.last())));
            if full.contains(x) {
                let w = choose|w: int| 0 <= w < full.len() && full[w] == x;
                if w < rest.len() {
                    assert(rest[w] == x);
                    assert(rest.contains(x));
                    let i = choose|i: int|
                        0 <= i < dates.drop_last().len() && spec_is_candidate(
                            #[trigger] dates.drop_last()[i],
                            bookings,
                            dt,
                            days_deadline,
                            now,
                        ) && x == spec_date_view(dates.drop_last()[i]);
                    assert(dates[i] == dates.drop_last()[i]);
                } else {
                    assert(x == spec_date_view(dates.last()));
                    assert(dates[dates.len() - 1] == dates.last());
                }
            }
            if exists|i: int|
                0 <= i < dates.len() && spec_is_candidate(
                    #[trigger] dates[i],
                    bookings,
                    dt,
                    days_deadline,
                    now,
                ) && x == spec_date_view(dates[i]) {
                let i = choose|i: int|
                    0 <= i < dates.len() && spec_is_candidate(
                        #[trigger] dates[i],
                        bookings,
                        dt,
                        days_deadline,
                        now,
                    ) && x == spec_date_view(dates[i]);
                if i < dates.len() - 1 {
                    assert(dates.drop_last()[i] == dates[i]);
                    assert(rest.contains(x));
                    let w = choose|w: int| 0 <= w < rest.len() && rest[w] == x;
                    assert(full[w] == x);
                } else {
                    assert(full[full.len() - 1] == x);
                }
                assert(full.contains(x));
            }
        } else {
            assert(full == rest);
            if full.contains(x) {
                let i = choose|i: int|
                    0 <= i < dates.drop_last().len() && spec_is_candidate(
                        #[trigger] dates.drop_last()[i],
                        bookings,
                        dt,
                        days_deadline,
                        now,
                    ) && x == spec_date_view(dates.drop_last()[i]);
                assert(dates[i] == dates.drop_last()[i]);
            }
            if exists|i: int|
                0 <= i < dates.len() && spec_is_candidate(
                    #[trigger] dates[i],
                    bookings,
                    dt,
                    days_deadline,
                    now,
                ) && x == spec_date_view(dates[i]) {
                let i = choose|i: int|
                    0 <= i < dates.len() && spec_is_candidate(
                        #[trigger] dates[i],
                        bookings,
                        dt,
                        days_deadline,
                        now,
                    ) && x == spec_date_view(dates[i]);
                assert(i < dates.len() - 1);
                assert(dates.drop_last()[i] == dates[i]);
                assert(rest.contains(x));
            }
        }
    }
}

/// The day cap keeps only listed slots.
pub proof fn lemma_capped_membership(s: Seq<Date>, cap: int, x: Date)
    ensures
        spec_day_capped(s, cap).contains(x) ==> s.contains(x),
    decreases s.len(),
{
    if s.len() > 0 {
        lemma_capped_membership(s.drop_last(), cap, x);
        let rest = spec_day_capped(s.drop_last(), cap);
        let full = spec_day_capped(s, cap);
        assert(forall|i: int| 0 <= i < s.len() - 1 ==> s.drop_last()[i] == s[i]);
        if full.contains(x) {
            let w = choose|w: int| 0 <= w < full.len() && full[w] == x;
            if spec_count_on_day(s.drop_last(), spec_day_of(s.last().from_date)) < cap {
                if w < rest.len() {
                    assert(rest.contains(x));
                    if s.drop_last().contains(x) {
                        let j = choose|j: int|
                            0 <= j < s.drop_last().len() && s.drop_last()[j] == x;
                        assert(s[j] == x);
                    }
                } else {
                    assert(x == s.last());
                    assert(s[s.len() - 1] == x);
                }
            } else {
                assert(rest.contains(x));
                if s.drop_last().contains(x) {
                    let j = choose|j: int| 0 <= j < s.drop_last().len() && s.drop_last()[j] == x;
                    assert(s[j] == x);
                }
            }
        }
    }
}

/// Listed slots carry distinct ids.
pub open spec fn spec_ids_unique(s: Seq<Date>) -> bool {
    forall|a: int, b: int| #![trigger s[a], s[b]] 0 <= a < b < s.len() ==> s[a].id != s[b].id
}

/// The filter keeps ids distinct.
pub proof fn lemma_filtered_ids_unique(
    dates: Seq<StoredDate>,
    bookings: Seq<BookingRecord>,
    dt: DateType,
    days_deadline: u32,
    now: u64,
)
    requires
        forall|i: int, j: int|
            #![trigger dates[i], dates[j]]
            0 <= i < j < dates.len() ==> dates[i].id != dates[j].id,
    ensures
        spec_ids_unique(spec_filtered(dates, bookings, dt, days_deadline, now)),
    decreases dates.len(),
{
    if dates.len() > 0 {
        assert(forall|i: int| 0 <= i < dates.len() - 1 ==> dates.drop_last()[i] == dates[i]);
        lemma_filtered_ids_unique(dates.drop_last(), bookings, dt, days_deadline, now);
        let rest = spec_filtered(dates.drop_last(), bookings, dt, days_deadline, now);
        let full = spec_filtered(dates, bookings, dt, days_deadline, now);
        if spec_is_candidate(dates.last(), bookings, dt, days_deadline, now) {
            assert forall|a: int, b: int|
                #![trigger full[a], full[b]]
                0 <= a < b < full.len() implies full[a].id != full[b].id by {
                if b < rest.len() {
                } else {
                    assert(full[b] == spec_date_view(dates.last()));
                    assert(rest[a] == full[a]);
                    assert(rest.contains(rest[a]));
                    lemma_filtered_membership(
                        dates.drop_last(),
                        bookings,
                        dt,
                        days_deadline,
                        now,
                        rest[a],
                    );
                    let i = choose|i: int|
                        0 <= i < dates.drop_last().len() && spec_is_candidate(
                            #[trigger] dates.drop_last()[i],
                            bookings,
                            dt,
                            days_deadline,
                            now,
                        ) && rest[a] == spec_date_view(dates.drop_last()[i]);
                    assert(dates[i] == dates.drop_last()[i]);
                    assert(dates[i].id != dates.last().id);
                }
            }
        }
    }
}

/// The day cap keeps ids distinct.
pub proof fn lemma_capped_ids_unique(s: Seq<Date>, cap: int)
    requires
        spec_ids_unique(s),
    ensures
        spec_ids_unique(spec_day_capped(s, cap)),
    decreases s.len(),
{
    if s.len() > 0 {
        assert(forall|i: int| 0 <= i < s.len() - 1 ==> s.drop_last()[i] == s[i]);
        assert(spec_ids_unique(s.drop_last()));
        lemma_capped_ids_unique(s.drop_last(), cap);
        let rest = spec_day_capped(s.drop_last(), cap);
        let full = spec_day_capped(s, cap);
        if spec_count_on_day(s.drop_last(), spec_day_of(s.last().from_date)) < cap {
            assert forall|a: int, b: int|
                #![trigger full[a], full[b]]
                0 <= a < b < full.len() implies full[a].id != full[b].id by {
                if b < rest.len() {
                } else {
                    assert(full[b] == s.last());
                    assert(rest[a] == full[a]);
                    assert(rest.contains(rest[a]));
                    lemma_capped_membership(s.drop_last(), cap, rest[a]);
                    let j = choose|j: int|
                        0 <= j < s.drop_last().len() && s.drop_last()[j] == rest[a];
                    assert(s[j] == rest[a]);
                    assert(s[j].id != s[s.len() - 1].id);
                }
            }
        }
    }
}

/// With distinct ids, the id search finds a listed slot and nothing else.
pub proof fn lemma_first_with_id_iff(s: Seq<Date>, id: u64)
    requires
        spec_ids_unique(s),
    ensures
        match spec_first_with_id(s, id) {
            Some(d) => s.contains(d) && d.id == id && forall|x: Date|
                s.contains(x) && x.id == id ==> x == d,
            None => forall|x: Date| s.contains(x) ==> x.id != id,
        },
    decreases s.len(),
{
    if s.len() > 0 {
        assert(forall|i: int| 0 <= i < s.skip(1).len() ==> s.skip(1)[i] == s[i + 1]);
        assert(spec_ids_unique(s.skip(1)));
        lemma_first_with_id_iff(s.skip(1), id);
        if s[0].id == id {
            assert(s.contains(s[0]));
            assert forall|x: Date| s.contains(x) && x.id == id implies x == s[0] by {
                let w = choose|w: int| 0 <= w < s.len() && s[w] == x;
                if w > 0 {
                    assert(s[0].id != s[w].id);
                }
            }
        } else {
            match spec_first_with_id(s.skip(1), id) {
                Some(d) => {
                    let w = choose|w: int| 0 <= w < s.skip(1).len() && s.skip(1)[w] == d;
                    assert(s[w + 1] == d);
                    assert(s.contains(d));
                    assert forall|x: Date| s.contains(x) && x.id == id implies x == d by {
                        let v = choose|v: int| 0 <= v < s.len() && s[v] == x;
                        assert(v > 0);
                        assert(s.skip(1)[v - 1] == x);
                        assert(s.skip(1).contains(x));
                    }
                },
                None => {
                    assert forall|x: Date| s.contains(x) implies x.id != id by {
                        let v = choose|v: int| 0 <= v < s.len() && s[v] == x;
                        if v > 0 {
                            assert(s.skip(1)[v - 1] == x);
                            assert(s.skip(1).contains(x));
                        }
                    }
                },
            }
        }
    }
}

/// The ids of a viewer's overview are distinct.
pub proof fn lemma_available_ids_unique(
    db: Database,
    dt: DateType,
    config: Config,
    now: u64,
    access: bool,
)
    requires
        db.wf(),
    ensures
        spec_ids_unique(spec_available_dates(db, dt, config, now, access)),
{
    if !spec_gated(config, dt, now, access) {
        lemma_filtered_ids_unique(db.dates@, db.bookings@, dt, config.days_deadline, now);
        if config.dates_per_day != 0 {
            lemma_capped_ids_unique(
                spec_filtered(db.dates@, db.bookings@, dt, config.days_deadline, now),
                config.dates_per_day as int,
            );
        }
    }
}

/// Every slot of a viewer's overview is the view of a stored candidate of
/// the date type.
pub proof fn lemma_available_membership(
    db: Database,
    dt: DateType,
    config: Config,
    now: u64,
    access: bool,
    x: Date,
)
    requires
        db.wf(),
        spec_available_dates(db, dt, config, now, access).contains(x),
    ensures
        exists|i: int|
            0 <= i < db.dates@.len() && spec_is_candidate(
                #[trigger] db.dates@[i],
                db.bookings@,
                dt,
                config.days_deadline,
                now,
            ) && x == spec_date_view(db.dates@[i]),
{
    let f = spec_filtered(db.dates@, db.bookings@, dt, config.days_deadline, now);
    if config.dates_per_day != 0 {
        lemma_capped_membership(f, config.dates_per_day as int, x);
    }
    lemma_filtered_membership(db.dates@, db.bookings@, dt, config.days_deadline, now, x);
}

/// A slot stands in a viewer's overview exactly when the single-slot
/// lookup hands the same slot to the same viewer: list and detail views
/// never disagree.
pub proof fn lemma_overview_matches_lookup(
    db: Database,
    date_type: DateType,
    config: Config,
    now: u64,
    token: Option<u64>,
    d: Date,
)
    requires
        db.wf(),
    ensures
        spec_available_dates(
            db,
            date_type,
            config,
            now,
            spec_check_access(db, date_type, token, config),
        ).contains(d) <==> (d.date_type == date_type && spec_available_date(
            db,
            d.id,
            config,
            now,
            token,
        ) == Some(d)),
{
    let access = spec_check_access(db, date_type, token, config);
    let list = spec_available_dates(db, date_type, config, now, access);
    lemma_available_ids_unique(db, date_type, config, now, access);
    if list.contains(d) {
        lemma_available_membership(db, date_type, config, now, access, d);
        let i = choose|i: int|
            0 <= i < db.dates@.len() && spec_is_candidate(
                #[trigger] db.dates@[i],
                db.bookings@,
                date_type,
                config.days_deadline,
                now,
            ) && d == spec_date_view(db.dates@[i]);
        assert(d.date_type == date_type);
        assert(crate::store::has_date_id(db.dates@, d.id)) by {
            assert(db.dates@[i].id == d.id);
        }
        crate::store::lemma_find_date_is_has(db.dates@, d.id);
        let sd = spec_find_date(db.dates@, d.id).unwrap();
        assert(sd == db.dates@[i]) by {
            let w = choose|w: int| 0 <= w < db.dates@.len() && db.dates@[w] == sd;
            if w != i {
                assert(db.dates@[w].id != db.dates@[i].id);
            }
        }
        lemma_first_with_id_iff(list, d.id);
        assert(spec_first_with_id(list, d.id) == Some(d)) by {
            match spec_first_with_id(list, d.id) {
                Some(d2) => {
                    assert(d2 == d);
                },
                None => {
                    assert(list.contains(d) && d.id == d.id);
                },
            }
        }
    }
    if d.date_type == date_type && spec_available_date(db, d.id, config, now, token) == Some(d) {
        let sd = spec_find_date(db.dates@, d.id).unwrap();
        crate::store::lemma_find_date_is_has(db.dates@, d.id);
        let access2 = spec_check_access(db, sd.date_type, token, config);
        let list2 = spec_available_dates(db, sd.date_type, config, now, access2);
        lemma_available_ids_unique(db, sd.date_type, config, now, access2);
        lemma_first_with_id_iff(list2, d.id);
        assert(list2.contains(d));
        lemma_available_membership(db, sd.date_type, config, now, access2, d);
        assert(d.date_type == sd.date_type);
        assert(list2 == list);
    }
}

/// How many listed slots fall on one day, when all of them do.
pub proof fn lemma_count_all_same_day(s: Seq<Date>, day: int)
    requires
        forall|i: int| 0 <= i < s.len() ==> spec_day_of((#[trigger] s[i]).from_date) == day,
    ensures
        spec_count_on_day(s, day) == s.len(),
    decreases s.len(),
{
    if s.len() > 0 {
        assert(forall|i: int| 0 <= i < s.len() - 1 ==> s.drop_last()[i] == s[i]);
        lemma_count_all_same_day(s.drop_last(), day);
        assert(spec_day_of(s[s.len() - 1].from_date) == day);
    }
}

/// With every listed slot on the same calendar day and a cap of `cap`,
/// exactly the first `cap` slots stay: under the listing order these are
/// the chronologically earliest.
pub proof fn lemma_day_cap_earliest(s: Seq<Date>, cap: int, day: int)
    requires
        0 < cap,
        forall|i: int| 0 <= i < s.len() ==> spec_day_of((#[trigger] s[i]).from_date) == day,
    ensures
        spec_day_capped(s, cap) == if cap <= s.len() {
            s.take(cap)
        } else {
            s
        },
    decreases s.len(),
{
    if s.len() > 0 {
        assert(forall|i: int| 0 <= i < s.len() - 1 ==> s.drop_last()[i] == s[i]);
        lemma_day_cap_earliest(s.drop_last(), cap, day);
        lemma_count_all_same_day(s.drop_last(), day);
        assert(spec_day_of(s.last().from_date) == day);
        let rest = spec_day_capped(s.drop_last(), cap);
        if s.len() - 1 >= cap {
            assert(spec_day_capped(s, cap) == rest);
            assert(rest == s.drop_last().take(cap));
            assert(s.drop_last().take(cap) =~= s.take(cap));
        } else {
            assert(spec_day_capped(s, cap) == rest.push(s.last()));
            assert(rest == s.drop_last());
            assert(s.drop_last().push(s.last()) =~= s);
            if cap <= s.len() {
                assert(cap == s.len());
                assert(s.take(cap) =~= s);
            }
        }
    }
}

} // verus!

use vstd::prelude::*;

verus! {

/// The offered date types restricted to those the configuration enables.
pub open spec fn spec_enabled_variants(enabled: Seq<DateType>) -> Seq<DateType>
    decreases spec_date_type_variants().len(),
{
    spec_enabled_prefix(spec_date_type_variants(), enabled)
}

/// The prefix-recursive filter behind `spec_enabled_variants`.
pub open spec fn spec_enabled_prefix(vs: Seq<DateType>, enabled: Seq<DateType>) -> Seq<DateType>
    decreases vs.len(),
{
    if vs.len() == 0 {
        Seq::empty()
    } else {
        let rest = spec_enabled_prefix(vs.drop_last(), enabled);
        if enabled.contains(vs.last()) {
            rest.push(vs.last())
        } else {
            rest
        }
    }
}

impl DateType {
    /// The offered date types that the configuration enables, for the
    /// landing page.
    #[verifier::loop_isolation(false)]
    pub fn enabled_variants(config: &Config) -> (r: Vec<DateType>)
        ensures
            r@ == spec_enabled_variants(config.enabled_date_types@),
    {
        let variants = Self::get_variants();
        let mut r: Vec<DateType> = Vec::new();
        let mut i: usize = 0;
        proof {
            assert(variants@.take(0) =~= Seq::<DateType>::empty());
        }
        while i < variants.len()
            invariant
                i <= variants@.len(),
                variants@ == spec_date_type_variants(),
                r@ == spec_enabled_prefix(variants@.take(i as int), config.enabled_date_types@),
            decreases variants@.len() - i,
        {
            proof {
                assert(variants@.take(i + 1).drop_last() =~= variants@.take(i as int));
                assert(variants@.take(i + 1).last() == variants@[i as int]);
            }
            if config.is_enabled(variants[i]) {
                r.push(variants[i]);
            }
            i += 1;
        }
        proof {
            assert(variants@.take(variants@.len() as int) =~= variants@);
        }
        r
    }
}

} // verus!

use vstd::prelude::*;

verus! {

/// The listing order on viewer-facing slots: start time, then date type,
/// then room number, then id.
pub open spec fn spec_view_lt(a: Date, b: Date) -> bool {
    if a.from_date != b.from_date {
        a.from_date < b.from_date
    } else if spec_date_type_rank(a.date_type) != spec_date_type_rank(b.date_type) {
        spec_date_type_rank(a.date_type) < spec_date_type_rank(b.date_type)
    } else if a.room_number@ != b.room_number@ {
        crate::util::lex_lt(a.room_number@, b.room_number@)
    } else {
        a.id < b.id
    }
}

/// A slot listing in listing order.
pub open spec fn spec_views_sorted(s: Seq<Date>) -> bool {
    forall|i: int, j: int| #![trigger s[i], s[j]] 0 <= i < j < s.len() ==> spec_view_lt(s[i], s[j])
}

/// Filtering the sorted store keeps the listing sorted.
pub proof fn lemma_filtered_sorted(
    dates: Seq<StoredDate>,
    bookings: Seq<BookingRecord>,
    dt: DateType,
    days_deadline: u32,
    now: u64,
)
    requires
        crate::store::dates_sorted(dates),
    ensures
        spec_views_sorted(spec_filtered(dates, bookings, dt, days_deadline, now)),
    decreases dates.len(),
{
    if dates.len() > 0 {
        assert(forall|i: int| 0 <= i < dates.len() - 1 ==> dates.drop_last()[i] == dates[i]);
        assert(crate::store::dates_sorted(dates.drop_last()));
        lemma_filtered_sorted(dates.drop_last(), bookings, dt, days_deadline, now);
        let rest = spec_filtered(dates.drop_last(), bookings, dt, days_deadline, now);
        let full = spec_filtered(dates, bookings, dt, days_deadline, now);
        if spec_is_candidate(dates.last(), bookings, dt, days_deadline, now) {
            assert forall|a: int, b: int|
                #![trigger full[a], full[b]]
                0 <= a < b < full.len() implies spec_view_lt(full[a], full[b]) by {
                if b == full.len() - 1 {
                    assert(full[b] == spec_date_view(dates.last()));
                    assert(rest[a] == full[a]);
                    assert(rest.contains(rest[a]));
                    lemma_filtered_membership(
                        dates.drop_last(),
                        bookings,
                        dt,
                        days_deadline,
                        now,
                        rest[a],
                    );
                    let i = choose|i: int|
                        0 <= i < dates.drop_last().len() && spec_is_candidate(
                            #[trigger] dates.drop_last()[i],
                            bookings,
                            dt,
                            days_deadline,
                            now,
                        ) && rest[a] == spec_date_view(dates.drop_last()[i]);
                    assert(dates[i] == dates.drop_last()[i]);
                    assert(crate::store::date_lt(dates[i], dates[dates.len() - 1]));
                }
            }
        }
    }
}

/// Capping a sorted listing keeps it sorted.
pub proof fn lemma_capped_sorted(s: Seq<Date>, cap: int)
    requires
        spec_views_sorted(s),
    ensures
        spec_views_sorted(spec_day_capped(s, cap)),
    decreases s.len(),
{
    if s.len() > 0 {
        assert(forall|i: int| 0 <= i < s.len() - 1 ==> s.drop_last()[i] == s[i]);
        assert(spec_views_sorted(s.drop_last()));
        lemma_capped_sorted(s.drop_last(), cap);
        let rest = spec_day_capped(s.drop_last(), cap);
        let full = spec_day_capped(s, cap);
        if spec_count_on_day(s.drop_last(), spec_day_of(s.last().from_date)) < cap {
            assert forall|a: int, b: int|
                #![trigger full[a], full[b]]
                0 <= a < b < full.len() implies spec_view_lt(full[a], full[b]) by {
                if b == full.len() - 1 {
                    assert(full[b] == s.last());
                    assert(rest[a] == full[a]);
                    assert(rest.contains(rest[a]));
                    lemma_capped_membership(s.drop_last(), cap, rest[a]);
                    let j = choose|j: int|
                        0 <= j < s.drop_last().len() && s.drop_last()[j] == rest[a];
                    assert(s[j] == rest[a]);
                    assert(spec_view_lt(s[j], s[s.len() - 1]));
                }
            }
        }
    }
}

/// A viewer's overview is sorted: start time ascending, then date type,
/// then room number, with the id as the last tie break.
pub proof fn lemma_available_dates_sorted(
    db: Database,
    dt: DateType,
    config: Config,
    now: u64,
    access: bool,
)
    requires
        db.wf(),
    ensures
        spec_views_sorted(spec_available_dates(db, dt, config, now, access)),
{
    if !spec_gated(config, dt, now, access) {
        lemma_filtered_sorted(db.dates@, db.bookings@, dt, config.days_deadline, now);
        if config.dates_per_day != 0 {
            lemma_capped_sorted(
                spec_filtered(db.dates@, db.bookings@, dt, config.days_deadline, now),
                config.dates_per_day as int,
            );
        }
    }
}

} // verus!

use vstd::prelude::*;

verus! {

/// With a positive cap, the capped listing holds, for every calendar day,
/// exactly the smaller of the cap and that day's slot count — whatever
/// other days the listing mixes in.
pub proof fn lemma_day_cap_count(s: Seq<Date>, cap: int, day: int)
    requires
        0 < cap,
    ensures
        spec_count_on_day(spec_day_capped(s, cap), day) == if spec_count_on_day(s, day) <= cap {
            spec_count_on_day(s, day)
        } else {
            cap
        },
        spec_count_on_day(spec_day_capped(s, cap), day) <= cap,
    decreases s.len(),
{
    if s.len() > 0 {
        lemma_day_cap_count(s.drop_last(), cap, day);
        let rest = spec_day_capped(s.drop_last(), cap);
        let last_day = spec_day_of(s.last().from_date);
        if spec_count_on_day(s.drop_last(), last_day) < cap {
            assert(spec_day_capped(s, cap) == rest.push(s.last()));
            assert(rest.push(s.last()).drop_last() =~= rest);
            assert(spec_count_on_day(rest.push(s.last()), day) == spec_count_on_day(rest, day) + (
            if last_day == day {
                1int
            } else {
                0int
            }));
        } else {
            assert(spec_day_capped(s, cap) == rest);
        }
    }
}

} // verus!

use vstd::prelude::*;

verus! {

/// With a positive cap and distinct ids, a listed slot survives the cap
/// exactly when fewer than `cap` slots of its calendar day precede it:
/// per day, the first `cap` of the listing stay — under the listing order,
/// the chronologically earliest.
pub proof fn lemma_day_cap_keeps_daily_prefix(s: Seq<Date>, cap: int, i: int)
    requires
        0 < cap,
        spec_ids_unique(s),
        0 <= i < s.len(),
    ensures
        spec_day_capped(s, cap).contains(s[i]) <==> spec_count_on_day(
            s.take(i),
            spec_day_of(s[i].from_date),
        ) < cap,
    decreases s.len(),
{
    let rest = spec_day_capped(s.drop_last(), cap);
    let last_day = spec_day_of(s.last().from_date);
    let kept = spec_count_on_day(s.drop_last(), last_day) < cap;
    assert(forall|j: int| 0 <= j < s.len() - 1 ==> s.drop_last()[j] == s[j]);
    if i == s.len() - 1 {
        assert(s.take(i) =~= s.drop_last());
        if kept {
            assert(spec_day_capped(s, cap) == rest.push(s.last()));
            assert(rest.push(s.last())[rest.len() as int] == s.last());
            assert(spec_day_capped(s, cap).contains(s[i]));
        } else {
            assert(spec_day_capped(s, cap) == rest);
            if rest.contains(s[i]) {
                lemma_capped_membership(s.drop_last(), cap, s[i]);
                let w = choose|w: int| 0 <= w < s.drop_last().len() && s.drop_last()[w] == s[i];
                assert(s[w] == s[i]);
                assert(s[w].id != s[i].id);
            }
        }
    } else {
        assert(spec_ids_unique(s.drop_last()));
        lemma_day_cap_keeps_daily_prefix(s.drop_last(), cap, i);
        assert(s.drop_last().take(i) =~= s.take(i));
        assert(s.drop_last()[i] == s[i]);
        if kept {
            assert(spec_day_capped(s, cap) == rest.push(s.last()));
            assert(s[i].id != s[s.len() - 1].id);
            assert(rest.push(s.last()).contains(s[i]) <==> rest.contains(s[i])) by {
                if rest.push(s.last()).contains(s[i]) {
                    let w = choose|w: int|
                        0 <= w < rest.push(s.last()).len() && rest.push(s.last())[w] == s[i];
                    if w < rest.len() {
                        assert(rest[w] == s[i]);
                    } else {
                        assert(s[i] == s.last());
                    }
                }
                if rest.contains(s[i]) {
                    let w = choose|w: int| 0 <= w < rest.len() && rest[w] == s[i];
                    assert(rest.push(s.last())[w] == s[i]);
                }
            }
        } else {
            assert(spec_day_capped(s, cap) == rest);
        }
    }
}

} // verus!
