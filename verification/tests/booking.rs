use roombook::admin::{propose_dates, DateNew2Form};
use roombook::admin::confirm_dates;
use roombook::mail::waiting_list_notify;
use roombook::model::date_type::{Date, DateType};
use roombook::model::form::{Email, SelectString};
use roombook::store::Database;
use roombook::user::{
    booking_delete, booking_new, waiting_list_subscribe, BookingError, BookingForm, CancelOutcome,
};
use roombook::Config;

fn booking_test_config() -> Config {
    Config {
        email_host: String::new(),
        email_port: 25,
        email_from_address: String::from("noreply@example.org"),
        web_address: String::from("https://rooms.example.org"),
        dates_per_day: 0,
        days_deadline: 0,
        application_deadlines: Vec::new(),
        enabled_date_types: vec![DateType::Choir, DateType::ChamberChoir],
        impressum: String::new(),
    }
}

fn seed_three_slots(db: &mut Database) -> u64 {
    let room_id = db.add_room("A1");
    let dates = propose_dates(600, 660, 20, room_id, DateType::Choir).unwrap();
    let form = DateNew2Form { date_selected: vec![true, true, true], dates };
    confirm_dates(db, &form).unwrap();
    room_id
}

fn booking_form(email: &str, voice: &str, token: Option<u64>) -> BookingForm {
    BookingForm {
        email: Email(String::from(email)),
        person_name: String::from("Alex Example"),
        notes: String::new(),
        voice: SelectString(String::from(voice)),
        token,
    }
}

#[test]
fn books_an_open_slot() {
    let mut db = Database::new();
    seed_three_slots(&mut db);
    let config = booking_test_config();
    let token = booking_new(
        &mut db,
        1,
        booking_form("alex@example.org", "female", None),
        &config,
        500,
        "de",
        9001,
    )
    .unwrap();
    assert_eq!(db.bookings.len(), 1);
    assert_eq!(db.bookings[0].date_id, 1);
    assert_eq!(db.bookings[0].token, token);
}

#[test]
fn second_booking_of_same_slot_conflicts() {
    let mut db = Database::new();
    seed_three_slots(&mut db);
    let config = booking_test_config();
    booking_new(
        &mut db,
        1,
        booking_form("first@example.org", "female", None),
        &config,
        500,
        "de",
        9002,
    )
    .unwrap();
    let err = booking_new(
        &mut db,
        1,
        booking_form("second@example.org", "male", None),
        &config,
        500,
        "de",
        9003,
    )
    .unwrap_err();
    assert_eq!(err, BookingError::Conflict);
    assert_eq!(db.bookings.len(), 1);
    assert_eq!(db.bookings[0].email, "first@example.org");
}

#[test]
fn rejects_a_voice_of_another_date_type() {
    let mut db = Database::new();
    seed_three_slots(&mut db);
    let config = booking_test_config();
    let err = booking_new(
        &mut db,
        1,
        booking_form("alex@example.org", "soprano", None),
        &config,
        500,
        "de",
        9004,
    )
    .unwrap_err();
    assert_eq!(err, BookingError::InvalidVoice);
    assert_eq!(db.bookings.len(), 0);
}

#[test]
fn rejects_an_unknown_slot() {
    let mut db = Database::new();
    seed_three_slots(&mut db);
    let config = booking_test_config();
    let err = booking_new(
        &mut db,
        99,
        booking_form("alex@example.org", "female", None),
        &config,
        500,
        "de",
        9005,
    )
    .unwrap_err();
    assert_eq!(err, BookingError::Gone);
}

#[test]
fn rejects_a_past_slot() {
    let mut db = Database::new();
    seed_three_slots(&mut db);
    let config = booking_test_config();
    let err = booking_new(
        &mut db,
        0,
        booking_form("alex@example.org", "female", None),
        &config,
        650,
        "de",
        9006,
    )
    .unwrap_err();
    assert_eq!(err, BookingError::Gone);
}

#[test]
fn self_cancel_before_start_frees_the_slot() {
    let mut db = Database::new();
    seed_three_slots(&mut db);
    let config = booking_test_config();
    let token = booking_new(
        &mut db,
        1,
        booking_form("alex@example.org", "female", None),
        &config,
        500,
        "de",
        9007,
    )
    .unwrap();
    // Slot 1 starts at minute 620; cancelling at 619 succeeds.
    let outcome = booking_delete(&mut db, token, 619);
    assert_eq!(outcome, CancelOutcome::Cancelled(DateType::Choir));
    assert_eq!(db.bookings.len(), 0);
    // The slot is rebookable afterwards.
    let again = booking_new(
        &mut db,
        1,
        booking_form("other@example.org", "male", None),
        &config,
        610,
        "en",
        9008,
    );
    assert!(again.is_ok());
}

#[test]
fn self_cancel_at_or_after_start_is_rejected() {
    let mut db = Database::new();
    seed_three_slots(&mut db);
    let config = booking_test_config();
    let token = booking_new(
        &mut db,
        1,
        booking_form("alex@example.org", "female", None),
        &config,
        500,
        "de",
        9009,
    )
    .unwrap();
    let outcome = booking_delete(&mut db, token, 620);
    assert_eq!(outcome, CancelOutcome::TooLate);
    assert_eq!(db.bookings.len(), 1);
    let outcome = booking_delete(&mut db, token, 700);
    assert_eq!(outcome, CancelOutcome::TooLate);
    assert_eq!(db.bookings.len(), 1);
}

#[test]
fn self_cancel_with_unknown_token_changes_nothing() {
    let mut db = Database::new();
    seed_three_slots(&mut db);
    let outcome = booking_delete(&mut db, 12345, 0);
    assert_eq!(outcome, CancelOutcome::NotFound);
    assert_eq!(db.dates.len(), 3);
}

#[test]
fn booking_clears_the_waiting_list_entry() {
    let mut db = Database::new();
    seed_three_slots(&mut db);
    let config = booking_test_config();
    waiting_list_subscribe(&mut db, DateType::Choir, "alex@example.org", "de", 100, 9010);
    assert_eq!(db.waiting_list.len(), 1);
    booking_new(
        &mut db,
        1,
        booking_form("alex@example.org", "female", None),
        &config,
        500,
        "de",
        9011,
    )
    .unwrap();
    assert_eq!(db.waiting_list.len(), 0);
}

#[test]
fn waiting_token_of_another_email_is_rejected() {
    let mut db = Database::new();
    seed_three_slots(&mut db);
    let config = booking_test_config();
    let wtoken = waiting_list_subscribe(&mut db, DateType::Choir, "listed@example.org", "de", 100, 9012);
    let err = booking_new(
        &mut db,
        1,
        booking_form("impostor@example.org", "female", Some(wtoken)),
        &config,
        500,
        "de",
        9013,
    )
    .unwrap_err();
    assert_eq!(err, BookingError::Gone);
    assert_eq!(db.bookings.len(), 0);
    assert_eq!(db.waiting_list.len(), 1);
}

#[test]
fn end_to_end_scenario() {
    // Admin generates 3 slots of 20 minutes from 10:00 to 11:00 for room
    // "A1" and the choir, and confirms all three.
    let mut db = Database::new();
    let config = booking_test_config();
    let room_id = db.add_room("A1");
    let proposed = propose_dates(600, 660, 20, room_id, DateType::Choir).unwrap();
    assert_eq!(proposed.len(), 3);
    let form = DateNew2Form { date_selected: vec![true, true, true], dates: proposed };
    confirm_dates(&mut db, &form).unwrap();
    assert_eq!(db.dates.len(), 3);
    assert_eq!(db.bookings.len(), 0);

    // A viewer books slot 2 (10:20 to 10:40) with voice "female".
    let visible = Date::get_available_dates(&db, DateType::Choir, &config, 0, false);
    assert_eq!(visible.len(), 3);
    let slot2 = visible[1].id;
    let token = booking_new(
        &mut db,
        slot2,
        booking_form("first@example.org", "female", None),
        &config,
        0,
        "de",
        9014,
    )
    .unwrap();
    assert_eq!(db.bookings.len(), 1);

    // A second viewer attempts the same slot and loses the race.
    let err = booking_new(
        &mut db,
        slot2,
        booking_form("late@example.org", "female", None),
        &config,
        0,
        "de",
        9015,
    )
    .unwrap_err();
    assert_eq!(err, BookingError::Conflict);

    // Someone joins the waiting list meanwhile.
    waiting_list_subscribe(&mut db, DateType::Choir, "hopeful@example.org", "en", 5, 9016);

    // The original booker cancels with the token before 10:20.
    let outcome = booking_delete(&mut db, token, 615);
    assert_eq!(outcome, CancelOutcome::Cancelled(DateType::Choir));
    assert_eq!(db.bookings.len(), 0);

    // The waiting list of the date type is notified; the entry stays.
    let notices = waiting_list_notify(&db, DateType::Choir);
    assert_eq!(notices.len(), 1);
    assert_eq!(notices[0].email, "hopeful@example.org");
    assert_eq!(db.waiting_list.len(), 1);

    // Slot 2 is open again.
    let visible = Date::get_available_dates(&db, DateType::Choir, &config, 0, false);
    assert_eq!(visible.len(), 3);
}
