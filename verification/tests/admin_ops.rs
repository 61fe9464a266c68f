use roombook::admin::{
    available_days, cancel_dates, confirm_dates, dashboard_dates, propose_dates, room_manage,
    update_announcements, Announcement, AnnouncementsForm, DateCancelForm, DateNew2Form,
    RoomManageForm,
};
use roombook::model::date_type::DateType;
use roombook::model::form::{Email, SelectString};
use roombook::model::{get_announcement, validate_room, Message};
use roombook::store::Database;
use roombook::user::{booking_new, BookingForm};
use roombook::Config;

fn admin_test_config() -> Config {
    Config {
        email_host: String::new(),
        email_port: 25,
        email_from_address: String::from("noreply@example.org"),
        web_address: String::from("https://rooms.example.org"),
        dates_per_day: 0,
        days_deadline: 0,
        application_deadlines: Vec::new(),
        enabled_date_types: vec![DateType::Choir],
        impressum: String::new(),
    }
}

#[test]
fn creates_and_deletes_rooms() {
    let mut db = Database::new();
    let form = RoomManageForm {
        room_number: String::from("A1"),
        button: String::from("create"),
    };
    let messages = room_manage(&mut db, &form).unwrap();
    assert_eq!(messages.len(), 1);
    assert_eq!(messages[0].text_key, "room-created");
    assert_eq!(db.rooms.len(), 1);
    let id = db.rooms[0].id;

    let form = RoomManageForm {
        room_number: String::new(),
        button: format!("delete-{}", id),
    };
    let messages = room_manage(&mut db, &form).unwrap();
    assert_eq!(messages[0].text_key, "room-deleted");
    assert_eq!(db.rooms.len(), 0);
}

#[test]
fn unknown_button_reports_itself() {
    let mut db = Database::new();
    let form = RoomManageForm {
        room_number: String::new(),
        button: String::from("frobnicate"),
    };
    let messages = room_manage(&mut db, &form).unwrap();
    assert_eq!(messages[0].text_key, "validation-unknown");
    let form = RoomManageForm {
        room_number: String::new(),
        button: String::from("delete-abc"),
    };
    assert!(room_manage(&mut db, &form).is_err());
}

#[test]
fn resolves_room_numbers() {
    let mut db = Database::new();
    let id = db.add_room("A1");
    let mut messages: Vec<Message> = Vec::new();
    assert_eq!(validate_room("A1", &mut messages, &db), Some(id));
    assert_eq!(messages.len(), 0);
    assert_eq!(validate_room("Z9", &mut messages, &db), None);
    assert_eq!(messages.len(), 1);
    assert_eq!(messages[0].text_key, "validation-room");
}

#[test]
fn confirm_rejects_tampered_batches() {
    let mut db = Database::new();
    let room_id = db.add_room("A1");
    let mut dates = propose_dates(600, 660, 20, room_id, DateType::Choir).unwrap();
    // Tamper: invert one interval.
    dates[1].to_date = dates[1].from_date;
    let form = DateNew2Form { date_selected: vec![true, true, true], dates };
    let err = confirm_dates(&mut db, &form).unwrap_err();
    assert_eq!(err.text_key, "invalid-buffered-dates");
    assert_eq!(db.dates.len(), 0);
}

#[test]
fn confirm_rejects_unknown_rooms_and_duplicates() {
    let mut db = Database::new();
    let room_id = db.add_room("A1");
    let dates = propose_dates(600, 660, 20, room_id, DateType::Choir).unwrap();
    let bad_room = propose_dates(600, 660, 20, room_id + 7, DateType::Choir).unwrap();
    let err = confirm_dates(
        &mut db,
        &DateNew2Form { date_selected: vec![true, true, true], dates: bad_room },
    )
    .unwrap_err();
    assert_eq!(err.text_key, "invalid-buffered-dates");

    confirm_dates(
        &mut db,
        &DateNew2Form { date_selected: vec![true, true, true], dates: dates.clone() },
    )
    .unwrap();
    // Re-sending the same batch is the already-persisted case.
    let err = confirm_dates(
        &mut db,
        &DateNew2Form { date_selected: vec![true, true, true], dates },
    )
    .unwrap_err();
    assert_eq!(err.text_key, "invalid-buffered-dates");
    assert_eq!(db.dates.len(), 3);
}

#[test]
fn confirm_persists_only_the_selection() {
    let mut db = Database::new();
    let room_id = db.add_room("A1");
    let dates = propose_dates(600, 660, 20, room_id, DateType::Choir).unwrap();
    let types = confirm_dates(
        &mut db,
        &DateNew2Form { date_selected: vec![true, false, true], dates },
    )
    .unwrap();
    assert_eq!(types, vec![DateType::Choir]);
    assert_eq!(db.dates.len(), 2);
    assert_eq!(db.dates[0].from_date, 600);
    assert_eq!(db.dates[1].from_date, 640);
    assert_eq!(db.dates[0].room_number, "A1");
}

#[test]
fn dashboard_shows_the_day_with_occupants() {
    let mut db = Database::new();
    let config = admin_test_config();
    let room_id = db.add_room("A1");
    let dates = propose_dates(600, 640, 20, room_id, DateType::Choir).unwrap();
    confirm_dates(&mut db, &DateNew2Form { date_selected: vec![true, true], dates }).unwrap();
    booking_new(
        &mut db,
        0,
        BookingForm {
            email: Email(String::from("alex@example.org")),
            person_name: String::from("Alex"),
            notes: String::from("hi"),
            voice: SelectString(String::from("female")),
            token: None,
        },
        &config,
        0,
        "de",
        9032,
    )
    .unwrap();
    let day = available_days(&db);
    assert_eq!(day, vec![0]);
    let board = dashboard_dates(&db, 0);
    assert_eq!(board.len(), 2);
    assert_eq!(board[0].from_date, 600);
    let occupant = board[0].booking.as_ref().unwrap();
    assert_eq!(occupant.email, "alex@example.org");
    assert!(board[1].booking.is_none());
    // A day without slots shows nothing.
    assert_eq!(dashboard_dates(&db, 14400).len(), 0);
}

#[test]
fn bulk_cancellation_notifies_and_deletes() {
    let mut db = Database::new();
    let config = admin_test_config();
    let room_id = db.add_room("A1");
    let dates = propose_dates(600, 660, 20, room_id, DateType::Choir).unwrap();
    confirm_dates(&mut db, &DateNew2Form { date_selected: vec![true, true, true], dates })
        .unwrap();
    let mk_form = |email: &str, voice: &str| BookingForm {
        email: Email(String::from(email)),
        person_name: String::from("P"),
        notes: String::new(),
        voice: SelectString(String::from(voice)),
        token: None,
    };
    booking_new(&mut db, 0, mk_form("de@example.org", "female"), &config, 0, "de", 9033).unwrap();
    booking_new(&mut db, 1, mk_form("en@example.org", "male"), &config, 0, "en", 9034).unwrap();
    let form = DateCancelForm {
        dates: vec![0, 1, 2],
        explanations: vec![
            (String::from("de"), String::from("Wasserschaden")),
            (String::from("en"), String::new()),
        ],
    };
    let (notices, types) = cancel_dates(&mut db, &form);
    // The English explanation is empty, so only the German booker hears.
    assert_eq!(notices.len(), 1);
    assert_eq!(notices[0].email, "de@example.org");
    assert_eq!(notices[0].explanation, "Wasserschaden");
    // Slots are deleted outright, together with their bookings, and the
    // affected date types come back so their waiting lists can be told.
    assert_eq!(types, vec![DateType::Choir]);
    assert_eq!(db.dates.len(), 0);
    assert_eq!(db.bookings.len(), 0);
}

#[test]
fn bulk_cancellation_names_each_affected_date_type_once() {
    let mut db = Database::new();
    let room_id = db.add_room("A1");
    let choir = propose_dates(600, 640, 20, room_id, DateType::Choir).unwrap();
    confirm_dates(&mut db, &DateNew2Form { date_selected: vec![true, true], dates: choir })
        .unwrap();
    let chamber = propose_dates(700, 720, 20, room_id, DateType::ChamberChoir).unwrap();
    confirm_dates(&mut db, &DateNew2Form { date_selected: vec![true], dates: chamber }).unwrap();
    let form = DateCancelForm { dates: vec![0, 2, 1, 99], explanations: Vec::new() };
    let (notices, types) = cancel_dates(&mut db, &form);
    assert_eq!(notices.len(), 0);
    assert_eq!(types, vec![DateType::Choir, DateType::ChamberChoir]);
    assert_eq!(db.dates.len(), 0);
}

#[test]
fn announcements_are_updated_in_place() {
    let mut db = Database::new();
    db.announcements.push(Announcement {
        lang: String::from("de"),
        position: String::from("general"),
        description: String::from("Landing page"),
        content: String::from("alt"),
    });
    db.announcements.push(Announcement {
        lang: String::from("en"),
        position: String::from("general"),
        description: String::from("Landing page"),
        content: String::from("old"),
    });
    assert_eq!(get_announcement("general", "de", &db).unwrap(), "alt");
    let form = AnnouncementsForm {
        announcements: vec![(String::from("general"), String::from("de"), String::from("neu"))],
    };
    update_announcements(&mut db, &form);
    assert_eq!(get_announcement("general", "de", &db).unwrap(), "neu");
    assert_eq!(get_announcement("general", "en", &db).unwrap(), "old");
    assert!(get_announcement("choir", "de", &db).is_none());
}
