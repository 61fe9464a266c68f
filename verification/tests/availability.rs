use roombook::admin::{confirm_dates, propose_dates, DateNew2Form};
use roombook::model::date_type::{check_date_type_access, Date, DateType};
use roombook::model::form::{Email, SelectString};
use roombook::store::Database;
use roombook::user::{booking_new, waiting_list_subscribe, BookingForm};
use roombook::Config;

fn availability_config(dates_per_day: usize, days_deadline: u32) -> Config {
    Config {
        email_host: String::new(),
        email_port: 25,
        email_from_address: String::from("noreply@example.org"),
        web_address: String::from("https://rooms.example.org"),
        dates_per_day,
        days_deadline,
        application_deadlines: Vec::new(),
        enabled_date_types: vec![DateType::Choir],
        impressum: String::new(),
    }
}

fn seed(db: &mut Database, from: u64, to: u64, interval: u64) {
    let room_id = db.add_room("A1");
    let dates = propose_dates(from, to, interval, room_id, DateType::Choir).unwrap();
    let n = dates.len();
    let form = DateNew2Form { date_selected: vec![true; n], dates };
    confirm_dates(db, &form).unwrap();
}

#[test]
fn day_cap_keeps_the_earliest_slots() {
    // Five slots on one calendar day, capped at two.
    let mut db = Database::new();
    seed(&mut db, 600, 700, 20);
    let config = availability_config(2, 0);
    let visible = Date::get_available_dates(&db, DateType::Choir, &config, 0, false);
    assert_eq!(visible.len(), 2);
    assert_eq!(visible[0].from_date, 600);
    assert_eq!(visible[1].from_date, 620);
}

#[test]
fn cap_of_zero_is_unlimited() {
    let mut db = Database::new();
    seed(&mut db, 600, 700, 20);
    let config = availability_config(0, 0);
    let visible = Date::get_available_dates(&db, DateType::Choir, &config, 0, false);
    assert_eq!(visible.len(), 5);
}

#[test]
fn cap_applies_per_calendar_day() {
    // Two slots on day zero and two on day one, capped at one per day.
    let mut db = Database::new();
    seed(&mut db, 600, 680, 40);
    seed(&mut db, 2040, 2120, 40);
    let config = availability_config(1, 0);
    let visible = Date::get_available_dates(&db, DateType::Choir, &config, 0, false);
    assert_eq!(visible.len(), 2);
    assert_eq!(visible[0].from_date, 600);
    assert_eq!(visible[1].from_date, 2040);
}

#[test]
fn capped_out_slot_reappears_after_earlier_one_is_taken() {
    let mut db = Database::new();
    seed(&mut db, 600, 640, 20);
    let config = availability_config(1, 0);
    let visible = Date::get_available_dates(&db, DateType::Choir, &config, 0, false);
    assert_eq!(visible.len(), 1);
    assert_eq!(visible[0].from_date, 600);
    booking_new(
        &mut db,
        visible[0].id,
        BookingForm {
            email: Email(String::from("alex@example.org")),
            person_name: String::from("Alex"),
            notes: String::new(),
            voice: SelectString(String::from("female")),
            token: None,
        },
        &config,
        0,
        "de",
        9017,
    )
    .unwrap();
    let visible = Date::get_available_dates(&db, DateType::Choir, &config, 0, false);
    assert_eq!(visible.len(), 1);
    assert_eq!(visible[0].from_date, 620);
}

#[test]
fn past_slots_are_hidden() {
    let mut db = Database::new();
    seed(&mut db, 600, 660, 20);
    let config = availability_config(0, 0);
    let visible = Date::get_available_dates(&db, DateType::Choir, &config, 625, false);
    assert_eq!(visible.len(), 1);
    assert_eq!(visible[0].from_date, 640);
}

#[test]
fn rolling_day_deadline_excludes_near_days() {
    // Slots on day 0 and on day 2; a two-day rolling deadline viewed from
    // day 0 keeps only day 2.
    let mut db = Database::new();
    seed(&mut db, 600, 640, 40);
    seed(&mut db, 3480, 3520, 40);
    let config = availability_config(0, 2);
    let visible = Date::get_available_dates(&db, DateType::Choir, &config, 0, false);
    assert_eq!(visible.len(), 1);
    assert_eq!(visible[0].from_date, 3480);
}

#[test]
fn deadline_closes_the_overview() {
    let mut db = Database::new();
    seed(&mut db, 600, 660, 20);
    let mut config = availability_config(0, 0);
    config.application_deadlines = vec![(DateType::Choir, 500)];
    let before = Date::get_available_dates(&db, DateType::Choir, &config, 499, false);
    assert_eq!(before.len(), 3);
    let after = Date::get_available_dates(&db, DateType::Choir, &config, 500, false);
    assert_eq!(after.len(), 0);
}

#[test]
fn early_registrant_keeps_access_after_deadline() {
    let mut db = Database::new();
    seed(&mut db, 600, 660, 20);
    let mut config = availability_config(0, 0);
    config.application_deadlines = vec![(DateType::Choir, 500)];
    // Entered before the deadline: bypass granted.
    let early = waiting_list_subscribe(&mut db, DateType::Choir, "early@example.org", "de", 100, 9018);
    assert!(check_date_type_access(&db, DateType::Choir, Some(early), &config));
    let seen = Date::get_available_dates(&db, DateType::Choir, &config, 510, true);
    assert_eq!(seen.len(), 3);
    // Entered at the deadline: no bypass.
    let late = waiting_list_subscribe(&mut db, DateType::Choir, "late@example.org", "de", 500, 9019);
    assert!(!check_date_type_access(&db, DateType::Choir, Some(late), &config));
    assert!(!check_date_type_access(&db, DateType::Choir, None, &config));
}

#[test]
fn lookup_agrees_with_overview() {
    let mut db = Database::new();
    seed(&mut db, 600, 660, 20);
    let config = availability_config(1, 0);
    let visible = Date::get_available_dates(&db, DateType::Choir, &config, 0, false);
    assert_eq!(visible.len(), 1);
    // The listed slot is fetchable one by one.
    let one = Date::get_available_date(&db, visible[0].id, &config, 0, None).unwrap();
    assert_eq!(one.id, visible[0].id);
    assert_eq!(one.from_date, visible[0].from_date);
    assert_eq!(one.room_number, visible[0].room_number);
    // A capped-out slot is not fetchable either.
    assert!(Date::get_available_date(&db, visible[0].id + 1, &config, 0, None).is_none());
    // An unknown id resolves to nothing.
    assert!(Date::get_available_date(&db, 99, &config, 0, None).is_none());
}

#[test]
fn overview_is_sorted_by_start_time() {
    let mut db = Database::new();
    let room_b = db.add_room("B2");
    let room_a = db.add_room("A1");
    let later = propose_dates(700, 740, 40, room_b, DateType::Choir).unwrap();
    confirm_dates(&mut db, &DateNew2Form { date_selected: vec![true], dates: later }).unwrap();
    let earlier = propose_dates(600, 640, 40, room_a, DateType::Choir).unwrap();
    confirm_dates(&mut db, &DateNew2Form { date_selected: vec![true], dates: earlier }).unwrap();
    let same_time_other_room = propose_dates(700, 740, 40, room_a, DateType::Choir).unwrap();
    confirm_dates(
        &mut db,
        &DateNew2Form { date_selected: vec![true], dates: same_time_other_room },
    )
    .unwrap();
    let config = availability_config(0, 0);
    let visible = Date::get_available_dates(&db, DateType::Choir, &config, 0, false);
    assert_eq!(visible.len(), 3);
    assert_eq!(visible[0].from_date, 600);
    assert_eq!(visible[1].from_date, 700);
    assert_eq!(visible[1].room_number, "A1");
    assert_eq!(visible[2].from_date, 700);
    assert_eq!(visible[2].room_number, "B2");
}
