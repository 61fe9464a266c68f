use roombook::mail::waiting_list_notify;
use roombook::model::date_type::DateType;
use roombook::model::get_waiting_list_email;
use roombook::store::Database;
use roombook::user::{
    waiting_list_subscribe, waiting_list_unsubscribe, waiting_list_unsubscribe_info,
};

#[test]
fn subscribing_twice_returns_the_same_token() {
    let mut db = Database::new();
    let t1 = waiting_list_subscribe(&mut db, DateType::Choir, "alex@example.org", "de", 100, 9020);
    let t2 = waiting_list_subscribe(&mut db, DateType::Choir, "alex@example.org", "en", 200, 9021);
    assert_eq!(t1, t2);
    assert_eq!(db.waiting_list.len(), 1);
    assert_eq!(db.waiting_list[0].entered, 100);
    assert_eq!(db.waiting_list[0].lang, "de");
}

#[test]
fn same_email_may_wait_for_two_date_types() {
    let mut db = Database::new();
    let t1 = waiting_list_subscribe(&mut db, DateType::Choir, "alex@example.org", "de", 100, 9022);
    let t2 = waiting_list_subscribe(&mut db, DateType::ChamberChoir, "alex@example.org", "de", 100, 9023);
    assert!(t1 != t2);
    assert_eq!(db.waiting_list.len(), 2);
}

#[test]
fn unsubscribe_removes_only_the_token_holder() {
    let mut db = Database::new();
    let t1 = waiting_list_subscribe(&mut db, DateType::Choir, "one@example.org", "de", 100, 9024);
    waiting_list_subscribe(&mut db, DateType::Choir, "two@example.org", "de", 100, 9025);
    waiting_list_unsubscribe(&mut db, t1);
    assert_eq!(db.waiting_list.len(), 1);
    assert_eq!(db.waiting_list[0].email, "two@example.org");
}

#[test]
fn unsubscribe_of_unknown_token_is_a_no_op() {
    let mut db = Database::new();
    waiting_list_subscribe(&mut db, DateType::Choir, "one@example.org", "de", 100, 9026);
    waiting_list_unsubscribe(&mut db, 999);
    assert_eq!(db.waiting_list.len(), 1);
}

#[test]
fn notify_reaches_each_subscriber_of_the_date_type() {
    let mut db = Database::new();
    waiting_list_subscribe(&mut db, DateType::Choir, "one@example.org", "de", 100, 9027);
    waiting_list_subscribe(&mut db, DateType::Choir, "two@example.org", "en", 110, 9028);
    waiting_list_subscribe(&mut db, DateType::ChamberChoir, "three@example.org", "de", 120, 9029);
    let notices = waiting_list_notify(&db, DateType::Choir);
    assert_eq!(notices.len(), 2);
    assert_eq!(notices[0].email, "one@example.org");
    assert_eq!(notices[0].lang, "de");
    assert_eq!(notices[1].email, "two@example.org");
    // Notifying deletes nothing, so a later opening notifies again.
    assert_eq!(db.waiting_list.len(), 3);
    let again = waiting_list_notify(&db, DateType::Choir);
    assert_eq!(again.len(), 2);
}

#[test]
fn token_resolves_to_its_email() {
    let mut db = Database::new();
    let t = waiting_list_subscribe(&mut db, DateType::Choir, "alex@example.org", "de", 100, 9030);
    assert_eq!(get_waiting_list_email(Some(t), &db).unwrap(), "alex@example.org");
    assert!(get_waiting_list_email(Some(t + 1), &db).is_none());
    assert!(get_waiting_list_email(None, &db).is_none());
}

#[test]
fn unsubscribe_page_shows_the_date_type() {
    let mut db = Database::new();
    let t = waiting_list_subscribe(&mut db, DateType::ChamberChoir, "alex@example.org", "de", 100, 9031);
    assert_eq!(waiting_list_unsubscribe_info(&db, t), Some(DateType::ChamberChoir));
    assert_eq!(waiting_list_unsubscribe_info(&db, t + 1), None);
}
