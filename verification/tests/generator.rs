use roombook::admin::propose_dates;
use roombook::model::date_type::DateType;
use roombook::model::MessageType;

#[test]
fn generates_three_contiguous_slots() {
    // 10:00 to 11:00 in 20-minute steps is minute 600 to minute 660.
    let slots = propose_dates(600, 660, 20, 1, DateType::Choir).unwrap();
    assert_eq!(slots.len(), 3);
    assert_eq!(slots[0].from_date, 600);
    assert_eq!(slots[0].to_date, 620);
    assert_eq!(slots[1].from_date, 620);
    assert_eq!(slots[1].to_date, 640);
    assert_eq!(slots[2].from_date, 640);
    assert_eq!(slots[2].to_date, 660);
    for s in &slots {
        assert_eq!(s.room_id, 1);
        assert!(s.date_type == DateType::Choir);
    }
}

#[test]
fn covers_range_exactly() {
    let slots = propose_dates(100, 1300, 300, 7, DateType::ChamberChoir).unwrap();
    assert_eq!(slots.len(), 4);
    assert_eq!(slots[0].from_date, 100);
    assert_eq!(slots[3].to_date, 1300);
    for w in slots.windows(2) {
        assert_eq!(w[0].to_date, w[1].from_date);
    }
}

#[test]
fn rejects_wrong_order() {
    let err = propose_dates(660, 600, 20, 1, DateType::Choir).unwrap_err();
    assert_eq!(err.text_key, "wrong-date-order");
    assert!(err.message_type == MessageType::Error);
    let err = propose_dates(600, 600, 20, 1, DateType::Choir).unwrap_err();
    assert_eq!(err.text_key, "wrong-date-order");
}

#[test]
fn rejects_uneven_interval() {
    let err = propose_dates(0, 50, 7, 1, DateType::Choir).unwrap_err();
    assert_eq!(err.text_key, "interval-not-even");
}

#[test]
fn rejects_an_interval_of_zero() {
    let err = propose_dates(0, 50, 0, 1, DateType::Choir).unwrap_err();
    assert_eq!(err.text_key, "interval-not-even");
    assert!(err.message_type == MessageType::Error);
}

#[test]
fn accepts_exactly_one_thousand_slots() {
    let slots = propose_dates(0, 1000, 1, 1, DateType::Choir).unwrap();
    assert_eq!(slots.len(), 1000);
}

#[test]
fn rejects_one_thousand_and_one_slots() {
    let err = propose_dates(0, 1001, 1, 1, DateType::Choir).unwrap_err();
    assert_eq!(err.text_key, "too-many-dates");
}
