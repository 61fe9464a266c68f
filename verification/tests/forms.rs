use roombook::model::form::{
    handle_form_error, DisplayName, Email, IntoInner, Password, SelectString,
};
use roombook::model::{Message, MessageType};
use roombook::util::parse_u64;

#[test]
fn accepts_plain_addresses() {
    assert!(Email::from_value("alex@example.org").is_ok());
    assert!(Email::from_value("a.b-c+d@mail.example.co").is_ok());
    assert!(Email::from_value("x@a.b").is_ok());
}

#[test]
fn rejects_malformed_addresses() {
    for bad in [
        "",
        "alex",
        "alex@",
        "@example.org",
        "alex@example",
        "alex@@example.org",
        "al ex@example.org",
        ".alex@example.org",
        "alex.@example.org",
        "al..ex@example.org",
        "alex@-example.org",
        "alex@example-.org",
        "alex@example..org",
        "alex@example.org.",
        "Alex@example.org",
    ] {
        let err = Email::from_value(bad).unwrap_err();
        assert_eq!(err.text_key, "validation-email");
        assert!(err.message_type == MessageType::Error);
    }
}

#[test]
fn display_name_needs_two_adjacent_allowed_characters() {
    assert!(DisplayName::from_value("Alex Example").is_ok());
    assert!(DisplayName::from_value("x!!!ab").is_ok());
    let err = DisplayName::from_value("!").unwrap_err();
    assert_eq!(err.text_key, "validation-display-name");
    assert!(DisplayName::from_value("a!b!c").is_err());
    assert!(DisplayName::from_value("").is_err());
}

#[test]
fn password_rules() {
    assert!(Password::from_value("Abcdef1!").is_ok());
    // No digit.
    assert!(Password::from_value("Abcdefg!").is_err());
    // No upper-case letter.
    assert!(Password::from_value("abcdef1!").is_err());
    // No lower-case letter.
    assert!(Password::from_value("ABCDEF1!").is_err());
    // No special character.
    assert!(Password::from_value("Abcdefg1").is_err());
    // No run of eight allowed characters.
    assert!(Password::from_value("Abc1!").is_err());
}

#[test]
fn selection_must_not_be_empty() {
    assert!(SelectString::from_value("female").is_ok());
    let err = SelectString::from_value("").unwrap_err();
    assert_eq!(err.text_key, "validation-select");
}

#[test]
fn form_error_handling_collects_messages() {
    let mut messages: Vec<Message> = Vec::new();
    let ok: Result<SelectString, Vec<Message>> = Ok(SelectString(String::from("alto")));
    let value: String = handle_form_error(ok, &mut messages);
    assert_eq!(value, "alto");
    assert_eq!(messages.len(), 0);

    let err: Result<SelectString, Vec<Message>> = Err(vec![Message {
        text_key: String::from("validation-select"),
        message_type: MessageType::Error,
    }]);
    let fallback: String = handle_form_error(err, &mut messages);
    assert_eq!(fallback, "");
    assert_eq!(messages.len(), 1);
    assert_eq!(messages[0].text_key, "validation-select");
}

#[test]
fn into_inner_unwraps_the_validated_value() {
    let email = Email::from_value("alex@example.org").unwrap();
    assert_eq!(email.into_inner(), "alex@example.org");
    let name = DisplayName::from_value("Alex").unwrap();
    assert_eq!(name.into_inner(), "Alex");
}

#[test]
fn parses_plain_numbers() {
    assert_eq!(parse_u64("0"), Some(0));
    assert_eq!(parse_u64("42"), Some(42));
    assert_eq!(parse_u64("1234567890123456789"), Some(1234567890123456789));
    assert_eq!(parse_u64(""), None);
    assert_eq!(parse_u64("4x2"), None);
    assert_eq!(parse_u64("-1"), None);
    assert_eq!(parse_u64("12345678901234567890"), None);
}

use roombook::model::form::FormDateTime;

#[test]
fn datetime_epoch_start() {
    let t = FormDateTime::from_value("1970-01-01T00:00").unwrap();
    assert_eq!(t.into_inner(), 0);
    let t = FormDateTime::from_value("1970-01-02T00:30").unwrap();
    assert_eq!(t.into_inner(), 1470);
}

#[test]
fn datetime_agrees_with_chrono() {
    for s in [
        "1970-03-01T00:00",
        "1999-12-31T23:59",
        "2000-02-29T12:00",
        "2024-05-01T10:20",
        "2100-03-01T00:00",
    ] {
        let ours = FormDateTime::from_value(s).unwrap().into_inner();
        let theirs = chrono::NaiveDateTime::parse_from_str(s, "%Y-%m-%dT%H:%M")
            .unwrap()
            .and_utc()
            .timestamp()
            / 60;
        assert_eq!(ours as i64, theirs, "for {}", s);
    }
}

#[test]
fn datetime_rejects_malformed_values() {
    for bad in [
        "",
        "2024-05-01",
        "2024-05-01T10:0",
        "2024-05-01 10:00",
        "2024/05/01T10:00",
        "2024-13-01T10:00",
        "2024-00-01T10:00",
        "2024-02-30T10:00",
        "2023-02-29T10:00",
        "2024-05-00T10:00",
        "2024-05-32T10:00",
        "2024-05-01T24:00",
        "2024-05-01T10:60",
        "1969-12-31T23:59",
        "x024-05-01T10:00",
    ] {
        let err = FormDateTime::from_value(bad).unwrap_err();
        assert_eq!(err.text_key, "validation-date", "for {}", bad);
    }
    assert!(FormDateTime::from_value("2024-02-29T10:00").is_ok());
}
