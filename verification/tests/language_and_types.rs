use roombook::language::{is_supported_language, supported_languages, Language};
use roombook::model::date_type::DateType;
use roombook::util::{datetime_to_day, str_eq, str_lt};
use roombook::Config;

#[test]
fn supported_language_set() {
    assert!(is_supported_language("de"));
    assert!(is_supported_language("en"));
    assert!(!is_supported_language("fr"));
    assert!(!is_supported_language(""));
    let langs = supported_languages();
    assert_eq!(langs, vec![String::from("de"), String::from("en")]);
}

#[test]
fn supported_cookie_wins() {
    let lang = Language::from_preferences(Some("en"), Some("de"));
    assert_eq!(lang.into_string(), "en");
}

#[test]
fn unsupported_cookie_falls_back_to_header() {
    let lang = Language::from_preferences(Some("fr"), Some("en-US,en;q=0.9,de;q=0.8"));
    assert_eq!(lang.into_string(), "en");
}

#[test]
fn header_quality_ordering_decides() {
    let lang = Language::from_preferences(None, Some("en;q=0.5,de;q=0.9"));
    assert_eq!(lang.into_string(), "de");
}

#[test]
fn no_header_means_german() {
    let lang = Language::from_preferences(None, None);
    assert_eq!(lang.into_string(), "de");
}

#[test]
fn unmatched_header_means_english() {
    let lang = Language::from_preferences(None, Some("fr-FR,it;q=0.4"));
    assert_eq!(lang.into_string(), "en");
}

#[test]
fn header_with_non_numeric_quality_is_not_negotiated() {
    // Quality tags are parsed as floating-point numbers by the negotiation
    // call; anything but plain digits and dots is kept away from it.
    let lang = Language::from_preferences(None, Some("de;q=nan,en;q=0.5"));
    assert_eq!(lang.into_string(), "en");
    let lang = Language::from_preferences(None, Some("de;q=1x"));
    assert_eq!(lang.into_string(), "en");
    // A plain numeric quality still negotiates.
    let lang = Language::from_preferences(None, Some("de;q=0.8"));
    assert_eq!(lang.into_string(), "de");
}

#[test]
fn date_type_keys_round_trip() {
    for dt in DateType::get_variants() {
        assert_eq!(DateType::get_by_value(dt.get_value()), Some(dt));
    }
    assert_eq!(DateType::get_by_value("orchestra"), Some(DateType::Orchestra));
    assert_eq!(DateType::get_by_value("techno"), None);
}

#[test]
fn voices_belong_to_their_date_type() {
    let choir = DateType::Choir.get_voices();
    assert_eq!(choir.len(), 2);
    assert_eq!(choir[0].get_value(), "female");
    assert!(DateType::Choir.voice_by_value("female").is_some());
    assert!(DateType::Choir.voice_by_value("soprano").is_none());
    assert!(DateType::ChamberChoir.voice_by_value("soprano").is_some());
    assert_eq!(DateType::Orchestra.get_voices().len(), 3);
}

#[test]
fn tera_pairs_carry_keys() {
    let pairs = DateType::get_variants_tera();
    assert_eq!(pairs.len(), 2);
    assert_eq!(pairs[0].value, "choir");
    assert_eq!(pairs[0].display_name, "date-type-choir");
    let voices = DateType::ChamberChoir.get_voices_tera();
    assert_eq!(voices[0].value, "soprano");
    assert_eq!(voices[0].display_name, "voice-soprano");
}

#[test]
fn enabled_variants_follow_the_configuration() {
    let config = Config {
        email_host: String::new(),
        email_port: 25,
        email_from_address: String::new(),
        web_address: String::new(),
        dates_per_day: 0,
        days_deadline: 0,
        application_deadlines: Vec::new(),
        enabled_date_types: vec![DateType::ChamberChoir],
        impressum: String::new(),
    };
    let enabled = DateType::enabled_variants(&config);
    assert_eq!(enabled, vec![DateType::ChamberChoir]);
    assert_eq!(config.deadline_of(DateType::Choir), None);
}

#[test]
fn day_truncation() {
    assert_eq!(datetime_to_day(0), 0);
    assert_eq!(datetime_to_day(1439), 0);
    assert_eq!(datetime_to_day(1440), 1440);
    assert_eq!(datetime_to_day(3000), 2880);
}

#[test]
fn string_helpers_compare_by_characters() {
    assert!(str_eq("A1", "A1"));
    assert!(!str_eq("A1", "A2"));
    assert!(str_lt("A1", "A2"));
    assert!(str_lt("A", "A1"));
    assert!(!str_lt("B", "A1"));
    assert!(!str_lt("A1", "A1"));
}
