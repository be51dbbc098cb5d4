use attendance::dates::validate_date;
use attendance::text::validate_person_names;

#[test]
fn validate_date_accepts_calendar_dates() {
    assert!(!validate_date("2024-05-01".to_string()));
    assert!(!validate_date("2024-02-29".to_string()));
}

#[test]
fn validate_date_rejects_malformed_strings() {
    assert!(validate_date("banana".to_string()));
    assert!(validate_date("2023-02-29".to_string()));
    assert!(validate_date("2024-13-01".to_string()));
    assert!(validate_date("".to_string()));
}

#[test]
fn person_names_are_trimmed() {
    let accepted = validate_person_names(" Ada ", "Lovelace ", "  al ").expect("names are valid");
    assert_eq!(accepted.first_name, "Ada");
    assert_eq!(accepted.last_name, "Lovelace");
    assert_eq!(accepted.nickname, "al");
}

#[test]
fn blank_required_names_are_rejected() {
    assert!(validate_person_names("   ", "Lovelace", "").is_none());
    assert!(validate_person_names("Ada", "  ", "").is_none());
    assert!(validate_person_names("Ada", "Lovelace", "   ").is_some());
}
