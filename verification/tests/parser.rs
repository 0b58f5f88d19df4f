use striker::parser::{
    ms_to_eta_string, string_bytesize_to_bytes, string_hms_to_ms, string_to_ms,
};

#[test]
fn hms_three_fields() {
    assert_eq!(string_hms_to_ms(&String::from("01:00:00")), 3_600_000);
    assert_eq!(string_hms_to_ms(&String::from("12:34:56")), (12 * 3600 + 34 * 60 + 56) * 1000);
    assert_eq!(string_hms_to_ms(&String::from("00:00:00")), 0);
}

#[test]
fn hms_four_fields() {
    assert_eq!(
        string_hms_to_ms(&String::from("1.02:00:03")),
        ((1 * 24 + 2) * 3600 + 3) * 1000
    );
    assert_eq!(string_hms_to_ms(&String::from("2.00:00:00")), 2 * 24 * 3600 * 1000);
}

#[test]
fn hms_malformed_degrades_to_zero() {
    assert_eq!(string_hms_to_ms(&String::from("garbage")), 0);
    assert_eq!(string_hms_to_ms(&String::from("1:2")), 0);
    assert_eq!(string_hms_to_ms(&String::from("")), 0);
    assert_eq!(string_hms_to_ms(&String::from("1:2:3:4:5")), 0);
}

#[test]
fn hms_nonnumeric_field_degrades_whole_conversion() {
    assert_eq!(string_hms_to_ms(&String::from("aa:bb:cc")), 0);
    assert_eq!(string_hms_to_ms(&String::from("01:xx:00")), 0);
    assert_eq!(string_hms_to_ms(&String::from(":::")), 0);
}

#[test]
fn hms_plus_sign_and_overflow() {
    assert_eq!(string_hms_to_ms(&String::from("+5:00:00")), 5 * 3600 * 1000);
    // A field too large for u64 is not a valid number: the whole
    // conversion degrades to 0.
    assert_eq!(string_hms_to_ms(&String::from("99999999999999999999:00:01")), 0);
}

#[test]
fn eta_zero_renders_infinite() {
    assert_eq!(ms_to_eta_string(&0), "Infinite");
}

#[test]
fn eta_positive_renders_duration() {
    let one_hour = ms_to_eta_string(&3_600_000);
    assert_eq!(one_hour, "1h");
    let mixed = ms_to_eta_string(&((2 * 3600 + 37 * 60) * 1000));
    assert_eq!(mixed, "2h 37m");
    for ms in [1u64, 500, 1000, 90_000, 86_400_000] {
        let eta = ms_to_eta_string(&ms);
        assert!(!eta.is_empty());
        assert_ne!(eta, "Infinite");
    }
}

#[test]
fn bytesize_parses_sizes() {
    assert_eq!(string_bytesize_to_bytes(&String::from("1 TB")), 1_000_000_000_000);
    assert_eq!(string_bytesize_to_bytes(&String::from("512 MB")), 512_000_000);
    assert_eq!(string_bytesize_to_bytes(&String::from("1.5 GB")), 1_500_000_000);
    assert_eq!(string_bytesize_to_bytes(&String::from("50 GB")), 50_000_000_000);
}

#[test]
fn bytesize_unparsable_degrades_to_zero() {
    assert_eq!(string_bytesize_to_bytes(&String::from("not-a-size")), 0);
    assert_eq!(string_bytesize_to_bytes(&String::from("")), 0);
}

#[test]
fn ms_converter_parses_durations() {
    assert_eq!(string_to_ms(&String::from("1h")), Ok(3_600_000));
    assert_eq!(string_to_ms(&String::from("2 days")), Ok(2 * 24 * 3600 * 1000));
}

#[test]
fn ms_converter_rejects_garbage() {
    assert!(string_to_ms(&String::from("garbage")).is_err());
}
