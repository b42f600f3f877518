use budget::datetime::{to_local_date, to_local_time, TZ};

#[test]
fn test_to_local_date_for_chicago_as_local_time() {
    let cases = vec![
        (("2/4/2025", TZ::Local), "2025-02-04"),
        (("2/4/2025", TZ::UTC), "2025-02-04"),
        (("2025-02-04", TZ::Local), "2025-02-04"),
        (("2025-02-04", TZ::UTC), "2025-02-04"),
    ];

    for (input_params, expected_result) in cases.into_iter() {
        let (datetime, tz) = input_params;
        let result = to_local_date(datetime, &tz).unwrap();
        assert_eq!(result, expected_result);
    }
}

#[test]
fn test_to_local_date_iso8601_zulu_always_parsed_as_utc() {
    let cases = vec![
        (("2025-02-04T01:00:00Z", TZ::Local), "2025-02-03"),
        (("2025-02-04T01:00:00Z", TZ::UTC), "2025-02-03"),
    ];

    for (input_params, expected_result) in cases.into_iter() {
        let (datetime, tz) = input_params;
        let result = to_local_date(datetime, &tz).unwrap();
        assert_eq!(result, expected_result);
    }
}

// A time without a date is interpreted on the current date, so the offset
// of the display zone depends on whether daylight saving is in effect;
// both renderings are admitted for the UTC rows.
#[test]
fn test_to_local_time_for_chicago_as_local_time() {
    let cases = vec![
        (("01:30:00", TZ::Local), vec!["01:30:00"]),
        (("01:30:00", TZ::UTC), vec!["19:30:00", "20:30:00"]),
        (("10:00 pm", TZ::Local), vec!["22:00:00"]),
        (("10:00 pm", TZ::UTC), vec!["16:00:00", "17:00:00"]),
    ];

    for (input_params, expected_results) in cases.into_iter() {
        let (datetime, tz) = input_params;
        let result = to_local_time(datetime, &tz).unwrap();
        assert!(
            expected_results.contains(&result.as_str()),
            "{} not among {:?}",
            result,
            expected_results
        );
    }
}

#[test]
fn fuck_dst_seriously() {
    let valid = vec!["19:30:00", "20:30:00"];
    let result = to_local_time("01:30:00", &TZ::UTC).unwrap();
    assert!(valid.contains(&result.as_str()));
}

#[test]
fn test_to_local_time_iso8601_zulu_always_parsed_as_utc() {
    let local = to_local_time("2025-02-04T01:00:00Z", &TZ::Local).unwrap();
    let utc = to_local_time("2025-02-04T01:00:00Z", &TZ::UTC).unwrap();

    assert_eq!(local, "19:00:00");
    assert_eq!(utc, local);
}
