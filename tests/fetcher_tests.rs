use ical_merge::fetcher::normalize_calendar_url;

#[test]
fn test_normalize_webcal_url() {
    assert_eq!(
        normalize_calendar_url("webcal://example.com/cal.ics"),
        "http://example.com/cal.ics"
    );
    assert_eq!(
        normalize_calendar_url("webcals://example.com/cal.ics"),
        "https://example.com/cal.ics"
    );
    assert_eq!(
        normalize_calendar_url("http://example.com/cal.ics"),
        "http://example.com/cal.ics"
    );
    assert_eq!(
        normalize_calendar_url("https://example.com/cal.ics"),
        "https://example.com/cal.ics"
    );
}

#[test]
fn normalize_leaves_short_and_other_urls() {
    assert_eq!(normalize_calendar_url("webcal:"), "webcal:");
    assert_eq!(normalize_calendar_url(""), "");
    assert_eq!(normalize_calendar_url("webcal://"), "http://");
}
