use ical_merge::parser::{parse_calendar, sanitize_ical, serialize_events};

const SIMPLE_ICAL: &str = r#"BEGIN:VCALENDAR
VERSION:2.0
PRODID:-//My Company//My Product//EN
BEGIN:VEVENT
UID:event1@example.com
DTSTAMP:20231201T120000Z
DTSTART:20231201T140000Z
DTEND:20231201T150000Z
SUMMARY:Test Event
DESCRIPTION:This is a test event
END:VEVENT
END:VCALENDAR"#;

const MULTI_EVENT_ICAL: &str = r#"BEGIN:VCALENDAR
VERSION:2.0
PRODID:-//My Company//My Product//EN
BEGIN:VEVENT
UID:event1@example.com
DTSTAMP:20231201T120000Z
DTSTART:20231201T140000Z
DTEND:20231201T150000Z
SUMMARY:First Event
END:VEVENT
BEGIN:VEVENT
UID:event2@example.com
DTSTAMP:20231202T120000Z
DTSTART:20231202T140000Z
DTEND:20231202T150000Z
SUMMARY:Second Event
END:VEVENT
END:VCALENDAR"#;

#[test]
fn test_parse_simple_event() {
    let calendar = parse_calendar(SIMPLE_ICAL).unwrap();
    let events = calendar.events();

    assert_eq!(events.len(), 1);
    assert_eq!(events[0].summary(), Some("Test Event"));
    assert_eq!(events[0].description(), Some("This is a test event"));
    assert_eq!(events[0].uid(), Some("event1@example.com"));
}

#[test]
fn test_parse_multiple_events() {
    let calendar = parse_calendar(MULTI_EVENT_ICAL).unwrap();
    let events = calendar.events();

    assert_eq!(events.len(), 2);
    assert_eq!(events[0].summary(), Some("First Event"));
    assert_eq!(events[1].summary(), Some("Second Event"));
}

#[test]
fn test_round_trip() {
    let calendar = parse_calendar(SIMPLE_ICAL).unwrap();
    let events = calendar.into_events();

    let serialized = serialize_events(events);

    let reparsed = parse_calendar(&serialized).unwrap();
    let reparsed_events = reparsed.events();

    assert_eq!(reparsed_events.len(), 1);
    assert_eq!(reparsed_events[0].summary(), Some("Test Event"));
    assert_eq!(
        reparsed_events[0].description(),
        Some("This is a test event")
    );
}

#[test]
fn test_parse_empty_ical() {
    let result = parse_calendar("not valid ical");
    if let Ok(calendar) = result {
        assert_eq!(calendar.events().len(), 0);
    }
}

#[test]
fn test_sanitize_malformed_trigger() {
    let malformed = r#"BEGIN:VCALENDAR
VERSION:2.0
BEGIN:VEVENT
UID:test@example.com
DTSTAMP:20231201T120000Z
SUMMARY:Test Event
BEGIN:VALARM
TRIGGER:-P2DT
ACTION:DISPLAY
END:VALARM
END:VEVENT
END:VCALENDAR"#;

    let calendar = parse_calendar(malformed).unwrap();
    let events = calendar.events();
    assert_eq!(events.len(), 1);
    assert_eq!(events[0].summary(), Some("Test Event"));
}

#[test]
fn sanitize_trims_trigger_and_line_endings() {
    assert_eq!(
        sanitize_ical("A\r\nTRIGGER:-P2DT\r\nTRIGGER:-PT15M\nB\n"),
        "A\nTRIGGER:-P2D\nTRIGGER:-PT15M\nB"
    );
    assert_eq!(sanitize_ical("TRIGGER:-P1DTT"), "TRIGGER:-P1D");
    assert_eq!(sanitize_ical("SUMMARY:LAST"), "SUMMARY:LAST");
    assert_eq!(sanitize_ical(""), "");
    assert_eq!(sanitize_ical("\n\nX"), "\n\nX");
}

#[test]
fn parse_reads_times_and_alarms() {
    let text = "BEGIN:VCALENDAR\nVERSION:2.0\nBEGIN:VEVENT\nUID:a@example.com\nDTSTART:20240115T100000Z\nDTEND:20240115T110000Z\nSUMMARY:With alarm\nBEGIN:VALARM\nTRIGGER:-PT15M\nACTION:DISPLAY\nEND:VALARM\nEND:VEVENT\nEND:VCALENDAR";
    let calendar = parse_calendar(text).unwrap();
    let events = calendar.events();
    assert_eq!(events.len(), 1);
    assert_eq!(events[0].start(), Some(1705312800));
    assert_eq!(events[0].end(), Some(1705316400));
    assert!(events[0].has_alarms());
}

#[test]
fn dates_and_floating_times_read_as_utc() {
    let text = "BEGIN:VCALENDAR\nVERSION:2.0\nBEGIN:VEVENT\nUID:a@example.com\nDTSTART;VALUE=DATE:20240115\nDTEND:20240115T110000\nSUMMARY:All day\nEND:VEVENT\nEND:VCALENDAR";
    let calendar = parse_calendar(text).unwrap();
    let events = calendar.events();
    assert_eq!(events.len(), 1);
    assert_eq!(events[0].start(), Some(1705276800));
    assert_eq!(events[0].end(), Some(1705316400));
    assert!(!events[0].has_alarms());
}

#[test]
fn parse_failure_is_a_parse_error() {
    let result = parse_calendar("BEGIN:VCALENDAR\nBEGIN:VEVENT");
    assert!(matches!(result, Err(ical_merge::error::Error::Parse(_))));
}
