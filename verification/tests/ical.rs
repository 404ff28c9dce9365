use class_capacity_truth::ical::count_ical_events_by_summary;

#[test]
fn parses_real_ical_events_without_counting_calendar_metadata() {
    let fixture = "BEGIN:VCALENDAR\r\nBEGIN:VEVENT\r\nSUMMARY:Saturday level check\r\nEND:VEVENT\r\nBEGIN:VEVENT\r\nSUMMARY:Saturday level check\r\nEND:VEVENT\r\nEND:VCALENDAR";
    assert_eq!(
        count_ical_events_by_summary(fixture).count("Saturday level check"),
        2
    );
}

#[test]
fn summaries_outside_events_are_not_counted() {
    let feed = "BEGIN:VCALENDAR\nSUMMARY:Calendar name\nBEGIN:VEVENT\nSUMMARY:Calendar name\nEND:VEVENT\nSUMMARY:Calendar name\nEND:VCALENDAR\n";
    let counts = count_ical_events_by_summary(feed);
    assert_eq!(counts.count("Calendar name"), 1);
    assert_eq!(counts.get("Calendar name"), Some(1));
    assert_eq!(counts.get("Other"), None);
    assert_eq!(counts.count("Other"), 0);
}

#[test]
fn folded_lines_and_escaped_commas_are_read() {
    let feed = "BEGIN:VEVENT\r\nSUMMARY:Level check\\, upper\r\n  primary\r\nEND:VEVENT\r\nBEGIN:VEVENT\nSUMMARY:Level check\\, upper\n  primary\nEND:VEVENT";
    let counts = count_ical_events_by_summary(feed);
    assert_eq!(counts.count("Level check, upper primary"), 2);
}

#[test]
fn trailing_carriage_returns_are_ignored() {
    let feed = "BEGIN:VEVENT\r\r\nSUMMARY:Trial\r\r\nEND:VEVENT\r\n";
    assert_eq!(count_ical_events_by_summary(feed).count("Trial"), 1);
    assert_eq!(count_ical_events_by_summary("").count("Trial"), 0);
}
