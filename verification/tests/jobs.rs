use class_capacity_truth::crypto::ContactCipher;
use class_capacity_truth::jobs::CalendarOutcome;
use class_capacity_truth::records::NewRealClass;
use class_capacity_truth::school::{EmailStatus, OfferDelivery, SchoolLedger};

const NOW: i64 = 1_900_000_000;

fn school(ledger: &mut SchoolLedger) -> String {
    let (_w, key) = ledger.create_workspace("Feed School", "owner-feed", NOW).unwrap();
    key
}

#[test]
fn a_calendar_check_records_one_run_per_class_and_never_changes_seats() {
    let mut ledger = SchoolLedger::new();
    let cipher = ContactCipher::from_key(&[4_u8; 32]).unwrap();
    let key = school(&mut ledger);
    let class = ledger
        .create_real_class(&key, NewRealClass { name: "Saturday level check", starts_at: NOW + 86_400, cutoff: NOW + 43_200, timezone: "Europe/London", capacity: 4 }, NOW)
        .unwrap();
    let connection = ledger.connect_calendar(&cipher, &key, "School calendar", "https://fixture.invalid/school.ics", NOW).unwrap();
    assert_eq!(connection.provider, "ical_feed");
    assert!(connection.enabled);
    assert_eq!(ledger.calendars.len(), 1);

    assert!(ledger.due_calendar_checks(&cipher, NOW - 1).is_empty());
    let due = ledger.due_calendar_checks(&cipher, NOW);
    assert_eq!(due.len(), 1);
    assert_eq!(due[0].feed_url.as_deref().unwrap(), "https://fixture.invalid/school.ics");

    let body = "BEGIN:VCALENDAR\r\nBEGIN:VEVENT\r\nSUMMARY:Saturday level check\r\nEND:VEVENT\r\nEND:VCALENDAR";
    ledger.record_calendar_check(&due[0].connection_id, &due[0].workspace_id, body, NOW);
    assert_eq!(ledger.runs.len(), 1);
    assert_eq!(ledger.runs[0].calendar_confirmed, 1);
    assert_eq!(ledger.runs[0].local_confirmed, 0);
    assert_eq!(ledger.classes[0].confirmed, 0);
    assert_eq!(ledger.calendars[0].last_polled_at, Some(NOW));
    assert_eq!(ledger.calendars[0].next_poll_at, Some(NOW + 300));
    assert!(ledger.due_calendar_checks(&cipher, NOW + 299).is_empty());
    let listed = ledger.list_real_classes(&key, NOW).unwrap();
    assert_eq!(listed[0].id, class.id);
    assert_eq!(listed[0].reconciliation_status.as_deref(), Some("attention"));

    ledger.record_calendar_failure(&due[0].connection_id, &"e".repeat(300), NOW + 300);
    assert_eq!(ledger.calendars[0].next_poll_at, Some(NOW + 600));
    assert_eq!(ledger.calendars[0].last_error.as_ref().unwrap().len(), 240);
    assert_eq!(ledger.calendars[0].last_polled_at, Some(NOW));

    ledger.connect_calendar(&cipher, &key, "Renamed", "https://example.test/other.ics", NOW + 400).unwrap();
    assert_eq!(ledger.calendars.len(), 1);
    assert_eq!(ledger.calendars[0].label, "Renamed");
    assert_eq!(ledger.calendars[0].last_error, None);
    let metrics = ledger.workspace_operational_metrics(&key, NOW + 1_000).unwrap();
    assert_eq!(metrics.calendar_job_lag_seconds, 600);
    assert_eq!(metrics.unresolved_discrepancies, 1);
}

#[test]
fn queued_offer_emails_are_captured_sent_or_retried() {
    let mut ledger = SchoolLedger::new();
    let cipher = ContactCipher::from_key(&[6_u8; 32]).unwrap();
    let key = school(&mut ledger);
    let class = ledger
        .create_real_class(&key, NewRealClass { name: "Mail class", starts_at: NOW + 86_400, cutoff: NOW + 43_200, timezone: "Europe/London", capacity: 1 }, NOW)
        .unwrap();
    let class = ledger.publish_real_class(&key, &class.id, NOW).unwrap();
    ledger.book_real_seat(&cipher, &class.public_id, "mail-booking", "A Parent", "a@example.org", NOW).unwrap();
    ledger.join_waitlist(&cipher, &class.public_id, "mail-waitlist", "Waiting Parent", "waiting@example.org", NOW).unwrap();
    let delivery = OfferDelivery { cipher: &cipher, public_base_url: "https://example.test", email_configured: true };
    ledger.release_oldest_booking_and_offer(delivery, &key, &class.id, NOW).unwrap();

    let due = ledger.due_emails(NOW);
    assert_eq!(due.len(), 1);
    assert_eq!(cipher.decrypt(&due[0].recipient_encrypted).unwrap(), "waiting@example.org");
    ledger.record_email_failed(&due[0].id, "relay refused", NOW);
    assert_eq!(ledger.outbox[0].status, EmailStatus::Failed);
    assert_eq!(ledger.outbox[0].attempts, 1);
    assert!(ledger.due_emails(NOW + 59).is_empty());
    assert_eq!(ledger.due_emails(NOW + 60).len(), 1);
    ledger.record_email_sent(&due[0].id, NOW + 60);
    assert_eq!(ledger.outbox[0].status, EmailStatus::Sent);
    assert_eq!(ledger.outbox[0].attempts, 2);
    assert_eq!(ledger.outbox[0].last_error, None);
    assert!(ledger.due_emails(NOW + 120).is_empty());
}

#[test]
fn emails_stop_after_five_attempts_and_capture_without_a_relay() {
    let mut ledger = SchoolLedger::new();
    let cipher = ContactCipher::from_key(&[7_u8; 32]).unwrap();
    let key = school(&mut ledger);
    let class = ledger
        .create_real_class(&key, NewRealClass { name: "Retry class", starts_at: NOW + 86_400, cutoff: NOW + 43_200, timezone: "Europe/London", capacity: 1 }, NOW)
        .unwrap();
    let class = ledger.publish_real_class(&key, &class.id, NOW).unwrap();
    ledger.book_real_seat(&cipher, &class.public_id, "retry-booking", "A Parent", "a@example.org", NOW).unwrap();
    ledger.join_waitlist(&cipher, &class.public_id, "retry-waitlist", "Waiting Parent", "waiting@example.org", NOW).unwrap();
    let delivery = OfferDelivery { cipher: &cipher, public_base_url: "https://example.test", email_configured: true };
    ledger.release_oldest_booking_and_offer(delivery, &key, &class.id, NOW).unwrap();
    let id = ledger.outbox[0].id.clone();
    let mut t = NOW;
    for _ in 0..5 {
        assert_eq!(ledger.due_emails(t).len(), 1);
        ledger.record_email_failed(&id, "down", t);
        t += 60;
    }
    assert!(ledger.due_emails(t).is_empty());
    ledger.record_email_captured(&id, t);
    assert_eq!(ledger.outbox[0].status, EmailStatus::Captured);
    assert_eq!(ledger.outbox[0].sent_at, Some(t));
}

#[test]
fn a_calendar_round_counts_the_feeds_checked_without_error() {
    let mut ledger = SchoolLedger::new();
    let cipher = ContactCipher::from_key(&[5_u8; 32]).unwrap();
    let key = school(&mut ledger);
    ledger
        .create_real_class(&key, NewRealClass { name: "Round class", starts_at: NOW + 86_400, cutoff: NOW + 43_200, timezone: "Europe/London", capacity: 4 }, NOW)
        .unwrap();
    ledger.connect_calendar(&cipher, &key, "Feed", "https://example.test/a.ics", NOW).unwrap();
    let due = ledger.due_calendar_checks(&cipher, NOW);
    let connection = due[0].connection_id.clone();
    let workspace = due[0].workspace_id.clone();
    let outcomes = vec![
        CalendarOutcome { connection_id: connection.clone(), workspace_id: workspace.clone(), body: Ok("BEGIN:VCALENDAR\r\nEND:VCALENDAR".to_owned()) },
        CalendarOutcome { connection_id: connection.clone(), workspace_id: workspace.clone(), body: Err("timed out".to_owned()) },
        CalendarOutcome { connection_id: connection, workspace_id: workspace, body: Ok(String::new()) },
    ];
    assert_eq!(ledger.record_calendar_round(outcomes, NOW), 2);
    assert_eq!(ledger.runs.len(), 2);
    assert_eq!(ledger.calendars[0].last_error, None);
    assert_eq!(ledger.classes[0].confirmed, 0);
    assert_eq!(ledger.record_calendar_round(Vec::new(), NOW), 0);
}
