use class_capacity_truth::demo::DemoLedger;
use class_capacity_truth::records::{Availability, BookingError};

const NOW: i64 = 1_900_000_000;

#[test]
fn capacity_cutoff_idempotency_reset_and_concurrent_race() {
    let mut ledger = DemoLedger::new();
    let tenant = "4f1c2d2e-0000-4000-8000-000000000001";
    ledger.create_or_refresh_demo(tenant, NOW);
    let sessions = ledger.list_sessions(tenant, NOW);
    assert_eq!(sessions.len(), 3);
    assert!(sessions.iter().all(|item| item.timezone == "Europe/London"));
    let open = sessions.iter().find(|item| item.availability == Availability::Available).unwrap();
    let full = sessions.iter().find(|item| item.availability == Availability::Full).unwrap();
    let cutoff = sessions.iter().find(|item| item.availability == Availability::Cutoff).unwrap();

    assert_eq!(
        ledger.book_seat(tenant, &full.public_id, "full-booking", "Alex Morgan", "alex@example.org", NOW).unwrap_err(),
        BookingError::Full
    );
    assert_eq!(
        ledger.book_seat(tenant, &cutoff.public_id, "cutoff-booking", "Alex Morgan", "alex@example.org", NOW).unwrap_err(),
        BookingError::Cutoff
    );
    let first = ledger.book_seat(tenant, &open.public_id, "same-booking", "Alex Morgan", "alex@example.org", NOW).unwrap();
    let repeat = ledger.book_seat(tenant, &open.public_id, "same-booking", "Alex Morgan", "alex@example.org", NOW).unwrap();
    assert_eq!(first.booking_id, repeat.booking_id);
    assert!(repeat.repeated);
    assert!(!first.repeated);
    assert_eq!(repeat.class.open_seats, 1);

    let a = ledger.book_seat(tenant, &open.public_id, "race-a", "One Guardian", "one@example.org", NOW);
    let b = ledger.book_seat(tenant, &open.public_id, "race-b", "Two Guardian", "two@example.org", NOW);
    assert!(a.is_ok());
    assert_eq!(b.unwrap_err(), BookingError::Full);

    ledger.reset_demo(tenant, NOW + 1);
    assert_eq!(ledger.list_sessions(tenant, NOW + 1)[0].open_seats, 2);
}

#[test]
fn claim_demo_expiry_and_input_disposal() {
    let mut ledger = DemoLedger::new();
    let tenant = "claim-demo-expiry";
    ledger.create_or_refresh_demo(tenant, NOW);
    let class = ledger.list_sessions(tenant, NOW).remove(0);
    ledger
        .book_seat(tenant, &class.public_id, "claim-demo-booking", "Private Demo Name", "private-demo@example.org", NOW)
        .unwrap();
    assert_eq!(ledger.bookings[0].guardian_name, "[demo input not retained]");
    assert_eq!(ledger.bookings[0].guardian_email, "[demo input not retained]");
    assert_eq!(ledger.cleanup_expired(NOW + 86_399), 0);
    assert_eq!(ledger.cleanup_expired(NOW + 86_400), 1);
    assert_eq!(ledger.bookings.len(), 0);
    assert_eq!(ledger.sessions.len(), 0);
}

#[test]
fn demo_cookie_isolates_bookings_and_rejects_tenant_input() {
    let mut ledger = DemoLedger::new();
    ledger.create_or_refresh_demo("tenant-a", NOW);
    ledger.create_or_refresh_demo("tenant-b", NOW);
    let a = ledger.list_sessions("tenant-a", NOW);
    assert_eq!(ledger.get_session("tenant-b", &a[0].public_id, NOW).map(|c| c.public_id), None);
    assert_eq!(
        ledger.book_seat("tenant-b", &a[0].public_id, "cross-tenant", "Alex Morgan", "alex@example.org", NOW).unwrap_err(),
        BookingError::NotFound
    );
    ledger.book_seat("tenant-a", &a[0].public_id, "own-booking", "Alex Morgan", "alex@example.org", NOW).unwrap();
    assert_eq!(ledger.list_sessions("tenant-b", NOW)[0].open_seats, 2);
    ledger.destroy_demo("tenant-a");
    assert!(ledger.list_sessions("tenant-a", NOW).is_empty());
    assert_eq!(ledger.list_sessions("tenant-b", NOW).len(), 3);
}

#[test]
fn seeded_classes_come_in_their_display_order() {
    let mut ledger = DemoLedger::new();
    ledger.create_or_refresh_demo("order", NOW);
    let names: Vec<String> = ledger.list_sessions("order", NOW).into_iter().map(|c| c.name).collect();
    assert_eq!(names, vec!["Level check: upper primary", "Friday conversation group", "Saturday assessment"]);
    let first = &ledger.list_sessions("order", NOW)[0];
    assert_eq!((first.capacity, first.confirmed, first.open_seats), (8, 6, 2));
    assert_eq!(first.starts_at, NOW + 172_800);
}

#[test]
fn stored_demo_tables_are_checked_before_use() {
    let mut ledger = DemoLedger::new();
    ledger.create_or_refresh_demo("stored", NOW);
    let DemoLedger { tenants, mut sessions, bookings } = ledger;
    let restored = DemoLedger::restore(tenants, sessions.drain(..).collect(), bookings).expect("well-formed tables");
    assert_eq!(restored.list_sessions("stored", NOW).len(), 3);
    let DemoLedger { mut tenants, sessions, bookings } = restored;
    let copy = class_capacity_truth::demo::DemoTenant { id: tenants[0].id.clone(), created_at: NOW, expires_at: NOW + 1 };
    tenants.push(copy);
    assert!(DemoLedger::restore(tenants, sessions, bookings).is_none());
}

#[test]
fn resetting_an_absent_demo_matches_creating_it() {
    let mut created = DemoLedger::new();
    let mut reset = DemoLedger::new();
    created.create_or_refresh_demo("fresh-tenant", NOW);
    reset.reset_demo("fresh-tenant", NOW);
    assert_eq!(created.tenants.len(), reset.tenants.len());
    assert_eq!(created.tenants[0].expires_at, reset.tenants[0].expires_at);
    assert_eq!(created.tenants[0].created_at, NOW);
    let a = created.list_sessions("fresh-tenant", NOW);
    let b = reset.list_sessions("fresh-tenant", NOW);
    assert_eq!(a.len(), b.len());
    for (x, y) in a.iter().zip(b.iter()) {
        assert_eq!(x.name, y.name);
        assert_eq!(x.starts_at, y.starts_at);
        assert_eq!(x.booking_cutoff, y.booking_cutoff);
        assert_eq!(x.capacity, y.capacity);
        assert_eq!(x.confirmed, y.confirmed);
        assert_eq!(x.availability, y.availability);
    }
}

#[test]
fn a_repeated_key_returns_the_earlier_booking_even_for_another_class() {
    let mut ledger = DemoLedger::new();
    let tenant = "repeat-tenant";
    ledger.create_or_refresh_demo(tenant, NOW);
    let sessions = ledger.list_sessions(tenant, NOW);
    let first = ledger.book_seat(tenant, &sessions[0].public_id, "key-1", "A", "a@example.org", NOW).unwrap();
    let again = ledger.book_seat(tenant, &sessions[1].public_id, "key-1", "A", "a@example.org", NOW).unwrap();
    assert!(again.repeated);
    assert_eq!(again.booking_id, first.booking_id);
    assert_eq!(again.class.public_id, sessions[0].public_id);
    assert_eq!(ledger.bookings.len(), 1);
    let other = ledger.book_seat("other-tenant", &sessions[0].public_id, "key-1", "A", "a@example.org", NOW);
    assert_eq!(other.unwrap_err(), BookingError::NotFound);
}

#[test]
fn resetting_a_busy_demo_matches_creating_it_after_removal() {
    let mut reset = DemoLedger::new();
    reset.create_or_refresh_demo("busy", NOW);
    let first = reset.list_sessions("busy", NOW).remove(0);
    reset.book_seat("busy", &first.public_id, "k", "A", "a@example.org", NOW).unwrap();
    let mut created = DemoLedger::new();
    created.create_or_refresh_demo("busy", NOW);
    created.destroy_demo("busy");
    reset.reset_demo("busy", NOW + 5);
    created.create_or_refresh_demo("busy", NOW + 5);
    assert_eq!(reset.bookings.len(), 0);
    assert_eq!(created.bookings.len(), 0);
    assert_eq!(reset.tenants[0].expires_at, created.tenants[0].expires_at);
    let a = reset.list_sessions("busy", NOW + 5);
    let b = created.list_sessions("busy", NOW + 5);
    assert_eq!(a.len(), 3);
    assert_eq!(a[0].open_seats, 2);
    for (x, y) in a.iter().zip(b.iter()) {
        assert_eq!((x.confirmed, x.capacity, x.starts_at), (y.confirmed, y.capacity, y.starts_at));
    }
}
