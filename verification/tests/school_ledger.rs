use class_capacity_truth::crypto::ContactCipher;
use class_capacity_truth::records::{NewRealClass, RealError};
use class_capacity_truth::school::{EmailStatus, MemberRow, OfferDelivery, SchoolLedger};

const NOW: i64 = 1_900_000_000;

fn class_input(name: &str, capacity: i64) -> NewRealClass<'_> {
    NewRealClass { name, starts_at: NOW + 86_400, cutoff: NOW + 43_200, timezone: "Europe/London", capacity }
}

#[test]
fn regression_real_school_flow_configures_books_reconciles_and_converts_released_waitlist_seat() {
    let mut ledger = SchoolLedger::new();
    let cipher = ContactCipher::from_key(&[19_u8; 32]).unwrap();
    let (workspace, key) = ledger.create_workspace("Harbour Languages", "test-owner-oid", NOW).unwrap();
    assert_eq!(ledger.workspace_from_key(&key).unwrap().id, workspace.id);
    assert_eq!(workspace.subscription_status, "trial");
    assert_eq!(workspace.trial_ends_at, Some(NOW + 14 * 86_400));
    let class = ledger.create_real_class(&key, class_input("Saturday level check", 2), NOW).unwrap();
    let class = ledger.publish_real_class(&key, &class.id, NOW).unwrap();
    assert!(class.published);
    assert!(ledger.get_public_real_class(&class.public_id, NOW).is_some());
    let booked = ledger.book_real_seat(&cipher, &class.public_id, "first-parent", "A Parent", "a@example.org", NOW).unwrap();
    assert_eq!(booked.open_seats, 1);
    let booked = ledger.book_real_seat(&cipher, &class.public_id, "second-parent", "B Parent", "b@example.org", NOW).unwrap();
    assert_eq!(booked.open_seats, 0);
    assert_eq!(
        ledger.book_real_seat(&cipher, &class.public_id, "oversell", "C Parent", "c@example.org", NOW).unwrap_err(),
        RealError::Full
    );
    let waitlist_id = ledger.join_waitlist(&cipher, &class.public_id, "waitlist-request", "Waiting Parent", "waiting@example.org", NOW).unwrap();
    let repeated = ledger.join_waitlist(&cipher, &class.public_id, "waitlist-request", "Waiting Parent", "waiting@example.org", NOW).unwrap();
    assert_eq!(waitlist_id, repeated);
    assert_ne!(ledger.bookings[0].guardian_name, "A Parent");
    assert_ne!(ledger.bookings[0].guardian_email, "a@example.org");
    let visible = ledger.list_confirmed_bookings(&cipher, &key, &class.id).unwrap();
    assert_eq!(visible[0].guardian_name, "A Parent");
    assert_eq!(visible.len(), 2);
    let checked = ledger.reconcile_class(&key, &class.id, 1, NOW).unwrap();
    assert_eq!(checked.reconciliation_status.as_deref(), Some("attention"));
    let delivery = OfferDelivery { cipher: &cipher, public_base_url: "https://example.test/", email_configured: true };
    let released = ledger.release_oldest_booking_and_offer(delivery, &key, &class.id, NOW).unwrap();
    let token = released.offer_token.expect("one fair offer");
    assert_eq!(released.offer_url.as_deref(), Some(format!("https://example.test/offer/{token}").as_str()));
    assert_eq!(released.delivery_status, "email_queued");
    assert_eq!(ledger.outbox.len(), 1);
    assert_eq!(ledger.outbox[0].status, EmailStatus::Pending);
    assert!(ledger.outbox[0].text_body.contains(&format!("/offer/{token}")));
    let offer = ledger.get_offer(&token, NOW).unwrap().expect("offer is viewable");
    assert_eq!(offer.class.public_id, class.public_id);
    let accepted = ledger.accept_offer(&token, NOW).unwrap();
    assert_eq!(accepted.confirmed, 2);
    assert_eq!(accepted.open_seats, 0);
    assert_eq!(ledger.accept_offer(&token, NOW).unwrap_err(), RealError::OfferUnavailable);

    let receipts = ledger.list_offer_receipts(&cipher, &key, "https://example.test", NOW).unwrap();
    assert_eq!(receipts.len(), 1);
    assert_eq!(receipts[0].recipient_name, "Waiting Parent");
    assert_eq!(receipts[0].offer_status, "accepted");
    assert_eq!(receipts[0].delivery_status, "accepted");
    assert_eq!(receipts[0].offer_url, format!("https://example.test/offer/{token}"));

    ledger.members.push(MemberRow { workspace_id: workspace.id.clone(), oid: "viewer-oid".to_owned(), role: "viewer".to_owned(), created_at: NOW });
    assert!(ledger.authorize_workspace(&key, "viewer-oid", &["viewer"]).is_ok());
    assert_eq!(ledger.authorize_workspace(&key, "viewer-oid", &["owner"]).unwrap_err(), RealError::Forbidden);

    let scrubbed = ledger.cleanup_retained_contacts(NOW + 91 * 86_400);
    assert!(scrubbed >= 3);
    assert!(ledger.bookings.iter().all(|b| b.guardian_name == "[deleted]" && b.guardian_email == "[deleted]"));
}

#[test]
fn claim_reconciliation_never_mutates_confirmed_seats() {
    let mut ledger = SchoolLedger::new();
    let (_workspace, key) = ledger.create_workspace("Reconciliation School", "owner-reconcile", NOW).unwrap();
    let class = ledger.create_real_class(&key, class_input("Tuesday class", 8), NOW).unwrap();
    assert_eq!(class.confirmed, 0);
    let reconciled = ledger.reconcile_class(&key, &class.id, 7, NOW).unwrap();
    assert_eq!(reconciled.confirmed, 0);
    assert_eq!(reconciled.open_seats, 8);
    assert_eq!(reconciled.calendar_confirmed, Some(7));
    assert_eq!(reconciled.reconciliation_status.as_deref(), Some("attention"));
    let matched = ledger.reconcile_class(&key, &class.id, 0, NOW).unwrap();
    assert_eq!(matched.reconciliation_status.as_deref(), Some("matched"));
}

#[test]
fn claim_contact_encryption_and_retention() {
    let mut ledger = SchoolLedger::new();
    let cipher = ContactCipher::from_key(&[29_u8; 32]).unwrap();
    let (_workspace, key) = ledger.create_workspace("Privacy School", "owner-privacy", NOW).unwrap();
    let class = ledger.create_real_class(&key, class_input("Privacy class", 2), NOW).unwrap();
    let class = ledger.publish_real_class(&key, &class.id, NOW).unwrap();
    ledger.book_real_seat(&cipher, &class.public_id, "privacy-booking", "Private Parent", "private-parent@example.org", NOW).unwrap();
    assert_ne!(ledger.bookings[0].guardian_name, "Private Parent");
    assert_ne!(ledger.bookings[0].guardian_email, "private-parent@example.org");
    assert_eq!(ledger.cleanup_retained_contacts(NOW + 90 * 86_400 - 1), 0);
    assert_eq!(ledger.cleanup_retained_contacts(NOW + 90 * 86_400), 1);
    assert_eq!(ledger.bookings[0].guardian_name, "[deleted]");
    assert_eq!(ledger.bookings[0].guardian_email, "[deleted]");
    assert_eq!(
        ledger.list_confirmed_bookings(&cipher, &key, &class.id).unwrap_err(),
        RealError::Database
    );
}

#[test]
fn claim_staff_roles_enforce_owner_actions() {
    let mut ledger = SchoolLedger::new();
    let (workspace, key) = ledger.create_workspace("Role School", "owner-oid", NOW).unwrap();
    ledger.members.push(MemberRow { workspace_id: workspace.id.clone(), oid: "viewer-oid".to_owned(), role: "viewer".to_owned(), created_at: NOW });
    assert!(ledger.authorize_workspace(&key, "viewer-oid", &["viewer"]).is_ok());
    assert_eq!(ledger.authorize_workspace(&key, "viewer-oid", &["owner"]).unwrap_err(), RealError::Forbidden);
    assert!(ledger.authorize_workspace(&key, "owner-oid", &["owner"]).is_ok());
    assert_eq!(ledger.authorize_workspace("wrong-key-wrong-key-wrong", "owner-oid", &["owner"]).unwrap_err(), RealError::Forbidden);
    assert_eq!(ledger.workspace_for_oid("owner-oid").unwrap().id, workspace.id);
}

#[test]
fn other_workspaces_list_nothing_and_unknown_keys_are_forbidden() {
    let mut ledger = SchoolLedger::new();
    let cipher = ContactCipher::from_key(&[3_u8; 32]).unwrap();
    let (_a, key_a) = ledger.create_workspace("School A", "owner-a", NOW).unwrap();
    let (_b, key_b) = ledger.create_workspace("School B", "owner-b", NOW).unwrap();
    let class = ledger.create_real_class(&key_a, class_input("A class", 3), NOW).unwrap();
    assert!(ledger.list_confirmed_bookings(&cipher, &key_b, &class.id).unwrap().is_empty());
    assert_eq!(ledger.reconcile_class(&key_b, &class.id, 1, NOW).unwrap_err(), RealError::NotFound);
    assert_eq!(ledger.list_real_classes("not-a-real-key-not-a-real", NOW).unwrap_err(), RealError::Forbidden);
    assert_eq!(ledger.list_real_classes(&key_a, NOW).unwrap().len(), 1);
    assert!(ledger.list_real_classes(&key_b, NOW).unwrap().is_empty());
}

#[test]
fn an_export_holds_classes_and_their_confirmed_bookings() {
    let mut ledger = SchoolLedger::new();
    let cipher = ContactCipher::from_key(&[13_u8; 32]).unwrap();
    let (workspace, key) = ledger.create_workspace("Export School", "owner-export", NOW).unwrap();
    let class = ledger.create_real_class(&key, class_input("Export class", 3), NOW).unwrap();
    let class = ledger.publish_real_class(&key, &class.id, NOW).unwrap();
    ledger.book_real_seat(&cipher, &class.public_id, "export-booking", "Export Parent", "export@example.org", NOW).unwrap();
    let export = ledger.export_workspace(&cipher, &key).unwrap();
    assert_eq!(export.workspace.id, workspace.id);
    assert_eq!(export.classes.len(), 1);
    assert_eq!(export.confirmed_bookings.len(), 1);
    assert_eq!(export.confirmed_bookings[0].0, class.id);
    assert_eq!(export.confirmed_bookings[0].1[0].guardian_email, "export@example.org");
    assert_eq!(ledger.export_workspace(&cipher, "no-such-workspace-key-here").unwrap_err(), RealError::Forbidden);
    ledger.delete_workspace(&key).unwrap();
    assert!(ledger.classes.is_empty());
    assert_eq!(ledger.export_workspace(&cipher, &key).unwrap_err(), RealError::Forbidden);
}

#[test]
fn stored_tables_are_checked_before_use() {
    let mut ledger = SchoolLedger::new();
    let (_workspace, key) = ledger.create_workspace("Stored School", "owner-store", NOW).unwrap();
    ledger.create_real_class(&key, class_input("Stored class", 3), NOW).unwrap();
    let mut restored = SchoolLedger::restore(ledger).expect("well-formed tables");
    assert_eq!(restored.list_real_classes(&key, NOW).unwrap().len(), 1);
    restored.classes[0].confirmed = 4;
    assert!(SchoolLedger::restore(restored).is_none());
}
