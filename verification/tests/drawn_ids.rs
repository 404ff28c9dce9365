use class_capacity_truth::crypto::ContactCipher;
use class_capacity_truth::records::{NewRealClass, RealError};
use class_capacity_truth::school::{OfferDelivery, SchoolLedger};

const NOW: i64 = 1_900_000_000;

fn input(name: &str, capacity: i64) -> NewRealClass<'_> {
    NewRealClass { name, starts_at: NOW + 86_400, cutoff: NOW + 43_200, timezone: "Europe/London", capacity }
}

fn published(ledger: &mut SchoolLedger, key: &str, id: &str, public_id: &str, capacity: i64) {
    ledger.create_real_class_with_ids(key, input("Drawn", capacity), NOW, id.to_owned(), public_id.to_owned()).unwrap();
    ledger.publish_real_class(key, id, NOW).unwrap();
}

#[test]
fn a_class_is_created_under_the_given_ids_unless_the_id_is_taken() {
    let mut ledger = SchoolLedger::new();
    let (_w, key) = ledger.create_workspace("Ids School", "owner-ids", NOW).unwrap();
    let c = ledger
        .create_real_class_with_ids(&key, input("First", 4), NOW, "class-1".to_owned(), "class_pub1".to_owned())
        .unwrap();
    assert_eq!(c.id, "class-1");
    assert_eq!(c.public_id, "class_pub1");
    assert_eq!(c.capacity, 4);
    let again = ledger.create_real_class_with_ids(&key, input("Second", 4), NOW, "class-1".to_owned(), "class_pub2".to_owned());
    assert_eq!(again.unwrap_err(), RealError::Database);
    assert_eq!(ledger.classes.len(), 1);
    let forbidden = ledger.create_real_class_with_ids("wrong-key", input("Third", 4), NOW, "class-3".to_owned(), "class_pub3".to_owned());
    assert_eq!(forbidden.unwrap_err(), RealError::Forbidden);
}

#[test]
fn a_seat_is_booked_under_the_given_id_unless_the_id_is_taken() {
    let mut ledger = SchoolLedger::new();
    let cipher = ContactCipher::from_key(&[7_u8; 32]).unwrap();
    let (_w, key) = ledger.create_workspace("Seats School", "owner-seats", NOW).unwrap();
    published(&mut ledger, &key, "class-s", "class_seats", 2);
    let c = ledger.book_real_seat_with_id(&cipher, "class_seats", "k1", "A", "a@example.org", NOW, "booking-1".to_owned()).unwrap();
    assert_eq!(c.confirmed, 1);
    assert_eq!(ledger.bookings[0].id, "booking-1");
    let taken = ledger.book_real_seat_with_id(&cipher, "class_seats", "k2", "B", "b@example.org", NOW, "booking-1".to_owned());
    assert_eq!(taken.unwrap_err(), RealError::Database);
    assert_eq!(ledger.bookings.len(), 1);
    assert_eq!(ledger.classes[0].confirmed, 1);
    let repeat = ledger.book_real_seat_with_id(&cipher, "class_seats", "k1", "A", "a@example.org", NOW, "booking-1".to_owned()).unwrap();
    assert_eq!(repeat.confirmed, 1);
    let c = ledger.book_real_seat_with_id(&cipher, "class_seats", "k2", "B", "b@example.org", NOW, "booking-2".to_owned()).unwrap();
    assert_eq!(c.open_seats, 0);
}

#[test]
fn a_waitlist_entry_is_made_under_the_given_id_unless_the_id_is_taken() {
    let mut ledger = SchoolLedger::new();
    let cipher = ContactCipher::from_key(&[8_u8; 32]).unwrap();
    let (_w, key) = ledger.create_workspace("Queue School", "owner-queue", NOW).unwrap();
    published(&mut ledger, &key, "class-q", "class_queue", 1);
    let id = ledger.join_waitlist_with_id(&cipher, "class_queue", "w1", "W", "w@example.org", NOW, "entry-1".to_owned()).unwrap();
    assert_eq!(id, "entry-1");
    let taken = ledger.join_waitlist_with_id(&cipher, "class_queue", "w2", "V", "v@example.org", NOW, "entry-1".to_owned());
    assert_eq!(taken.unwrap_err(), RealError::Database);
    assert_eq!(ledger.waitlist.len(), 1);
}

#[test]
fn a_released_seat_is_offered_under_the_given_ids_unless_the_offer_id_is_taken() {
    let mut ledger = SchoolLedger::new();
    let cipher = ContactCipher::from_key(&[9_u8; 32]).unwrap();
    let (_w, key) = ledger.create_workspace("Offer School", "owner-offer", NOW).unwrap();
    published(&mut ledger, &key, "class-o", "class_offer", 1);
    ledger.book_real_seat_with_id(&cipher, "class_offer", "k1", "A", "a@example.org", NOW, "booking-o".to_owned()).unwrap();
    ledger.join_waitlist_with_id(&cipher, "class_offer", "w1", "W", "w@example.org", NOW, "entry-o".to_owned()).unwrap();
    let delivery = OfferDelivery { cipher: &cipher, public_base_url: "https://example.test", email_configured: true };
    let released = ledger
        .cancel_booking_and_offer_with_ids(delivery, &key, "class-o", "booking-o", NOW, "offer_tok1".to_owned(), "offer-1".to_owned(), "mail-1".to_owned())
        .unwrap();
    assert_eq!(released.offer_token.as_deref(), Some("offer_tok1"));
    assert_eq!(released.offer_url.as_deref(), Some("https://example.test/offer/offer_tok1"));
    assert_eq!(released.expires_at, Some(NOW + 86_400));
    assert_eq!(released.delivery_status, "email_queued");
    assert_eq!(ledger.offers[0].id, "offer-1");
    assert_eq!(ledger.outbox[0].id, "mail-1");
    assert_eq!(ledger.classes[0].confirmed, 0);

    ledger.book_real_seat_with_id(&cipher, "class_offer", "k2", "B", "b@example.org", NOW, "booking-p".to_owned()).unwrap();
    ledger.join_waitlist_with_id(&cipher, "class_offer", "w2", "X", "x@example.org", NOW, "entry-p".to_owned()).unwrap();
    let delivery = OfferDelivery { cipher: &cipher, public_base_url: "https://example.test", email_configured: false };
    let taken = ledger.release_oldest_booking_and_offer_with_ids(delivery, &key, "class-o", NOW, "offer_tok2".to_owned(), "offer-1".to_owned(), "mail-2".to_owned());
    assert_eq!(taken.unwrap_err(), RealError::Database);
    assert_eq!(ledger.offers.len(), 1);
    let delivery = OfferDelivery { cipher: &cipher, public_base_url: "https://example.test", email_configured: false };
    let released = ledger
        .release_oldest_booking_and_offer_with_ids(delivery, &key, "class-o", NOW, "offer_tok2".to_owned(), "offer-2".to_owned(), "mail-2".to_owned())
        .unwrap();
    assert_eq!(released.offer_token.as_deref(), Some("offer_tok2"));
    assert_eq!(released.delivery_status, "ready_to_copy");
    assert_eq!(ledger.outbox.len(), 1);
}

#[test]
fn a_billing_reference_is_recorded_once_under_a_free_id() {
    let mut ledger = SchoolLedger::new();
    let (_w, key) = ledger.create_workspace("Billing School", "owner-billing", NOW).unwrap();
    let w = ledger.activate_subscription_with_id(&key, "ref-1", NOW, "bill-1".to_owned()).unwrap();
    assert_eq!(w.subscription_status, "active");
    assert_eq!(ledger.billing.len(), 1);
    assert_eq!(ledger.billing[0].id, "bill-1");
    assert_eq!(ledger.billing[0].status, "active");
    ledger.activate_subscription_with_id(&key, "ref-1", NOW, "bill-2".to_owned()).unwrap();
    assert_eq!(ledger.billing.len(), 1);
    ledger.activate_subscription_with_id(&key, "ref-2", NOW, "bill-1".to_owned()).unwrap();
    assert_eq!(ledger.billing.len(), 1);
    ledger.activate_subscription_with_id(&key, "ref-2", NOW, "bill-3".to_owned()).unwrap();
    assert_eq!(ledger.billing.len(), 2);
    assert_eq!(ledger.activate_subscription_with_id("nope", "ref-3", NOW, "bill-4".to_owned()).unwrap_err(), RealError::Forbidden);
}
