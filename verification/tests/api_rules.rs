use class_capacity_truth::api::{
    access_key, booking_error, calendar_label, class_request, demo_booking, health_response,
    idempotency_key, is_reasonable_email, real_booking, real_error, reconcile_count, school_name,
    valid_booking, waitlist_request, BookingRequest, CalendarRequest, ClassRequest,
    ReconcileRequest, WaitlistRequest, WorkspaceRequest,
};
use class_capacity_truth::records::{BookingError, RealError};

fn request(name: &str, email: &str) -> BookingRequest {
    BookingRequest { guardian_name: name.to_owned(), guardian_email: email.to_owned() }
}

#[test]
fn reasonable_emails_have_one_at_and_a_dotted_domain() {
    assert!(is_reasonable_email("alex@example.org"));
    assert!(!is_reasonable_email("not-an-email"));
    assert!(!is_reasonable_email("@example.org"));
    assert!(!is_reasonable_email("a@b@example.org"));
    assert!(!is_reasonable_email("a@example"));
    assert!(!is_reasonable_email("a@.example.org"));
    assert!(!is_reasonable_email("a@example.org."));
}

#[test]
fn booking_contacts_are_trimmed_and_lowercased() {
    let (name, email) = valid_booking("  Alex Morgan ", " Alex@Example.ORG ").unwrap();
    assert_eq!(name, "Alex Morgan");
    assert_eq!(email, "alex@example.org");
}

#[test]
fn invalid_names_and_emails_get_their_own_answers() {
    let e = valid_booking(" A ", "alex@example.org").unwrap_err();
    assert_eq!((e.status, e.code), (422, "invalid_name"));
    assert_eq!(e.message, "Enter a guardian name between 2 and 80 characters.");
    let e = valid_booking(&"x".repeat(81), "alex@example.org").unwrap_err();
    assert_eq!(e.code, "invalid_name");
    assert!(valid_booking(&"é".repeat(80), "alex@example.org").is_ok());
    let e = valid_booking("Alex Morgan", "not-an-email").unwrap_err();
    assert_eq!((e.status, e.code), (422, "invalid_email"));
    let long = format!("{}@example.org", "a".repeat(243));
    assert_eq!(long.len(), 255);
    assert_eq!(valid_booking("Alex Morgan", &long).unwrap_err().code, "invalid_email");
    let fits = format!("{}@example.org", "a".repeat(242));
    assert!(valid_booking("Alex Morgan", &fits).is_ok());
}

#[test]
fn idempotency_keys_must_be_eight_to_a_hundred_bytes() {
    assert_eq!(idempotency_key(Some("12345678")).unwrap(), "12345678");
    assert_eq!(idempotency_key(Some("1234567")).unwrap_err().status, 400);
    assert_eq!(idempotency_key(None).unwrap_err().code, "idempotency_key_required");
    let hundred = "k".repeat(100);
    assert!(idempotency_key(Some(&hundred)).is_ok());
    let longer = "k".repeat(101);
    assert!(idempotency_key(Some(&longer)).is_err());
}

#[test]
fn workspace_keys_must_be_at_least_24_bytes() {
    assert!(access_key(Some("cct_owner_0123456789abcd")).is_ok());
    let e = access_key(Some("short")).unwrap_err();
    assert_eq!((e.status, e.code), (401, "workspace_key_required"));
    assert!(access_key(None).is_err());
}

#[test]
fn demo_booking_checks_cookie_then_key_then_contact() {
    let good = request("Alex Morgan", "alex@example.org");
    let e = demo_booking(None, Some("same-booking"), &good).unwrap_err();
    assert_eq!((e.status, e.code), (401, "demo_cookie_missing"));
    let e = demo_booking(Some("t".to_owned()), None, &good).unwrap_err();
    assert_eq!(e.code, "idempotency_key_required");
    let e = demo_booking(Some("t".to_owned()), Some("same-booking"), &request("Alex", "not-an-email")).unwrap_err();
    assert_eq!(e.code, "invalid_email");
    let ok = demo_booking(Some("t".to_owned()), Some("same-booking"), &good).unwrap();
    assert_eq!(ok.tenant_id, "t");
    assert_eq!(ok.idempotency_key, "same-booking");
    assert_eq!(ok.guardian_email, "alex@example.org");
    let (key, name, _) = real_booking(Some("first-parent"), &good).unwrap();
    assert_eq!((key.as_str(), name.as_str()), ("first-parent", "Alex Morgan"));
}

#[test]
fn waitlist_needs_consent_after_valid_contact() {
    let mut w = WaitlistRequest { guardian_name: "Waiting Parent".to_owned(), guardian_email: "waiting@example.org".to_owned(), consent: false };
    let e = waitlist_request(&w).unwrap_err();
    assert_eq!((e.status, e.code), (422, "consent_required"));
    w.consent = true;
    assert!(waitlist_request(&w).is_ok());
    w.guardian_name = "W".to_owned();
    assert_eq!(waitlist_request(&w).unwrap_err().code, "invalid_name");
}

#[test]
fn school_and_calendar_names_are_checked() {
    assert_eq!(school_name(&WorkspaceRequest { school_name: " Harbour Languages ".to_owned() }).unwrap(), "Harbour Languages");
    assert_eq!(school_name(&WorkspaceRequest { school_name: "H".to_owned() }).unwrap_err().code, "invalid_school_name");
    assert_eq!(calendar_label(&CalendarRequest { label: " Main ".to_owned() }).unwrap(), "Main");
    assert_eq!(calendar_label(&CalendarRequest { label: " ".to_owned() }).unwrap_err().code, "invalid_calendar");
    assert_eq!(reconcile_count(&ReconcileRequest { calendar_confirmed: 0 }).unwrap(), 0);
    assert_eq!(reconcile_count(&ReconcileRequest { calendar_confirmed: -1 }).unwrap_err().code, "invalid_calendar_count");
}

#[test]
fn class_requests_need_a_future_cutoff_before_the_start() {
    let now = 1_900_000_000;
    let mut c = ClassRequest { name: " Saturday level check ".to_owned(), starts_at: now + 86_400, booking_cutoff: now + 43_200, timezone: " Europe/London ".to_owned(), capacity: 2 };
    let ok = class_request(&c, now).unwrap();
    assert_eq!((ok.name.as_str(), ok.timezone.as_str()), ("Saturday level check", "Europe/London"));
    c.booking_cutoff = now;
    assert_eq!(class_request(&c, now).unwrap_err().code, "invalid_class");
    c.booking_cutoff = now + 86_400;
    assert!(class_request(&c, now).is_err());
    c.booking_cutoff = now + 1;
    c.capacity = 501;
    assert!(class_request(&c, now).is_err());
    c.capacity = 500;
    c.timezone = "  ".to_owned();
    assert!(class_request(&c, now).is_err());
}

#[test]
fn refusals_map_to_fixed_answers() {
    assert_eq!(real_error(RealError::NotFound).status, 404);
    assert_eq!(real_error(RealError::Forbidden).code, "workspace_access_denied");
    assert_eq!(real_error(RealError::Full).status, 409);
    assert_eq!(real_error(RealError::OfferUnavailable).code, "offer_unavailable");
    assert_eq!(real_error(RealError::Database).status, 503);
    assert_eq!(booking_error(BookingError::NotFound).code, "class_not_found");
    assert_eq!(booking_error(BookingError::Cutoff).message, "The booking cutoff has passed. Choose another sample class.");
    let (status, body) = health_response(true, "dev");
    assert_eq!((status, body.status, body.database, body.build), (200, "ok", "ready", "dev"));
    let (status, body) = health_response(false, "dev");
    assert_eq!((status, body.status, body.database), (503, "error", "unavailable"));
}

#[test]
fn a_bearer_token_is_the_text_after_the_scheme() {
    let t = class_capacity_truth::api::bearer_token(Some("Bearer abc.def.ghi")).unwrap();
    assert_eq!(t, "abc.def.ghi");
    assert_eq!(class_capacity_truth::api::bearer_token(Some("Bearer ")).unwrap(), "");
    let e = class_capacity_truth::api::bearer_token(Some("Basic abc")).unwrap_err();
    assert_eq!(e.status, 401);
    assert_eq!(e.code, "sign_in_required");
    assert_eq!(e.message, "Sign in with your school account.");
    assert_eq!(class_capacity_truth::api::bearer_token(None).unwrap_err().code, "sign_in_required");
    assert_eq!(class_capacity_truth::api::bearer_token(Some("bearer abc")).unwrap_err().status, 401);
}
