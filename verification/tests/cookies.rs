use class_capacity_truth::cookies::{set_cookie_value, sign, tenant_from_headers_or_new, verified_tenant, verify};
use class_capacity_truth::api::{demo_booking, BookingRequest};
use uuid::Uuid;

#[test]
fn signed_cookie_round_trips_and_rejects_changes() {
    let key = [7_u8; 32];
    let tenant = Uuid::new_v4().to_string();
    let value = sign(&tenant, &key);
    assert_eq!(verify(&value, &key), Some(tenant));
    assert_eq!(verify(&format!("{}x", value), &key), None);
}

#[test]
fn a_cookie_signed_with_another_key_is_refused() {
    let tenant = Uuid::new_v4().to_string();
    let value = sign(&tenant, &[7_u8; 32]);
    assert_eq!(verify(&value, &[8_u8; 32]), None);
    assert_eq!(verify("no-dot-here", &[7_u8; 32]), None);
    assert_eq!(verify("changed.invalid", &[7_u8; 32]), None);
}

#[test]
fn a_tenant_that_is_no_uuid_is_refused_even_when_signed() {
    let key = [3_u8; 32];
    let value = sign("other-school", &key);
    assert!(value.starts_with("other-school."));
    assert_eq!(verify(&value, &key), None);
}

#[test]
fn the_demo_cookie_is_found_among_other_cookies() {
    let key = [5_u8; 32];
    let tenant = Uuid::new_v4().to_string();
    let header = format!("theme=dark;  cct_demo={} ; other=1", sign(&tenant, &key));
    assert_eq!(verified_tenant(Some(&header), &key), Some(tenant.clone()));
    assert_eq!(verified_tenant(Some("cct_demo=changed.invalid"), &key), None);
    assert_eq!(verified_tenant(None, &key), None);
    let (same, new_cookie) = tenant_from_headers_or_new(Some(&header), &key);
    assert_eq!(same, tenant);
    assert!(!new_cookie);
    let (fresh, new_cookie) = tenant_from_headers_or_new(None, &key);
    assert!(new_cookie);
    assert!(Uuid::parse_str(&fresh).is_ok());
}

#[test]
fn set_cookie_value_has_the_fixed_attributes() {
    let key = [9_u8; 32];
    let tenant = Uuid::new_v4().to_string();
    let plain = set_cookie_value(&tenant, &key, false);
    assert_eq!(
        plain,
        format!("cct_demo={}; Path=/; HttpOnly; SameSite=Strict; Max-Age=86400", sign(&tenant, &key))
    );
    let secure = set_cookie_value(&tenant, &key, true);
    assert!(secure.ends_with("; Max-Age=86400; Secure"));
}

#[test]
fn validation_and_signed_cookie_are_enforced() {
    let key = [11_u8; 32];
    let tenant = Uuid::new_v4().to_string();
    let cookie = format!("cct_demo={}", sign(&tenant, &key));
    let good = BookingRequest { guardian_name: "Alex Morgan".to_owned(), guardian_email: "alex@example.org".to_owned() };

    let forged = verified_tenant(Some("cct_demo=changed.invalid"), &key);
    assert_eq!(demo_booking(forged, Some("booking-0001"), &good).unwrap_err().status, 401);

    let bad = BookingRequest { guardian_name: "A".to_owned(), guardian_email: "not-an-email".to_owned() };
    let proven = verified_tenant(Some(&cookie), &key);
    assert_eq!(demo_booking(proven, Some("booking-0001"), &bad).unwrap_err().status, 422);

    let proven = verified_tenant(Some(&cookie), &key);
    assert_eq!(demo_booking(proven, Some("booking-0001"), &good).unwrap().tenant_id, tenant);
}

#[test]
fn the_signature_is_the_hmac_sha256_of_the_tenant() {
    let value = sign("4f1c2d2e-0000-4000-8000-000000000001", &[7_u8; 32]);
    assert_eq!(
        value,
        "4f1c2d2e-0000-4000-8000-000000000001.obcVt6J_6dzUtu5p8Sm00EgkEgo6PXC_ZOCpz4Jyp3o"
    );
    assert_eq!(
        verify(&value, &[7_u8; 32]).as_deref(),
        Some("4f1c2d2e-0000-4000-8000-000000000001")
    );
}
