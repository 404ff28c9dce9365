use class_capacity_truth::codec::{digest, to_hex};
use class_capacity_truth::keys::{contact_key_from_setting, cookie_key_from_setting, stored_cookie_key_ok, KeyError};

#[test]
fn digests_are_lowercase_hex_sha256() {
    assert_eq!(digest("abc"), "ba7816bf8f01cfea414140de5dae2223b00361a396177a9cb410ff61f20015ad");
    assert_eq!(to_hex(&[0, 15, 16, 255]), "000f10ff");
    assert_eq!(to_hex(&[]), "");
}

#[test]
fn key_settings_must_decode_to_enough_bytes() {
    let long = "AAECAwQFBgcICQoLDA0ODxAREhMUFRYXGBkaGxwdHh8=";
    assert_eq!(cookie_key_from_setting(long).unwrap(), (0_u8..32).collect::<Vec<u8>>());
    assert_eq!(cookie_key_from_setting("AAEC").unwrap_err(), KeyError::TooShort);
    assert_eq!(cookie_key_from_setting("not base64!").unwrap_err(), KeyError::NotBase64);
    assert!(stored_cookie_key_ok(&[0_u8; 32]));
    assert!(!stored_cookie_key_ok(&[0_u8; 31]));
    assert_eq!(contact_key_from_setting("AAEC").unwrap(), vec![0, 1, 2]);
    assert_eq!(contact_key_from_setting("AAEC="), None);
}
