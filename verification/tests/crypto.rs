use class_capacity_truth::crypto::{CipherError, ContactCipher};

#[test]
fn contacts_round_trip_and_refuse_other_keys() {
    let cipher = ContactCipher::from_key(&[1_u8; 32]).unwrap();
    let sealed = cipher.encrypt("Alex Morgan").unwrap();
    assert!(sealed.starts_with("v1."));
    assert_ne!(sealed, cipher.encrypt("Alex Morgan").unwrap());
    assert_eq!(cipher.decrypt(&sealed).unwrap(), "Alex Morgan");
    let other = ContactCipher::from_key(&[2_u8; 32]).unwrap();
    assert_eq!(other.decrypt(&sealed).unwrap_err(), CipherError::DecryptionFailed);
}

#[test]
fn malformed_values_are_refused() {
    let cipher = ContactCipher::from_key(&[1_u8; 32]).unwrap();
    assert_eq!(cipher.decrypt("Alex Morgan").unwrap_err(), CipherError::NotEncrypted);
    assert_eq!(cipher.decrypt("v1").unwrap_err(), CipherError::MissingNonce);
    assert_eq!(cipher.decrypt("v1.AAAA").unwrap_err(), CipherError::MissingCiphertext);
    assert_eq!(cipher.decrypt("v1.AAAA.AAAA").unwrap_err(), CipherError::InvalidNonce);
    assert_eq!(cipher.decrypt("v1.!!.AAAA").unwrap_err(), CipherError::InvalidEncoding);
    assert!(ContactCipher::from_key(&[1_u8; 31]).is_err());
}
