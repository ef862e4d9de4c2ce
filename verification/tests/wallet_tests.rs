use ed25519_dalek::Verifier;
use sierpchain::Wallet;

#[test]
fn test_wallet_creation() {
    let wallet = Wallet::new();
    let address = wallet.get_address();
    assert!(!address.is_empty());
    assert_eq!(address[0], b'1');
}

#[test]
fn test_wallet_signing() {
    let wallet = Wallet::new();
    let message = b"hello, world".to_vec();
    let signature = wallet.sign(&message);
    let public_key = wallet.get_public_key();

    let pk_array: [u8; 32] = public_key.as_slice().try_into().unwrap();
    let sig_array: [u8; 64] = signature.as_slice().try_into().unwrap();
    let verifying_key = ed25519_dalek::VerifyingKey::from_bytes(&pk_array).unwrap();
    let sig = ed25519_dalek::Signature::from_bytes(&sig_array);
    assert!(verifying_key.verify(&message, &sig).is_ok());
}

#[test]
fn wallet_secret_is_32_bytes_and_rebuilds() {
    let wallet = Wallet::new();
    let secret = wallet.secret_bytes();
    assert_eq!(secret.len(), 32);
    let again = Wallet::from_secret(secret);
    assert_eq!(again.get_address(), wallet.get_address());
    assert_eq!(again.get_public_key(), wallet.get_public_key());
}

#[test]
fn signature_fails_on_flipped_message_or_signature() {
    let wallet = Wallet::new();
    let message = b"pay alice ten coins".to_vec();
    let signature = wallet.sign(&message);
    let public_key = wallet.get_public_key();
    let pk_array: [u8; 32] = public_key.as_slice().try_into().unwrap();
    let verifying_key = ed25519_dalek::VerifyingKey::from_bytes(&pk_array).unwrap();

    for i in 0..message.len() {
        let mut tampered = message.clone();
        tampered[i] ^= 0x01;
        let sig_array: [u8; 64] = signature.as_slice().try_into().unwrap();
        let sig = ed25519_dalek::Signature::from_bytes(&sig_array);
        assert!(verifying_key.verify(&tampered, &sig).is_err());
    }
    for i in 0..signature.len() {
        let mut tampered: Vec<u8> = signature.clone();
        tampered[i] ^= 0x01;
        let sig_array: [u8; 64] = tampered.as_slice().try_into().unwrap();
        let sig = ed25519_dalek::Signature::from_bytes(&sig_array);
        assert!(verifying_key.verify(&message, &sig).is_err());
    }
}

#[test]
fn address_is_deterministic_per_key() {
    let wallet = Wallet::new();
    assert_eq!(wallet.get_address(), wallet.get_address());
    let other = Wallet::new();
    assert_ne!(wallet.get_address(), other.get_address());
}
