use direct_authenticator::x3dh::{PreKeyBundle, PublicKey, SecretType, Signature, X3dhError};

#[test]
fn to_bytes_concatenates_the_parts() {
    let bundle = PreKeyBundle {
        identity_key: PublicKey::new(vec![1; 32], SecretType::X25519),
        signed_prekey: PublicKey::new(vec![2; 32], SecretType::X25519),
        signature_prekey: Signature::from_bytes(vec![3; 64]).expect("64 bytes"),
        one_time_prekey: PublicKey::new(vec![4; 32], SecretType::X25519),
    };
    let bytes = bundle.to_bytes();
    assert_eq!(bytes.len(), 160);
    assert_eq!(&bytes[0..32], &[1u8; 32][..]);
    assert_eq!(&bytes[32..64], &[2u8; 32][..]);
    assert_eq!(&bytes[64..128], &[3u8; 64][..]);
    assert_eq!(&bytes[128..160], &[4u8; 32][..]);
}

#[test]
fn bundle_bytes_round_trip() {
    let mut data = Vec::new();
    for i in 0..160u32 {
        data.push((i % 251) as u8);
    }
    let bundle = PreKeyBundle::try_from_bytes(&data).expect("160 bytes parse");
    assert_eq!(bundle.identity_key.data(), &data[0..32].to_vec());
    assert_eq!(bundle.to_bytes(), data);
}

#[test]
fn wrong_length_is_refused() {
    match PreKeyBundle::try_from_bytes(&vec![0; 159]) {
        Err(e) => assert_eq!(e, X3dhError::MessageLenMismatch),
        Ok(_) => panic!("159 bytes must be refused"),
    }
    match PreKeyBundle::try_from_bytes(&vec![0; 161]) {
        Err(e) => assert_eq!(e, X3dhError::MessageLenMismatch),
        Ok(_) => panic!("161 bytes must be refused"),
    }
    assert!(Signature::from_bytes(vec![0; 63]).is_none());
}
