use num_bigint::BigUint;
use solina::keys::{
    generate_random_message, verify_signature, Message, PrivateKey, PublicKey,
};
use solina::wallet::Wallet;

#[test]
fn it_works_verify_signature() {
    // Signature round trip: what a wallet signs, its public key verifies.
    let wallet = Wallet::initialize_new_wallet();
    let message = generate_random_message();
    let signature = wallet.sign_message(&message);
    let public_key = wallet.get_public_key();
    assert!(verify_signature(&message, &signature, &public_key));
}

#[test]
fn verification_fails_for_flipped_message() {
    let wallet = Wallet::initialize_new_wallet();
    let message = generate_random_message();
    let signature = wallet.sign_message(&message);
    let public_key = wallet.get_public_key();

    let mut flipped = message.bytes_vec().clone();
    flipped[0] ^= 1;
    let other = Message::new_message(flipped);
    assert!(!verify_signature(&other, &signature, &public_key));
}

#[test]
fn verification_fails_for_wrong_public_key() {
    let wallet = Wallet::initialize_new_wallet();
    let message = generate_random_message();
    let signature = wallet.sign_message(&message);
    let other_wallet = Wallet::initialize_new_wallet();
    let other_key = other_wallet.get_public_key();
    assert!(!verify_signature(&message, &signature, &other_key));
}

#[test]
fn it_works_private_key_from_plonky2_sk() {
    // A fixed little-endian limb scalar reads back as the same number.
    let limbs: [u64; 4] = [4, 3, 2, 1];
    let private_key = PrivateKey::from_plonky2_secret_key(&limbs).unwrap();
    assert_eq!(
        BigUint::from_bytes_le(
            &limbs.iter().flat_map(|u| u.to_le_bytes()).collect::<Vec<_>>()
        ),
        BigUint::from_bytes_be(private_key.bytes_vec())
    );
}

#[test]
fn private_key_rejects_out_of_range_scalar() {
    // All-ones limbs overflow the group order; zero limbs denote no key.
    let limbs: [u64; 4] = [u64::MAX, u64::MAX, u64::MAX, u64::MAX];
    assert!(PrivateKey::from_plonky2_secret_key(&limbs).is_err());
    let zero: [u64; 4] = [0, 0, 0, 0];
    assert!(PrivateKey::from_plonky2_secret_key(&zero).is_err());
}

#[test]
fn it_works_plonky2_libsecp256k1_public_key_coordinates() {
    // The limb form of a derived public key reads back as the same point.
    let limbs: [u64; 4] = [11, 22, 33, 44];
    let public_key = PublicKey::from_plonky2_secret_key(&limbs).unwrap();
    let (x_limbs, y_limbs) = public_key.into_plonky2_public_key();
    assert_eq!(x_limbs.len(), 4);
    assert_eq!(y_limbs.len(), 4);
    let mut xa = [0u64; 4];
    xa.copy_from_slice(&x_limbs);
    let mut ya = [0u64; 4];
    ya.copy_from_slice(&y_limbs);
    let back = PublicKey::from_plonky2_public_key(&xa, &ya).unwrap();
    assert_eq!(back.bytes_vec(), public_key.bytes_vec());
}

#[test]
fn message_round_trips_through_limbs() {
    let mut data = vec![0u8; 32];
    data[31] = 5;
    data[23] = 7;
    let message = Message::new_message(data.clone());
    assert_eq!(message.into_bytes(), data);
    let limbs = message.into_plonky2_message();
    assert_eq!(limbs, vec![5, 7, 0, 0]);
}

#[test]
fn message_from_slice_requires_exact_length() {
    let short = [1u8; 31];
    assert!(Message::from_slice(&short).is_err());
    let exact = [1u8; 32];
    assert!(Message::from_slice(&exact).is_ok());
}

#[test]
fn signature_limbs_match_scalar_bytes() {
    let wallet = Wallet::initialize_new_wallet();
    let message = generate_random_message();
    let signature = wallet.sign_message(&message);
    let (r_limbs, s_limbs) = signature.into_plonky2_signature();
    assert_eq!(
        BigUint::from_slice(
            &r_limbs.iter().flat_map(|u| [(*u & 0xffff_ffff) as u32, (*u >> 32) as u32]).collect::<Vec<_>>()
        ),
        BigUint::from_bytes_be(signature.r_bytes_vec())
    );
    assert_eq!(s_limbs.len(), 4);
}

#[test]
fn it_works_pubkey_from_plonky2_sk() {
    let limbs: [u64; 4] = [17, 5, 0, 0];
    let public_key = PublicKey::from_plonky2_secret_key(&limbs).unwrap();
    let private_key = PrivateKey::from_plonky2_secret_key(&limbs).unwrap();
    let should_be_public_key = PublicKey::from_private_key(&private_key);
    assert_eq!(public_key.bytes_vec(), should_be_public_key.bytes_vec());
}
