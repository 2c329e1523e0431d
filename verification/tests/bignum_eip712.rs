use solina::bignum::BigNum;
use solina::eip712::{encode_type_signature, u64_to_dec_string, EIP712Domain};
use solina::encode_bool_value;

#[test]
fn bignum_arithmetic_and_encoding() {
    let a = BigNum::from_u64(1_000_000_000_000);
    let b = BigNum::from_u64(64);
    let q = a.div(&b);
    assert_eq!(q, BigNum::from_u64(15_625_000_000));

    assert!(b.lt(&a));
    assert!(!a.lt(&b));
    assert!(b.le(&b));
    assert!(b.eq_value(&BigNum::from_u64(64)));

    assert_eq!(BigNum::from_u64(0).to_bytes_be(), vec![0u8]);
    assert_eq!(BigNum::from_u64(255).to_bytes_be(), vec![255u8]);
    assert_eq!(BigNum::from_u64(0x0102).to_bytes_be(), vec![1u8, 2]);
    assert_eq!(
        BigNum::from_u64(1_000_000_000_000).to_bytes_be(),
        vec![0xe8u8, 0xd4, 0xa5, 0x10, 0x00]
    );
}

#[test]
fn decimal_and_type_signature_formatting() {
    assert_eq!(u64_to_dec_string(0).as_str(), "0");
    assert_eq!(u64_to_dec_string(7).as_str(), "7");
    assert_eq!(u64_to_dec_string(12345).as_str(), "12345");

    let names = vec!["owner", "value"];
    let types = vec!["Address", "BigUint"];
    let sig = encode_type_signature("Offer", &names, &types);
    assert_eq!(sig.as_str(), "Offer(Address owner,BigUint value)");

    let empty: Vec<&str> = Vec::new();
    assert_eq!(encode_type_signature("Unit", &empty, &empty).as_str(), "Unit()");
}

#[test]
fn domain_separator_string_is_canonical() {
    let contract = vec![0xabu8; 32];
    let salt = vec![0x01u8; 32];
    let domain = EIP712Domain::new(
        String::from("solina"),
        3,
        7,
        contract,
        Some(salt),
    );
    let expected = format!(
        "<EIP712DOMAIN><name:solina><version:3><chain_id:7><verifying_contract:{}><salt:{}>",
        "ab".repeat(32),
        "01".repeat(32)
    );
    assert_eq!(domain.to_domain_separator_string(), expected);
}

#[test]
fn encode_bool_value_is_one_word() {
    let t = encode_bool_value(true);
    assert_eq!(t.len(), 32);
    assert_eq!(t[0], 1);
    assert!(t[1..].iter().all(|b| *b == 0));
    let f = encode_bool_value(false);
    assert!(f.iter().all(|b| *b == 0));
}
