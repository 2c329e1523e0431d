use num_bigint::BigUint;
use solina::util::convert_u64_le_to_u8_be;

#[test]
fn it_works_convert_u64_le_to_u8_be() {
    let slice = [0u64, 1, 2, 3];
    let mut u8_be_slice = convert_u64_le_to_u8_be::<32>(&slice).unwrap();
    u8_be_slice.reverse();
    let mut u64_le_slice = [0u64; 4];
    (0..4).rev().for_each(|i| {
        let mut data = [0u8; 8];
        data.copy_from_slice(&u8_be_slice[8 * i..(8 * i + 8)]);
        let u64_val = u64::from_le_bytes(data);
        u64_le_slice[i] = u64_val;
    });
    assert_eq!(slice, u64_le_slice);
}

#[test]
fn utils_it_works_convert_u64_le_to_u8_be() {
    let slice = [0u64, 1, 2, 3];
    let u8_be_slice = convert_u64_le_to_u8_be::<32>(&slice).unwrap();
    assert_eq!(
        BigUint::from_bytes_be(&u8_be_slice),
        BigUint::from_bytes_le(
            &slice
                .iter()
                .flat_map(|u| u.to_le_bytes())
                .collect::<Vec<_>>()
        )
    );
}

#[test]
fn convert_rejects_wrong_length() {
    let slice = [1u64, 2, 3];
    assert!(convert_u64_le_to_u8_be::<32>(&slice).is_err());
}

#[test]
fn it_works_() {}
