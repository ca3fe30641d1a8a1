use mpc_core::codec::{from_gfp, invert_limb_endianness, swap_limbs, to_bigint_arr, to_gfp};
use mpc_core::error::Error;
use mpc_core::field::{P, R, R_INV};

#[test]
fn test_round_trip_random() {
    for _ in 0..10_000 {
        let v: u128 = rand::random::<u128>() % P;
        let encoded = to_gfp(v, R, P);
        let decoded = from_gfp(&encoded, R_INV, P).expect("well-formed block must decode");
        assert_eq!(decoded, v);
    }
}

#[test]
fn test_round_trip_edges() {
    for v in [0u128, 1, 2, P - 2, P - 1] {
        let encoded = to_gfp(v, R, P);
        assert_eq!(encoded.len(), 16);
        assert_eq!(from_gfp(&encoded, R_INV, P).unwrap(), v);
    }
}

#[test]
fn test_wire_format_is_swapped_little_endian() {
    // encode(1) is (1 * R) mod P = R, rendered big-endian and then run
    // through both limb transforms, which amounts to full byte reversal
    let encoded = to_gfp(1, R, P);
    assert_eq!(encoded, R.to_le_bytes().to_vec());
    let zero = to_gfp(0, R, P);
    assert_eq!(zero, vec![0u8; 16]);
}

#[test]
fn test_limb_transforms() {
    let input: Vec<u8> = (0u8..16).collect();
    let inverted = invert_limb_endianness(&input);
    assert_eq!(
        inverted,
        vec![7, 6, 5, 4, 3, 2, 1, 0, 15, 14, 13, 12, 11, 10, 9, 8]
    );
    let swapped = swap_limbs(inverted);
    let reversed: Vec<u8> = (0u8..16).rev().collect();
    assert_eq!(swapped, reversed);
}

#[test]
fn test_malformed_block_is_rejected() {
    let short = vec![1u8; 15];
    assert_eq!(from_gfp(&short, R_INV, P), Err(Error::MalformedInput));
    let long = vec![1u8; 17];
    assert_eq!(from_gfp(&long, R_INV, P), Err(Error::MalformedInput));
    assert_eq!(to_bigint_arr(&vec![0u8; 24], R_INV, P), Err(Error::MalformedInput));
    assert!(to_bigint_arr(&vec![0u8; 32], R_INV, P).is_ok());
    assert_eq!(to_bigint_arr(&Vec::new(), R_INV, P).unwrap(), Vec::<u128>::new());
}
