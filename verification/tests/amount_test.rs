use staking_contract::{Address, Amount};

#[test]
fn zero_has_no_bytes() {
    assert!(Amount::zero().is_zero());
    assert_eq!(Amount::zero().to_bytes_be(), Vec::<u8>::new());
    assert_eq!(Amount::from_u64(0), Amount::zero());
    assert!(!Amount::from_u64(1).is_zero());
}

#[test]
fn from_u64_gives_minimal_big_endian_bytes() {
    assert_eq!(Amount::from_u64(1).to_bytes_be(), vec![1u8]);
    assert_eq!(Amount::from_u64(255).to_bytes_be(), vec![255u8]);
    assert_eq!(Amount::from_u64(256).to_bytes_be(), vec![1u8, 0]);
    assert_eq!(Amount::from_u64(0x0102_0304).to_bytes_be(), vec![1u8, 2, 3, 4]);
    assert_eq!(
        Amount::from_u64(u64::MAX).to_bytes_be(),
        vec![255u8, 255, 255, 255, 255, 255, 255, 255]
    );
    assert_eq!(
        Amount::from_u64(1_000_000_000_000_000_000).to_bytes_be(),
        vec![0x0du8, 0xe0, 0xb6, 0xb3, 0xa7, 0x64, 0x00, 0x00]
    );
}

#[test]
fn from_bytes_drops_leading_zeros() {
    assert_eq!(Amount::from_bytes_be(&[0, 0, 1, 0]), Amount::from_u64(256));
    assert_eq!(Amount::from_bytes_be(&[0, 0, 0]), Amount::zero());
    assert_eq!(Amount::from_bytes_be(&[]), Amount::zero());
    assert_eq!(Amount::from_bytes_be(&[0, 5]).to_bytes_be(), vec![5u8]);
}

#[test]
fn sum_of_two_amounts() {
    assert_eq!(
        Amount::from_u64(5).add(&Amount::from_u64(7)),
        Amount::from_u64(12)
    );
    // beyond sixty-four bits
    assert_eq!(
        Amount::from_u64(u64::MAX)
            .add(&Amount::from_u64(1))
            .to_bytes_be(),
        vec![1u8, 0, 0, 0, 0, 0, 0, 0, 0]
    );
    assert_eq!(Amount::zero().add(&Amount::zero()), Amount::zero());
}

#[test]
fn difference_of_two_amounts() {
    assert_eq!(
        Amount::from_u64(12).sub(&Amount::from_u64(7)),
        Amount::from_u64(5)
    );
    assert_eq!(Amount::from_u64(7).sub(&Amount::from_u64(7)), Amount::zero());
    assert_eq!(
        Amount::from_bytes_be(&[1, 0, 0, 0, 0, 0, 0, 0, 0]).sub(&Amount::from_u64(1)),
        Amount::from_u64(u64::MAX)
    );
}

#[test]
fn product_of_two_amounts() {
    assert_eq!(
        Amount::from_u64(6).mul(&Amount::from_u64(7)),
        Amount::from_u64(42)
    );
    assert_eq!(Amount::from_u64(6).mul_u64(0), Amount::zero());
    // 2^64 * 2^64 = 2^128
    let two_64 = Amount::from_bytes_be(&[1, 0, 0, 0, 0, 0, 0, 0, 0]);
    assert_eq!(
        two_64.mul(&two_64).to_bytes_be(),
        vec![1u8, 0, 0, 0, 0, 0, 0, 0, 0, 0, 0, 0, 0, 0, 0, 0, 0]
    );
    // a factor above the largest signed sixty-four bit number
    assert_eq!(
        Amount::from_u64(2).mul_u64(u64::MAX).to_bytes_be(),
        vec![1u8, 255, 255, 255, 255, 255, 255, 255, 254]
    );
}

#[test]
fn quotient_rounds_down() {
    assert_eq!(
        Amount::from_u64(42).div(&Amount::from_u64(5)),
        Amount::from_u64(8)
    );
    assert_eq!(Amount::from_u64(4).div_u64(5), Amount::zero());
    assert_eq!(Amount::from_u64(10).div_u64(5), Amount::from_u64(2));
    assert_eq!(
        Amount::from_bytes_be(&[1, 0, 0, 0, 0, 0, 0, 0, 0]).div_u64(2),
        Amount::from_u64(1 << 63)
    );
}

#[test]
fn at_most_compares_by_value() {
    assert!(Amount::from_u64(3).le(&Amount::from_u64(4)));
    assert!(Amount::from_u64(4).le(&Amount::from_u64(4)));
    assert!(!Amount::from_u64(5).le(&Amount::from_u64(4)));
    assert!(Amount::zero().le(&Amount::zero()));
    // more bytes, larger number
    assert!(Amount::from_u64(255).le(&Amount::from_u64(256)));
    assert!(!Amount::from_u64(256).le(&Amount::from_u64(255)));
}

#[test]
fn clone_keeps_the_amount() {
    let amount = Amount::from_u64(123_456_789);
    assert_eq!(amount.clone(), amount);
}

#[test]
fn addresses_agree_when_their_bytes_do() {
    let a = Address::new([1u8; 32]);
    let b = Address::new([1u8; 32]);
    let mut bytes = [1u8; 32];
    bytes[31] = 2;
    let c = Address::new(bytes);
    assert!(a.equals(&b));
    assert!(!a.equals(&c));
    assert!(!c.equals(&a));
    assert_eq!(a, b);
    assert_ne!(a, c);
    assert_eq!(c.as_bytes(), &bytes);
}
