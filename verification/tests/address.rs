use corvus::shared::address::{
    address_at, is_zero_address, read_address, read_address_or_zero, same_address, write_address,
    zero_address, Address,
};
use corvus::shared::text::{all_zeros, write_numeral};

const TEXT: &str = "0x833589fCD6eDb6E08f4c7C32D4f71b54bdA02913";

#[test]
fn an_address_is_read_and_written() {
    let a = read_address(TEXT).unwrap();
    assert_eq!(a[0], 0x83);
    assert_eq!(a[19], 0x13);
    assert_eq!(write_address(&a), TEXT.to_lowercase());
    assert_eq!(read_address(&write_address(&a)), Some(a));
    assert_eq!(read_address(&TEXT[2..]), Some(a));
}

#[test]
fn texts_that_are_no_addresses_are_refused() {
    for text in ["", "0x", "0x12", "zz3589fCD6eDb6E08f4c7C32D4f71b54bdA02913", "0x833589fCD6eDb6E08f4c7C32D4f71b54bdA029"] {
        assert_eq!(read_address(text), None);
        assert!(is_zero_address(&read_address_or_zero(text)));
    }
    let long = format!("{}00", TEXT);
    assert_eq!(read_address(&long), None);
    assert_eq!(read_address("0X833589fCD6eDb6E08f4c7C32D4f71b54bdA02913"), None);
}

#[test]
fn blanks_between_digits_are_passed_over() {
    let spaced = format!("0x{} \n\t\r", &TEXT[2..].replace("fCD6", "fC D6"));
    assert_eq!(read_address(&spaced), read_address(TEXT));
}

#[test]
fn addresses_compare_byte_by_byte() {
    let a: Address = [7; 20];
    let mut b = a;
    assert!(same_address(&a, &b));
    b[19] = 8;
    assert!(!same_address(&a, &b));
    assert!(is_zero_address(&zero_address()));
    assert!(!is_zero_address(&a));
}

#[test]
fn an_address_stands_at_the_end_of_a_word() {
    let bytes: Vec<u8> = (0u8..80).collect();
    let a = address_at(&bytes, 32);
    assert_eq!(a.to_vec(), bytes[44..64].to_vec());
}

#[test]
fn a_placeholder_is_all_zeros() {
    assert!(all_zeros("0000") && all_zeros(""));
    assert!(!all_zeros("00x0"));
}

#[test]
fn numerals_are_written() {
    for n in [0u64, 1, 9, 10, 15, 16, 255, 8453, 12_345_678, u64::MAX] {
        assert_eq!(write_numeral(n, 10), format!("{}", n));
        assert_eq!(write_numeral(n, 16), format!("{:x}", n));
        assert_eq!(write_numeral(n, 2), format!("{:b}", n));
    }
}
