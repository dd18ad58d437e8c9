use crossborder::bytes::{bytes_eq, compare_bytes, copy_byte_list, list_contains, KeyOrder};
use crossborder::digest::{push_be, push_framed};
use crossborder::numeric::{i128_from_be_bytes, u128_to_i128_wrapping};
use crossborder::table::Table;

#[test]
fn byte_strings_order_lexicographically_with_prefixes_first() {
    assert_eq!(compare_bytes(&b"ab".to_vec(), &b"abc".to_vec()), KeyOrder::Less);
    assert_eq!(compare_bytes(&b"abd".to_vec(), &b"abc".to_vec()), KeyOrder::Greater);
    assert_eq!(compare_bytes(&b"abc".to_vec(), &b"abc".to_vec()), KeyOrder::Equal);
    assert_eq!(compare_bytes(&Vec::new(), &b"a".to_vec()), KeyOrder::Less);
    assert_eq!(compare_bytes(&b"b".to_vec(), &b"aaaa".to_vec()), KeyOrder::Greater);
    assert!(bytes_eq(&b"xy".to_vec(), &b"xy".to_vec()));
    assert!(!bytes_eq(&b"xy".to_vec(), &b"x".to_vec()));
}

#[test]
fn lists_of_byte_strings() {
    let l = vec![b"US".to_vec(), b"MX".to_vec()];
    assert!(list_contains(&l, &b"MX".to_vec()));
    assert!(!list_contains(&l, &b"M".to_vec()));
    assert_eq!(copy_byte_list(&l), l);
}

#[test]
fn signed_numbers_read_from_big_endian_bytes() {
    assert_eq!(i128_from_be_bytes(&1_000_000i128.to_be_bytes().to_vec()), 1_000_000);
    assert_eq!(i128_from_be_bytes(&(-5i128).to_be_bytes().to_vec()), -5);
    assert_eq!(i128_from_be_bytes(&i128::MIN.to_be_bytes().to_vec()), i128::MIN);
    assert_eq!(u128_to_i128_wrapping(u128::MAX), -1);
    assert_eq!(u128_to_i128_wrapping(7), 7);
    assert_eq!(u128_to_i128_wrapping(1u128 << 127), i128::MIN);
}

#[test]
fn framing_puts_the_length_first() {
    let mut out = vec![9u8];
    push_framed(&mut out, &b"ab".to_vec());
    assert_eq!(out, vec![9, 0, 0, 0, 0, 0, 0, 0, 2, b'a', b'b']);
    let mut out = Vec::new();
    push_be(&mut out, 0x0102, 3);
    assert_eq!(out, vec![0, 1, 2]);
}

#[test]
fn table_keeps_keys_in_order_and_replaces_values() {
    let mut t: Table<u64, Vec<u8>> = Table::new();
    t.insert(5, b"five".to_vec());
    t.insert(1, b"one".to_vec());
    t.insert(3, b"three".to_vec());
    t.insert(5, b"FIVE".to_vec());
    assert_eq!(t.len(), 3);
    assert_eq!(*t.key_at(0), 1);
    assert_eq!(*t.key_at(1), 3);
    assert_eq!(*t.key_at(2), 5);
    assert_eq!(t.get(&5), Some(&b"FIVE".to_vec()));
    assert_eq!(t.find(&4), None);
    assert!(t.contains_key(&3));
}
