use oxiilink::id::{pick, Id};

#[test]
fn random_bytes_pick_letters_and_digits() {
    let id = Id::from_random(&vec![0, 9, 10, 35, 36, 61, 62, 255]);
    assert_eq!(id.into_inner(), b"09AZaz07".to_vec());
    assert_eq!(Id::from_random(&vec![]).into_inner(), Vec::<u8>::new());
}

#[test]
fn every_byte_picks_from_the_alphabet() {
    let alphabet = b"0123456789ABCDEFGHIJKLMNOPQRSTUVWXYZabcdefghijklmnopqrstuvwxyz";
    for b in 0..=255u8 {
        assert_eq!(pick(b), alphabet[b as usize % 62]);
    }
}

#[test]
fn new_ids_have_the_length_asked_for() {
    for length in [0usize, 1, 3, 16, 500] {
        let id = Id::new(length).into_inner();
        assert_eq!(id.len(), length);
        assert!(id.iter().all(|b| b.is_ascii_alphanumeric()));
    }
}

#[test]
fn new_ids_differ() {
    // 62^32 identifiers: two equal ones in a row mean a broken source.
    assert_ne!(Id::new(32).into_inner(), Id::new(32).into_inner());
}

#[test]
fn possible_ids_is_a_power_of_62() {
    assert_eq!(Id::possible_ids(0), 1);
    assert_eq!(Id::possible_ids(1), 62);
    assert_eq!(Id::possible_ids(3), 238328);
    assert_eq!(Id::checked_possible_ids(3), Some(238328));
    assert_eq!(Id::checked_possible_ids(10), Some(839299365868340224));
    assert_eq!(Id::checked_possible_ids(11), None);
    assert_eq!(Id::checked_possible_ids(1000), None);
}
