use row_store::error::StoreError;
use row_store::layout::{EMAIL_OFFSET, EMAIL_SIZE, ROW_SIZE, USERNAME_OFFSET, USERNAME_SIZE};
use row_store::row::{deserialize_row, serialize_row, Row};

fn row(id: i32, username: &str, email: &str) -> Row {
    Row { id, username: username.to_string(), email: email.to_string() }
}

#[test]
fn encodes_into_the_documented_layout() {
    let data = serialize_row(&row(1, "alice", "alice@example.com"));
    let mut expected: Vec<u8> = vec![0u8; 48];
    expected[0] = 1;
    expected[4..9].copy_from_slice(b"alice");
    expected[24..41].copy_from_slice(b"alice@example.com");
    assert_eq!(data, expected);
}

#[test]
fn slot_is_always_row_size() {
    assert_eq!(ROW_SIZE, 48);
    assert_eq!(serialize_row(&row(0, "", "")).len(), 48);
    assert_eq!(serialize_row(&row(7, "a", "b")).len(), 48);
    let long = "x".repeat(500);
    assert_eq!(serialize_row(&row(7, &long, &long)).len(), 48);
}

#[test]
fn empty_row_is_all_zeros() {
    assert_eq!(serialize_row(&row(0, "", "")), vec![0u8; 48]);
}

#[test]
fn id_is_little_endian() {
    let data = serialize_row(&row(0x0102_0304, "", ""));
    assert_eq!(&data[0..4], &[4u8, 3, 2, 1]);
    let data = serialize_row(&row(256, "", ""));
    assert_eq!(&data[0..4], &[0u8, 1, 0, 0]);
}

#[test]
fn negative_id_is_twos_complement() {
    let data = serialize_row(&row(-1, "", ""));
    assert_eq!(&data[0..4], &[0xffu8, 0xff, 0xff, 0xff]);
    let data = serialize_row(&row(-2, "", ""));
    assert_eq!(&data[0..4], &[0xfeu8, 0xff, 0xff, 0xff]);
    let data = serialize_row(&row(i32::MIN, "", ""));
    assert_eq!(&data[0..4], &[0u8, 0, 0, 0x80]);
    let data = serialize_row(&row(i32::MAX, "", ""));
    assert_eq!(&data[0..4], &[0xffu8, 0xff, 0xff, 0x7f]);
}

#[test]
fn id_bytes_agree_with_to_le_bytes() {
    for id in [0i32, 1, -1, 255, 256, -256, 65535, 65536, 16777216, -16777217, 123456789, -987654321, i32::MAX, i32::MIN] {
        let data = serialize_row(&row(id, "u", "e"));
        assert_eq!(&data[0..4], &id.to_le_bytes());
    }
}

#[test]
fn round_trip_of_a_row_that_fits() {
    let given = row(1, "alice", "alice@example.com");
    let decoded = deserialize_row(&serialize_row(&given));
    assert_eq!(decoded, Ok(given));
}

#[test]
fn round_trip_of_negative_one() {
    let given = row(-1, "bob", "bob@example.com");
    let decoded = deserialize_row(&serialize_row(&given)).unwrap();
    assert_eq!(decoded.id, -1);
    assert_eq!(decoded, given);
}

#[test]
fn round_trip_of_extreme_ids() {
    for id in [i32::MIN, i32::MIN + 1, -65536, -129, -128, 0, 127, 128, 32768, i32::MAX - 1, i32::MAX] {
        let given = row(id, "user", "mail");
        assert_eq!(deserialize_row(&serialize_row(&given)), Ok(given));
    }
}

#[test]
fn round_trip_of_empty_texts() {
    let given = row(5, "", "");
    assert_eq!(deserialize_row(&serialize_row(&given)), Ok(given));
}

#[test]
fn round_trip_of_texts_that_fill_their_fields() {
    let username = "u".repeat(USERNAME_SIZE);
    let email = "e".repeat(EMAIL_SIZE);
    let given = row(9, &username, &email);
    let data = serialize_row(&given);
    assert!(data[USERNAME_OFFSET..].iter().all(|b| *b != 0));
    assert_eq!(deserialize_row(&data), Ok(given));
}

#[test]
fn round_trip_of_texts_beyond_ascii() {
    let given = row(3, "h\u{e9}llo w\u{f6}rld", "\u{65e5}\u{672c}\u{8a9e}@\u{1f600}");
    assert!(given.username.len() <= USERNAME_SIZE && given.email.len() <= EMAIL_SIZE);
    assert_eq!(deserialize_row(&serialize_row(&given)), Ok(given));
}

#[test]
fn round_trip_keeps_a_nul_inside_a_text() {
    let given = row(3, "a\0b", "c\0\0d");
    assert_eq!(deserialize_row(&serialize_row(&given)), Ok(given));
}

#[test]
fn a_nul_at_the_end_of_a_text_is_taken_for_padding() {
    let decoded = deserialize_row(&serialize_row(&row(3, "ab\0", "\0"))).unwrap();
    assert_eq!(decoded, row(3, "ab", ""));
}

#[test]
fn username_of_25_bytes_is_cut_to_its_first_20() {
    let username = "abcdefghijklmnopqrstuvwxy";
    assert_eq!(username.len(), 25);
    let decoded = deserialize_row(&serialize_row(&row(1, username, "e@x"))).unwrap();
    assert_eq!(decoded.username, "abcdefghijklmnopqrst");
    assert_eq!(decoded.email, "e@x");
    assert_eq!(decoded.id, 1);
}

#[test]
fn username_of_21_bytes_loses_its_last() {
    let username = "abcdefghijklmnopqrstu";
    let decoded = deserialize_row(&serialize_row(&row(1, username, ""))).unwrap();
    assert_eq!(decoded.username, &username[..20]);
}

#[test]
fn email_is_cut_to_the_width_of_its_field() {
    let email = "0123456789012345678901234";
    assert_eq!(email.len(), 25);
    let decoded = deserialize_row(&serialize_row(&row(1, "u", email))).unwrap();
    assert_eq!(decoded.email, "012345678901234567890123");
    let email = "abcdefghijklmnopqrstuvwxyz0123";
    assert_eq!(email.len(), 30);
    let decoded = deserialize_row(&serialize_row(&row(1, "u", email))).unwrap();
    assert_eq!(decoded.email, "abcdefghijklmnopqrstuvwx");
    assert_eq!(decoded.username, "u");
}

#[test]
fn username_does_not_run_into_the_email() {
    let data = serialize_row(&row(1, &"u".repeat(40), ""));
    assert_eq!(&data[USERNAME_OFFSET..EMAIL_OFFSET], "u".repeat(20).as_bytes());
    assert_eq!(&data[EMAIL_OFFSET..], &[0u8; 24]);
}

#[test]
fn a_cut_inside_a_character_makes_the_slot_corrupt() {
    let username = format!("{}\u{e9}", "a".repeat(19));
    assert_eq!(username.len(), 21);
    let data = serialize_row(&row(1, &username, "e"));
    assert_eq!(data[USERNAME_OFFSET + 19], 0xc3);
    assert_eq!(deserialize_row(&data), Err(StoreError::CorruptRow));
    let email = format!("{}\u{20ac}", "a".repeat(23));
    let data = serialize_row(&row(1, "u", &email));
    assert_eq!(deserialize_row(&data), Err(StoreError::CorruptRow));
}

#[test]
fn a_cut_between_characters_decodes() {
    let username = format!("{}\u{e9}z", "a".repeat(18));
    assert_eq!(username.len(), 21);
    let decoded = deserialize_row(&serialize_row(&row(1, &username, "e"))).unwrap();
    assert_eq!(decoded.username, format!("{}\u{e9}", "a".repeat(18)));
}

#[test]
fn a_slot_of_another_size_is_corrupt() {
    assert_eq!(deserialize_row(&[]), Err(StoreError::CorruptRow));
    assert_eq!(deserialize_row(&[0u8; 47]), Err(StoreError::CorruptRow));
    assert_eq!(deserialize_row(&[0u8; 49]), Err(StoreError::CorruptRow));
    assert_eq!(deserialize_row(&[0u8; 4096]), Err(StoreError::CorruptRow));
    assert_eq!(deserialize_row(&[0u8; 48]), Ok(row(0, "", "")));
}

#[test]
fn a_username_that_is_not_utf8_is_corrupt() {
    let mut data = serialize_row(&row(1, "alice", "alice@example.com"));
    data[USERNAME_OFFSET + 2] = 0xff;
    assert_eq!(deserialize_row(&data), Err(StoreError::CorruptRow));
}

#[test]
fn an_email_that_is_not_utf8_is_corrupt() {
    let mut data = serialize_row(&row(1, "alice", "alice@example.com"));
    data[EMAIL_OFFSET] = 0x80;
    assert_eq!(deserialize_row(&data), Err(StoreError::CorruptRow));
    let mut data = serialize_row(&row(1, "alice", ""));
    data[ROW_SIZE - 1] = 0xc3;
    assert_eq!(deserialize_row(&data), Err(StoreError::CorruptRow));
}

#[test]
fn overlong_and_surrogate_encodings_are_corrupt() {
    let mut data = vec![0u8; 48];
    data[4] = 0xc0;
    data[5] = 0x80;
    assert_eq!(deserialize_row(&data), Err(StoreError::CorruptRow));
    let mut data = vec![0u8; 48];
    data[4] = 0xed;
    data[5] = 0xa0;
    data[6] = 0x80;
    assert_eq!(deserialize_row(&data), Err(StoreError::CorruptRow));
    let mut data = vec![0u8; 48];
    data[4] = 0xf4;
    data[5] = 0x90;
    data[6] = 0x80;
    data[7] = 0x80;
    assert_eq!(deserialize_row(&data), Err(StoreError::CorruptRow));
}

#[test]
fn decoding_reads_the_text_up_to_the_padding() {
    let mut data = vec![0u8; 48];
    data[0..4].copy_from_slice(&[0x2a, 0, 0, 0]);
    data[4..7].copy_from_slice(b"abc");
    data[10] = b'z';
    data[24..26].copy_from_slice(b"xy");
    let decoded = deserialize_row(&data).unwrap();
    assert_eq!(decoded.id, 42);
    assert_eq!(decoded.username, "abc\0\0\0z");
    assert_eq!(decoded.email, "xy");
}

#[test]
fn decoding_reads_the_id_from_its_bytes() {
    let mut data = vec![0u8; 48];
    data[0..4].copy_from_slice(&[0x78, 0x56, 0x34, 0x12]);
    assert_eq!(deserialize_row(&data).unwrap().id, 0x1234_5678);
    data[0..4].copy_from_slice(&[0, 0, 0, 0x80]);
    assert_eq!(deserialize_row(&data).unwrap().id, i32::MIN);
    data[0..4].copy_from_slice(&[0xff, 0xff, 0xff, 0xff]);
    assert_eq!(deserialize_row(&data).unwrap().id, -1);
}

#[test]
fn check_lengths_accepts_what_fits() {
    assert_eq!(row(1, "alice", "alice@example.com").check_lengths(), Ok(()));
    assert_eq!(row(1, "", "").check_lengths(), Ok(()));
    assert_eq!(row(1, &"u".repeat(20), &"e".repeat(24)).check_lengths(), Ok(()));
}

#[test]
fn check_lengths_refuses_what_would_be_cut() {
    assert_eq!(row(1, &"u".repeat(21), "e").check_lengths(), Err(StoreError::FieldTooLong));
    assert_eq!(row(1, "u", &"e".repeat(25)).check_lengths(), Err(StoreError::FieldTooLong));
    assert_eq!(row(1, "u", &"e".repeat(30)).check_lengths(), Err(StoreError::FieldTooLong));
    assert_eq!(row(1, &"u".repeat(25), &"e".repeat(31)).check_lengths(), Err(StoreError::FieldTooLong));
}

#[test]
fn check_lengths_counts_bytes_not_characters() {
    let seven_euros = "\u{20ac}".repeat(7);
    assert_eq!(seven_euros.chars().count(), 7);
    assert_eq!(seven_euros.len(), 21);
    assert_eq!(row(1, &seven_euros, "").check_lengths(), Err(StoreError::FieldTooLong));
    let eight_euros = "\u{20ac}".repeat(8);
    assert_eq!(row(1, "", &eight_euros).check_lengths(), Ok(()));
    assert_eq!(row(1, "", &format!("{eight_euros}!")).check_lengths(), Err(StoreError::FieldTooLong));
}

#[test]
fn a_row_that_passes_check_lengths_round_trips() {
    let rows = [
        row(1, "alice", "alice@example.com"),
        row(-7, "\u{20ac}\u{20ac}", "\u{e9}@\u{e9}.fr"),
        row(0, &"u".repeat(20), &"e".repeat(24)),
    ];
    for given in rows {
        assert_eq!(given.check_lengths(), Ok(()));
        assert_eq!(deserialize_row(&serialize_row(&given)), Ok(given));
    }
}
