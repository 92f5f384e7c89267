use fixed_store::codec::{descriptor_from_slice, descriptor_to_vec, from_slice, to_vec, RecordLength};
use fixed_store::image::{new_u8_vec_with_size, read_at, write_at};
use fixed_store::Code;

#[test]
fn integer_is_eight_bytes_least_significant_first() {
    assert_eq!(to_vec(0).unwrap(), vec![0u8; 8]);
    assert_eq!(to_vec(5).unwrap(), vec![5, 0, 0, 0, 0, 0, 0, 0]);
    assert_eq!(
        to_vec(0x0102030405060708).unwrap(),
        vec![8, 7, 6, 5, 4, 3, 2, 1]
    );
    assert_eq!(to_vec(u64::MAX).unwrap(), vec![0xffu8; 8]);
}

#[test]
fn integer_length_does_not_depend_on_value() {
    let zero = to_vec(0).unwrap().len();
    for v in [1u64, 255, 256, 65_536, 1 << 40, u64::MAX] {
        assert_eq!(to_vec(v).unwrap().len(), zero);
    }
    assert_eq!(zero, 8);
    assert_eq!(RecordLength::measure().unwrap().get(), 8);
}

#[test]
fn integer_round_trip() {
    for v in [0u64, 1, 41, 255, 256, 0xdead_beef, u64::MAX - 1, u64::MAX] {
        let bytes = to_vec(v).unwrap();
        assert_eq!(from_slice(&bytes).unwrap(), v);
    }
}

#[test]
fn integer_decoding_ignores_what_follows() {
    let bytes = vec![7u8, 0, 0, 0, 0, 0, 0, 0, 9, 9, 9];
    assert_eq!(from_slice(&bytes).unwrap(), 7);
}

#[test]
fn integer_decoding_fails_on_short_input() {
    for n in 0..8usize {
        let bytes = vec![1u8; n];
        let err = from_slice(&bytes).unwrap_err();
        assert!(matches!(err.code, Some(Code::DeserdeError(Some(_)))));
    }
}

#[test]
fn integer_matches_bincode() {
    for v in [0u64, 3, 1 << 33, u64::MAX] {
        assert_eq!(to_vec(v).unwrap(), bincode::serialize(&v).unwrap());
    }
}

#[test]
fn descriptor_bytes_are_length_text_and_two_integers() {
    let bytes = descriptor_to_vec(".", 2, 5).unwrap();
    let expected: Vec<u8> = vec![
        1, 0, 0, 0, 0, 0, 0, 0, 0x2e, 2, 0, 0, 0, 0, 0, 0, 0, 5, 0, 0, 0, 0, 0, 0, 0,
    ];
    assert_eq!(bytes, expected);
}

#[test]
fn descriptor_with_empty_text() {
    let bytes = descriptor_to_vec("", 1, 2).unwrap();
    assert_eq!(bytes.len(), 24);
    assert_eq!(&bytes[0..8], &[0u8; 8]);
    let d = descriptor_from_slice(&bytes).unwrap();
    assert_eq!(d, (String::new(), 1, 2));
}

#[test]
fn descriptor_length_follows_the_text() {
    assert_eq!(descriptor_to_vec("a", 0, 0).unwrap().len(), 25);
    assert_eq!(descriptor_to_vec("abcd", 0, 0).unwrap().len(), 28);
    // two bytes in UTF-8
    assert_eq!(descriptor_to_vec("\u{e9}", 0, 0).unwrap().len(), 26);
    // four bytes in UTF-8
    assert_eq!(descriptor_to_vec("\u{1f600}", 0, 0).unwrap().len(), 28);
}

#[test]
fn descriptor_round_trip() {
    let cases: Vec<(&str, u64, u64)> = vec![
        ("", 0, 0),
        (".", 2, 5),
        ("run_test/test.db/user_index", 72, 64),
        ("caf\u{e9}/\u{65e5}\u{672c}/\u{1f600}", u64::MAX, 1),
    ];
    for (path, start, length) in cases {
        let bytes = descriptor_to_vec(path, start, length).unwrap();
        let d = descriptor_from_slice(&bytes).unwrap();
        assert_eq!(d.0, path);
        assert_eq!(d.1, start);
        assert_eq!(d.2, length);
    }
}

#[test]
fn descriptor_decoding_ignores_what_follows() {
    let mut bytes = descriptor_to_vec("ab", 3, 4).unwrap();
    bytes.extend_from_slice(&[1, 2, 3]);
    let d = descriptor_from_slice(&bytes).unwrap();
    assert_eq!(d, (String::from("ab"), 3, 4));
}

#[test]
fn descriptor_decoding_fails_on_every_proper_prefix() {
    let bytes = descriptor_to_vec("ab", 3, 4).unwrap();
    for n in 0..bytes.len() {
        let err = descriptor_from_slice(&bytes[..n]).unwrap_err();
        assert!(matches!(err.code, Some(Code::DeserdeError(Some(_)))));
    }
}

#[test]
fn descriptor_decoding_fails_on_invalid_text() {
    let mut bytes = descriptor_to_vec("ab", 3, 4).unwrap();
    bytes[8] = 0xff;
    let err = descriptor_from_slice(&bytes).unwrap_err();
    assert!(matches!(err.code, Some(Code::DeserdeError(Some(_)))));
}

#[test]
fn descriptor_decoding_fails_on_text_longer_than_input() {
    let mut bytes = descriptor_to_vec("ab", 3, 4).unwrap();
    bytes[0] = 200;
    assert!(descriptor_from_slice(&bytes).is_err());
    bytes[0] = 2;
    bytes[7] = 0x80;
    assert!(descriptor_from_slice(&bytes).is_err());
}

#[test]
fn descriptor_matches_bincode() {
    let bytes = descriptor_to_vec("dir/file", 9, 64).unwrap();
    assert_eq!(
        bytes,
        bincode::serialize(&(String::from("dir/file"), 9usize, 64usize)).unwrap()
    );
}

#[test]
fn zero_vector_has_the_size_asked_for() {
    assert_eq!(new_u8_vec_with_size(0), Vec::<u8>::new());
    assert_eq!(new_u8_vec_with_size(3), vec![0u8, 0, 0]);
    assert_eq!(new_u8_vec_with_size(72).len(), 72);
}

#[test]
fn read_returns_what_is_there() {
    let file: Vec<u8> = vec![1, 2, 3, 4, 5];
    assert_eq!(read_at(&file, 0, 5), vec![1, 2, 3, 4, 5]);
    assert_eq!(read_at(&file, 1, 2), vec![2, 3]);
    assert_eq!(read_at(&file, 3, 10), vec![4, 5]);
    assert_eq!(read_at(&file, 5, 1), Vec::<u8>::new());
    assert_eq!(read_at(&file, 9, 1), Vec::<u8>::new());
    assert_eq!(read_at(&file, 2, 0), Vec::<u8>::new());
    assert_eq!(read_at(&file, 2, usize::MAX), vec![3, 4, 5]);
}

#[test]
fn write_replaces_and_extends() {
    let mut file: Vec<u8> = vec![1, 2, 3, 4, 5];
    write_at(&mut file, 1, &vec![9, 9]).unwrap();
    assert_eq!(file, vec![1, 9, 9, 4, 5]);
    write_at(&mut file, 4, &vec![7, 8]).unwrap();
    assert_eq!(file, vec![1, 9, 9, 4, 7, 8]);
    write_at(&mut file, 6, &vec![6]).unwrap();
    assert_eq!(file, vec![1, 9, 9, 4, 7, 8, 6]);
}

#[test]
fn write_behind_the_end_fills_the_gap_with_zeros() {
    let mut file: Vec<u8> = vec![1];
    write_at(&mut file, 3, &vec![5]).unwrap();
    assert_eq!(file, vec![1, 0, 0, 5]);
}

#[test]
fn write_of_nothing_changes_nothing() {
    let mut file: Vec<u8> = vec![1];
    write_at(&mut file, 3, &Vec::new()).unwrap();
    assert_eq!(file, vec![1]);
}

#[test]
fn write_beyond_the_largest_offset_fails() {
    let mut file: Vec<u8> = vec![1, 2];
    let err = write_at(&mut file, usize::MAX, &vec![5]).unwrap_err();
    assert!(matches!(err.code, Some(Code::FileWriteError(Some(_)))));
    assert_eq!(file, vec![1, 2]);
    let err = write_at(&mut file, usize::MAX - 1, &vec![5, 6]).unwrap_err();
    assert!(matches!(err.code, Some(Code::FileWriteError(Some(_)))));
    assert_eq!(file, vec![1, 2]);
    let err = write_at(&mut file, isize::MAX as usize, &vec![5]).unwrap_err();
    assert!(matches!(err.code, Some(Code::FileWriteError(Some(_)))));
    assert_eq!(file, vec![1, 2]);
}
