use fixed_store::multifile::delete::stack::{
    Body, Delete, FileHeader, Pos, Tail, FILE_HEADER_LENGTH, TAIL_LENGTH,
};
use fixed_store::Code;

fn entry_bytes(path: &str, start_pos: u64, length: u64) -> Vec<u8> {
    let mut bytes: Vec<u8> = Vec::new();
    bytes.extend_from_slice(&(path.len() as u64).to_le_bytes());
    bytes.extend_from_slice(path.as_bytes());
    bytes.extend_from_slice(&start_pos.to_le_bytes());
    bytes.extend_from_slice(&length.to_le_bytes());
    let n = bytes.len() as u64;
    bytes.extend_from_slice(&n.to_le_bytes());
    bytes
}

#[test]
fn fixed_push_test() {
    let mut delete = match Delete::new(Vec::new()) {
        Ok(f) => f,
        Err(err) => {
            panic!("{:?}", err);
        }
    };
    delete.push(Pos::new(String::from("."), 2, 5)).unwrap();
    let mut expected: Vec<u8> = vec![41, 0, 0, 0, 0, 0, 0, 0];
    expected.extend_from_slice(&entry_bytes(".", 2, 5));
    assert_eq!(delete.file(), &expected);
}

#[test]
fn fixed_pop_test() {
    let mut delete = match Delete::new(Vec::new()) {
        Ok(f) => f,
        Err(err) => {
            panic!("{:?}", err);
        }
    };
    match delete.pop() {
        Ok(p) => assert!(p.is_none(), "stack is empty"),
        Err(err) => panic!("{:?}", err),
    }
    delete.push(Pos::new(String::from("."), 2, 5)).unwrap();
    match delete.pop() {
        Ok(p) => match p {
            Some(pos) => {
                println!(
                    "path: {}, start_pos: {}, length: {}",
                    pos.path, pos.start_pos, pos.length
                );
                assert_eq!(pos.path, ".");
                assert_eq!(pos.start_pos, 2);
                assert_eq!(pos.length, 5);
            }
            None => panic!("stack is empty"),
        },
        Err(err) => panic!("{:?}", err),
    }
    assert!(delete.pop().unwrap().is_none());
}

#[test]
fn record_lengths() {
    assert_eq!(FILE_HEADER_LENGTH, 8);
    assert_eq!(TAIL_LENGTH, 8);
    assert_eq!(FileHeader::new(0).to_vec().unwrap().len(), FILE_HEADER_LENGTH);
    assert_eq!(FileHeader::new(usize::MAX).to_vec().unwrap().len(), FILE_HEADER_LENGTH);
    assert_eq!(FileHeader::default().to_vec().unwrap().len(), FILE_HEADER_LENGTH);
    assert_eq!(Tail::new(0).to_vec().unwrap().len(), TAIL_LENGTH);
    assert_eq!(Tail::new(123_456).to_vec().unwrap().len(), TAIL_LENGTH);
    assert_eq!(Tail::default().to_vec().unwrap().len(), TAIL_LENGTH);
}

#[test]
fn record_bytes() {
    assert_eq!(FileHeader::new(41).to_vec().unwrap(), vec![41, 0, 0, 0, 0, 0, 0, 0]);
    assert_eq!(Tail::new(25).to_vec().unwrap(), vec![25, 0, 0, 0, 0, 0, 0, 0]);
    assert_eq!(
        Pos::new(String::from("."), 2, 5).to_vec().unwrap(),
        entry_bytes(".", 2, 5)[..25].to_vec()
    );
    assert_eq!(
        Body::new(Pos::new(String::from("."), 2, 5)).to_vec().unwrap(),
        entry_bytes(".", 2, 5)
    );
    assert_eq!(Pos::default().to_vec().unwrap(), vec![0u8; 24]);
}

#[test]
fn descriptor_round_trip_through_pos() {
    let cases = vec![
        Pos::new(String::new(), 0, 0),
        Pos::new(String::from("."), 2, 5),
        Pos::new(String::from("d\u{e9}j\u{e0}/\u{1f600}"), usize::MAX, 64),
    ];
    for pos in cases {
        let bytes = pos.to_vec().unwrap();
        assert_eq!(Pos::from_slice(&bytes).unwrap(), pos);
    }
}

#[test]
fn pos_decoding_fails_on_damaged_bytes() {
    let bytes = Pos::new(String::from("ab"), 1, 2).to_vec().unwrap();
    let err = Pos::from_slice(&bytes[..bytes.len() - 1]).unwrap_err();
    assert!(matches!(err.code, Some(Code::DeserdeError(Some(_)))));
    assert!(Pos::from_slice(&[]).is_err());
}

#[test]
fn empty_file_opens_as_empty_stack() {
    let delete = Delete::new(Vec::new()).unwrap();
    assert_eq!(delete.file(), &vec![8u8, 0, 0, 0, 0, 0, 0, 0]);
    assert_eq!(delete.get_file_size(), 8);
    assert_eq!(delete.get_file_header().unwrap().stack_top_pos, 8);
}

#[test]
fn last_in_first_out() {
    let mut delete = Delete::new(Vec::new()).unwrap();
    let pushed = vec![
        Pos::new(String::from("a"), 0, 64),
        Pos::new(String::from("a much longer path/with/parts"), 72, 64),
        Pos::new(String::new(), 144, 64),
        Pos::new(String::from("\u{65e5}\u{672c}"), 216, 64),
    ];
    for pos in pushed.iter() {
        delete.push(pos.clone()).unwrap();
    }
    for pos in pushed.iter().rev() {
        assert_eq!(delete.pop().unwrap().as_ref(), Some(pos));
    }
    assert!(delete.pop().unwrap().is_none());
    assert_eq!(delete.get_file_header().unwrap().stack_top_pos, 8);
}

#[test]
fn pushes_and_pops_interleaved() {
    let mut delete = Delete::new(Vec::new()).unwrap();
    let a = Pos::new(String::from("a"), 1, 1);
    let b = Pos::new(String::from("bb"), 2, 2);
    let c = Pos::new(String::from("ccc"), 3, 3);
    delete.push(a.clone()).unwrap();
    delete.push(b.clone()).unwrap();
    assert_eq!(delete.pop().unwrap(), Some(b));
    delete.push(c.clone()).unwrap();
    assert_eq!(delete.pop().unwrap(), Some(c));
    assert_eq!(delete.pop().unwrap(), Some(a));
    assert_eq!(delete.pop().unwrap(), None);
}

#[test]
fn top_moves_by_the_length_of_the_entry() {
    let mut delete = Delete::new(Vec::new()).unwrap();
    delete.push(Pos::new(String::from("."), 2, 5)).unwrap();
    assert_eq!(delete.get_file_header().unwrap().stack_top_pos, 8 + 25 + 8);
    delete.push(Pos::new(String::from("abc"), 2, 5)).unwrap();
    assert_eq!(delete.get_file_header().unwrap().stack_top_pos, 41 + 27 + 8);
    delete.pop().unwrap();
    assert_eq!(delete.get_file_header().unwrap().stack_top_pos, 41);
    delete.pop().unwrap();
    assert_eq!(delete.get_file_header().unwrap().stack_top_pos, 8);
}

#[test]
fn pop_leaves_the_entry_as_waste_and_push_overwrites_it() {
    let mut delete = Delete::new(Vec::new()).unwrap();
    delete.push(Pos::new(String::from("long path"), 2, 5)).unwrap();
    let full = delete.get_file_size();
    delete.pop().unwrap();
    assert_eq!(delete.get_file_size(), full);
    delete.push(Pos::new(String::from("x"), 7, 9)).unwrap();
    assert_eq!(delete.get_file_size(), full);
    let mut expected: Vec<u8> = vec![41, 0, 0, 0, 0, 0, 0, 0];
    expected.extend_from_slice(&entry_bytes("x", 7, 9));
    assert_eq!(&delete.file()[..41], &expected[..]);
    assert_eq!(delete.pop().unwrap(), Some(Pos::new(String::from("x"), 7, 9)));
}

#[test]
fn reopening_keeps_the_stack() {
    let d1 = Pos::new(String::from("first"), 0, 64);
    let d2 = Pos::new(String::from("second"), 72, 64);
    let mut delete = Delete::new(Vec::new()).unwrap();
    delete.push(d1.clone()).unwrap();
    delete.push(d2.clone()).unwrap();
    let stored = delete.file().clone();
    let mut reopened = Delete::new(stored.clone()).unwrap();
    assert_eq!(reopened.file(), &stored);
    assert_eq!(reopened.pop().unwrap(), Some(d2));
    assert_eq!(reopened.pop().unwrap(), Some(d1));
    assert_eq!(reopened.pop().unwrap(), None);
}

#[test]
fn reopening_twice_is_reopening_once() {
    let once = Delete::new(Vec::new()).unwrap();
    let twice = Delete::new(once.file().clone()).unwrap();
    assert_eq!(once.file(), twice.file());
}

#[test]
fn short_header_is_rejected() {
    let mut delete = Delete::new(vec![8u8, 0, 0]).unwrap();
    let before = delete.file().clone();
    let err = delete.pop().unwrap_err();
    assert!(matches!(err.code, Some(Code::DeserdeError(Some(_)))));
    let err = delete.push(Pos::new(String::from("a"), 1, 1)).unwrap_err();
    assert!(matches!(err.code, Some(Code::DeserdeError(Some(_)))));
    assert_eq!(delete.file(), &before);
}

#[test]
fn top_inside_the_header_is_rejected() {
    let mut delete = Delete::new(vec![3u8, 0, 0, 0, 0, 0, 0, 0]).unwrap();
    let before = delete.file().clone();
    assert!(matches!(delete.pop().unwrap_err().code, Some(Code::DeserdeError(Some(_)))));
    assert!(matches!(
        delete.push(Pos::new(String::from("a"), 1, 1)).unwrap_err().code,
        Some(Code::DeserdeError(Some(_)))
    ));
    assert_eq!(delete.file(), &before);
}

#[test]
fn top_behind_the_end_of_the_file_is_rejected_by_pop() {
    let mut delete = Delete::new(vec![100u8, 0, 0, 0, 0, 0, 0, 0, 1, 2, 3]).unwrap();
    let before = delete.file().clone();
    assert!(matches!(delete.pop().unwrap_err().code, Some(Code::DeserdeError(Some(_)))));
    assert_eq!(delete.file(), &before);
}

#[test]
fn top_too_close_to_the_header_is_rejected_by_pop() {
    let mut file: Vec<u8> = vec![12, 0, 0, 0, 0, 0, 0, 0];
    file.extend_from_slice(&[0, 0, 0, 0]);
    let mut delete = Delete::new(file.clone()).unwrap();
    assert!(matches!(delete.pop().unwrap_err().code, Some(Code::DeserdeError(Some(_)))));
    assert_eq!(delete.file(), &file);
}

#[test]
fn tail_that_reaches_into_the_header_is_rejected() {
    let mut file: Vec<u8> = vec![41, 0, 0, 0, 0, 0, 0, 0];
    let mut entry = entry_bytes(".", 2, 5);
    entry[25] = 26;
    file.extend_from_slice(&entry);
    let mut delete = Delete::new(file.clone()).unwrap();
    assert!(matches!(delete.pop().unwrap_err().code, Some(Code::DeserdeError(Some(_)))));
    assert_eq!(delete.file(), &file);
}

#[test]
fn damaged_descriptor_is_rejected() {
    let mut file: Vec<u8> = vec![41, 0, 0, 0, 0, 0, 0, 0];
    let mut entry = entry_bytes(".", 2, 5);
    entry[8] = 0xff;
    file.extend_from_slice(&entry);
    let mut delete = Delete::new(file.clone()).unwrap();
    let err = delete.pop().unwrap_err();
    assert!(matches!(err.code, Some(Code::DeserdeError(Some(_)))));
    assert_eq!(delete.file(), &file);
}

#[test]
fn push_that_would_end_beyond_the_largest_offset_fails() {
    for top in [usize::MAX - 3, isize::MAX as usize - 3, isize::MAX as usize - 32] {
        let file: Vec<u8> = (top as u64).to_le_bytes().to_vec();
        let mut delete = Delete::new(file.clone()).unwrap();
        let err = delete.push(Pos::new(String::from("a"), 1, 1)).unwrap_err();
        assert!(matches!(err.code, Some(Code::FileWriteError(Some(_)))));
        assert_eq!(delete.file(), &file);
    }
}

#[test]
fn reading_single_records() {
    let mut delete = Delete::new(Vec::new()).unwrap();
    delete.push(Pos::new(String::from("."), 2, 5)).unwrap();
    assert_eq!(delete.deserde_tail(33).unwrap().length, 25);
    assert_eq!(
        delete.deserde_pos(8, 25).unwrap(),
        Pos::new(String::from("."), 2, 5)
    );
    assert!(delete.deserde_tail(34).is_err());
    assert!(delete.deserde_pos(8, 24).is_err());
    assert_eq!(delete.get_file_header().unwrap().stack_top_pos, 41);
}

#[test]
fn errors_say_what_went_wrong() {
    let cases: Vec<Vec<u8>> = vec![
        vec![8u8, 0, 0],
        vec![3u8, 0, 0, 0, 0, 0, 0, 0],
        vec![12u8, 0, 0, 0, 0, 0, 0, 0, 0, 0, 0, 0],
        vec![100u8, 0, 0, 0, 0, 0, 0, 0, 1, 2, 3],
    ];
    for file in cases {
        let mut delete = Delete::new(file.clone()).unwrap();
        match delete.pop().unwrap_err().code {
            Some(Code::DeserdeError(Some(text))) => assert!(!text.is_empty()),
            other => panic!("{:?}", other),
        }
        assert_eq!(delete.file(), &file);
        assert!(delete.writes().is_empty());
    }
    let short = Delete::new(vec![8u8, 0, 0]).unwrap();
    match short.get_file_header().unwrap_err().code {
        Some(Code::DeserdeError(Some(text))) => assert!(!text.is_empty()),
        other => panic!("{:?}", other),
    }
}

#[test]
fn top_is_read_without_taking_it() {
    let mut delete = Delete::new(Vec::new()).unwrap();
    assert!(delete.read_top().unwrap().is_none());
    delete.push(Pos::new(String::from("."), 2, 5)).unwrap();
    let stored = delete.file().clone();
    let (pos, start) = delete.read_top().unwrap().unwrap();
    assert_eq!(pos, Pos::new(String::from("."), 2, 5));
    assert_eq!(start, 8);
    assert_eq!(delete.file(), &stored);
    assert_eq!(delete.pop().unwrap(), Some(pos));
}

#[test]
fn push_and_pop_name_the_ranges_they_wrote() {
    let mut delete = Delete::new(Vec::new()).unwrap();
    assert_eq!(delete.writes(), &vec![(0usize, 8usize)]);
    let reopened = Delete::new(delete.file().clone()).unwrap();
    assert!(reopened.writes().is_empty());
    delete.push(Pos::new(String::from("."), 2, 5)).unwrap();
    assert_eq!(delete.writes(), &vec![(8usize, 33usize), (0, 8)]);
    delete.push(Pos::new(String::from("abc"), 2, 5)).unwrap();
    assert_eq!(delete.writes(), &vec![(41usize, 35usize), (0, 8)]);
    delete.pop().unwrap();
    assert_eq!(delete.writes(), &vec![(0usize, 8usize)]);
    delete.pop().unwrap();
    assert_eq!(delete.writes(), &vec![(0usize, 8usize)]);
    assert!(delete.pop().unwrap().is_none());
    assert!(delete.writes().is_empty());
}
