use resp_server::rdb::{RdbFileError, RdbReader, RdbValue};

#[test]
fn string_keeps_crlf_nul_and_non_utf8() {
    let input = [0x06, b'a', b'\r', b'\n', 0x00, 0xff, 0xfe, 0x99];
    let mut reader = RdbReader::new(&input);
    assert_eq!(reader.read_string().unwrap(), vec![b'a', b'\r', b'\n', 0x00, 0xff, 0xfe]);
    assert_eq!(reader.pos, 7);
}

#[test]
fn string_with_14_bit_and_32_bit_lengths() {
    let mut input = vec![0x41, 0x00];
    input.extend(std::iter::repeat(7u8).take(256));
    assert_eq!(RdbReader::new(&input).read_string().unwrap().len(), 256);
    let mut input = vec![0x80, 0x00, 0x00, 0x00, 0x03];
    input.extend_from_slice(b"xyz");
    assert_eq!(RdbReader::new(&input).read_string().unwrap(), b"xyz".to_vec());
}

#[test]
fn negative_integer_strings() {
    assert_eq!(RdbReader::new(&[0xC1, 0xFF, 0xFF]).read_string().unwrap(), b"-1".to_vec());
    assert_eq!(
        RdbReader::new(&[0xC2, 0x00, 0x00, 0x00, 0x80]).read_string().unwrap(),
        b"-2147483648".to_vec()
    );
    assert_eq!(RdbReader::new(&[0xC0, 0xFF]).read_string().unwrap(), b"255".to_vec());
}

#[test]
fn string_errors() {
    assert!(matches!(
        RdbReader::new(&[0xC3]).read_string(),
        Err(RdbFileError::UnknownStartingByte(0xC3))
    ));
    assert!(matches!(
        RdbReader::new(&[0x05, b'a']).read_string(),
        Err(RdbFileError::UnexpectedEnd)
    ));
    assert!(matches!(
        RdbReader::new(&[0xC1, 0x01]).read_string(),
        Err(RdbFileError::UnexpectedEnd)
    ));
}

#[test]
fn sizes() {
    assert_eq!(RdbReader::new(&[0x3f]).read_size().unwrap(), 63);
    assert_eq!(RdbReader::new(&[0x7f, 0xff]).read_size().unwrap(), 16383);
    assert_eq!(
        RdbReader::new(&[0x80, 0x01, 0x02, 0x03, 0x04]).read_size().unwrap(),
        0x01020304
    );
    assert!(matches!(
        RdbReader::new(&[0xC0]).read_size(),
        Err(RdbFileError::UnknownStartingByte(0xC0))
    ));
}

#[test]
fn database_entry_errors() {
    let input = [0x00, 0xfb, 0x01, 0x00, 0x07];
    assert!(matches!(
        RdbReader::new(&input).read_database(),
        Err(RdbFileError::UnexpectedByte { actual: 0x07, .. })
    ));
    let input = [0x00, 0xfb, 0x01, 0x00, 0xfd, 1, 2, 3, 4, 0x05];
    assert!(matches!(
        RdbReader::new(&input).read_database(),
        Err(RdbFileError::UnexpectedByte { actual: 0x05, .. })
    ));
}

#[test]
fn end_of_file_keeps_checksum() {
    let input = [0xff, 1, 2, 3, 4, 5, 6, 7, 8];
    assert_eq!(
        RdbReader::new(&input).read_next_value().unwrap(),
        RdbValue::EndOfFile { checksum: [1, 2, 3, 4, 5, 6, 7, 8] }
    );
}

#[test]
fn later_database_section_wins() {
    let mut input = b"REDIS0011".to_vec();
    input.extend_from_slice(&[0xFE, 0x00, 0xfb, 0x01, 0x00, 0x00, 0x01, b'a', 0x01, b'1']);
    input.extend_from_slice(&[0xFE, 0x00, 0xfb, 0x01, 0x00, 0x00, 0x01, b'b', 0x01, b'2']);
    input.extend_from_slice(&[0xFF, 0, 0, 0, 0, 0, 0, 0, 0]);
    let store = RdbReader::new(&input).read_contents().unwrap();
    assert_eq!(store.keys(), vec![b"b".to_vec()]);
}

#[test]
fn metadata_is_returned_in_order() {
    let mut input = b"REDIS0011".to_vec();
    input.extend_from_slice(&[0xFA, 0x01, b'a', 0x01, b'1', 0xFA, 0x01, b'b', 0xC0, 0x07]);
    input.extend_from_slice(&[0xFE, 0x00, 0xfb, 0x01, 0x00, 0x00, 0x01, b'k', 0x01, b'v']);
    input.extend_from_slice(&[0xFF, 0, 0, 0, 0, 0, 0, 0, 0]);
    let (meta, store) = RdbReader::new(&input).read_file().unwrap();
    assert_eq!(
        meta,
        vec![(b"a".to_vec(), b"1".to_vec()), (b"b".to_vec(), b"7".to_vec())]
    );
    assert_eq!(store.keys(), vec![b"k".to_vec()]);
}

#[test]
fn unexpected_byte_names_what_was_expected() {
    let input = [0x00, 0xfa];
    match RdbReader::new(&input).read_database() {
        Err(RdbFileError::UnexpectedByte { expected, actual }) => {
            assert_eq!(expected, "0xfb");
            assert_eq!(actual, 0xfa);
        }
        other => panic!("unexpected {:?}", other),
    }
    match RdbReader::new(&[0x01]).read_database() {
        Err(RdbFileError::Unimplemented(m)) => assert_eq!(m, "Multiple databases not supported"),
        other => panic!("unexpected {:?}", other),
    }
}
