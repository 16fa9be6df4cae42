use honeycomb::{AbxError, FastDataInput, SeekableReader};

#[test]
fn fixed_width_reads_are_big_endian() {
    let data = vec![
        0x12, 0x34, 0x56, 0x78, 0x9A, 0xBC, 0xDE, 0xF0, 0x01, 0x02, 0x03, 0x04, 0x05, 0x06, 0x07,
    ];
    let mut input = FastDataInput::new(data);
    assert_eq!(input.read_byte().unwrap(), 0x12);
    input.seek(0).unwrap();
    assert_eq!(input.read_short().unwrap(), 0x1234);
    input.seek(0).unwrap();
    assert_eq!(input.read_int().unwrap(), 0x12345678);
    input.seek(0).unwrap();
    assert_eq!(input.read_long().unwrap(), 0x123456789ABCDEF0u64 as i64);
    assert_eq!(input.tell().unwrap(), 8);
}

#[test]
fn signed_reads_are_twos_complement() {
    let mut input = FastDataInput::new(vec![0xFF, 0xFF, 0xFF, 0xFF, 0xFF, 0xFF, 0xFF, 0xFF]);
    assert_eq!(input.read_int().unwrap(), -1);
    input.seek(0).unwrap();
    assert_eq!(input.read_long().unwrap(), -1);
}

#[test]
fn short_reads_name_the_field_kind() {
    let mut input = FastDataInput::new(vec![0x00]);
    match input.read_int() {
        Err(AbxError::ReadError(k)) => assert_eq!(k, "int"),
        other => panic!("unexpected: {:?}", other),
    }
    match input.read_long() {
        Err(AbxError::ReadError(k)) => assert_eq!(k, "long"),
        other => panic!("unexpected: {:?}", other),
    }
    input.read_byte().unwrap();
    match input.read_byte() {
        Err(AbxError::ReadError(k)) => assert_eq!(k, "byte"),
        other => panic!("unexpected: {:?}", other),
    }
    assert!(input.is_eof());
}

#[test]
fn read_utf_validates_length_and_encoding() {
    let mut input = FastDataInput::new(vec![0x00, 0x02, b'h', b'i']);
    assert_eq!(input.read_utf().unwrap(), "hi");

    let mut short = FastDataInput::new(vec![0x00, 0x05, b'h', b'i']);
    match short.read_utf() {
        Err(AbxError::ReadError(k)) => assert_eq!(k, "UTF string"),
        other => panic!("unexpected: {:?}", other),
    }

    let mut bad = FastDataInput::new(vec![0x00, 0x02, 0xFF, 0xFE]);
    match bad.read_utf() {
        Err(AbxError::ReadError(k)) => assert_eq!(k, "UTF string (invalid UTF-8)"),
        other => panic!("unexpected: {:?}", other),
    }
}

#[test]
fn interned_table_grows_in_first_occurrence_order() {
    let mut data = vec![0xFF, 0xFF, 0x00, 0x01, b'a'];
    data.extend_from_slice(&[0xFF, 0xFF, 0x00, 0x01, b'b']);
    data.extend_from_slice(&[0x00, 0x00]);
    data.extend_from_slice(&[0x00, 0x07]);
    let mut input = FastDataInput::new(data);
    assert_eq!(input.read_interned_utf().unwrap(), "a");
    assert_eq!(input.read_interned_utf().unwrap(), "b");
    assert_eq!(input.read_interned_utf().unwrap(), "a");
    assert_eq!(input.interned_strings(), &vec!["a".to_string(), "b".to_string()]);
    match input.read_interned_utf() {
        Err(AbxError::InvalidInternedStringIndex(i)) => assert_eq!(i, 7),
        other => panic!("unexpected: {:?}", other),
    }
}

#[test]
fn read_bytes_returns_exact_slice() {
    let mut input = FastDataInput::new(vec![1, 2, 3, 4, 5]);
    input.seek(1).unwrap();
    assert_eq!(input.read_bytes(3).unwrap(), vec![2, 3, 4]);
    match input.read_bytes(9) {
        Err(AbxError::ReadError(k)) => assert_eq!(k, "bytes"),
        other => panic!("unexpected: {:?}", other),
    }
}

#[test]
fn adapter_serves_reads_from_its_buffer() {
    let source: Vec<u8> = (0u8..100).collect();
    let mut r = SeekableReader::new();
    assert_eq!(r.position(), 0);
    assert!(!r.is_end_reached());
    // the caller cycle: feed chunks while the adapter wants more
    let mut fed: usize = 0;
    while r.wants(10) {
        if fed >= source.len() {
            r.feed(&[]);
        } else {
            let end = (fed + 7).min(source.len());
            r.feed(&source[fed..end]);
            fed = end;
        }
    }
    let first = r.read_buffered(10);
    assert_eq!(first, source[0..10].to_vec());
    assert_eq!(r.position(), 10);
}

#[test]
fn adapter_seek_then_read_equals_source_slice() {
    let source: Vec<u8> = (0u8..100).collect();
    let mut r = SeekableReader::new();
    // drain the whole source, as a seek-to-end does
    let mut fed: usize = 0;
    while !r.is_end_reached() {
        if fed >= source.len() {
            r.feed(&[]);
        } else {
            let end = (fed + 7).min(source.len());
            r.feed(&source[fed..end]);
            fed = end;
        }
    }
    assert_eq!(r.buffer_len(), source.len());
    assert_eq!(r.seek_end(), source.len());
    // seek + read anywhere now equals the source sub-slice
    let got = r.read_at(10, 5);
    assert_eq!(got, source[10..15].to_vec());
    assert_eq!(r.seek_start(95), 95);
    assert_eq!(r.read_buffered(10), source[95..100].to_vec());
    // past-the-end seeks clamp to the buffered length
    assert_eq!(r.seek_start(500), 100);
    assert_eq!(r.read_buffered(1), Vec::<u8>::new());
}

#[test]
fn adapter_seek_start_pulls_until_target() {
    let source: Vec<u8> = (0u8..50).collect();
    let mut r = SeekableReader::new();
    let mut fed: usize = 0;
    while r.wants_until(30) {
        if fed >= source.len() {
            r.feed(&[]);
        } else {
            let end = (fed + 7).min(source.len());
            r.feed(&source[fed..end]);
            fed = end;
        }
    }
    assert_eq!(r.seek_start(30), 30);
    assert_eq!(r.read_buffered(3), source[30..33].to_vec());
}

#[test]
fn adapter_relative_seeks_saturate_at_zero() {
    let mut r = SeekableReader::new();
    r.feed(&[1, 2, 3, 4]);
    r.feed(&[]);
    r.seek_start(2);
    assert_eq!(r.relative_target(1), 3);
    assert_eq!(r.relative_target(-1), 1);
    assert_eq!(r.relative_target(-10), 0);
}
