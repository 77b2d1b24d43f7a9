use guest_boundary::Arena;
use guest_boundary::BoundaryError;
use guest_boundary::decode_string_len;
use guest_boundary::decode_string_nul;
use guest_boundary::encode_string;
use guest_boundary::log;

#[test]
fn allocate_is_zero_filled() {
    let mut arena = Arena::new();
    let block = arena.allocate(4).unwrap();
    assert_eq!(block.length, 4);
    assert_eq!(arena.read_all(block.address).unwrap(), vec![0u8; 4]);
}

#[test]
fn write_bytes_fills_a_scratch_buffer() {
    let mut arena = Arena::new();
    let block = arena.allocate(4).unwrap();
    arena.write_bytes(block.address, b"abcd").unwrap();
    assert_eq!(arena.read_all(block.address).unwrap(), b"abcd".to_vec());
}

#[test]
fn write_bytes_rejects_a_length_mismatch() {
    let mut arena = Arena::new();
    let block = arena.allocate(4).unwrap();
    assert_eq!(
        arena.write_bytes(block.address, b"toolong"),
        Err(BoundaryError::OutOfBounds)
    );
}

#[test]
fn release_of_unknown_address_is_reported() {
    let mut arena = Arena::new();
    assert_eq!(arena.dealloc_str(77), Err(BoundaryError::UnknownAddress));
}

#[test]
fn double_release_is_reported_and_keeps_other_buffers() {
    let mut arena = Arena::new();
    let sentinel_before = arena.store_bytes(b"sentinel-before").unwrap();
    let victim = arena.store_bytes(b"buffer-under-test").unwrap();
    let sentinel_after = arena.store_bytes(b"sentinel-after").unwrap();
    assert_eq!(arena.custom_dealloc_str(victim.address, 999_999), Ok(()));
    assert_eq!(
        arena.custom_dealloc_str(victim.address, 999_999),
        Err(BoundaryError::UnknownAddress)
    );
    assert_eq!(
        arena.read_all(sentinel_before.address).unwrap(),
        b"sentinel-before".to_vec()
    );
    assert_eq!(
        arena.read_all(sentinel_after.address).unwrap(),
        b"sentinel-after".to_vec()
    );
}

#[test]
fn released_buffer_cannot_be_read() {
    let mut arena = Arena::new();
    let block = arena.store_bytes(b"short-lived").unwrap();
    arena.dealloc_str(block.address).unwrap();
    assert_eq!(
        arena.read_all(block.address),
        Err(BoundaryError::UnknownAddress)
    );
}

#[test]
fn terminated_encode_decodes_back() {
    let mut arena = Arena::new();
    let block = encode_string(&mut arena, "h\u{e9}llo world".as_bytes(), true).unwrap();
    assert_eq!(block.length, "h\u{e9}llo world".as_bytes().len() + 1);
    let round = decode_string_nul(&arena, block.address).unwrap();
    assert_eq!(round, "h\u{e9}llo world".as_bytes().to_vec());
}

#[test]
fn unterminated_encode_keeps_exact_length() {
    let mut arena = Arena::new();
    let block = encode_string(&mut arena, b"abc", false).unwrap();
    assert_eq!(block.length, 3);
    assert_eq!(arena.read_all(block.address).unwrap(), b"abc".to_vec());
}

#[test]
fn unterminated_buffer_is_malformed() {
    let mut arena = Arena::new();
    let block = arena.store_bytes(b"no terminator here").unwrap();
    assert_eq!(
        decode_string_nul(&arena, block.address),
        Err(BoundaryError::MalformedBuffer)
    );
}

#[test]
fn terminator_beyond_scan_limit_is_malformed() {
    let mut arena = Arena::new();
    let mut big = vec![65u8; 66_000];
    big.push(0);
    let block = arena.store_bytes(&big).unwrap();
    assert_eq!(
        decode_string_nul(&arena, block.address),
        Err(BoundaryError::MalformedBuffer)
    );
}

#[test]
fn terminator_within_scan_limit_is_found() {
    let mut arena = Arena::new();
    let mut big = vec![65u8; 60_000];
    big.push(0);
    big.extend_from_slice(b"trailing junk");
    let block = arena.store_bytes(&big).unwrap();
    assert_eq!(
        decode_string_nul(&arena, block.address).unwrap(),
        vec![65u8; 60_000]
    );
}

#[test]
fn length_delimited_decode_rejects_bad_utf8() {
    let mut arena = Arena::new();
    let block = arena.store_bytes(&[0xff, 0xfe, 0x41]).unwrap();
    assert_eq!(
        decode_string_len(&arena, block.address, 3),
        Err(BoundaryError::EncodingError)
    );
}

#[test]
fn length_delimited_decode_takes_exactly_length_bytes() {
    let mut arena = Arena::new();
    let block = arena.store_bytes(b"abcdef").unwrap();
    assert_eq!(
        decode_string_len(&arena, block.address, 4).unwrap(),
        b"abcd".to_vec()
    );
    assert_eq!(
        decode_string_len(&arena, block.address, 7),
        Err(BoundaryError::OutOfBounds)
    );
}

#[test]
fn log_hands_out_a_length_delimited_block() {
    let mut arena = Arena::new();
    let block = log(&mut arena, b"diagnostic line").unwrap();
    assert_eq!(block.length, b"diagnostic line".len());
    assert_eq!(
        arena.read_all(block.address).unwrap(),
        b"diagnostic line".to_vec()
    );
}
