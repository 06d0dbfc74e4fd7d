use dynffi::buffer::DataBuffer;
use dynffi::error::FfiError;

#[test]
fn allocate_is_zero_initialized() {
    let b = DataBuffer::allocate(8);
    assert_eq!(b.len(), 8);
    assert_eq!(b.read_raw(), vec![0u8; 8]);
}

#[test]
fn allocate_zero_is_legal() {
    let b = DataBuffer::allocate(0);
    assert_eq!(b.len(), 0);
    assert_eq!(b.read_raw(), Vec::<u8>::new());
}

#[test]
fn read_bytes_is_bounds_checked() {
    let b = DataBuffer::allocate(4);
    assert_eq!(b.read_bytes(0, 4).unwrap(), vec![0u8; 4]);
    assert_eq!(
        b.read_bytes(2, 3),
        Err(FfiError::OutOfBounds { offset: 2, wanted: 3, len: 4 })
    );
}

#[test]
fn write_bytes_is_bounds_checked_and_leaves_buffer_on_failure() {
    let mut b = DataBuffer::allocate(4);
    b.write_bytes(1, &[7, 8]).unwrap();
    assert_eq!(b.read_raw(), vec![0, 7, 8, 0]);
    assert_eq!(
        b.write_bytes(3, &[1, 2]),
        Err(FfiError::OutOfBounds { offset: 3, wanted: 2, len: 4 })
    );
    assert_eq!(b.read_raw(), vec![0, 7, 8, 0]);
}

#[test]
fn raw_write_too_long_fails_and_buffer_is_unmodified() {
    let mut b = DataBuffer::allocate(3);
    b.write_raw(&[1, 2, 3]).unwrap();
    assert_eq!(
        b.write_raw(&[9, 9, 9, 9]),
        Err(FfiError::ValueTooLong { wanted: 4, capacity: 3 })
    );
    assert_eq!(b.read_raw(), vec![1, 2, 3]);
}

#[test]
fn raw_exact_length_round_trips() {
    let mut b = DataBuffer::allocate(5);
    let image = vec![10u8, 0, 20, 0, 30];
    b.write_raw(&image).unwrap();
    assert_eq!(b.read_raw(), image);
}

#[test]
fn raw_shorter_write_leaves_tail_untouched() {
    let mut b = DataBuffer::allocate(4);
    b.write_raw(&[5, 5, 5, 5]).unwrap();
    b.write_raw(&[1, 2]).unwrap();
    assert_eq!(b.read_raw(), vec![1, 2, 5, 5]);
}

#[test]
fn value_bytes_exact_length_has_no_trailing_zero() {
    let mut b = DataBuffer::allocate(5);
    b.write_value_bytes(b"hello").unwrap();
    assert_eq!(b.read_raw(), b"hello".to_vec());
    // the full, zero-free buffer reads back whole
    assert_eq!(b.read_value_bytes(), b"hello".to_vec());
}

#[test]
fn value_bytes_shorter_write_zero_pads_and_round_trips() {
    let mut b = DataBuffer::allocate(8);
    b.write_raw(&[9u8; 8]).unwrap();
    b.write_value_bytes(b"hi").unwrap();
    assert_eq!(b.read_raw(), vec![b'h', b'i', 0, 0, 0, 0, 0, 0]);
    assert_eq!(b.read_value_bytes(), b"hi".to_vec());
}

#[test]
fn value_bytes_too_long_fails_and_buffer_is_unmodified() {
    let mut b = DataBuffer::allocate(3);
    b.write_value_bytes(b"abc").unwrap();
    assert_eq!(
        b.write_value_bytes(b"abcd"),
        Err(FfiError::ValueTooLong { wanted: 4, capacity: 3 })
    );
    assert_eq!(b.read_raw(), b"abc".to_vec());
}

#[test]
fn value_read_stops_at_first_zero_byte() {
    let mut b = DataBuffer::allocate(6);
    b.write_raw(&[b'a', b'b', 0, b'c', 0, b'd']).unwrap();
    assert_eq!(b.read_value_bytes(), b"ab".to_vec());
}

#[test]
fn wide_value_round_trips_and_zero_pads() {
    let mut b = DataBuffer::allocate(16);
    let text = [0x68u32, 0x69u32, 0x10348u32];
    b.write_value_wide(&text).unwrap();
    // each unit is a 4-byte little-endian group, remainder zeroed
    assert_eq!(
        b.read_raw(),
        vec![0x68, 0, 0, 0, 0x69, 0, 0, 0, 0x48, 0x03, 0x01, 0, 0, 0, 0, 0]
    );
    assert_eq!(b.read_value_wide(), text.to_vec());
}

#[test]
fn wide_value_too_long_fails_in_units() {
    let mut b = DataBuffer::allocate(8);
    assert_eq!(
        b.write_value_wide(&[1, 2, 3]),
        Err(FfiError::ValueTooLong { wanted: 3, capacity: 2 })
    );
    assert_eq!(b.read_raw(), vec![0u8; 8]);
}

#[test]
fn wide_value_read_stops_at_first_zero_unit() {
    let mut b = DataBuffer::allocate(12);
    b.write_raw(&[7, 0, 0, 0, 0, 0, 0, 0, 9, 0, 0, 0]).unwrap();
    assert_eq!(b.read_value_wide(), vec![7]);
}

#[test]
fn keep_alive_never_touches_bytes() {
    let mut b = DataBuffer::allocate(2);
    b.write_raw(&[3, 4]).unwrap();
    b.keep_alive(17);
    b.keep_alive(17);
    assert_eq!(b.read_raw(), vec![3, 4]);
}

#[test]
fn release_is_idempotent() {
    let mut b = DataBuffer::allocate(4);
    b.release();
    assert_eq!(b.len(), 0);
    b.release();
    assert_eq!(b.len(), 0);
    assert_eq!(b.read_raw(), Vec::<u8>::new());
}

#[test]
fn from_bytes_takes_the_region_as_is() {
    let b = DataBuffer::from_bytes(vec![1, 2, 3]);
    assert_eq!(b.read_raw(), vec![1, 2, 3]);
}
