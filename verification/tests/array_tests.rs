use dynffi::array::{generic_pycdata_new, make_array_with_lenght, DataKind, PyCDataBuffer,
    PyCDataSequenceMethods, TextUnits};
use dynffi::error::FfiError;

#[test]
fn array_buffer_is_length_times_element_size_and_zeroed() {
    let a = make_array_with_lenght('i', 5).unwrap();
    assert_eq!(a.element_type(), 'i');
    assert_eq!(a.length(), 5);
    assert_eq!(a.raw(), vec![0u8; 20]);
}

#[test]
fn zero_length_array_is_legal() {
    let a = make_array_with_lenght('q', 0).unwrap();
    assert_eq!(a.length(), 0);
    assert_eq!(a.raw(), Vec::<u8>::new());
}

#[test]
fn array_of_unknown_code_is_a_declaration_error() {
    assert!(matches!(
        make_array_with_lenght('x', 3),
        Err(FfiError::UnknownTypeCode { code: 'x' })
    ));
}

#[test]
fn overflowing_length_is_a_declaration_error() {
    assert!(matches!(
        make_array_with_lenght('q', usize::MAX),
        Err(FfiError::ConversionError { code: 'q' })
    ));
}

#[test]
fn byte_array_value_round_trip() {
    let mut a = make_array_with_lenght('c', 8).unwrap();
    a.set_value(&TextUnits::Bytes(b"hey".to_vec())).unwrap();
    assert_eq!(a.raw(), vec![b'h', b'e', b'y', 0, 0, 0, 0, 0]);
    assert_eq!(a.value().unwrap(), TextUnits::Bytes(b"hey".to_vec()));
}

#[test]
fn byte_array_value_exact_length_fills_without_zero() {
    let mut a = make_array_with_lenght('c', 3).unwrap();
    a.set_value(&TextUnits::Bytes(b"abc".to_vec())).unwrap();
    assert_eq!(a.raw(), b"abc".to_vec());
    assert_eq!(a.value().unwrap(), TextUnits::Bytes(b"abc".to_vec()));
}

#[test]
fn byte_array_value_too_long_fails_and_keeps_buffer() {
    let mut a = make_array_with_lenght('c', 2).unwrap();
    a.set_value(&TextUnits::Bytes(b"ok".to_vec())).unwrap();
    assert_eq!(
        a.set_value(&TextUnits::Bytes(b"long".to_vec())),
        Err(FfiError::ValueTooLong { wanted: 4, capacity: 2 })
    );
    assert_eq!(a.raw(), b"ok".to_vec());
}

#[test]
fn wide_array_value_round_trip() {
    let mut a = make_array_with_lenght('u', 4).unwrap();
    assert_eq!(a.raw().len(), 16);
    let text = dynffi::buffer::encode_wide("hi");
    assert_eq!(text, vec!['h' as u32, 'i' as u32]);
    a.set_value(&TextUnits::Wide(text.clone())).unwrap();
    assert_eq!(a.value().unwrap(), TextUnits::Wide(text));
}

#[test]
fn wide_encoding_uses_one_unit_per_character() {
    let units = dynffi::buffer::encode_wide("a\u{1F600}b");
    assert_eq!(units, vec![0x61, 0x1F600, 0x62]);
}

#[test]
fn mismatched_text_kind_is_a_conversion_error() {
    let mut a = make_array_with_lenght('c', 4).unwrap();
    assert_eq!(
        a.set_value(&TextUnits::Wide(vec![7])),
        Err(FfiError::ConversionError { code: 'c' })
    );
    let mut w = make_array_with_lenght('u', 4).unwrap();
    assert_eq!(
        w.set_value(&TextUnits::Bytes(b"x".to_vec())),
        Err(FfiError::ConversionError { code: 'u' })
    );
}

#[test]
fn non_text_array_has_no_value_property() {
    let a = make_array_with_lenght('i', 2).unwrap();
    assert_eq!(a.value(), Err(FfiError::ConversionError { code: 'i' }));
}

#[test]
fn raw_setter_overwrites_prefix_only() {
    let mut a = make_array_with_lenght('c', 4).unwrap();
    a.set_raw(&[9, 9, 9, 9]).unwrap();
    a.set_raw(&[1, 2]).unwrap();
    assert_eq!(a.raw(), vec![1, 2, 9, 9]);
    assert_eq!(
        a.set_raw(&[0; 5]),
        Err(FfiError::ValueTooLong { wanted: 5, capacity: 4 })
    );
    assert_eq!(a.raw(), vec![1, 2, 9, 9]);
}

#[test]
fn init_resets_to_zeroed_state() {
    let mut a = make_array_with_lenght('c', 4).unwrap();
    a.set_raw(&[1, 2, 3, 4]).unwrap();
    a.init();
    assert_eq!(a.raw(), vec![0u8; 4]);
    assert_eq!(a.length(), 4);
    assert_eq!(a.element_type(), 'c');
}

#[test]
fn simple_data_object_is_sized_by_its_code() {
    let o = generic_pycdata_new('d').unwrap();
    assert_eq!(o.kind(), DataKind::Simple);
    assert_eq!(o.code(), 'd');
    assert_eq!(o.obj_bytes(), vec![0u8; 8]);
    assert!(matches!(
        generic_pycdata_new('x'),
        Err(FfiError::UnknownTypeCode { code: 'x' })
    ));
}

#[test]
fn buffer_trait_reads_and_releases() {
    let mut a = make_array_with_lenght('H', 3).unwrap();
    assert_eq!(a.buffer_len(), 6);
    a.set_raw(&[1, 0, 2, 0, 3, 0]).unwrap();
    assert_eq!(a.obj_bytes(), vec![1, 0, 2, 0, 3, 0]);
    a.release();
    assert_eq!(a.buffer_len(), 0);
    a.release();
    assert_eq!(a.buffer_len(), 0);
}

#[test]
fn sequence_repeat_builds_a_fresh_array() {
    let a = make_array_with_lenght('i', 2).unwrap();
    assert_eq!(a.repeat_element_type(), 'i');
    let b = a.repeat(6).unwrap();
    assert_eq!(b.length(), 6);
    assert_eq!(b.raw(), vec![0u8; 24]);
}
