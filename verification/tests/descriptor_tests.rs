use dynffi::descriptor::{descriptor_for, get_size, CallTag, SIMPLE_TYPE_CHARS};
use dynffi::error::FfiError;

#[test]
fn every_alphabet_code_has_a_descriptor() {
    for code in SIMPLE_TYPE_CHARS.chars() {
        assert!(descriptor_for(code).is_ok(), "code {code} must be accepted");
    }
}

#[test]
fn byte_sized_codes() {
    for code in ['c', 'b', 'B', '?'] {
        let d = descriptor_for(code).unwrap();
        assert_eq!(d.size, 1);
        assert_eq!(d.align, 1);
    }
    assert_eq!(descriptor_for('c').unwrap().tag, CallTag::SignedChar);
    assert_eq!(descriptor_for('B').unwrap().tag, CallTag::UnsignedChar);
    assert_eq!(descriptor_for('?').unwrap().tag, CallTag::UnsignedChar);
}

#[test]
fn short_and_int_codes() {
    assert_eq!(descriptor_for('h').unwrap().size, 2);
    assert_eq!(descriptor_for('H').unwrap().size, 2);
    assert_eq!(descriptor_for('i').unwrap().size, 4);
    assert_eq!(descriptor_for('I').unwrap().size, 4);
    assert_eq!(descriptor_for('i').unwrap().tag, CallTag::SignedInt);
    assert_eq!(descriptor_for('I').unwrap().tag, CallTag::UnsignedInt);
}

#[test]
fn long_codes_are_eight_bytes() {
    for code in ['l', 'L', 'q', 'Q'] {
        let d = descriptor_for(code).unwrap();
        assert_eq!(d.size, 8);
        assert_eq!(d.align, 8);
    }
    assert_eq!(descriptor_for('l').unwrap().tag, CallTag::SignedLong);
    assert_eq!(descriptor_for('Q').unwrap().tag, CallTag::UnsignedLongLong);
}

#[test]
fn float_codes() {
    assert_eq!(descriptor_for('f').unwrap().size, 4);
    assert_eq!(descriptor_for('f').unwrap().tag, CallTag::Float);
    assert_eq!(descriptor_for('d').unwrap().size, 8);
    assert_eq!(descriptor_for('d').unwrap().tag, CallTag::Double);
    assert_eq!(descriptor_for('g').unwrap().size, 16);
    assert_eq!(descriptor_for('g').unwrap().tag, CallTag::LongDouble);
}

#[test]
fn pointer_codes_are_pointer_width() {
    for code in ['z', 'Z', 'P'] {
        let d = descriptor_for(code).unwrap();
        assert_eq!(d.size, 8);
        assert_eq!(d.tag, CallTag::Pointer);
    }
}

#[test]
fn wide_char_code() {
    let d = descriptor_for('u').unwrap();
    assert_eq!(d.size, 4);
    assert_eq!(d.align, 4);
}

#[test]
fn descriptor_is_deterministic() {
    let a = descriptor_for('l').unwrap();
    let b = descriptor_for('l').unwrap();
    assert_eq!(a, b);
}

#[test]
fn unknown_codes_are_rejected_never_defaulted() {
    for code in ['x', 'v', 'A', ' ', '0', 's'] {
        assert_eq!(
            descriptor_for(code),
            Err(FfiError::UnknownTypeCode { code }),
            "code {code} must be rejected"
        );
    }
}

#[test]
fn get_size_matches_descriptor() {
    assert_eq!(get_size('i').unwrap(), 4);
    assert_eq!(get_size('g').unwrap(), 16);
    assert_eq!(get_size('x'), Err(FfiError::UnknownTypeCode { code: 'x' }));
}
