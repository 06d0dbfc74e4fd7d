use dynffi::dispatch::{build, marshal_arg, unmarshal_ret, ArgCell, DynValue, Function};
use dynffi::error::FfiError;

#[test]
fn build_validates_every_code() {
    let cs = build(vec!['z', 'l'], 'i', 0x1000).unwrap();
    assert_eq!(cs.arg_types, vec!['z', 'l']);
    assert_eq!(cs.return_type, 'i');
    assert_eq!(cs.pointer, 0x1000);
    assert_eq!(
        build(vec!['z', 'x', 'y'], 'i', 0),
        Err(FfiError::UnknownTypeCode { code: 'x' })
    );
    assert_eq!(
        build(vec!['z'], 'v', 0),
        Err(FfiError::UnknownTypeCode { code: 'v' })
    );
}

#[test]
fn marshal_int_writes_little_endian_cells() {
    let cell = marshal_arg('i', &DynValue::Int(0x01020304)).unwrap();
    assert_eq!(cell, ArgCell::Scalar { size: 4, bytes: vec![4, 3, 2, 1] });
    let cell = marshal_arg('h', &DynValue::Int(-2)).unwrap();
    assert_eq!(cell, ArgCell::Scalar { size: 2, bytes: vec![0xfe, 0xff] });
    let cell = marshal_arg('b', &DynValue::Int(-1)).unwrap();
    assert_eq!(cell, ArgCell::Scalar { size: 1, bytes: vec![0xff] });
}

#[test]
fn marshal_rejects_narrowing_that_loses_information() {
    assert_eq!(
        marshal_arg('b', &DynValue::Int(128)),
        Err(FfiError::ConversionError { code: 'b' })
    );
    assert_eq!(
        marshal_arg('B', &DynValue::Int(-1)),
        Err(FfiError::ConversionError { code: 'B' })
    );
    assert_eq!(
        marshal_arg('I', &DynValue::Int(1 << 32)),
        Err(FfiError::ConversionError { code: 'I' })
    );
}

#[test]
fn marshal_checks_value_kind() {
    assert_eq!(
        marshal_arg('i', &DynValue::F64Bits(0)),
        Err(FfiError::ConversionError { code: 'i' })
    );
    assert_eq!(
        marshal_arg('d', &DynValue::F32Bits(0)),
        Err(FfiError::ConversionError { code: 'd' })
    );
    assert_eq!(
        marshal_arg('x', &DynValue::Int(0)),
        Err(FfiError::UnknownTypeCode { code: 'x' })
    );
}

#[test]
fn marshal_float_bits_at_declared_precision() {
    let one_f32 = 1.0f32.to_bits();
    let cell = marshal_arg('f', &DynValue::F32Bits(one_f32)).unwrap();
    assert_eq!(cell, ArgCell::Scalar { size: 4, bytes: one_f32.to_le_bytes().to_vec() });
    let one_f64 = 1.0f64.to_bits();
    let cell = marshal_arg('d', &DynValue::F64Bits(one_f64)).unwrap();
    assert_eq!(cell, ArgCell::Scalar { size: 8, bytes: one_f64.to_le_bytes().to_vec() });
}

#[test]
fn marshal_string_argument_appends_terminator() {
    let cell = marshal_arg('z', &DynValue::Bytes(b"hello".to_vec())).unwrap();
    assert_eq!(cell, ArgCell::BytesArg { bytes: b"hello\0".to_vec() });
    let cell = marshal_arg('Z', &DynValue::Wide(vec![0x68, 0x69])).unwrap();
    assert_eq!(cell, ArgCell::WideArg { units: vec![0x68, 0x69, 0] });
}

#[test]
fn marshal_pointer_arguments() {
    let cell = marshal_arg('P', &DynValue::Ptr(0xdead)).unwrap();
    assert_eq!(
        cell,
        ArgCell::Scalar { size: 8, bytes: 0xdeadu64.to_le_bytes().to_vec() }
    );
    // a wide string does not fit a byte-string slot
    assert_eq!(
        marshal_arg('z', &DynValue::Wide(vec![1])),
        Err(FfiError::ConversionError { code: 'z' })
    );
}

#[test]
fn arity_mismatch_fails_before_any_native_step() {
    let f = Function::new(0x4000, vec!['i', 'i'], 'i').unwrap();
    let mut native_calls = 0usize;
    let args = vec![DynValue::Int(1)];
    let r = f.prepare_call(&args);
    assert_eq!(r, Err(FfiError::ArityMismatch { expected: 2, got: 1 }));
    // the stub native caller only runs on a prepared call, so it never ran
    if let Ok(p) = r {
        native_calls += 1;
        let _ = p;
    }
    assert_eq!(native_calls, 0);
}

#[test]
fn prepare_marshals_in_declaration_order() {
    let f = Function::new(0x4000, vec!['b', 'H'], 'l').unwrap();
    let p = f
        .prepare_call(&vec![DynValue::Int(-3), DynValue::Int(515)])
        .unwrap();
    assert_eq!(p.pointer, 0x4000);
    assert_eq!(p.return_type, 'l');
    assert_eq!(
        p.cells,
        vec![
            ArgCell::Scalar { size: 1, bytes: vec![0xfd] },
            ArgCell::Scalar { size: 2, bytes: vec![3, 2] },
        ]
    );
}

#[test]
fn prepare_stops_at_the_first_bad_argument() {
    let f = Function::new(0, vec!['i', 'b'], 'i').unwrap();
    let r = f.prepare_call(&vec![DynValue::Int(1), DynValue::Int(4000)]);
    assert_eq!(r, Err(FfiError::ConversionError { code: 'b' }));
}

#[test]
fn finish_reads_the_return_cell_back() {
    let f = Function::new(0, vec![], 'l').unwrap();
    assert_eq!(
        f.finish_call(&5i64.to_le_bytes()),
        Ok(DynValue::Int(5))
    );
    assert_eq!(
        f.finish_call(&(-1i64).to_le_bytes()),
        Ok(DynValue::Int(-1))
    );
}

#[test]
fn unmarshal_sign_and_zero_extension() {
    assert_eq!(unmarshal_ret('b', &[0xff]), Ok(DynValue::Int(-1)));
    assert_eq!(unmarshal_ret('B', &[0xff]), Ok(DynValue::Int(255)));
    assert_eq!(unmarshal_ret('h', &[0x00, 0x80]), Ok(DynValue::Int(-32768)));
    assert_eq!(unmarshal_ret('Q', &u64::MAX.to_le_bytes()), Ok(DynValue::Int(u64::MAX as i128)));
}

#[test]
fn unmarshal_pointer_and_float_bits() {
    assert_eq!(
        unmarshal_ret('P', &0xbeefu64.to_le_bytes()),
        Ok(DynValue::Ptr(0xbeef))
    );
    let bits = 2.5f32.to_bits();
    assert_eq!(unmarshal_ret('f', &bits.to_le_bytes()), Ok(DynValue::F32Bits(bits)));
}

#[test]
fn unmarshal_checks_cell_width() {
    assert_eq!(
        unmarshal_ret('i', &[1, 2]),
        Err(FfiError::ConversionError { code: 'i' })
    );
    assert_eq!(
        unmarshal_ret('x', &[0]),
        Err(FfiError::UnknownTypeCode { code: 'x' })
    );
}

#[test]
fn integer_cells_round_trip_through_marshal_and_unmarshal() {
    for (code, v) in [('b', -128i128), ('B', 200), ('h', -2), ('i', 0x01020304), ('l', -5), ('Q', u64::MAX as i128)] {
        match marshal_arg(code, &DynValue::Int(v)).unwrap() {
            ArgCell::Scalar { size: _, bytes } => {
                assert_eq!(unmarshal_ret(code, &bytes), Ok(DynValue::Int(v)), "code {code}");
            }
            other => panic!("expected a scalar cell, got {other:?}"),
        }
    }
}

#[test]
fn an_absent_return_type_defaults_to_the_opaque_pointer_code() {
    let f = Function::new_with_default_return(3, vec!['i']).unwrap();
    assert_eq!(f.return_type(), 'P');
    assert_eq!(
        f.finish_call(&0x77u64.to_le_bytes()),
        Ok(DynValue::Ptr(0x77))
    );
}

#[test]
fn redeclaring_types_rebuilds_the_call_description() {
    let mut f = Function::new(7, vec!['i'], 'i').unwrap();
    f.set_args(vec!['z', 'l']).unwrap();
    assert_eq!(f.arg_count(), 2);
    f.set_ret('d').unwrap();
    assert_eq!(f.return_type(), 'd');
    // a bad redeclaration leaves the declaration as it was
    assert_eq!(
        f.set_args(vec!['l', 'y']),
        Err(FfiError::UnknownTypeCode { code: 'y' })
    );
    assert_eq!(f.arg_count(), 2);
    assert_eq!(
        f.set_ret('#'),
        Err(FfiError::UnknownTypeCode { code: '#' })
    );
    assert_eq!(f.return_type(), 'd');
    assert_eq!(f.pointer(), 7);
}
