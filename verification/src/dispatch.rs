use vstd::prelude::*;

use crate::codec::{le_bytes_of, le_val_of, lemma_le_val_bound, pow256};
use crate::descriptor::{descriptor_for, spec_descriptor, valid_code, CallTag};
use crate::error::FfiError;

verus! {

/// A dynamically-typed value crossing the native boundary. Floating values
/// travel as their IEEE bit patterns, so that the numeric logic of the
/// embedding runtime stays outside this layer; byte and wide strings travel
/// by content and are given a native address only at the call site.
#[derive(Debug, Clone, PartialEq, Eq)]
pub enum DynValue {
    /// Any integer value, bool included (as 0 or 1).
    Int(i128),
    /// The bit pattern of a single-precision float.
    F32Bits(u32),
    /// The bit pattern of a double-precision float.
    F64Bits(u64),
    /// A raw native address, taken as-is.
    Ptr(u64),
    /// A byte string, for `z` arguments; a terminating zero is appended.
    Bytes(Vec<u8>),
    /// A wide string of 4-byte code units, for `Z` arguments; a terminating
    /// zero unit is appended.
    Wide(Vec<u32>),
}

/// One marshaled argument: what the native call site receives for one
/// declared argument type, computed before any native effect is possible.
#[derive(Debug, Clone, PartialEq, Eq)]
pub enum ArgCell {
    /// A fixed-width scalar cell: exactly `size` bytes, little-endian.
    Scalar { size: usize, bytes: Vec<u8> },
    /// A zero-terminated byte string; the callee receives its address.
    BytesArg { bytes: Vec<u8> },
    /// A zero-terminated wide string; the callee receives its address.
    WideArg { units: Vec<u32> },
}

/// The mathematical shadow of an [`ArgCell`], used by the marshaling model.
pub enum CellModel {
    Scalar { size: nat, bytes: Seq<u8> },
    BytesArg { bytes: Seq<u8> },
    WideArg { units: Seq<u32> },
}

/// The model a concrete cell denotes.
pub open spec fn cell_model(c: ArgCell) -> CellModel {
    match c {
        ArgCell::Scalar { size, bytes } => CellModel::Scalar { size: size as nat, bytes: bytes@ },
        ArgCell::BytesArg { bytes } => CellModel::BytesArg { bytes: bytes@ },
        ArgCell::WideArg { units } => CellModel::WideArg { units: units@ },
    }
}

/// Width in bytes and signedness of the integer call tags; `None` for the
/// floating and pointer tags.
pub open spec fn int_layout(tag: CallTag) -> Option<(nat, bool)> {
    match tag {
        CallTag::SignedChar => Some((1nat, true)),
        CallTag::UnsignedChar => Some((1nat, false)),
        CallTag::SignedShort => Some((2nat, true)),
        CallTag::UnsignedShort => Some((2nat, false)),
        CallTag::SignedInt => Some((4nat, true)),
        CallTag::UnsignedInt => Some((4nat, false)),
        CallTag::SignedLong => Some((8nat, true)),
        CallTag::UnsignedLong => Some((8nat, false)),
        CallTag::SignedLongLong => Some((8nat, true)),
        CallTag::UnsignedLongLong => Some((8nat, false)),
        CallTag::Float => None,
        CallTag::Double => None,
        CallTag::LongDouble => None,
        CallTag::Pointer => None,
    }
}

/// Whether `v` fits a `size`-byte integer cell of the given signedness
/// without losing information.
pub open spec fn int_in_range(size: nat, signed: bool, v: int) -> bool {
    if signed {
        -(pow256(size) as int) <= 2 * v < pow256(size) as int
    } else {
        0 <= v < pow256(size) as int
    }
}

/// The unsigned cell image of `v` in a `size`-byte cell: non-negative values
/// as themselves, negative values in two's complement.
pub open spec fn to_unsigned(v: int, size: nat) -> nat {
    if v >= 0 {
        v as nat
    } else {
        (v + pow256(size)) as nat
    }
}

/// Read a `size`-byte unsigned cell value back as a signed integer.
pub open spec fn from_unsigned(u: nat, size: nat) -> int {
    if 2 * u < pow256(size) {
        u as int
    } else {
        u - pow256(size)
    }
}

/// The marshaling model (the checked part of an invocation, one argument at
/// a time): what cell a declared type code and a dynamic value produce, or
/// with which error the marshaling is refused. Integers are range- and
/// sign-checked against the destination width; narrowing that would lose
/// information is a `ConversionError`, never a silent truncation. Floating
/// bit patterns must match the declared precision exactly; this layer does
/// no rounding. Extended-precision (`g`) argument values are not
/// representable in the portable value model and are always refused.
pub open spec fn spec_marshal(code: char, v: DynValue) -> Result<CellModel, FfiError> {
    if !valid_code(code) {
        Err(FfiError::UnknownTypeCode { code })
    } else {
        let d = spec_descriptor(code).unwrap();
        match int_layout(d.tag) {
            Some(layout) => match v {
                DynValue::Int(x) => if int_in_range(layout.0, layout.1, x as int) {
                    Ok(
                        CellModel::Scalar {
                            size: layout.0,
                            bytes: le_bytes_of(to_unsigned(x as int, layout.0), layout.0),
                        },
                    )
                } else {
                    Err(FfiError::ConversionError { code })
                },
                _ => Err(FfiError::ConversionError { code }),
            },
            None => match d.tag {
                CallTag::Float => match v {
                    DynValue::F32Bits(b) => Ok(
                        CellModel::Scalar { size: 4, bytes: le_bytes_of(b as nat, 4) },
                    ),
                    _ => Err(FfiError::ConversionError { code }),
                },
                CallTag::Double => match v {
                    DynValue::F64Bits(b) => Ok(
                        CellModel::Scalar { size: 8, bytes: le_bytes_of(b as nat, 8) },
                    ),
                    _ => Err(FfiError::ConversionError { code }),
                },
                CallTag::Pointer => match v {
                    DynValue::Ptr(a) => Ok(
                        CellModel::Scalar { size: 8, bytes: le_bytes_of(a as nat, 8) },
                    ),
                    DynValue::Int(x) => if 0 <= x < pow256(8) as int {
                        Ok(CellModel::Scalar { size: 8, bytes: le_bytes_of(x as nat, 8) })
                    } else {
                        Err(FfiError::ConversionError { code })
                    },
                    DynValue::Bytes(b) => if code == 'z' {
                        Ok(CellModel::BytesArg { bytes: b@.push(0u8) })
                    } else {
                        Err(FfiError::ConversionError { code })
                    },
                    DynValue::Wide(w) => if code == 'Z' {
                        Ok(CellModel::WideArg { units: w@.push(0u32) })
                    } else {
                        Err(FfiError::ConversionError { code })
                    },
                    _ => Err(FfiError::ConversionError { code }),
                },
                _ => Err(FfiError::ConversionError { code }),
            },
        }
    }
}

/// Marshal one dynamic value into the cell its declared type code calls for,
/// exactly as [`spec_marshal`] states.
pub fn marshal_arg(code: char, v: &DynValue) -> (r: Result<ArgCell, FfiError>)
    ensures
        spec_marshal(code, *v) matches Ok(m) ==> (r matches Ok(c) && cell_model(c) == m),
        spec_marshal(code, *v) matches Err(e) ==> r == Err::<ArgCell, FfiError>(e),
{
    proof {
        reveal_with_fuel(pow256, 9);
    }
    let d = match descriptor_for(code) {
        Ok(d) => d,
        Err(e) => {
            return Err(e);
        },
    };
    match d.tag {
        CallTag::SignedChar => marshal_signed(code, v, 1, -128, 127),
        CallTag::UnsignedChar => marshal_unsigned(code, v, 1, 255),
        CallTag::SignedShort => marshal_signed(code, v, 2, -32768, 32767),
        CallTag::UnsignedShort => marshal_unsigned(code, v, 2, 65535),
        CallTag::SignedInt => marshal_signed(code, v, 4, -2147483648, 2147483647),
        CallTag::UnsignedInt => marshal_unsigned(code, v, 4, 4294967295),
        CallTag::SignedLong => marshal_signed(
            code,
            v,
            8,
            -9223372036854775808,
            9223372036854775807,
        ),
        CallTag::UnsignedLong => marshal_unsigned(code, v, 8, 18446744073709551615),
        CallTag::SignedLongLong => marshal_signed(
            code,
            v,
            8,
            -9223372036854775808,
            9223372036854775807,
        ),
        CallTag::UnsignedLongLong => marshal_unsigned(code, v, 8, 18446744073709551615),
        CallTag::Float => match v {
            DynValue::F32Bits(b) => {
                let bytes = crate::codec::le_encode(*b as u128, 4);
                Ok(ArgCell::Scalar { size: 4, bytes })
            },
            _ => Err(FfiError::ConversionError { code }),
        },
        CallTag::Double => match v {
            DynValue::F64Bits(b) => {
                let bytes = crate::codec::le_encode(*b as u128, 8);
                Ok(ArgCell::Scalar { size: 8, bytes })
            },
            _ => Err(FfiError::ConversionError { code }),
        },
        CallTag::LongDouble => Err(FfiError::ConversionError { code }),
        CallTag::Pointer => match v {
            DynValue::Ptr(a) => {
                let bytes = crate::codec::le_encode(*a as u128, 8);
                Ok(ArgCell::Scalar { size: 8, bytes })
            },
            DynValue::Int(x) => {
                if 0 <= *x && *x <= 18446744073709551615 {
                    let bytes = crate::codec::le_encode(*x as u128, 8);
                    Ok(ArgCell::Scalar { size: 8, bytes })
                } else {
                    Err(FfiError::ConversionError { code })
                }
            },
            DynValue::Bytes(b) => {
                if code == 'z' {
                    let mut bytes = b.clone();
                    bytes.push(0);
                    Ok(ArgCell::BytesArg { bytes })
                } else {
                    Err(FfiError::ConversionError { code })
                }
            },
            DynValue::Wide(w) => {
                if code == 'Z' {
                    let mut units = w.clone();
                    units.push(0);
                    Ok(ArgCell::WideArg { units })
                } else {
                    Err(FfiError::ConversionError { code })
                }
            },
            _ => Err(FfiError::ConversionError { code }),
        },
    }
}

/// Marshal an integer into a signed cell of `size` bytes with the given
/// inclusive bounds; two's complement for negative values.
fn marshal_signed(code: char, v: &DynValue, size: usize, lo: i128, hi: i128) -> (r: Result<
    ArgCell,
    FfiError,
>)
    requires
        valid_code(code),
        int_layout(spec_descriptor(code).unwrap().tag) == Some((size as nat, true)),
        1 <= size <= 8,
        2 * lo == -(pow256(size as nat) as int),
        2 * (hi + 1) == pow256(size as nat) as int,
    ensures
        spec_marshal(code, *v) matches Ok(m) ==> (r matches Ok(c) && cell_model(c) == m),
        spec_marshal(code, *v) matches Err(e) ==> r == Err::<ArgCell, FfiError>(e),
{
    match v {
        DynValue::Int(x) => {
            if lo <= *x && *x <= hi {
                let u: u128 = if *x >= 0 {
                    *x as u128
                } else {
                    proof {
                        reveal_with_fuel(pow256, 9);
                        crate::codec::lemma_pow256_mono(size as nat, 8);
                    }
                    (*x + 2 * (hi + 1)) as u128
                };
                proof {
                    assert(u as nat == to_unsigned(*x as int, size as nat));
                }
                let bytes = crate::codec::le_encode(u, size);
                Ok(ArgCell::Scalar { size, bytes })
            } else {
                Err(FfiError::ConversionError { code })
            }
        },
        _ => Err(FfiError::ConversionError { code }),
    }
}

/// Marshal an integer into an unsigned cell of `size` bytes with the given
/// inclusive upper bound.
fn marshal_unsigned(code: char, v: &DynValue, size: usize, hi: i128) -> (r: Result<
    ArgCell,
    FfiError,
>)
    requires
        valid_code(code),
        int_layout(spec_descriptor(code).unwrap().tag) == Some((size as nat, false)),
        1 <= size <= 8,
        hi + 1 == pow256(size as nat) as int,
    ensures
        spec_marshal(code, *v) matches Ok(m) ==> (r matches Ok(c) && cell_model(c) == m),
        spec_marshal(code, *v) matches Err(e) ==> r == Err::<ArgCell, FfiError>(e),
{
    match v {
        DynValue::Int(x) => {
            if 0 <= *x && *x <= hi {
                let bytes = crate::codec::le_encode(*x as u128, size);
                Ok(ArgCell::Scalar { size, bytes })
            } else {
                Err(FfiError::ConversionError { code })
            }
        },
        _ => Err(FfiError::ConversionError { code }),
    }
}


/// The first character in `types` that is not a valid type code, if any;
/// declarations are checked left to right.
pub open spec fn first_invalid(types: Seq<char>) -> Option<char>
    decreases types.len(),
{
    if types.len() == 0 {
        None
    } else if !valid_code(types[0]) {
        Some(types[0])
    } else {
        first_invalid(types.skip(1))
    }
}

pub proof fn lemma_first_invalid(types: Seq<char>, i: int)
    requires
        0 <= i <= types.len(),
        forall|j: int| 0 <= j < i ==> valid_code(types[j]),
    ensures
        i == types.len() ==> first_invalid(types) is None,
        i < types.len() && !valid_code(types[i]) ==> first_invalid(types) == Some(types[i]),
    decreases i,
{
    if i > 0 {
        assert forall|j: int| 0 <= j < i - 1 implies valid_code(types.skip(1)[j]) by {
            assert(types.skip(1)[j] == types[j + 1]);
        }
        lemma_first_invalid(types.skip(1), i - 1);
        if i < types.len() {
            assert(types.skip(1)[i - 1] == types[i]);
        }
    }
}

/// The resolved, type-checked description of a single native call: the
/// declared argument type codes in order, the declared return type code, and
/// the target function address. Rebuilt whenever the declaration changes; a
/// stale one is never reused.
#[derive(Debug, Clone, PartialEq, Eq)]
pub struct CallSpec {
    pub arg_types: Vec<char>,
    pub return_type: char,
    pub pointer: u64,
}

impl CallSpec {
    /// Every declared code is in the alphabet.
    pub open spec fn wf(&self) -> bool {
        &&& forall|i: int| 0 <= i < self.arg_types@.len() ==> valid_code(self.arg_types@[i])
        &&& valid_code(self.return_type)
    }
}

/// Validate a declaration and build the call description. Codes are checked
/// left to right, the return code last; the first unknown code is reported
/// and nothing is built.
pub fn build(arg_types: Vec<char>, return_type: char, pointer: u64) -> (r: Result<
    CallSpec,
    FfiError,
>)
    ensures
        first_invalid(arg_types@) matches Some(c) ==> r == Err::<CallSpec, FfiError>(
            FfiError::UnknownTypeCode { code: c },
        ),
        first_invalid(arg_types@) is None && !valid_code(return_type) ==> r == Err::<
            CallSpec,
            FfiError,
        >(FfiError::UnknownTypeCode { code: return_type }),
        first_invalid(arg_types@) is None && valid_code(return_type) ==> (r matches Ok(cs)
            && cs.arg_types@ == arg_types@ && cs.return_type == return_type && cs.pointer == pointer
            && cs.wf()),
{
    let n = arg_types.len();
    let mut i: usize = 0;
    while i < n
        invariant
            i <= n,
            n == arg_types@.len(),
            forall|j: int| 0 <= j < i ==> valid_code(arg_types@[j]),
        decreases n - i,
    {
        let code = arg_types[i];
        if let Err(e) = descriptor_for(code) {
            proof {
                lemma_first_invalid(arg_types@, i as int);
            }
            return Err(e);
        }
        i = i + 1;
    }
    proof {
        lemma_first_invalid(arg_types@, n as int);
    }
    if let Err(e) = descriptor_for(return_type) {
        return Err(e);
    }
    Ok(CallSpec { arg_types, return_type, pointer })
}

/// What one invocation hands the native call site once every check has
/// passed: the marshaled argument cells in declaration order, the return
/// type code, and the target address. Built entirely before the call, so a
/// failed check can never leave a partial native call behind.
#[derive(Debug, Clone, PartialEq, Eq)]
pub struct PreparedCall {
    pub cells: Vec<ArgCell>,
    pub return_type: char,
    pub pointer: u64,
}

/// The model of the checked half of an invocation: the arity test first,
/// then each argument marshaled in declaration order, stopping at the first
/// failure.
pub open spec fn spec_prepare(types: Seq<char>, args: Seq<DynValue>) -> Result<
    Seq<CellModel>,
    FfiError,
>
    decreases types.len(),
{
    if types.len() != args.len() {
        Err(FfiError::ArityMismatch { expected: types.len() as usize, got: args.len() as usize })
    } else if types.len() == 0 {
        Ok(Seq::empty())
    } else {
        match spec_marshal(types[0], args[0]) {
            Err(e) => Err(e),
            Ok(m) => match spec_prepare(types.skip(1), args.skip(1)) {
                Err(e) => Err(e),
                Ok(rest) => Ok(seq![m] + rest),
            },
        }
    }
}

/// The model of the return side of an invocation: the native return cell,
/// read back per the declared return code. Signed integer codes sign-extend,
/// unsigned ones zero-extend, floating codes yield the bit pattern at the
/// declared precision, pointer codes yield a raw address. A cell of the
/// wrong width, or an extended-precision return, is a `ConversionError`.
pub open spec fn spec_unmarshal(code: char, bytes: Seq<u8>) -> Result<DynValue, FfiError> {
    if !valid_code(code) {
        Err(FfiError::UnknownTypeCode { code })
    } else {
        let d = spec_descriptor(code).unwrap();
        if bytes.len() != d.size {
            Err(FfiError::ConversionError { code })
        } else {
            let u = le_val_of(bytes);
            match int_layout(d.tag) {
                Some(layout) => if layout.1 {
                    Ok(DynValue::Int(from_unsigned(u, layout.0) as i128))
                } else {
                    Ok(DynValue::Int(u as i128))
                },
                None => match d.tag {
                    CallTag::Float => Ok(DynValue::F32Bits(u as u32)),
                    CallTag::Double => Ok(DynValue::F64Bits(u as u64)),
                    CallTag::Pointer => Ok(DynValue::Ptr(u as u64)),
                    _ => Err(FfiError::ConversionError { code }),
                },
            }
        }
    }
}

/// The number of values a cell of this size can hold; the sizes are those
/// the descriptor table uses.
fn cell_limit(size: usize) -> (r: u128)
    requires
        size == 1 || size == 2 || size == 4 || size == 8,
    ensures
        r as nat == pow256(size as nat),
        r <= 0x10000000000000000u128,
{
    proof {
        reveal_with_fuel(pow256, 9);
    }
    if size == 1 {
        256
    } else if size == 2 {
        65536
    } else if size == 4 {
        4294967296
    } else {
        18446744073709551616
    }
}

/// Read a native return cell back as a dynamic value, exactly as
/// [`spec_unmarshal`] states.
pub fn unmarshal_ret(code: char, bytes: &[u8]) -> (r: Result<DynValue, FfiError>)
    ensures
        r == spec_unmarshal(code, bytes@),
{
    let d = match descriptor_for(code) {
        Ok(d) => d,
        Err(e) => {
            return Err(e);
        },
    };
    if bytes.len() != d.size {
        return Err(FfiError::ConversionError { code });
    }
    proof {
        lemma_le_val_bound(bytes@);
    }
    match d.tag {
        CallTag::SignedChar => Ok(unmarshal_signed(bytes, 1)),
        CallTag::UnsignedChar => Ok(unmarshal_unsigned(bytes)),
        CallTag::SignedShort => Ok(unmarshal_signed(bytes, 2)),
        CallTag::UnsignedShort => Ok(unmarshal_unsigned(bytes)),
        CallTag::SignedInt => Ok(unmarshal_signed(bytes, 4)),
        CallTag::UnsignedInt => Ok(unmarshal_unsigned(bytes)),
        CallTag::SignedLong => Ok(unmarshal_signed(bytes, 8)),
        CallTag::UnsignedLong => Ok(unmarshal_unsigned(bytes)),
        CallTag::SignedLongLong => Ok(unmarshal_signed(bytes, 8)),
        CallTag::UnsignedLongLong => Ok(unmarshal_unsigned(bytes)),
        CallTag::Float => {
            let u = crate::codec::le_decode(bytes);
            proof {
                reveal_with_fuel(pow256, 9);
            }
            Ok(DynValue::F32Bits(u as u32))
        },
        CallTag::Double => {
            let u = crate::codec::le_decode(bytes);
            proof {
                reveal_with_fuel(pow256, 9);
            }
            Ok(DynValue::F64Bits(u as u64))
        },
        CallTag::LongDouble => Err(FfiError::ConversionError { code }),
        CallTag::Pointer => {
            let u = crate::codec::le_decode(bytes);
            proof {
                reveal_with_fuel(pow256, 9);
            }
            Ok(DynValue::Ptr(u as u64))
        },
    }
}

/// Sign-extending read of an integer return cell.
fn unmarshal_signed(bytes: &[u8], size: usize) -> (r: DynValue)
    requires
        bytes@.len() == size,
        size == 1 || size == 2 || size == 4 || size == 8,
    ensures
        r == DynValue::Int(from_unsigned(le_val_of(bytes@), size as nat) as i128),
{
    let u = crate::codec::le_decode(bytes);
    let limit = cell_limit(size);
    proof {
        lemma_le_val_bound(bytes@);
    }
    if u >= limit / 2 {
        DynValue::Int(u as i128 - limit as i128)
    } else {
        DynValue::Int(u as i128)
    }
}

/// Zero-extending read of an integer return cell.
fn unmarshal_unsigned(bytes: &[u8]) -> (r: DynValue)
    requires
        bytes@.len() <= 16,
    ensures
        r == DynValue::Int(le_val_of(bytes@) as i128),
{
    let u = crate::codec::le_decode(bytes);
    proof {
        lemma_le_val_bound(bytes@);
        crate::codec::lemma_pow256_mono(bytes@.len(), 16);
        reveal_with_fuel(pow256, 17);
    }
    DynValue::Int(u as i128)
}

/// The return type a callable gets when none is declared: the opaque-pointer
/// code.
pub const DEFAULT_RETURN_TYPE: char = 'P';

/// The declared callable: a validated call description with the declaration
/// surface the embedding runtime drives (set the argument types, set the
/// return type), and the two checked halves of an invocation around the
/// native call itself.
#[derive(Debug)]
pub struct Function {
    call_spec: CallSpec,
}

impl Function {
    /// The declared argument type codes, in order.
    pub closed spec fn types(&self) -> Seq<char> {
        self.call_spec.arg_types@
    }

    /// The declared return type code.
    pub closed spec fn ret(&self) -> char {
        self.call_spec.return_type
    }

    /// The target function address.
    pub closed spec fn ptr(&self) -> u64 {
        self.call_spec.pointer
    }

    pub open spec fn wf(&self) -> bool {
        &&& forall|i: int| 0 <= i < self.types().len() ==> valid_code(self.types()[i])
        &&& valid_code(self.ret())
    }

    /// Declare a callable at `fn_ptr` with the given argument and return type
    /// codes; every code is validated up front.
    pub fn new(fn_ptr: u64, arguments: Vec<char>, return_type: char) -> (r: Result<
        Function,
        FfiError,
    >)
        ensures
            first_invalid(arguments@) matches Some(c) ==> r == Err::<Function, FfiError>(
                FfiError::UnknownTypeCode { code: c },
            ),
            first_invalid(arguments@) is None && !valid_code(return_type) ==> r == Err::<
                Function,
                FfiError,
            >(FfiError::UnknownTypeCode { code: return_type }),
            first_invalid(arguments@) is None && valid_code(return_type) ==> (r matches Ok(f)
                && f.types() == arguments@ && f.ret() == return_type && f.ptr() == fn_ptr
                && f.wf()),
    {
        match build(arguments, return_type, fn_ptr) {
            Ok(cs) => Ok(Function { call_spec: cs }),
            Err(e) => Err(e),
        }
    }

    /// Declare a callable whose return type was left absent: it defaults to
    /// the opaque-pointer code.
    pub fn new_with_default_return(fn_ptr: u64, arguments: Vec<char>) -> (r: Result<
        Function,
        FfiError,
    >)
        ensures
            first_invalid(arguments@) matches Some(c) ==> r == Err::<Function, FfiError>(
                FfiError::UnknownTypeCode { code: c },
            ),
            first_invalid(arguments@) is None ==> (r matches Ok(f) && f.types() == arguments@
                && f.ret() == DEFAULT_RETURN_TYPE && f.ptr() == fn_ptr && f.wf()),
    {
        Function::new(fn_ptr, arguments, DEFAULT_RETURN_TYPE)
    }

    /// Redeclare the argument types; the call description is rebuilt, and on
    /// an unknown code the declaration is left as it was.
    pub fn set_args(&mut self, args: Vec<char>) -> (r: Result<(), FfiError>)
        ensures
            first_invalid(args@) matches Some(c) ==> r == Err::<(), FfiError>(
                FfiError::UnknownTypeCode { code: c },
            ) && *final(self) == *old(self),
            first_invalid(args@) is None ==> r == Ok::<(), FfiError>(()) && final(self).types()
                == args@ && final(self).ret() == old(self).ret() && final(self).ptr() == old(self).ptr(),
    {
        let n = args.len();
        let mut i: usize = 0;
        while i < n
            invariant
                i <= n,
                n == args@.len(),
                forall|j: int| 0 <= j < i ==> valid_code(args@[j]),
            decreases n - i,
        {
            if let Err(e) = descriptor_for(args[i]) {
                proof {
                    lemma_first_invalid(args@, i as int);
                }
                return Err(e);
            }
            i = i + 1;
        }
        proof {
            lemma_first_invalid(args@, n as int);
        }
        self.call_spec.arg_types = args;
        Ok(())
    }

    /// Redeclare the return type; on an unknown code the declaration is left
    /// as it was.
    pub fn set_ret(&mut self, ret: char) -> (r: Result<(), FfiError>)
        ensures
            !valid_code(ret) ==> r == Err::<(), FfiError>(FfiError::UnknownTypeCode { code: ret })
                && *final(self) == *old(self),
            valid_code(ret) ==> r == Ok::<(), FfiError>(()) && final(self).ret() == ret && final(self).types() == old(self).types() && final(self).ptr() == old(self).ptr(),
    {
        if let Err(e) = descriptor_for(ret) {
            return Err(e);
        }
        self.call_spec.return_type = ret;
        Ok(())
    }

    pub fn arg_count(&self) -> (r: usize)
        ensures
            r == self.types().len(),
    {
        self.call_spec.arg_types.len()
    }

    pub fn return_type(&self) -> (r: char)
        ensures
            r == self.ret(),
    {
        self.call_spec.return_type
    }

    pub fn pointer(&self) -> (r: u64)
        ensures
            r == self.ptr(),
    {
        self.call_spec.pointer
    }

    /// The checked half of an invocation, before any native effect: validate
    /// the arity, then marshal every argument in declaration order. A
    /// mismatched arity is an `ArityMismatch` and a value that does not fit
    /// its declared type stops the invocation at the first offender; in
    /// either case nothing is handed to the native call site.
    pub fn prepare_call(&self, args: &Vec<DynValue>) -> (r: Result<PreparedCall, FfiError>)
        ensures
            args@.len() != self.types().len() ==> r == Err::<PreparedCall, FfiError>(
                FfiError::ArityMismatch {
                    expected: self.types().len() as usize,
                    got: args@.len() as usize,
                },
            ),
            spec_prepare(self.types(), args@) matches Err(e) ==> r == Err::<PreparedCall, FfiError>(
                e,
            ),
            spec_prepare(self.types(), args@) matches Ok(ms) ==> (r matches Ok(p) && p.cells@.len()
                == ms.len() && (forall|i: int|
                0 <= i < ms.len() ==> cell_model(#[trigger] p.cells@[i]) == ms[i])
                && p.return_type == self.ret() && p.pointer == self.ptr()),
    {
        let n = self.call_spec.arg_types.len();
        if args.len() != n {
            return Err(FfiError::ArityMismatch { expected: n, got: args.len() });
        }
        let ghost types = self.types();
        let mut cells: Vec<ArgCell> = Vec::new();
        let mut i: usize = 0;
        proof {
            assert(types.skip(0) =~= types);
            assert(args@.skip(0) =~= args@);
        }
        while i < n
            invariant
                i <= n,
                n == types.len() == args@.len(),
                types == self.types(),
                cells@.len() == i,
                spec_prepare(types, args@) matches Ok(ms) ==> spec_prepare(
                    types.skip(i as int),
                    args@.skip(i as int),
                ) matches Ok(rest) && ms =~= cells@.map_values(|c: ArgCell| cell_model(c)) + rest,
                spec_prepare(types.skip(i as int), args@.skip(i as int)) matches Err(e)
                    ==> spec_prepare(types, args@) == Err::<Seq<CellModel>, FfiError>(e),
                spec_prepare(types, args@) is Err ==> spec_prepare(
                    types.skip(i as int),
                    args@.skip(i as int),
                ) is Err,
                forall|j: int|
                    0 <= j < i ==> (spec_marshal(types[j], args@[j]) matches Ok(m) && cell_model(
                        #[trigger] cells@[j],
                    ) == m),
            decreases n - i,
        {
            let ghost pre_suffix_t = types.skip(i as int);
            let ghost pre_suffix_a = args@.skip(i as int);
            proof {
                assert(pre_suffix_t[0] == types[i as int]);
                assert(pre_suffix_a[0] == args@[i as int]);
                assert(pre_suffix_t.skip(1) =~= types.skip(i + 1));
                assert(pre_suffix_a.skip(1) =~= args@.skip(i + 1));
            }
            match marshal_arg(self.call_spec.arg_types[i], &args[i]) {
                Ok(c) => {
                    cells.push(c);
                    proof {
                        if spec_prepare(types, args@) is Ok {
                            let ms = spec_prepare(types, args@)->Ok_0;
                            assert(ms =~= cells@.map_values(|c: ArgCell| cell_model(c))
                                + spec_prepare(types.skip(i + 1), args@.skip(i + 1)).unwrap());
                        }
                    }
                },
                Err(e) => {
                    return Err(e);
                },
            }
            i = i + 1;
        }
        proof {
            assert(types.skip(n as int) =~= Seq::<char>::empty());
            assert(args@.skip(n as int) =~= Seq::<DynValue>::empty());
            if spec_prepare(types, args@) is Ok {
                let ms = spec_prepare(types, args@)->Ok_0;
                assert(ms =~= cells@.map_values(|c: ArgCell| cell_model(c)));
                assert forall|j: int| 0 <= j < ms.len() implies cell_model(#[trigger] cells@[j])
                    == ms[j] by {
                    assert(cells@.map_values(|c: ArgCell| cell_model(c))[j] == cell_model(
                        cells@[j],
                    ));
                }
            }
        }
        Ok(
            PreparedCall {
                cells,
                return_type: self.call_spec.return_type,
                pointer: self.call_spec.pointer,
            },
        )
    }

    /// The checked half of an invocation after the native call: read the
    /// return cell back per the declared return type.
    pub fn finish_call(&self, ret_bytes: &[u8]) -> (r: Result<DynValue, FfiError>)
        ensures
            r == spec_unmarshal(self.ret(), ret_bytes@),
    {
        unmarshal_ret(self.call_spec.return_type, ret_bytes)
    }
}


/// Law: marshaling never loses integer information. A value accepted into an
/// integer cell of its declared code reads back from that cell as the same
/// value: the range check before the call and the sign/zero extension after
/// it are exact inverses through the cell image.
pub proof fn lemma_int_cell_round_trip(code: char, x: i128)
    requires
        valid_code(code),
        int_layout(spec_descriptor(code).unwrap().tag) is Some,
        spec_marshal(code, DynValue::Int(x)) is Ok,
    ensures
        ({
            let m = spec_marshal(code, DynValue::Int(x))->Ok_0;
            &&& m matches CellModel::Scalar { size, bytes }
            &&& spec_unmarshal(code, m->Scalar_bytes) == Ok::<DynValue, FfiError>(DynValue::Int(x))
        }),
{
    let d = spec_descriptor(code).unwrap();
    let layout = int_layout(d.tag).unwrap();
    let size = layout.0;
    let signed = layout.1;
    let u = to_unsigned(x as int, size);
    crate::codec::lemma_pow256_pos(size);
    assert(u < pow256(size));
    crate::codec::lemma_le_bytes_len(u, size);
    crate::codec::lemma_le_roundtrip(u, size);
    assert(d.size == size);
    if signed {
        if x >= 0 {
            assert(from_unsigned(u, size) == x as int);
        } else {
            assert(2 * u >= pow256(size));
            assert(from_unsigned(u, size) == x as int);
        }
    }
}

} // verus!
