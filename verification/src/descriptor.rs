use vstd::prelude::*;

use crate::error::FfiError;

verus! {

/// The one-character type codes this layer accepts, in one string. Each code
/// maps to exactly one native size/alignment/call-tag triple; see
/// [`descriptor_for`].
pub const SIMPLE_TYPE_CHARS: &'static str = "cbBhHiIlLdfuzZqQP?g";

/// The tag handed to the native call mechanism for one type code. It fixes
/// the width and signedness (or the floating / pointer nature) of one
/// argument or return slot.
#[derive(Debug, Clone, Copy, PartialEq, Eq, Structural)]
pub enum CallTag {
    SignedChar,
    UnsignedChar,
    SignedShort,
    UnsignedShort,
    SignedInt,
    UnsignedInt,
    SignedLong,
    UnsignedLong,
    SignedLongLong,
    UnsignedLongLong,
    Float,
    Double,
    LongDouble,
    Pointer,
}

/// Native storage layout and call tag of one type code: how many bytes a
/// value of that code occupies, how it is aligned, and how it is passed
/// through a native call.
#[derive(Debug, Clone, Copy, PartialEq, Eq, Structural)]
pub struct TypeDescriptor {
    pub size: usize,
    pub align: usize,
    pub tag: CallTag,
}

/// The full descriptor table, as a specification. The sizes are those of the
/// LP64 data model used by this platform: `int` is 4 bytes, `long` and
/// pointers are 8, the wide character is 4, and the extended float is 16.
/// Codes outside the alphabet map to `None`: there is no default type.
pub open spec fn spec_descriptor(code: char) -> Option<TypeDescriptor> {
    match code {
        'c' => Some(TypeDescriptor { size: 1, align: 1, tag: CallTag::SignedChar }),
        'b' => Some(TypeDescriptor { size: 1, align: 1, tag: CallTag::SignedChar }),
        'B' => Some(TypeDescriptor { size: 1, align: 1, tag: CallTag::UnsignedChar }),
        '?' => Some(TypeDescriptor { size: 1, align: 1, tag: CallTag::UnsignedChar }),
        'h' => Some(TypeDescriptor { size: 2, align: 2, tag: CallTag::SignedShort }),
        'H' => Some(TypeDescriptor { size: 2, align: 2, tag: CallTag::UnsignedShort }),
        'i' => Some(TypeDescriptor { size: 4, align: 4, tag: CallTag::SignedInt }),
        'I' => Some(TypeDescriptor { size: 4, align: 4, tag: CallTag::UnsignedInt }),
        'l' => Some(TypeDescriptor { size: 8, align: 8, tag: CallTag::SignedLong }),
        'L' => Some(TypeDescriptor { size: 8, align: 8, tag: CallTag::UnsignedLong }),
        'q' => Some(TypeDescriptor { size: 8, align: 8, tag: CallTag::SignedLongLong }),
        'Q' => Some(TypeDescriptor { size: 8, align: 8, tag: CallTag::UnsignedLongLong }),
        'f' => Some(TypeDescriptor { size: 4, align: 4, tag: CallTag::Float }),
        'd' => Some(TypeDescriptor { size: 8, align: 8, tag: CallTag::Double }),
        'g' => Some(TypeDescriptor { size: 16, align: 16, tag: CallTag::LongDouble }),
        'u' => Some(TypeDescriptor { size: 4, align: 4, tag: CallTag::SignedInt }),
        'z' => Some(TypeDescriptor { size: 8, align: 8, tag: CallTag::Pointer }),
        'Z' => Some(TypeDescriptor { size: 8, align: 8, tag: CallTag::Pointer }),
        'P' => Some(TypeDescriptor { size: 8, align: 8, tag: CallTag::Pointer }),
        _ => None,
    }
}

/// A code is valid exactly when the table maps it to a descriptor.
pub open spec fn valid_code(code: char) -> bool {
    spec_descriptor(code) is Some
}

/// Look a type code up in the registry. A pure function of the code: valid
/// codes yield their one descriptor, every other character is rejected with
/// `UnknownTypeCode` - never silently defaulted to some other type.
pub fn descriptor_for(code: char) -> (r: Result<TypeDescriptor, FfiError>)
    ensures
        valid_code(code) ==> r == Ok::<TypeDescriptor, FfiError>(spec_descriptor(code).unwrap()),
        !valid_code(code) ==> r == Err::<TypeDescriptor, FfiError>(
            FfiError::UnknownTypeCode { code },
        ),
{
    match code {
        'c' => Ok(TypeDescriptor { size: 1, align: 1, tag: CallTag::SignedChar }),
        'b' => Ok(TypeDescriptor { size: 1, align: 1, tag: CallTag::SignedChar }),
        'B' => Ok(TypeDescriptor { size: 1, align: 1, tag: CallTag::UnsignedChar }),
        '?' => Ok(TypeDescriptor { size: 1, align: 1, tag: CallTag::UnsignedChar }),
        'h' => Ok(TypeDescriptor { size: 2, align: 2, tag: CallTag::SignedShort }),
        'H' => Ok(TypeDescriptor { size: 2, align: 2, tag: CallTag::UnsignedShort }),
        'i' => Ok(TypeDescriptor { size: 4, align: 4, tag: CallTag::SignedInt }),
        'I' => Ok(TypeDescriptor { size: 4, align: 4, tag: CallTag::UnsignedInt }),
        'l' => Ok(TypeDescriptor { size: 8, align: 8, tag: CallTag::SignedLong }),
        'L' => Ok(TypeDescriptor { size: 8, align: 8, tag: CallTag::UnsignedLong }),
        'q' => Ok(TypeDescriptor { size: 8, align: 8, tag: CallTag::SignedLongLong }),
        'Q' => Ok(TypeDescriptor { size: 8, align: 8, tag: CallTag::UnsignedLongLong }),
        'f' => Ok(TypeDescriptor { size: 4, align: 4, tag: CallTag::Float }),
        'd' => Ok(TypeDescriptor { size: 8, align: 8, tag: CallTag::Double }),
        'g' => Ok(TypeDescriptor { size: 16, align: 16, tag: CallTag::LongDouble }),
        'u' => Ok(TypeDescriptor { size: 4, align: 4, tag: CallTag::SignedInt }),
        'z' => Ok(TypeDescriptor { size: 8, align: 8, tag: CallTag::Pointer }),
        'Z' => Ok(TypeDescriptor { size: 8, align: 8, tag: CallTag::Pointer }),
        'P' => Ok(TypeDescriptor { size: 8, align: 8, tag: CallTag::Pointer }),
        _ => Err(FfiError::UnknownTypeCode { code }),
    }
}

/// The native size of one element of the given code, as the buffer and array
/// constructors use it.
pub fn get_size(code: char) -> (r: Result<usize, FfiError>)
    ensures
        valid_code(code) ==> r == Ok::<usize, FfiError>(spec_descriptor(code).unwrap().size),
        !valid_code(code) ==> r == Err::<usize, FfiError>(FfiError::UnknownTypeCode { code }),
{
    match descriptor_for(code) {
        Ok(d) => Ok(d.size),
        Err(e) => Err(e),
    }
}

/// The alphabet constant and the descriptor table agree: a character is a
/// valid type code exactly when it occurs in `SIMPLE_TYPE_CHARS`.
pub proof fn lemma_alphabet_matches_table(code: char)
    ensures
        valid_code(code) <==> SIMPLE_TYPE_CHARS@.contains(code),
{
    reveal_strlit("cbBhHiIlLdfuzZqQP?g");
    if valid_code(code) {
        let s = SIMPLE_TYPE_CHARS@;
        if code == 'c' {
            assert(s[0] == 'c');
        } else if code == 'b' {
            assert(s[1] == 'b');
        } else if code == 'B' {
            assert(s[2] == 'B');
        } else if code == 'h' {
            assert(s[3] == 'h');
        } else if code == 'H' {
            assert(s[4] == 'H');
        } else if code == 'i' {
            assert(s[5] == 'i');
        } else if code == 'I' {
            assert(s[6] == 'I');
        } else if code == 'l' {
            assert(s[7] == 'l');
        } else if code == 'L' {
            assert(s[8] == 'L');
        } else if code == 'd' {
            assert(s[9] == 'd');
        } else if code == 'f' {
            assert(s[10] == 'f');
        } else if code == 'u' {
            assert(s[11] == 'u');
        } else if code == 'z' {
            assert(s[12] == 'z');
        } else if code == 'Z' {
            assert(s[13] == 'Z');
        } else if code == 'q' {
            assert(s[14] == 'q');
        } else if code == 'Q' {
            assert(s[15] == 'Q');
        } else if code == 'P' {
            assert(s[16] == 'P');
        } else if code == '?' {
            assert(s[17] == '?');
        } else {
            assert(code == 'g');
            assert(s[18] == 'g');
        }
    }
}

} // verus!
