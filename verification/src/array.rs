use vstd::prelude::*;

use crate::buffer::{wide_bytes_of, wide_units_of, zero_prefix_len, DataBuffer};
use crate::descriptor::{descriptor_for, spec_descriptor, valid_code};
use crate::error::FfiError;

verus! {

/// The closed set of foreign-data shapes the buffer-backed object model
/// distinguishes; matching on it is always exhaustive.
#[derive(Debug, Clone, Copy, PartialEq, Eq, Structural)]
pub enum DataKind {
    Simple,
    Array,
    Pointer,
}

/// A buffer-backed foreign data object: the common representation of every
/// foreign value. It pairs a shape tag and the type code of its (element)
/// type with the owned byte region holding the native representation.
#[derive(Debug)]
pub struct CDataObject {
    kind: DataKind,
    code: char,
    buffer: DataBuffer,
}

impl CDataObject {
    pub closed spec fn spec_kind(&self) -> DataKind {
        self.kind
    }

    pub closed spec fn spec_code(&self) -> char {
        self.code
    }

    pub closed spec fn spec_bytes_of(&self) -> Seq<u8> {
        self.buffer@
    }

    pub fn kind(&self) -> (r: DataKind)
        ensures
            r == self.spec_kind(),
    {
        self.kind
    }

    pub fn code(&self) -> (r: char)
        ensures
            r == self.spec_code(),
    {
        self.code
    }
}

/// Construct a fresh simple foreign data object of the given type code: a
/// zero-initialized buffer of exactly the code's native size. An unknown
/// code is rejected at declaration time.
pub fn generic_pycdata_new(code: char) -> (r: Result<CDataObject, FfiError>)
    ensures
        !valid_code(code) ==> r == Err::<CDataObject, FfiError>(FfiError::UnknownTypeCode { code }),
        valid_code(code) ==> (r matches Ok(o) && o.spec_kind() == DataKind::Simple && o.spec_code()
            == code && o.spec_bytes_of().len() == spec_descriptor(code).unwrap().size && (forall|
            j: int,
        | 0 <= j < o.spec_bytes_of().len() ==> o.spec_bytes_of()[j] == 0u8)),
{
    let d = match descriptor_for(code) {
        Ok(d) => d,
        Err(e) => {
            return Err(e);
        },
    };
    Ok(CDataObject { kind: DataKind::Simple, code, buffer: DataBuffer::allocate(d.size) })
}

/// A text value crossing the array's `value` property: a byte string for
/// byte-character arrays, 4-byte code units for wide-character arrays.
#[derive(Debug, Clone, PartialEq, Eq)]
pub enum TextUnits {
    Bytes(Vec<u8>),
    Wide(Vec<u32>),
}

/// A fixed-length foreign array: the element type code, the element count
/// fixed at construction, and the owned buffer of exactly
/// `length * element size` bytes.
#[derive(Debug)]
pub struct PyCArray {
    _type_: char,
    _length_: usize,
    buffer: DataBuffer,
}

impl View for PyCArray {
    type V = Seq<u8>;

    closed spec fn view(&self) -> Seq<u8> {
        self.buffer@
    }
}

impl PyCArray {
    /// The element type code.
    pub closed spec fn spec_type(&self) -> char {
        self._type_
    }

    /// The fixed element count.
    pub closed spec fn spec_length(&self) -> nat {
        self._length_ as nat
    }

    /// The buffer is exactly `length` elements of the declared code's size.
    pub open spec fn wf(&self) -> bool {
        &&& valid_code(self.spec_type())
        &&& self@.len() == self.spec_length() * spec_descriptor(self.spec_type()).unwrap().size
    }

    pub fn element_type(&self) -> (r: char)
        ensures
            r == self.spec_type(),
    {
        self._type_
    }

    pub fn length(&self) -> (r: usize)
        ensures
            r == self.spec_length(),
    {
        self._length_
    }

    /// Reset the array to its freshly constructed state: every byte zero.
    /// The element type and length are fixed and stay.
    pub fn init(&mut self)
        ensures
            final(self).spec_type() == old(self).spec_type(),
            final(self).spec_length() == old(self).spec_length(),
            final(self)@ == Seq::new(old(self)@.len(), |i: int| 0u8),
    {
        let r = self.buffer.write_value_bytes(&[]);
        proof {
            assert(Seq::<u8>::empty() + Seq::new(old(self)@.len(), |i: int| 0u8) =~= Seq::new(
                old(self)@.len(),
                |i: int| 0u8,
            ));
        }
    }

    /// The text `value` of a character array: bytes up to the first zero
    /// byte for byte-character arrays, 4-byte code units up to the first
    /// zero unit for wide-character arrays. Arrays of any other element type
    /// have no text value.
    pub fn value(&self) -> (r: Result<TextUnits, FfiError>)
        ensures
            self.spec_type() == 'c' ==> (r matches Ok(TextUnits::Bytes(b)) && b@ == self@.take(
                zero_prefix_len(self@, 0u8),
            )),
            self.spec_type() == 'u' ==> (r matches Ok(TextUnits::Wide(w)) && w@ == wide_units_of(
                self@,
            ).take(zero_prefix_len(wide_units_of(self@), 0u32))),
            self.spec_type() != 'c' && self.spec_type() != 'u' ==> r == Err::<TextUnits, FfiError>(
                FfiError::ConversionError { code: self.spec_type() },
            ),
    {
        if self._type_ == 'c' {
            Ok(TextUnits::Bytes(self.buffer.read_value_bytes()))
        } else if self._type_ == 'u' {
            Ok(TextUnits::Wide(self.buffer.read_value_wide()))
        } else {
            Err(FfiError::ConversionError { code: self._type_ })
        }
    }

    /// Write the text `value` of a character array: the text is encoded into
    /// the buffer from offset 0 and the remainder is zero-padded; a text
    /// whose encoding exceeds the buffer fails with `ValueTooLong` and
    /// leaves the buffer unmodified, as does a text value whose kind does
    /// not match the element type.
    pub fn set_value(&mut self, value: &TextUnits) -> (r: Result<(), FfiError>)
        ensures
            final(self).spec_type() == old(self).spec_type(),
            final(self).spec_length() == old(self).spec_length(),
            old(self).spec_type() == 'c' && (value matches TextUnits::Bytes(b)) ==> ({
                let b = value->Bytes_0;
                &&& b@.len() <= old(self)@.len() ==> r == Ok::<(), FfiError>(()) && final(self)@
                    =~= b@ + Seq::new((old(self)@.len() - b@.len()) as nat, |i: int| 0u8)
                &&& b@.len() > old(self)@.len() ==> r == Err::<(), FfiError>(
                    FfiError::ValueTooLong {
                        wanted: b@.len() as usize,
                        capacity: old(self)@.len() as usize,
                    },
                ) && final(self)@ == old(self)@
            }),
            old(self).spec_type() == 'u' && (value matches TextUnits::Wide(w)) ==> ({
                let w = value->Wide_0;
                &&& 4 * w@.len() <= old(self)@.len() ==> r == Ok::<(), FfiError>(()) && final(self)@ =~= wide_bytes_of(w@) + Seq::new(
                    (old(self)@.len() - 4 * w@.len()) as nat,
                    |i: int| 0u8,
                )
                &&& 4 * w@.len() > old(self)@.len() ==> r == Err::<(), FfiError>(
                    FfiError::ValueTooLong {
                        wanted: w@.len() as usize,
                        capacity: (old(self)@.len() / 4) as usize,
                    },
                ) && final(self)@ == old(self)@
            }),
            !(old(self).spec_type() == 'c' && value matches TextUnits::Bytes(b)) && !(old(self).spec_type() == 'u' && value matches TextUnits::Wide(w)) ==> r == Err::<(), FfiError>(
                FfiError::ConversionError { code: old(self).spec_type() },
            ) && final(self)@ == old(self)@,
    {
        if self._type_ == 'c' {
            match value {
                TextUnits::Bytes(b) => self.buffer.write_value_bytes(b.as_slice()),
                _ => Err(FfiError::ConversionError { code: self._type_ }),
            }
        } else if self._type_ == 'u' {
            match value {
                TextUnits::Wide(w) => self.buffer.write_value_wide(w.as_slice()),
                _ => Err(FfiError::ConversionError { code: self._type_ }),
            }
        } else {
            Err(FfiError::ConversionError { code: self._type_ })
        }
    }

    /// The `raw` property, read: the buffer's full contents, with no
    /// truncation at zero bytes.
    pub fn raw(&self) -> (r: Vec<u8>)
        ensures
            r@ == self@,
    {
        self.buffer.read_raw()
    }

    /// The `raw` property, written: fails with `ValueTooLong` (buffer
    /// unmodified) when the source is longer than the buffer, else
    /// overwrites from offset 0 and leaves the remaining bytes untouched.
    pub fn set_raw(&mut self, data: &[u8]) -> (r: Result<(), FfiError>)
        ensures
            final(self).spec_type() == old(self).spec_type(),
            final(self).spec_length() == old(self).spec_length(),
            data@.len() <= old(self)@.len() ==> r == Ok::<(), FfiError>(()) && final(self)@ =~= data@
                + old(self)@.skip(data@.len() as int),
            data@.len() > old(self)@.len() ==> r == Err::<(), FfiError>(
                FfiError::ValueTooLong {
                    wanted: data@.len() as usize,
                    capacity: old(self)@.len() as usize,
                },
            ) && final(self)@ == old(self)@,
    {
        self.buffer.write_raw(data)
    }
}

/// Construct a foreign array of `length` elements of the given element type
/// code: a zero-initialized buffer of exactly `length` times the element's
/// native size. An unknown code is a declaration error, and so is a length
/// whose byte size overflows the address space.
pub fn make_array_with_lenght(element_type: char, length: usize) -> (r: Result<PyCArray, FfiError>)
    ensures
        !valid_code(element_type) ==> r == Err::<PyCArray, FfiError>(
            FfiError::UnknownTypeCode { code: element_type },
        ),
        valid_code(element_type) && length * spec_descriptor(element_type).unwrap().size
            > usize::MAX ==> r == Err::<PyCArray, FfiError>(
            FfiError::ConversionError { code: element_type },
        ),
        valid_code(element_type) && length * spec_descriptor(element_type).unwrap().size
            <= usize::MAX ==> (r matches Ok(a) && a.wf() && a.spec_type() == element_type
            && a.spec_length() == length && a@.len() == length * spec_descriptor(
            element_type,
        ).unwrap().size && (forall|j: int| 0 <= j < a@.len() ==> a@[j] == 0u8)),
{
    let d = match descriptor_for(element_type) {
        Ok(d) => d,
        Err(e) => {
            return Err(e);
        },
    };
    proof {
        assert(d.size >= 1);
    }
    if length > usize::MAX / d.size {
        proof {
            let size = d.size as int;
            let len = length as int;
            let max = usize::MAX as int;
            assert(len * size > max) by (nonlinear_arith)
                requires
                    len > max / size,
                    size > 0,
                    max >= 0,
            ;
        }
        return Err(FfiError::ConversionError { code: element_type });
    }
    let total = length * d.size;
    proof {
        let size = d.size as int;
        let len = length as int;
        let max = usize::MAX as int;
        assert(len * size <= max) by (nonlinear_arith)
            requires
                len <= max / size,
                size > 0,
                max >= 0,
        ;
    }
    Ok(PyCArray { _type_: element_type, _length_: length, buffer: DataBuffer::allocate(total) })
}

/// Buffer access shared by every buffer-backed foreign value.
pub trait PyCDataBuffer {
    /// The bytes the value's buffer holds.
    spec fn spec_obj_bytes(&self) -> Seq<u8>;

    /// The buffer's fixed length.
    fn buffer_len(&self) -> (r: usize)
        ensures
            r == self.spec_obj_bytes().len(),
    ;

    /// A copy of the buffer's contents.
    fn obj_bytes(&self) -> (r: Vec<u8>)
        ensures
            r@ == self.spec_obj_bytes(),
    ;

    /// Drop the byte region; idempotent.
    fn release(&mut self)
        ensures
            final(self).spec_obj_bytes() == Seq::<u8>::empty(),
    ;
}

impl PyCDataBuffer for PyCArray {
    open spec fn spec_obj_bytes(&self) -> Seq<u8> {
        self@
    }

    fn buffer_len(&self) -> (r: usize)
        ensures
            r == self.spec_obj_bytes().len(),
    {
        self.buffer.len()
    }

    fn obj_bytes(&self) -> (r: Vec<u8>)
        ensures
            r@ == self.spec_obj_bytes(),
    {
        self.buffer.read_raw()
    }

    fn release(&mut self)
        ensures
            final(self).spec_obj_bytes() == Seq::<u8>::empty(),
    {
        self.buffer.release()
    }
}

impl PyCDataBuffer for CDataObject {
    open spec fn spec_obj_bytes(&self) -> Seq<u8> {
        self.spec_bytes_of()
    }

    fn buffer_len(&self) -> (r: usize)
        ensures
            r == self.spec_obj_bytes().len(),
    {
        self.buffer.len()
    }

    fn obj_bytes(&self) -> (r: Vec<u8>)
        ensures
            r@ == self.spec_obj_bytes(),
    {
        self.buffer.read_raw()
    }

    fn release(&mut self)
        ensures
            final(self).spec_obj_bytes() == Seq::<u8>::empty(),
    {
        self.buffer.release()
    }
}

/// The sequence protocol hook shared by array-like foreign data; repetition
/// builds a new array of the same element type.
pub trait PyCDataSequenceMethods {
    /// The element type code the repetition would use.
    fn repeat_element_type(&self) -> char;

    /// A fresh array of `count` elements of this value's element type, as
    /// the sequence-repetition protocol produces it.
    fn repeat(&self, count: usize) -> Result<PyCArray, FfiError>;
}

impl PyCDataSequenceMethods for PyCArray {
    fn repeat_element_type(&self) -> (r: char)
        ensures
            r == self.spec_type(),
    {
        self._type_
    }

    fn repeat(&self, count: usize) -> (r: Result<PyCArray, FfiError>)
        ensures
            !valid_code(self.spec_type()) ==> r == Err::<PyCArray, FfiError>(
                FfiError::UnknownTypeCode { code: self.spec_type() },
            ),
            valid_code(self.spec_type()) && count * spec_descriptor(self.spec_type()).unwrap().size
                > usize::MAX ==> r == Err::<PyCArray, FfiError>(
                FfiError::ConversionError { code: self.spec_type() },
            ),
            valid_code(self.spec_type()) && count * spec_descriptor(self.spec_type()).unwrap().size
                <= usize::MAX ==> (r matches Ok(a) && a.wf() && a.spec_type() == self.spec_type()
                && a.spec_length() == count && a@.len() == count * spec_descriptor(
                self.spec_type(),
            ).unwrap().size && (forall|j: int| 0 <= j < a@.len() ==> a@[j] == 0u8)),
    {
        make_array_with_lenght(self._type_, count)
    }
}

} // verus!
