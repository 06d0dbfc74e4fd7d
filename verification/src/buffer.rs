use vstd::prelude::*;

use crate::codec::{le_bytes_of, le_val_of, lemma_le_bytes_len, lemma_le_val_bound, pow256};
use crate::error::FfiError;

verus! {

/// Length of the prefix of `s` that holds no `zero` element: text decoding
/// stops at the first zero unit or at the end of the buffer.
pub open spec fn zero_prefix_len<T>(s: Seq<T>, zero: T) -> int
    decreases s.len(),
{
    if s.len() == 0 {
        0
    } else if s[0] == zero {
        0
    } else {
        1 + zero_prefix_len(s.skip(1), zero)
    }
}

pub proof fn lemma_zero_prefix_len<T>(s: Seq<T>, zero: T)
    ensures
        0 <= zero_prefix_len(s, zero) <= s.len(),
        forall|j: int| 0 <= j < zero_prefix_len(s, zero) ==> s[j] != zero,
        zero_prefix_len(s, zero) < s.len() ==> s[zero_prefix_len(s, zero)] == zero,
    decreases s.len(),
{
    if s.len() > 0 && s[0] != zero {
        lemma_zero_prefix_len(s.skip(1), zero);
        assert forall|j: int| 0 <= j < zero_prefix_len(s, zero) implies s[j] != zero by {
            if j > 0 {
                assert(s.skip(1)[j - 1] == s[j]);
            }
        }
        if zero_prefix_len(s, zero) < s.len() {
            assert(s.skip(1)[zero_prefix_len(s, zero) - 1] == s[zero_prefix_len(s, zero)]);
        }
    }
}

/// The zero-prefix length is pinned down by its two defining facts: no zero
/// before `k`, and a zero (or the end) at `k`.
pub proof fn lemma_zero_prefix_unique<T>(s: Seq<T>, zero: T, k: int)
    requires
        0 <= k <= s.len(),
        forall|j: int| 0 <= j < k ==> s[j] != zero,
        k < s.len() ==> s[k] == zero,
    ensures
        zero_prefix_len(s, zero) == k,
    decreases s.len(),
{
    if s.len() > 0 && k > 0 {
        assert forall|j: int| 0 <= j < k - 1 implies s.skip(1)[j] != zero by {
            assert(s.skip(1)[j] == s[j + 1]);
        }
        if k - 1 < s.skip(1).len() {
            assert(s.skip(1)[k - 1] == s[k]);
        }
        lemma_zero_prefix_unique(s.skip(1), zero, k - 1);
    }
}

/// The wide code units a byte region denotes: consecutive 4-byte groups read
/// as little-endian values. Bytes past the last complete group are ignored.
pub open spec fn wide_units_of(s: Seq<u8>) -> Seq<u32> {
    Seq::new((s.len() / 4) as nat, |i: int| le_val_of(s.subrange(4 * i, 4 * i + 4)) as u32)
}

/// The byte image of a sequence of wide code units, each written as a 4-byte
/// little-endian group.
pub open spec fn wide_bytes_of(units: Seq<u32>) -> Seq<u8>
    decreases units.len(),
{
    if units.len() == 0 {
        Seq::empty()
    } else {
        wide_bytes_of(units.drop_last()) + le_bytes_of(units.last() as nat, 4)
    }
}

pub proof fn lemma_wide_bytes_len(units: Seq<u32>)
    ensures
        wide_bytes_of(units).len() == 4 * units.len(),
    decreases units.len(),
{
    if units.len() > 0 {
        lemma_wide_bytes_len(units.drop_last());
        lemma_le_bytes_len(units.last() as nat, 4);
    }
}

/// Each 4-byte group of the image is the encoding of the corresponding unit.
pub proof fn lemma_wide_bytes_slice(units: Seq<u32>, j: int)
    requires
        0 <= j < units.len(),
    ensures
        wide_bytes_of(units).subrange(4 * j, 4 * j + 4) =~= le_bytes_of(units[j] as nat, 4),
    decreases units.len(),
{
    lemma_wide_bytes_len(units);
    lemma_wide_bytes_len(units.drop_last());
    lemma_le_bytes_len(units.last() as nat, 4);
    if j == units.len() - 1 {
        assert forall|k: int| 0 <= k < 4 implies wide_bytes_of(units).subrange(
            4 * j,
            4 * j + 4,
        )[k] == le_bytes_of(units[j] as nat, 4)[k] by {
            assert(wide_bytes_of(units)[4 * j + k] == le_bytes_of(units.last() as nat, 4)[k]);
        }
    } else {
        lemma_wide_bytes_slice(units.drop_last(), j);
        assert forall|k: int| 0 <= k < 4 implies wide_bytes_of(units).subrange(
            4 * j,
            4 * j + 4,
        )[k] == le_bytes_of(units[j] as nat, 4)[k] by {
            assert(wide_bytes_of(units)[4 * j + k] == wide_bytes_of(units.drop_last())[4 * j + k]);
            assert(wide_bytes_of(units.drop_last()).subrange(4 * j, 4 * j + 4)[k] == wide_bytes_of(
                units.drop_last(),
            )[4 * j + k]);
            assert(units.drop_last()[j] == units[j]);
        }
    }
}

/// The storage backing any foreign value: an owned, fixed-length, mutable
/// byte region, and the ordered list of handles of values that must outlive
/// it because its bytes reference them. Every read and write is
/// bounds-checked against the fixed length; the region is never grown or
/// reallocated by a write.
#[derive(Debug)]
pub struct DataBuffer {
    bytes: Vec<u8>,
    kept_alive: Vec<u64>,
}

impl View for DataBuffer {
    type V = Seq<u8>;

    closed spec fn view(&self) -> Seq<u8> {
        self.bytes@
    }
}

impl DataBuffer {
    /// The kept-alive list, as the sequence of handles in insertion order.
    pub closed spec fn kept(&self) -> Seq<u64> {
        self.kept_alive@
    }

    /// Zero-initialized buffer of `size` bytes; `size == 0` is legal and
    /// yields an empty buffer.
    pub fn allocate(size: usize) -> (r: DataBuffer)
        ensures
            r@.len() == size,
            forall|j: int| 0 <= j < size ==> r@[j] == 0u8,
            r.kept() == Seq::<u64>::empty(),
    {
        let mut bytes: Vec<u8> = Vec::new();
        let mut i: usize = 0;
        while i < size
            invariant
                i <= size,
                bytes@.len() == i,
                forall|j: int| 0 <= j < i ==> bytes@[j] == 0u8,
            decreases size - i,
        {
            bytes.push(0);
            i = i + 1;
        }
        DataBuffer { bytes, kept_alive: Vec::new() }
    }

    /// A buffer that takes ownership of an existing byte region.
    pub fn from_bytes(bytes: Vec<u8>) -> (r: DataBuffer)
        ensures
            r@ == bytes@,
            r.kept() == Seq::<u64>::empty(),
    {
        DataBuffer { bytes, kept_alive: Vec::new() }
    }

    pub fn len(&self) -> (r: usize)
        ensures
            r == self@.len(),
    {
        self.bytes.len()
    }

    /// Bounds-checked read of `count` bytes starting at `offset`.
    pub fn read_bytes(&self, offset: usize, count: usize) -> (r: Result<Vec<u8>, FfiError>)
        ensures
            offset + count <= self@.len() ==> (r matches Ok(v) && v@ == self@.subrange(
                offset as int,
                offset + count,
            )),
            offset + count > self@.len() ==> r == Err::<Vec<u8>, FfiError>(
                FfiError::OutOfBounds { offset, wanted: count, len: self@.len() as usize },
            ),
    {
        if count > self.bytes.len() || offset > self.bytes.len() - count {
            return Err(FfiError::OutOfBounds { offset, wanted: count, len: self.bytes.len() });
        }
        let n = self.bytes.len();
        let mut out: Vec<u8> = Vec::new();
        let mut k: usize = 0;
        while k < count
            invariant
                k <= count,
                n == self@.len(),
                offset + count <= n,
                out@.len() == k,
                forall|j: int| 0 <= j < k ==> out@[j] == self@[offset + j],
            decreases count - k,
        {
            out.push(self.bytes[offset + k]);
            k = k + 1;
        }
        proof {
            assert(out@ =~= self@.subrange(offset as int, offset + count));
        }
        Ok(out)
    }

    /// Bounds-checked write of `data` starting at `offset`. On a bounds
    /// violation the buffer is left unmodified.
    pub fn write_bytes(&mut self, offset: usize, data: &[u8]) -> (r: Result<(), FfiError>)
        ensures
            final(self).kept() == old(self).kept(),
            offset + data@.len() <= old(self)@.len() ==> r == Ok::<(), FfiError>(())
                && final(self)@ =~= old(self)@.take(offset as int) + data@ + old(self)@.skip(
                offset + data@.len(),
            ),
            offset + data@.len() > old(self)@.len() ==> r == Err::<(), FfiError>(
                FfiError::OutOfBounds {
                    offset,
                    wanted: data@.len() as usize,
                    len: old(self)@.len() as usize,
                },
            ) && final(self)@ == old(self)@,
    {
        let count = data.len();
        if count > self.bytes.len() || offset > self.bytes.len() - count {
            return Err(FfiError::OutOfBounds { offset, wanted: count, len: self.bytes.len() });
        }
        let n = self.bytes.len();
        let mut k: usize = 0;
        while k < count
            invariant
                k <= count,
                n == self@.len(),
                offset + count <= n,
                self@.len() == old(self)@.len(),
                count == data@.len(),
                self.kept() == old(self).kept(),
                forall|j: int|
                    0 <= j < self@.len() && !(offset <= j < offset + k) ==> self@[j] == old(
                        self,
                    )@[j],
                forall|j: int| offset <= j < offset + k ==> self@[j] == data@[j - offset],
            decreases count - k,
        {
            self.bytes.set(offset + k, data[k]);
            k = k + 1;
        }
        proof {
            assert(self@ =~= old(self)@.take(offset as int) + data@ + old(self)@.skip(
                offset + data@.len(),
            ));
        }
        Ok(())
    }

    /// Append a handle to the kept-alive list; a side effect only, it never
    /// fails and never touches the byte region.
    pub fn keep_alive(&mut self, handle: u64)
        ensures
            final(self)@ == old(self)@,
            final(self).kept() == old(self).kept().push(handle),
    {
        self.kept_alive.push(handle);
    }

    /// Drop the byte region and the kept-alive list. Idempotent.
    pub fn release(&mut self)
        ensures
            final(self)@ == Seq::<u8>::empty(),
            final(self).kept() == Seq::<u64>::empty(),
    {
        self.bytes = Vec::new();
        self.kept_alive = Vec::new();
    }

    /// The `raw` property, read: the buffer's full byte contents, unmodified
    /// and untruncated.
    pub fn read_raw(&self) -> (r: Vec<u8>)
        ensures
            r@ == self@,
    {
        let r = self.read_bytes(0, self.bytes.len());
        proof {
            assert(self@.subrange(0, self@.len() as int) =~= self@);
        }
        match r {
            Ok(v) => v,
            Err(_) => Vec::new(),
        }
    }

    /// The `raw` property, written: fails with `ValueTooLong` (leaving the
    /// buffer unmodified) when the source is longer than the buffer, else
    /// overwrites from offset 0 and leaves the remaining bytes untouched.
    pub fn write_raw(&mut self, data: &[u8]) -> (r: Result<(), FfiError>)
        ensures
            final(self).kept() == old(self).kept(),
            data@.len() <= old(self)@.len() ==> r == Ok::<(), FfiError>(()) && final(self)@ =~= data@
                + old(self)@.skip(data@.len() as int),
            data@.len() > old(self)@.len() ==> r == Err::<(), FfiError>(
                FfiError::ValueTooLong {
                    wanted: data@.len() as usize,
                    capacity: old(self)@.len() as usize,
                },
            ) && final(self)@ == old(self)@,
    {
        if data.len() > self.bytes.len() {
            return Err(FfiError::ValueTooLong {
                wanted: data.len(),
                capacity: self.bytes.len(),
            });
        }
        let r = self.write_bytes(0, data);
        proof {
            assert(old(self)@.take(0) + data@ + old(self)@.skip(data@.len() as int) =~= data@ + old(
                self,
            )@.skip(data@.len() as int));
        }
        match r {
            Ok(()) => Ok(()),
            Err(e) => Err(e),
        }
    }

    /// The text `value` of a byte-character buffer, read: the bytes up to the
    /// first zero byte or the buffer end.
    pub fn read_value_bytes(&self) -> (r: Vec<u8>)
        ensures
            r@ == self@.take(zero_prefix_len(self@, 0u8)),
    {
        proof {
            lemma_zero_prefix_len(self@, 0u8);
        }
        let n = self.bytes.len();
        let mut k: usize = 0;
        while k < n && self.bytes[k] != 0
            invariant
                k <= n,
                n == self@.len(),
                forall|j: int| 0 <= j < k ==> self@[j] != 0u8,
            decreases n - k,
        {
            k = k + 1;
        }
        proof {
            lemma_zero_prefix_unique(self@, 0u8, k as int);
        }
        let r = self.read_bytes(0, k);
        proof {
            assert(self@.subrange(0, k as int) =~= self@.take(k as int));
        }
        match r {
            Ok(v) => v,
            Err(_) => Vec::new(),
        }
    }

    /// The text `value` of a byte-character buffer, written: fails with
    /// `ValueTooLong` (buffer unmodified) when the encoded text exceeds the
    /// buffer; otherwise writes the text from offset 0 and zero-pads the
    /// remainder. A text of exactly the buffer length fits, with no trailing
    /// zero guaranteed.
    pub fn write_value_bytes(&mut self, text: &[u8]) -> (r: Result<(), FfiError>)
        ensures
            final(self).kept() == old(self).kept(),
            text@.len() <= old(self)@.len() ==> r == Ok::<(), FfiError>(()) && final(self)@ =~= text@
                + Seq::new((old(self)@.len() - text@.len()) as nat, |i: int| 0u8),
            text@.len() > old(self)@.len() ==> r == Err::<(), FfiError>(
                FfiError::ValueTooLong {
                    wanted: text@.len() as usize,
                    capacity: old(self)@.len() as usize,
                },
            ) && final(self)@ == old(self)@,
    {
        if text.len() > self.bytes.len() {
            return Err(FfiError::ValueTooLong {
                wanted: text.len(),
                capacity: self.bytes.len(),
            });
        }
        let n = self.bytes.len();
        let count = text.len();
        let mut k: usize = 0;
        while k < n
            invariant
                k <= n,
                n == self@.len() == old(self)@.len(),
                count == text@.len() <= n,
                self.kept() == old(self).kept(),
                forall|j: int| 0 <= j < k && j < count ==> self@[j] == text@[j],
                forall|j: int| count <= j < k ==> self@[j] == 0u8,
            decreases n - k,
        {
            if k < count {
                self.bytes.set(k, text[k]);
            } else {
                self.bytes.set(k, 0);
            }
            k = k + 1;
        }
        proof {
            assert(self@ =~= text@ + Seq::new((old(self)@.len() - text@.len()) as nat, |i: int| 0u8));
        }
        Ok(())
    }

    /// The text `value` of a wide-character buffer, read: consecutive 4-byte
    /// little-endian code units up to the first zero unit or the last
    /// complete unit.
    pub fn read_value_wide(&self) -> (r: Vec<u32>)
        ensures
            r@ == wide_units_of(self@).take(zero_prefix_len(wide_units_of(self@), 0u32)),
    {
        let n = self.bytes.len();
        let n_units = n / 4;
        let mut units: Vec<u32> = Vec::new();
        let mut k: usize = 0;
        while k < n_units
            invariant
                k <= n_units,
                n == self@.len(),
                n_units == self@.len() / 4,
                units@.len() == k,
                forall|j: int| 0 <= j < k ==> units@[j] == wide_units_of(self@)[j],
            decreases n_units - k,
        {
            let group = match self.read_bytes(4 * k, 4) {
                Ok(g) => g,
                Err(_) => Vec::new(),
            };
            proof {
                lemma_le_val_bound(self@.subrange(4 * k, 4 * k + 4));
                assert(pow256(4) == 0x100000000) by {
                    reveal_with_fuel(pow256, 5);
                };
            }
            let unit_val = crate::codec::le_decode(group.as_slice());
            units.push(unit_val as u32);
            k = k + 1;
        }
        proof {
            assert(units@ =~= wide_units_of(self@));
            lemma_zero_prefix_len(wide_units_of(self@), 0u32);
        }
        let mut t: usize = 0;
        while t < n_units && units[t] != 0
            invariant
                t <= n_units,
                n_units == units@.len(),
                units@ == wide_units_of(self@),
                forall|j: int| 0 <= j < t ==> units@[j] != 0u32,
            decreases n_units - t,
        {
            t = t + 1;
        }
        proof {
            lemma_zero_prefix_unique(wide_units_of(self@), 0u32, t as int);
        }
        let mut out: Vec<u32> = Vec::new();
        let mut j: usize = 0;
        while j < t
            invariant
                j <= t,
                t <= units@.len(),
                out@.len() == j,
                units@ == wide_units_of(self@),
                forall|i: int| 0 <= i < j ==> out@[i] == units@[i],
            decreases t - j,
        {
            out.push(units[j]);
            j = j + 1;
        }
        proof {
            assert(out@ =~= wide_units_of(self@).take(zero_prefix_len(wide_units_of(self@), 0u32)));
        }
        out
    }

    /// The text `value` of a wide-character buffer, written: each unit is
    /// stored as a 4-byte little-endian group from offset 0 and the remaining
    /// bytes are zeroed; fails with `ValueTooLong` (buffer unmodified, sizes
    /// counted in units) when the encoding exceeds the buffer.
    pub fn write_value_wide(&mut self, units: &[u32]) -> (r: Result<(), FfiError>)
        ensures
            final(self).kept() == old(self).kept(),
            4 * units@.len() <= old(self)@.len() ==> r == Ok::<(), FfiError>(()) && final(self)@
                =~= wide_bytes_of(units@) + Seq::new(
                (old(self)@.len() - 4 * units@.len()) as nat,
                |i: int| 0u8,
            ),
            4 * units@.len() > old(self)@.len() ==> r == Err::<(), FfiError>(
                FfiError::ValueTooLong {
                    wanted: units@.len() as usize,
                    capacity: (old(self)@.len() / 4) as usize,
                },
            ) && final(self)@ == old(self)@,
    {
        let n = self.bytes.len();
        if units.len() > n / 4 {
            return Err(FfiError::ValueTooLong { wanted: units.len(), capacity: n / 4 });
        }
        let count = units.len();
        let mut k: usize = 0;
        proof {
            lemma_wide_bytes_len(units@);
        }
        while k < count
            invariant
                k <= count,
                count == units@.len(),
                4 * count <= n,
                n == self@.len() == old(self)@.len(),
                self.kept() == old(self).kept(),
                wide_bytes_of(units@.take(k as int)).len() == 4 * k,
                forall|j: int|
                    0 <= j < 4 * k ==> self@[j] == wide_bytes_of(units@.take(k as int))[j],
                forall|j: int| 4 * k <= j < n ==> self@[j] == old(self)@[j],
            decreases count - k,
        {
            let group = crate::codec::le_encode(units[k] as u128, 4);
            let ghost pre = self@;
            let res = self.write_bytes(4 * k, group.as_slice());
            proof {
                lemma_wide_bytes_len(units@.take(k as int));
                lemma_wide_bytes_len(units@.take(k + 1));
                assert(units@.take(k + 1).drop_last() =~= units@.take(k as int));
                assert(units@.take(k + 1).last() == units@[k as int]);
                assert(wide_bytes_of(units@.take(k + 1)) == wide_bytes_of(units@.take(k as int))
                    + le_bytes_of(units@[k as int] as nat, 4));
                assert forall|j: int| 0 <= j < 4 * (k + 1) implies self@[j] == wide_bytes_of(
                    units@.take(k + 1),
                )[j] by {
                    assert(self@ =~= pre.take(4 * k) + group@ + pre.skip(4 * k + 4));
                    if j < 4 * k {
                        assert(self@[j] == pre[j]);
                    } else {
                        assert(self@[j] == group@[j - 4 * k]);
                    }
                }
            }
            k = k + 1;
        }
        let mut z: usize = 4 * count;
        while z < n
            invariant
                4 * count <= z <= n,
                count == units@.len(),
                n == self@.len() == old(self)@.len(),
                self.kept() == old(self).kept(),
                forall|j: int|
                    0 <= j < 4 * count ==> self@[j] == wide_bytes_of(units@.take(count as int))[j],
                forall|j: int| 4 * count <= j < z ==> self@[j] == 0u8,
            decreases n - z,
        {
            self.bytes.set(z, 0);
            z = z + 1;
        }
        proof {
            assert(units@.take(count as int) =~= units@);
            lemma_wide_bytes_len(units@);
            assert(self@ =~= wide_bytes_of(units@) + Seq::new(
                (old(self)@.len() - 4 * units@.len()) as nat,
                |i: int| 0u8,
            ));
        }
        Ok(())
    }
}


/// Law: writing a `raw` image of exactly the buffer length and then reading
/// `raw` back yields the same bytes. `write_raw` leaves the buffer holding
/// `data + buffer.skip(data.len())`, and `read_raw` returns the buffer's full
/// contents; with the lengths equal, that is `data` itself.
pub proof fn lemma_raw_round_trip(buffer: Seq<u8>, data: Seq<u8>)
    requires
        data.len() == buffer.len(),
    ensures
        data + buffer.skip(data.len() as int) =~= data,
{
}

/// Law: writing a byte text shorter than (or as long as) the buffer and then
/// reading the text `value` back yields the original text, provided the text
/// itself holds no zero byte. `write_value_bytes` leaves the buffer holding
/// the text followed by zero padding, and `read_value_bytes` returns the
/// prefix up to the first zero byte.
pub proof fn lemma_value_bytes_round_trip(buffer: Seq<u8>, text: Seq<u8>)
    requires
        text.len() <= buffer.len(),
        forall|j: int| 0 <= j < text.len() ==> text[j] != 0u8,
    ensures
        ({
            let written = text + Seq::new((buffer.len() - text.len()) as nat, |i: int| 0u8);
            written.take(zero_prefix_len(written, 0u8)) =~= text
        }),
{
    let written = text + Seq::new((buffer.len() - text.len()) as nat, |i: int| 0u8);
    lemma_zero_prefix_unique(written, 0u8, text.len() as int);
}

/// Law: writing a wide text whose encoding fits the buffer and then reading
/// the wide `value` back yields the original code units, provided none of
/// them is zero. `write_value_wide` leaves the buffer holding the 4-byte
/// little-endian groups followed by zero padding, and `read_value_wide`
/// returns the units up to the first zero unit.
pub proof fn lemma_value_wide_round_trip(buffer: Seq<u8>, units: Seq<u32>)
    requires
        4 * units.len() <= buffer.len(),
        forall|j: int| 0 <= j < units.len() ==> units[j] != 0u32,
    ensures
        ({
            let written = wide_bytes_of(units) + Seq::new(
                (buffer.len() - 4 * units.len()) as nat,
                |i: int| 0u8,
            );
            wide_units_of(written).take(zero_prefix_len(wide_units_of(written), 0u32)) =~= units
        }),
{
    let pad = Seq::new((buffer.len() - 4 * units.len()) as nat, |i: int| 0u8);
    let written = wide_bytes_of(units) + pad;
    lemma_wide_bytes_len(units);
    let dec = wide_units_of(written);
    assert(pow256(4) == 0x100000000) by {
        reveal_with_fuel(pow256, 5);
    };
    assert forall|j: int| 0 <= j < units.len() implies dec[j] == units[j] by {
        lemma_wide_bytes_slice(units, j);
        assert(written.subrange(4 * j, 4 * j + 4) =~= wide_bytes_of(units).subrange(
            4 * j,
            4 * j + 4,
        ));
        crate::codec::lemma_le_roundtrip(units[j] as nat, 4);
    }
    assert forall|j: int| units.len() <= j < dec.len() implies dec[j] == 0u32 by {
        assert forall|b: int| 0 <= b < 4 implies #[trigger] written.subrange(4 * j, 4 * j + 4)[b]
            == 0u8 by {
            assert(written[4 * j + b] == pad[4 * j + b - 4 * units.len()]);
        }
        crate::codec::lemma_le_val_zero(written.subrange(4 * j, 4 * j + 4));
    }
    lemma_zero_prefix_unique(dec, 0u32, units.len() as int);
}


/// Encode a text into wide code units: each character becomes its code
/// point, one unit. This is the fixed-width encoding the wide-character
/// buffers store, one 4-byte group per unit.
pub fn encode_wide(s: &str) -> (r: Vec<u32>)
    ensures
        r@ == s@.map_values(|c: char| c as u32),
{
    let mut out: Vec<u32> = Vec::new();
    for c in it: s.chars()
        invariant
            it.seq() == s@,
            out@ == it.seq().subrange(0, it.index() as int).map_values(|ch: char| ch as u32),
    {
        out.push(c as u32);
    }
    proof {
        assert(s@.subrange(0, s@.len() as int) =~= s@);
        assert(out@ =~= s@.map_values(|c: char| c as u32));
    }
    out
}

} // verus!
