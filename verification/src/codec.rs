use vstd::prelude::*;

verus! {

/// 256 raised to `n`: the number of values an `n`-byte cell can hold.
pub open spec fn pow256(n: nat) -> nat
    decreases n,
{
    if n == 0 {
        1
    } else {
        256 * pow256((n - 1) as nat)
    }
}

/// The little-endian byte image of the unsigned value `v` in an `n`-byte
/// cell: lowest byte first, truncated to `n` bytes.
pub open spec fn le_bytes_of(v: nat, n: nat) -> Seq<u8>
    decreases n,
{
    if n == 0 {
        Seq::empty()
    } else {
        seq![(v % 256) as u8] + le_bytes_of(v / 256, (n - 1) as nat)
    }
}

/// The unsigned value a little-endian byte sequence denotes.
pub open spec fn le_val_of(s: Seq<u8>) -> nat
    decreases s.len(),
{
    if s.len() == 0 {
        0
    } else {
        (s[0] + 256 * le_val_of(s.skip(1))) as nat
    }
}

pub proof fn lemma_pow256_pos(n: nat)
    ensures
        pow256(n) >= 1,
    decreases n,
{
    if n > 0 {
        lemma_pow256_pos((n - 1) as nat);
    }
}

pub proof fn lemma_pow256_mono(m: nat, n: nat)
    requires
        m <= n,
    ensures
        pow256(m) <= pow256(n),
    decreases n,
{
    if m < n {
        lemma_pow256_mono(m, (n - 1) as nat);
        lemma_pow256_pos((n - 1) as nat);
    }
}

pub proof fn lemma_le_bytes_len(v: nat, n: nat)
    ensures
        le_bytes_of(v, n).len() == n,
    decreases n,
{
    if n > 0 {
        lemma_le_bytes_len(v / 256, (n - 1) as nat);
    }
}

/// A byte sequence of length `n` denotes a value below `pow256(n)`.
pub proof fn lemma_le_val_bound(s: Seq<u8>)
    ensures
        le_val_of(s) < pow256(s.len()),
    decreases s.len(),
{
    if s.len() == 0 {
    } else {
        lemma_le_val_bound(s.skip(1));
    }
}

/// Encoding then decoding gives the value back, whenever it fits the cell.
pub proof fn lemma_le_roundtrip(v: nat, n: nat)
    requires
        v < pow256(n),
    ensures
        le_val_of(le_bytes_of(v, n)) == v,
    decreases n,
{
    if n > 0 {
        lemma_le_roundtrip(v / 256, (n - 1) as nat);
        assert(le_bytes_of(v, n).skip(1) =~= le_bytes_of(v / 256, (n - 1) as nat));
    }
}

/// An all-zero byte sequence denotes the value zero.
pub proof fn lemma_le_val_zero(s: Seq<u8>)
    requires
        forall|j: int| 0 <= j < s.len() ==> s[j] == 0u8,
    ensures
        le_val_of(s) == 0,
    decreases s.len(),
{
    if s.len() > 0 {
        lemma_le_val_zero(s.skip(1));
    }
}

/// Write the low `n` bytes of `v` as a little-endian cell image.
pub fn le_encode(v: u128, n: usize) -> (r: Vec<u8>)
    ensures
        r@ == le_bytes_of(v as nat, n as nat),
        r@.len() == n,
{
    let mut out: Vec<u8> = Vec::new();
    let mut cur: u128 = v;
    let mut i: usize = 0;
    proof {
        lemma_le_bytes_len(v as nat, n as nat);
        assert(Seq::<u8>::empty() + le_bytes_of(v as nat, n as nat) =~= le_bytes_of(
            v as nat,
            n as nat,
        ));
    }
    while i < n
        invariant
            i <= n,
            out@.len() == i,
            le_bytes_of(v as nat, n as nat) == out@ + le_bytes_of(
                cur as nat,
                (n - i) as nat,
            ),
        decreases n - i,
    {
        let b: u8 = (cur % 256) as u8;
        proof {
            assert(le_bytes_of(cur as nat, (n - i) as nat) == seq![(cur as nat % 256) as u8]
                + le_bytes_of(cur as nat / 256, (n - i - 1) as nat));
            assert(out@.push(b) + le_bytes_of(cur as nat / 256, (n - i - 1) as nat) =~= out@
                + le_bytes_of(cur as nat, (n - i) as nat));
        }
        out.push(b);
        cur = cur / 256;
        i = i + 1;
    }
    assert(out@ =~= le_bytes_of(v as nat, n as nat));
    out
}

/// Read a little-endian cell image of at most 16 bytes back as a value.
pub fn le_decode(s: &[u8]) -> (r: u128)
    requires
        s@.len() <= 16,
    ensures
        r as nat == le_val_of(s@),
{
    let n = s.len();
    let mut acc: u128 = 0;
    let mut i: usize = n;
    proof {
        assert(s@.skip(n as int) =~= Seq::<u8>::empty());
    }
    while i > 0
        invariant
            i <= n,
            n == s@.len() <= 16,
            acc as nat == le_val_of(s@.skip(i as int)),
        decreases i,
    {
        proof {
            lemma_le_val_bound(s@.skip(i as int));
            lemma_pow256_mono(s@.skip(i as int).len(), 15);
            reveal_with_fuel(pow256, 17);
            assert(acc < pow256(15));
            assert(acc * 256 + 255 < pow256(16)) by {
                assert(acc <= pow256(15) - 1);
                assert(acc * 256 <= (pow256(15) - 1) * 256) by (nonlinear_arith)
                    requires
                        acc <= pow256(15) - 1,
                ;
                assert(pow256(16) == 256 * pow256(15));
            };
            assert(pow256(16) == 0x100000000000000000000000000000000);
            assert(s@.skip(i - 1).skip(1) =~= s@.skip(i as int));
            assert(le_val_of(s@.skip(i - 1)) == s@[i - 1] + 256 * le_val_of(s@.skip(i as int)));
        }
        acc = acc * 256 + (s[i - 1] as u128);
        i = i - 1;
    }
    proof {
        assert(s@.skip(0) =~= s@);
    }
    acc
}

} // verus!
