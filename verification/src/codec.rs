//! Little-endian byte codecs for the on-disk artifacts of the vector index:
//! a raw array of 64-bit document identifiers and a raw array of 32-bit
//! vector components (IEEE-754 bit patterns). Encoding and decoding are
//! exact inverses, which is what makes `save` followed by `open` lossless.

use vstd::prelude::*;

verus! {

/// `256 ^ n`, the number of values representable in `n` bytes.
pub open spec fn pow256(n: nat) -> nat
    decreases n,
{
    if n == 0 {
        1
    } else {
        256 * pow256((n - 1) as nat)
    }
}

/// The `n` little-endian bytes of `v` (least significant first).
pub open spec fn le_bytes_rec(v: nat, n: nat) -> Seq<u8>
    decreases n,
{
    if n == 0 {
        Seq::empty()
    } else {
        seq![(v % 256) as u8] + le_bytes_rec(v / 256, (n - 1) as nat)
    }
}

/// The value of a little-endian byte string (byte 0 least significant).
pub open spec fn le_val(s: Seq<u8>) -> nat
    decreases s.len(),
{
    if s.len() == 0 {
        0
    } else {
        (s[0] + 256 * le_val(s.skip(1))) as nat
    }
}

/// The 8-byte little-endian encoding of one identifier.
pub open spec fn u64_le(v: u64) -> Seq<u8> {
    le_bytes_rec(v as nat, 8)
}

/// The 4-byte little-endian encoding of one vector component.
pub open spec fn u32_le(v: u32) -> Seq<u8> {
    le_bytes_rec(v as nat, 4)
}

/// The flat little-endian encoding of a sequence of identifiers.
pub open spec fn u64s_le_bytes(s: Seq<u64>) -> Seq<u8> {
    Seq::new(8 * s.len(), |i: int| u64_le(s[i / 8])[i % 8])
}

/// The flat little-endian encoding of a sequence of vector components.
pub open spec fn u32s_le_bytes(s: Seq<u32>) -> Seq<u8> {
    Seq::new(4 * s.len(), |i: int| u32_le(s[i / 4])[i % 4])
}

/// The identifiers stored in a raw byte file: one per full 8-byte chunk,
/// in file order; a trailing partial chunk is ignored.
pub open spec fn le_bytes_u64s(b: Seq<u8>) -> Seq<u64> {
    Seq::new(b.len() / 8, |i: int| le_val(b.subrange(8 * i, 8 * i + 8)) as u64)
}

/// The vector components stored in a raw byte file: one per full 4-byte
/// chunk, in file order; a trailing partial chunk is ignored.
pub open spec fn le_bytes_u32s(b: Seq<u8>) -> Seq<u32> {
    Seq::new(b.len() / 4, |i: int| le_val(b.subrange(4 * i, 4 * i + 4)) as u32)
}

pub proof fn lemma_le_bytes_rec_len(v: nat, n: nat)
    ensures
        le_bytes_rec(v, n).len() == n,
    decreases n,
{
    if n > 0 {
        lemma_le_bytes_rec_len(v / 256, (n - 1) as nat);
    }
}

pub proof fn lemma_le_val_bound(s: Seq<u8>)
    ensures
        le_val(s) < pow256(s.len()),
    decreases s.len(),
{
    if s.len() > 0 {
        lemma_le_val_bound(s.skip(1));
        assert(le_val(s) == s[0] + 256 * le_val(s.skip(1)));
        assert(s[0] < 256);
        assert(256 * le_val(s.skip(1)) <= 256 * (pow256(s.skip(1).len()) - 1)) by (nonlinear_arith)
            requires
                le_val(s.skip(1)) <= pow256(s.skip(1).len()) - 1,
        ;
    }
}

/// Decoding the `n`-byte encoding of a value below `256^n` gives the value
/// back.
pub proof fn lemma_le_round_trip(v: nat, n: nat)
    requires
        v < pow256(n),
    ensures
        le_val(le_bytes_rec(v, n)) == v,
    decreases n,
{
    if n > 0 {
        let tail = le_bytes_rec(v / 256, (n - 1) as nat);
        assert(v / 256 < pow256((n - 1) as nat)) by (nonlinear_arith)
            requires
                v < 256 * pow256((n - 1) as nat),
        ;
        lemma_le_round_trip(v / 256, (n - 1) as nat);
        let s = le_bytes_rec(v, n);
        assert(s.skip(1) =~= tail);
        assert(v % 256 + 256 * (v / 256) == v) by (nonlinear_arith);
    }
}

pub proof fn lemma_pow256_64()
    ensures
        pow256(8) == 0x1_0000_0000_0000_0000,
        pow256(4) == 0x1_0000_0000,
{
    reveal_with_fuel(pow256, 9);
}

/// Monotonicity of `pow256`, used to bound decoder accumulators.
pub proof fn lemma_pow256_le(a: nat, b: nat)
    requires
        a <= b,
    ensures
        pow256(a) <= pow256(b),
    decreases b,
{
    if a < b {
        lemma_pow256_le(a, (b - 1) as nat);
        assert(pow256(b) == 256 * pow256((b - 1) as nat));
        assert(pow256((b - 1) as nat) <= 256 * pow256((b - 1) as nat)) by (nonlinear_arith)
            requires
                pow256((b - 1) as nat) >= 0,
        ;
    }
}

/// Identifier encoding round-trip: decoding the flat encoding of any
/// identifier sequence yields the sequence itself, element for element.
pub proof fn lemma_u64s_round_trip(s: Seq<u64>)
    ensures
        le_bytes_u64s(u64s_le_bytes(s)) =~= s,
{
    let b = u64s_le_bytes(s);
    assert(b.len() == 8 * s.len());
    assert forall|i: int| 0 <= i < s.len() implies le_bytes_u64s(b)[i] == s[i] by {
        let chunk = b.subrange(8 * i, 8 * i + 8);
        lemma_le_bytes_rec_len(s[i] as nat, 8);
        assert forall|k: int| 0 <= k < 8 implies chunk[k] == u64_le(s[i])[k] by {
            assert(b[8 * i + k] == u64_le(s[(8 * i + k) / 8])[(8 * i + k) % 8]);
            assert((8 * i + k) / 8 == i && (8 * i + k) % 8 == k) by (nonlinear_arith)
                requires
                    0 <= k < 8,
            ;
        }
        assert(chunk =~= u64_le(s[i]));
        lemma_pow256_64();
        lemma_le_round_trip(s[i] as nat, 8);
    }
}

/// Component encoding round-trip, the 32-bit counterpart of
/// [`lemma_u64s_round_trip`].
pub proof fn lemma_u32s_round_trip(s: Seq<u32>)
    ensures
        le_bytes_u32s(u32s_le_bytes(s)) =~= s,
{
    let b = u32s_le_bytes(s);
    assert(b.len() == 4 * s.len());
    assert forall|i: int| 0 <= i < s.len() implies le_bytes_u32s(b)[i] == s[i] by {
        let chunk = b.subrange(4 * i, 4 * i + 4);
        lemma_le_bytes_rec_len(s[i] as nat, 4);
        assert forall|k: int| 0 <= k < 4 implies chunk[k] == u32_le(s[i])[k] by {
            assert(b[4 * i + k] == u32_le(s[(4 * i + k) / 4])[(4 * i + k) % 4]);
            assert((4 * i + k) / 4 == i && (4 * i + k) % 4 == k) by (nonlinear_arith)
                requires
                    0 <= k < 4,
            ;
        }
        assert(chunk =~= u32_le(s[i]));
        lemma_pow256_64();
        lemma_le_round_trip(s[i] as nat, 4);
    }
}

/// Encodes identifiers as a flat little-endian byte array, 8 bytes each,
/// in sequence order.
pub fn u64_to_bytes(values: &Vec<u64>) -> (r: Vec<u8>)
    ensures
        r@ == u64s_le_bytes(values@),
{
    let mut out: Vec<u8> = Vec::new();
    let mut i: usize = 0;
    while i < values.len()
        invariant
            i <= values.len(),
            out@ =~= u64s_le_bytes(values@.take(i as int)),
        decreases values.len() - i,
    {
        let ghost prev = out@;
        let v = values[i];
        let mut x: u64 = v;
        let mut j: usize = 0;
        proof {
            lemma_le_bytes_rec_len(v as nat, 8);
        }
        while j < 8
            invariant
                j <= 8,
                le_bytes_rec(v as nat, 8).len() == 8,
                out@ =~= prev + le_bytes_rec(v as nat, 8).take(j as int),
                le_bytes_rec(v as nat, 8).skip(j as int)
                    =~= le_bytes_rec(x as nat, (8 - j) as nat),
            decreases 8 - j,
        {
            proof {
                let full = le_bytes_rec(v as nat, 8);
                lemma_le_bytes_rec_len(x as nat, (8 - j) as nat);
                lemma_le_bytes_rec_len((x / 256) as nat, (7 - j) as nat);
                assert(le_bytes_rec(x as nat, (8 - j) as nat)
                    =~= seq![(x % 256) as u8] + le_bytes_rec((x / 256) as nat, (7 - j) as nat));
                assert(full[j as int] == full.skip(j as int)[0]);
                assert(full.skip(j as int + 1) =~= full.skip(j as int).skip(1));
                assert(full.skip(j as int).skip(1)
                    =~= le_bytes_rec((x / 256) as nat, (7 - j) as nat));
                assert(full.take(j as int + 1) =~= full.take(j as int).push(full[j as int]));
            }
            out.push((x % 256) as u8);
            x = x / 256;
            j = j + 1;
        }
        proof {
            assert(le_bytes_rec(v as nat, 8).take(8) =~= le_bytes_rec(v as nat, 8));
            assert(out@ =~= prev + u64_le(v));
            assert forall|k: int| 0 <= k < 8 * (i + 1) implies
                (prev + u64_le(v))[k] == u64_le(values@.take(i + 1)[k / 8])[k % 8] by {
                if k < 8 * i {
                    assert(prev[k] == u64_le(values@.take(i as int)[k / 8])[k % 8]);
                    assert(0 <= k / 8 < i && 0 <= k % 8 < 8) by (nonlinear_arith)
                        requires
                            0 <= k < 8 * i,
                    ;
                } else {
                    assert(k / 8 == i && k % 8 == k - 8 * i) by (nonlinear_arith)
                        requires
                            8 * i <= k < 8 * (i + 1),
                    ;
                }
            }
            assert(out@ =~= u64s_le_bytes(values@.take(i + 1)));
        }
        i = i + 1;
    }
    proof {
        assert(values@.take(values@.len() as int) =~= values@);
    }
    out
}

/// Encodes vector components as a flat little-endian byte array, 4 bytes
/// each, in sequence order.
pub fn u32_to_bytes(values: &Vec<u32>) -> (r: Vec<u8>)
    ensures
        r@ == u32s_le_bytes(values@),
{
    let mut out: Vec<u8> = Vec::new();
    let mut i: usize = 0;
    while i < values.len()
        invariant
            i <= values.len(),
            out@ =~= u32s_le_bytes(values@.take(i as int)),
        decreases values.len() - i,
    {
        let ghost prev = out@;
        let v = values[i];
        let mut x: u32 = v;
        let mut j: usize = 0;
        proof {
            lemma_le_bytes_rec_len(v as nat, 4);
        }
        while j < 4
            invariant
                j <= 4,
                le_bytes_rec(v as nat, 4).len() == 4,
                out@ =~= prev + le_bytes_rec(v as nat, 4).take(j as int),
                le_bytes_rec(v as nat, 4).skip(j as int)
                    =~= le_bytes_rec(x as nat, (4 - j) as nat),
            decreases 4 - j,
        {
            proof {
                let full = le_bytes_rec(v as nat, 4);
                lemma_le_bytes_rec_len(x as nat, (4 - j) as nat);
                lemma_le_bytes_rec_len((x / 256) as nat, (3 - j) as nat);
                assert(le_bytes_rec(x as nat, (4 - j) as nat)
                    =~= seq![(x % 256) as u8] + le_bytes_rec((x / 256) as nat, (3 - j) as nat));
                assert(full[j as int] == full.skip(j as int)[0]);
                assert(full.skip(j as int + 1) =~= full.skip(j as int).skip(1));
                assert(full.skip(j as int).skip(1)
                    =~= le_bytes_rec((x / 256) as nat, (3 - j) as nat));
                assert(full.take(j as int + 1) =~= full.take(j as int).push(full[j as int]));
            }
            out.push((x % 256) as u8);
            x = x / 256;
            j = j + 1;
        }
        proof {
            assert(le_bytes_rec(v as nat, 4).take(4) =~= le_bytes_rec(v as nat, 4));
            assert(out@ =~= prev + u32_le(v));
            assert forall|k: int| 0 <= k < 4 * (i + 1) implies
                (prev + u32_le(v))[k] == u32_le(values@.take(i + 1)[k / 4])[k % 4] by {
                if k < 4 * i {
                    assert(prev[k] == u32_le(values@.take(i as int)[k / 4])[k % 4]);
                    assert(0 <= k / 4 < i && 0 <= k % 4 < 4) by (nonlinear_arith)
                        requires
                            0 <= k < 4 * i,
                    ;
                } else {
                    assert(k / 4 == i && k % 4 == k - 4 * i) by (nonlinear_arith)
                        requires
                            4 * i <= k < 4 * (i + 1),
                    ;
                }
            }
            assert(out@ =~= u32s_le_bytes(values@.take(i + 1)));
        }
        i = i + 1;
    }
    proof {
        assert(values@.take(values@.len() as int) =~= values@);
    }
    out
}

/// Decodes a raw little-endian identifier file; one identifier per full
/// 8-byte chunk, any trailing partial chunk ignored.
pub fn bytes_to_u64(bytes: &Vec<u8>) -> (r: Vec<u64>)
    ensures
        r@ == le_bytes_u64s(bytes@),
{
    let blen = bytes.len();
    let n = blen / 8;
    let mut out: Vec<u64> = Vec::new();
    let mut c: usize = 0;
    while c < n
        invariant
            c <= n,
            blen == bytes@.len(),
            n == bytes@.len() / 8,
            out@ =~= le_bytes_u64s(bytes@).take(c as int),
        decreases n - c,
    {
        proof {
            assert(c * 8 + 8 <= bytes@.len()) by (nonlinear_arith)
                requires
                    c < bytes@.len() / 8,
            ;
        }
        let start = c * 8;
        let mut acc: u64 = 0;
        let mut j: usize = 0;
        while j < 8
            invariant
                j <= 8,
                start == 8 * c,
                8 * c + 8 <= bytes@.len(),
                acc as nat == le_val(bytes@.subrange(8 * c + 8 - j, 8 * c + 8)),
            decreases 8 - j,
        {
            let ghost oldslice = bytes@.subrange(8 * c + 8 - j, 8 * c + 8);
            proof {
                lemma_le_val_bound(oldslice);
                lemma_pow256_le(j as nat, 7);
                lemma_pow256_64();
                let s2 = bytes@.subrange(8 * c + 8 - (j + 1), 8 * c + 8);
                assert(s2.skip(1) =~= oldslice);
            }
            acc = bytes[start + 7 - j] as u64 + acc * 256;
            j = j + 1;
        }
        proof {
            assert(bytes@.subrange(8 * c, 8 * c + 8)
                =~= bytes@.subrange(8 * c + 8 - 8, 8 * c + 8));
            lemma_le_val_bound(bytes@.subrange(8 * c, 8 * c + 8));
            lemma_pow256_64();
            assert(le_bytes_u64s(bytes@)[c as int]
                == le_val(bytes@.subrange(8 * c, 8 * c + 8)) as u64);
            assert(out@.push(acc) =~= le_bytes_u64s(bytes@).take(c + 1));
        }
        out.push(acc);
        c = c + 1;
    }
    proof {
        assert(le_bytes_u64s(bytes@).take(n as int) =~= le_bytes_u64s(bytes@));
    }
    out
}

/// Decodes a raw little-endian component file; one component per full
/// 4-byte chunk, any trailing partial chunk ignored.
pub fn bytes_to_u32(bytes: &Vec<u8>) -> (r: Vec<u32>)
    ensures
        r@ == le_bytes_u32s(bytes@),
{
    let blen = bytes.len();
    let n = blen / 4;
    let mut out: Vec<u32> = Vec::new();
    let mut c: usize = 0;
    while c < n
        invariant
            c <= n,
            blen == bytes@.len(),
            n == bytes@.len() / 4,
            out@ =~= le_bytes_u32s(bytes@).take(c as int),
        decreases n - c,
    {
        proof {
            assert(c * 4 + 4 <= bytes@.len()) by (nonlinear_arith)
                requires
                    c < bytes@.len() / 4,
            ;
        }
        let start = c * 4;
        let mut acc: u32 = 0;
        let mut j: usize = 0;
        while j < 4
            invariant
                j <= 4,
                start == 4 * c,
                4 * c + 4 <= bytes@.len(),
                acc as nat == le_val(bytes@.subrange(4 * c + 4 - j, 4 * c + 4)),
            decreases 4 - j,
        {
            let ghost oldslice = bytes@.subrange(4 * c + 4 - j, 4 * c + 4);
            proof {
                lemma_le_val_bound(oldslice);
                lemma_pow256_le(j as nat, 3);
                lemma_pow256_64();
                let s2 = bytes@.subrange(4 * c + 4 - (j + 1), 4 * c + 4);
                assert(s2.skip(1) =~= oldslice);
            }
            acc = bytes[start + 3 - j] as u32 + acc * 256;
            j = j + 1;
        }
        proof {
            assert(bytes@.subrange(4 * c, 4 * c + 4)
                =~= bytes@.subrange(4 * c + 4 - 4, 4 * c + 4));
            lemma_le_val_bound(bytes@.subrange(4 * c, 4 * c + 4));
            lemma_pow256_64();
            assert(le_bytes_u32s(bytes@)[c as int]
                == le_val(bytes@.subrange(4 * c, 4 * c + 4)) as u32);
            assert(out@.push(acc) =~= le_bytes_u32s(bytes@).take(c + 1));
        }
        out.push(acc);
        c = c + 1;
    }
    proof {
        assert(le_bytes_u32s(bytes@).take(n as int) =~= le_bytes_u32s(bytes@));
    }
    out
}

} // verus!
