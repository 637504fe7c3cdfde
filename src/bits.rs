use vstd::arithmetic::div_mod::{lemma_fundamental_div_mod, lemma_fundamental_div_mod_converse};
use vstd::prelude::*;

verus! {

/// Bit `k` of `b`, counting from the least significant bit.
pub open spec fn bit_of(b: u8, k: u8) -> bool {
    (b >> k) & 1u8 == 1u8
}

/// The bits of a byte string, eight per byte, each byte least significant
/// bit first.
pub open spec fn bits_of_bytes(bs: Seq<u8>) -> Seq<bool> {
    Seq::new(8 * bs.len(), |i: int| bit_of(bs[i / 8], (i % 8) as u8))
}

/// `r` holds `bits` packed eight to a byte, least significant bit first, with
/// the unused bits of a last partial byte clear.
pub open spec fn packs(r: Seq<u8>, bits: Seq<bool>) -> bool {
    &&& r.len() == (bits.len() + 7) / 8
    &&& forall|i: int|
        0 <= i < 8 * r.len() ==> #[trigger] bit_of(r[i / 8], (i % 8) as u8) == (i < bits.len()
            && bits[i])
}

/// The number of watermark bits that a byte string gives.
pub fn get_wm_len(watermark: &[u8]) -> (n: usize)
    requires
        watermark@.len() * 8 <= usize::MAX,
    ensures
        n == watermark@.len() * 8,
        n == bits_of_bytes(watermark@).len(),
{
    watermark.len() * 8
}

/// Splits bytes into bits, eight per byte, least significant bit first.
pub fn bytes_to_bits(bytes: &[u8]) -> (r: Vec<bool>)
    requires
        bytes@.len() * 8 <= usize::MAX,
    ensures
        r@ == bits_of_bytes(bytes@),
{
    let ghost target = bits_of_bytes(bytes@);
    let mut r: Vec<bool> = Vec::with_capacity(bytes.len() * 8);
    let mut i: usize = 0;
    while i < bytes.len()
        invariant
            i <= bytes@.len(),
            bytes@.len() * 8 <= usize::MAX,
            target == bits_of_bytes(bytes@),
            r@ == target.take(8 * i),
        decreases bytes@.len() - i,
    {
        let b = bytes[i];
        let mut k: u8 = 0;
        while k < 8
            invariant
                k <= 8,
                i < bytes@.len(),
                b == bytes@[i as int],
                target == bits_of_bytes(bytes@),
                r@ == target.take(8 * i + k),
            decreases 8 - k,
        {
            r.push((b >> k) & 1 == 1);
            proof {
                let j = 8 * i + k;
                lemma_fundamental_div_mod_converse(j, 8, i as int, k as int);
                assert(r@ =~= target.take(j + 1));
            }
            k = k + 1;
        }
        i = i + 1;
    }
    proof {
        assert(r@ =~= target);
    }
    r
}

/// Bit `k` of `b0 | b1 << 1 | ... | b7 << 7` is `bk`, for bits given as 0 or 1.
proof fn lemma_pack_byte(b0: u8, b1: u8, b2: u8, b3: u8, b4: u8, b5: u8, b6: u8, b7: u8)
    by (bit_vector)
    requires
        b0 <= 1 && b1 <= 1 && b2 <= 1 && b3 <= 1 && b4 <= 1 && b5 <= 1 && b6 <= 1 && b7 <= 1,
    ensures
        ({
            let x = b0 | (b1 << 1u8) | (b2 << 2u8) | (b3 << 3u8) | (b4 << 4u8) | (b5 << 5u8) | (b6
                << 6u8) | (b7 << 7u8);
            &&& (x >> 0u8) & 1u8 == b0
            &&& (x >> 1u8) & 1u8 == b1
            &&& (x >> 2u8) & 1u8 == b2
            &&& (x >> 3u8) & 1u8 == b3
            &&& (x >> 4u8) & 1u8 == b4
            &&& (x >> 5u8) & 1u8 == b5
            &&& (x >> 6u8) & 1u8 == b6
            &&& (x >> 7u8) & 1u8 == b7
        }),
{
}

/// Two bytes with the same eight bits are equal.
proof fn lemma_byte_from_bits(x: u8, y: u8)
    by (bit_vector)
    requires
        (x >> 0u8) & 1u8 == (y >> 0u8) & 1u8,
        (x >> 1u8) & 1u8 == (y >> 1u8) & 1u8,
        (x >> 2u8) & 1u8 == (y >> 2u8) & 1u8,
        (x >> 3u8) & 1u8 == (y >> 3u8) & 1u8,
        (x >> 4u8) & 1u8 == (y >> 4u8) & 1u8,
        (x >> 5u8) & 1u8 == (y >> 5u8) & 1u8,
        (x >> 6u8) & 1u8 == (y >> 6u8) & 1u8,
        (x >> 7u8) & 1u8 == (y >> 7u8) & 1u8,
    ensures
        x == y,
{
}

/// Every bit of a byte is either set or clear.
proof fn lemma_bit_is_0_or_1(x: u8, k: u8)
    by (bit_vector)
    ensures
        (x >> k) & 1u8 == 0u8 || (x >> k) & 1u8 == 1u8,
{
}

/// `bits[i]` as 0 or 1, and 0 past the end.
fn bit_at(bits: &Vec<bool>, i: usize) -> (v: u8)
    ensures
        v <= 1,
        v == 1 <==> (i < bits@.len() && bits@[i as int]),
{
    if i < bits.len() && bits[i] {
        1
    } else {
        0
    }
}

/// Packs bits into bytes, eight per byte, least significant bit first; a last
/// partial byte has its unused bits clear.
pub fn bits_to_bytes(bits: &Vec<bool>) -> (r: Vec<u8>)
    requires
        bits@.len() + 7 <= usize::MAX,
    ensures
        packs(r@, bits@),
{
    let n = (bits.len() + 7) / 8;
    let mut r: Vec<u8> = Vec::with_capacity(n);
    let mut i: usize = 0;
    while i < n
        invariant
            i <= n,
            n == (bits@.len() + 7) / 8,
            bits@.len() + 7 <= usize::MAX,
            r@.len() == i,
            forall|j: int|
                0 <= j < 8 * i ==> #[trigger] bit_of(r@[j / 8], (j % 8) as u8) == (j < bits@.len()
                    && bits@[j]),
        decreases n - i,
    {
        proof {
            let t = (bits@.len() + 7) as int;
            lemma_fundamental_div_mod(t, 8);
        }
        assert(8 * i + 7 <= bits@.len() + 7 <= usize::MAX);
        let s = 8 * i;
        let b0 = bit_at(bits, s);
        let b1 = bit_at(bits, s + 1);
        let b2 = bit_at(bits, s + 2);
        let b3 = bit_at(bits, s + 3);
        let b4 = bit_at(bits, s + 4);
        let b5 = bit_at(bits, s + 5);
        let b6 = bit_at(bits, s + 6);
        let b7 = bit_at(bits, s + 7);
        let byte: u8 = b0 | (b1 << 1u8) | (b2 << 2u8) | (b3 << 3u8) | (b4 << 4u8) | (b5 << 5u8) | (
        b6 << 6u8) | (b7 << 7u8);
        proof {
            lemma_pack_byte(b0, b1, b2, b3, b4, b5, b6, b7);
        }
        r.push(byte);
        proof {
            assert forall|j: int| 0 <= j < 8 * (i + 1) implies #[trigger] bit_of(
                r@[j / 8],
                (j % 8) as u8,
            ) == (j < bits@.len() && bits@[j]) by {
                if j >= 8 * i {
                    lemma_fundamental_div_mod_converse(j, 8, i as int, j - 8 * i);
                    let k = j - 8 * i;
                    assert(r@[j / 8] == byte);
                    assert(k == 0 || k == 1 || k == 2 || k == 3 || k == 4 || k == 5 || k == 6 || k
                        == 7);
                } else {
                    lemma_fundamental_div_mod(j, 8);
                    assert(j / 8 < i);
                }
            }
        }
        i = i + 1;
    }
    r
}

/// Bit `k` of byte `i` of a packing of the bits of `bytes` is bit `k` of `bytes[i]`.
proof fn lemma_same_bit(bytes: Seq<u8>, r: Seq<u8>, i: int, k: int)
    requires
        packs(r, bits_of_bytes(bytes)),
        r.len() == bytes.len(),
        0 <= i < bytes.len(),
        0 <= k < 8,
    ensures
        bit_of(r[i], k as u8) == bit_of(bytes[i], k as u8),
{
    let j = 8 * i + k;
    lemma_fundamental_div_mod_converse(j, 8, i, k);
    assert(bit_of(r[j / 8], (j % 8) as u8) == bits_of_bytes(bytes)[j]);
}

/// Packing the bits of a byte string gives back the byte string itself.
pub proof fn lemma_bytes_bits_round_trip(bytes: Seq<u8>, r: Seq<u8>)
    requires
        packs(r, bits_of_bytes(bytes)),
    ensures
        r == bytes,
{
    let bits = bits_of_bytes(bytes);
    assert((8 * bytes.len() + 7) / 8 == bytes.len()) by {
        lemma_fundamental_div_mod_converse((8 * bytes.len() + 7) as int, 8, bytes.len() as int, 7);
    }
    assert forall|i: int| 0 <= i < bytes.len() implies r[i] == bytes[i] by {
        let x = r[i];
        let y = bytes[i];
        lemma_same_bit(bytes, r, i, 0);
        lemma_same_bit(bytes, r, i, 1);
        lemma_same_bit(bytes, r, i, 2);
        lemma_same_bit(bytes, r, i, 3);
        lemma_same_bit(bytes, r, i, 4);
        lemma_same_bit(bytes, r, i, 5);
        lemma_same_bit(bytes, r, i, 6);
        lemma_same_bit(bytes, r, i, 7);
        assert(bit_of(x, 0) == bit_of(y, 0));
        assert(bit_of(x, 1) == bit_of(y, 1));
        assert(bit_of(x, 2) == bit_of(y, 2));
        assert(bit_of(x, 3) == bit_of(y, 3));
        assert(bit_of(x, 4) == bit_of(y, 4));
        assert(bit_of(x, 5) == bit_of(y, 5));
        assert(bit_of(x, 6) == bit_of(y, 6));
        assert(bit_of(x, 7) == bit_of(y, 7));
        lemma_bit_is_0_or_1(x, 0);
        lemma_bit_is_0_or_1(x, 1);
        lemma_bit_is_0_or_1(x, 2);
        lemma_bit_is_0_or_1(x, 3);
        lemma_bit_is_0_or_1(x, 4);
        lemma_bit_is_0_or_1(x, 5);
        lemma_bit_is_0_or_1(x, 6);
        lemma_bit_is_0_or_1(x, 7);
        lemma_bit_is_0_or_1(y, 0);
        lemma_bit_is_0_or_1(y, 1);
        lemma_bit_is_0_or_1(y, 2);
        lemma_bit_is_0_or_1(y, 3);
        lemma_bit_is_0_or_1(y, 4);
        lemma_bit_is_0_or_1(y, 5);
        lemma_bit_is_0_or_1(y, 6);
        lemma_bit_is_0_or_1(y, 7);
        lemma_byte_from_bits(x, y);
    }
    assert(r =~= bytes);
}

} // verus!
