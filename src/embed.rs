use crate::config::WatermarkMode;
use crate::strategy::{
    blocks_for_position, index_range, maps_to, mode_order,
    permutation_for_mode, Permutation,
};
use vstd::prelude::*;

verus! {

/// Why embedding or extraction was refused before any block was touched.
#[derive(Clone, Copy, Debug, PartialEq, Eq, Structural)]
pub enum WatermarkError {
    /// The watermark has more bits than the image has blocks.
    CapacityExceeded,
    /// The watermark has no bits.
    EmptyWatermark,
    /// The image has no blocks.
    NoBlocks,
    /// Replacement blocks do not match the blocks they replace in number or size.
    ShapeMismatch,
}

/// The bit that each block carries: block `i` carries `bits[f[i] % bits.len()]`.
pub open spec fn block_bits(bits: Seq<bool>, f: Seq<usize>) -> Seq<bool> {
    Seq::new(f.len(), |i: int| bits[f[i] as int % bits.len() as int])
}

/// One block's raw bits, decoded from its three colour channels.
pub type ChannelBits = (bool, bool, bool);

/// How many of a block's three channel bits are set.
pub open spec fn channel_votes(t: ChannelBits) -> nat {
    (if t.0 { 1nat } else { 0nat }) + (if t.1 { 1nat } else { 0nat }) + (if t.2 { 1nat } else { 0nat })
}

/// The set channel bits summed over the blocks `js`.
pub open spec fn votes_over(raw: Seq<ChannelBits>, js: Seq<usize>) -> nat
    decreases js.len(),
{
    if js.len() == 0 {
        0
    } else {
        votes_over(raw, js.drop_last()) + channel_votes(raw[js.last() as int])
    }
}

/// Majority decision for bit position `p`: set when at least half of the
/// channel bits of all blocks mapped to `p` are set (a tie decodes as set).
pub open spec fn decoded_bit(raw: Seq<ChannelBits>, f: Seq<usize>, wm_len: nat, p: nat) -> bool {
    let js = blocks_for_position(f, wm_len, p);
    2 * votes_over(raw, js) >= 3 * js.len()
}

/// The watermark decoded from the raw bits of every block.
pub open spec fn decoded_bits(raw: Seq<ChannelBits>, f: Seq<usize>, wm_len: nat) -> Seq<bool> {
    Seq::new(wm_len, |p: int| decoded_bit(raw, f, wm_len, p as nat))
}

/// Each block's bit, repeated on all three channels: the raw bits that a
/// faithful reading of an embedded image gives back.
pub open spec fn on_all_channels(s: Seq<bool>) -> Seq<ChannelBits> {
    Seq::new(s.len(), |i: int| (s[i], s[i], s[i]))
}

/// The bit that each of `nblocks` blocks is to carry, after checking that the
/// watermark is neither empty nor longer than the number of blocks.
pub fn assign_bits(bits: &Vec<bool>, nblocks: usize, mode: WatermarkMode) -> (r: Result<
    Vec<bool>,
    WatermarkError,
>)
    ensures
        bits@.len() == 0 <==> r == Err::<Vec<bool>, WatermarkError>(
            WatermarkError::EmptyWatermark,
        ),
        bits@.len() > nblocks <==> r == Err::<Vec<bool>, WatermarkError>(
            WatermarkError::CapacityExceeded,
        ),
        r is Ok <==> 0 < bits@.len() <= nblocks,
        r matches Ok(v) ==> v@ == block_bits(bits@, mode_order(mode, nblocks as nat)),
{
    let wm_len = bits.len();
    if wm_len == 0 {
        return Err(WatermarkError::EmptyWatermark);
    }
    if wm_len > nblocks {
        return Err(WatermarkError::CapacityExceeded);
    }
    let perm = permutation_for_mode(mode, nblocks);
    let ghost target = block_bits(bits@, perm.f@);
    let mut r: Vec<bool> = Vec::with_capacity(nblocks);
    let mut i: usize = 0;
    while i < nblocks
        invariant
            i <= nblocks,
            perm.f@.len() == nblocks,
            wm_len == bits@.len(),
            wm_len > 0,
            target == block_bits(bits@, perm.f@),
            r@ == target.take(i as int),
        decreases nblocks - i,
    {
        let pos = perm.corresponding_wmbits_position(i, wm_len);
        r.push(bits[pos]);
        i = i + 1;
        proof {
            assert(r@ =~= target.take(i as int));
        }
    }
    proof {
        assert(r@ =~= target);
    }
    Ok(r)
}

/// The set channel bits of the blocks `js`.
fn count_votes(raw: &Vec<ChannelBits>, js: &Vec<usize>) -> (total: u128)
    requires
        forall|k: int| 0 <= k < js@.len() ==> js@[k] < raw@.len(),
    ensures
        total == votes_over(raw@, js@),
        total <= 3 * js@.len(),
{
    let mut total: u128 = 0;
    let mut k: usize = 0;
    while k < js.len()
        invariant
            k <= js@.len(),
            forall|m: int| 0 <= m < js@.len() ==> js@[m] < raw@.len(),
            total == votes_over(raw@, js@.take(k as int)),
            total <= 3 * k,
        decreases js@.len() - k,
    {
        let (a, b, c) = raw[js[k]];
        if a {
            total = total + 1;
        }
        if b {
            total = total + 1;
        }
        if c {
            total = total + 1;
        }
        proof {
            assert(js@.take(k + 1).drop_last() =~= js@.take(k as int));
        }
        k = k + 1;
    }
    proof {
        assert(js@.take(k as int) =~= js@);
    }
    total
}

/// Every block listed for a bit position is a block index.
proof fn lemma_blocks_in_range(f: Seq<usize>, wm_len: nat, p: nat)
    ensures
        forall|k: int|
            0 <= k < blocks_for_position(f, wm_len, p).len() ==> #[trigger] blocks_for_position(
                f,
                wm_len,
                p,
            )[k] < f.len(),
{
    let js = blocks_for_position(f, wm_len, p);
    assert forall|k: int| 0 <= k < js.len() implies #[trigger] js[k] < f.len() by {
        broadcast use vstd::seq_lib::group_filter_ensures;

        index_range(f.len()).lemma_filter_contains_rev(maps_to(f, wm_len, p), js[k]);
    }
}

/// Decodes the watermark by majority vote over the raw channel bits of the
/// blocks, after checking that the watermark and the block list are not empty.
pub fn vote_bits(raw: &Vec<ChannelBits>, wm_len: usize, mode: WatermarkMode) -> (r: Result<
    Vec<bool>,
    WatermarkError,
>)
    ensures
        wm_len == 0 <==> r == Err::<Vec<bool>, WatermarkError>(WatermarkError::EmptyWatermark),
        wm_len > 0 && raw@.len() == 0 <==> r == Err::<Vec<bool>, WatermarkError>(
            WatermarkError::NoBlocks,
        ),
        r is Ok <==> wm_len > 0 && raw@.len() > 0,
        r matches Ok(v) ==> v@ == decoded_bits(raw@, mode_order(mode, raw@.len()), wm_len as nat),
{
    if wm_len == 0 {
        return Err(WatermarkError::EmptyWatermark);
    }
    let nblocks = raw.len();
    if nblocks == 0 {
        return Err(WatermarkError::NoBlocks);
    }
    let perm = permutation_for_mode(mode, nblocks);
    let ghost target = decoded_bits(raw@, perm.f@, wm_len as nat);
    let mut r: Vec<bool> = Vec::with_capacity(wm_len);
    let mut p: usize = 0;
    while p < wm_len
        invariant
            p <= wm_len,
            perm.f@.len() == nblocks,
            perm.n == nblocks,
            nblocks == raw@.len(),
            target == decoded_bits(raw@, perm.f@, wm_len as nat),
            r@ == target.take(p as int),
        decreases wm_len - p,
    {
        let js = perm.corresponding_block_positions(p, wm_len);
        proof {
            lemma_blocks_in_range(perm.f@, wm_len as nat, p as nat);
            broadcast use vstd::seq_lib::group_filter_ensures;

            assert(js@.len() <= index_range(nblocks as nat).len());
        }
        let total = count_votes(raw, &js);
        let count = js.len() as u128;
        r.push(2 * total >= 3 * count);
        p = p + 1;
        proof {
            assert(r@ =~= target.take(p as int));
        }
    }
    proof {
        assert(r@ =~= target);
    }
    Ok(r)
}

/// Lower and upper bounds on the votes of blocks whose channel votes are bounded.
proof fn lemma_votes_bounded(raw: Seq<ChannelBits>, js: Seq<usize>, lo: nat, hi: nat)
    requires
        forall|k: int|
            0 <= k < js.len() ==> lo <= #[trigger] channel_votes(raw[js[k] as int]) <= hi,
    ensures
        lo * js.len() <= votes_over(raw, js) <= hi * js.len(),
    decreases js.len(),
{
    if js.len() > 0 {
        let rest = js.drop_last();
        assert forall|k: int| 0 <= k < rest.len() implies lo <= #[trigger] channel_votes(
            raw[rest[k] as int],
        ) <= hi by {
            assert(rest[k] == js[k]);
        }
        lemma_votes_bounded(raw, rest, lo, hi);
        let last = channel_votes(raw[js[js.len() - 1] as int]);
        assert(lo <= last <= hi);
        assert(lo * js.len() == lo * rest.len() + lo) by (nonlinear_arith)
            requires
                js.len() == rest.len() + 1,
        ;
        assert(hi * js.len() == hi * rest.len() + hi) by (nonlinear_arith)
            requires
                js.len() == rest.len() + 1,
        ;
    }
}

/// At least two of the three channel bits of `t` equal `b`.
pub open spec fn mostly(t: ChannelBits, b: bool) -> bool {
    (if t.0 == b { 1int } else { 0 }) + (if t.1 == b { 1int } else { 0 }) + (if t.2 == b {
        1int
    } else {
        0
    }) >= 2
}

/// The vote tolerates one wrong channel per block: when at least two of the
/// three channel bits of every block equal the bit that the layout assigned to
/// it, the vote recovers the watermark exactly, for any permutation of the
/// blocks and any watermark of at least one and at most as many bits as there
/// are blocks.
pub proof fn lemma_vote_tolerates_one_channel(
    bits: Seq<bool>,
    perm: Permutation,
    raw: Seq<ChannelBits>,
)
    requires
        perm.wf(),
        0 < bits.len() <= perm.n,
        raw.len() == perm.n,
        forall|j: int| 0 <= j < perm.n ==> #[trigger] mostly(raw[j], block_bits(bits, perm.f@)[j]),
    ensures
        decoded_bits(raw, perm.f@, bits.len()) == bits,
{
    let f = perm.f@;
    let n = perm.n as nat;
    let wm_len = bits.len();
    let dec = decoded_bits(raw, f, wm_len);
    assert forall|p: int| 0 <= p < wm_len implies #[trigger] dec[p] == bits[p] by {
        let js = blocks_for_position(f, wm_len, p as nat);
        lemma_blocks_in_range(f, wm_len, p as nat);
        assert forall|k: int| 0 <= k < js.len() implies #[trigger] mostly(raw[js[k] as int], bits[p]) by {
            broadcast use vstd::seq_lib::group_filter_ensures;

            assert(js[k] < f.len());
            assert(maps_to(f, wm_len, p as nat)(js[k]));
            assert(mostly(raw[js[k] as int], block_bits(bits, f)[js[k] as int]));
        }
        if bits[p] {
            assert forall|k: int| 0 <= k < js.len() implies 2 <= #[trigger] channel_votes(
                raw[js[k] as int],
            ) <= 3 by {
                assert(mostly(raw[js[k] as int], bits[p]));
            }
            lemma_votes_bounded(raw, js, 2, 3);
        } else {
            assert forall|k: int| 0 <= k < js.len() implies 0 <= #[trigger] channel_votes(
                raw[js[k] as int],
            ) <= 1 by {
                assert(mostly(raw[js[k] as int], bits[p]));
            }
            lemma_votes_bounded(raw, js, 0, 1);
            lemma_position_has_block(perm, wm_len, p as nat);
        }
    }
    assert(dec =~= bits);
}

/// With at least as many blocks as bit positions, every position is carried
/// by some block: the one that the permutation sends to the position itself.
proof fn lemma_position_has_block(perm: Permutation, wm_len: nat, p: nat)
    requires
        perm.wf(),
        p < wm_len <= perm.n,
    ensures
        blocks_for_position(perm.f@, wm_len, p).len() > 0,
{
    let f = perm.f@;
    let n = perm.n as nat;
    let pu = p as usize;
    assert(index_range(n)[p as int] == pu);
    assert(index_range(n).contains(pu));
    index_range(n).to_multiset_ensures();
    f.to_multiset_ensures();
    assert(index_range(n).to_multiset().count(pu) > 0);
    assert(f.to_multiset().count(pu) > 0);
    assert(f.contains(pu));
    let j = choose|j: int| 0 <= j < f.len() && f[j] == pu;
    assert(index_range(n)[j] == j as usize);
    vstd::arithmetic::div_mod::lemma_small_mod(p, wm_len);
    assert(maps_to(f, wm_len, p)(j as usize));
    broadcast use vstd::seq_lib::group_filter_ensures;

    index_range(n).lemma_filter_contains(maps_to(f, wm_len, p), j);
}

/// Round trip of the block layout: when every block is read back with the bit
/// that the layout assigned to it, on all three channels, the vote recovers the
/// watermark exactly, for any permutation of the blocks and any watermark of
/// at least one and at most as many bits as there are blocks.
pub proof fn lemma_assign_then_vote(bits: Seq<bool>, perm: Permutation)
    requires
        perm.wf(),
        0 < bits.len() <= perm.n,
    ensures
        decoded_bits(on_all_channels(block_bits(bits, perm.f@)), perm.f@, bits.len()) == bits,
{
    let raw = on_all_channels(block_bits(bits, perm.f@));
    assert forall|j: int| 0 <= j < perm.n implies #[trigger] mostly(
        raw[j],
        block_bits(bits, perm.f@)[j],
    ) by {}
    lemma_vote_tolerates_one_channel(bits, perm, raw);
}

} // verus!
