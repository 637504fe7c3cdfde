use rand::seq::SliceRandom;
use rand::SeedableRng;
use rand_pcg::Pcg64;
use vstd::prelude::*;

verus! {

/// The order into which a seeded shuffle puts a sequence.
pub uninterp spec fn pcg_shuffle(s: Seq<usize>, seed: u64) -> Seq<usize>;

/// Relies on `rand_pcg::Pcg64::seed_from_u64` (rand_core 0.6) and rand 0.8's
/// `SliceRandom::shuffle`: the generator's whole state is derived from the
/// seed, and the shuffle is a Fisher–Yates pass that only swaps elements of
/// the slice, so the outcome is a rearrangement of the input that depends on
/// the input and the seed alone. The two calls form one unit here: the
/// generator never leaves this function.
#[verifier::external_body]
fn seeded_shuffle(v: &mut Vec<usize>, seed: u64)
    ensures
        final(v)@ == pcg_shuffle(old(v)@, seed),
        final(v)@.to_multiset() == old(v)@.to_multiset(),
{
    let mut rng = Pcg64::seed_from_u64(seed);
    v.shuffle(&mut rng);
}

/// The indices `0, 1, ..., n - 1` in order.
pub open spec fn index_range(n: nat) -> Seq<usize> {
    Seq::new(n, |i: int| i as usize)
}

/// The block order drawn for `n` blocks from `seed`.
pub open spec fn seeded_order(n: nat, seed: u64) -> Seq<usize> {
    pcg_shuffle(index_range(n), seed)
}

/// `f` lists each of `0 .. n` exactly once.
pub open spec fn is_permutation_of_range(f: Seq<usize>, n: nat) -> bool {
    f.to_multiset() == index_range(n).to_multiset()
}

/// The blocks among `0 .. f.len()` whose image under `f` falls on bit
/// position `p` of a watermark of `wm_len` bits, in increasing order.
pub open spec fn blocks_for_position(f: Seq<usize>, wm_len: nat, p: nat) -> Seq<usize>
    recommends
        wm_len > 0,
{
    index_range(f.len()).filter(maps_to(f, wm_len, p))
}

/// Whether block `j` carries bit position `p` under `f`.
pub open spec fn maps_to(f: Seq<usize>, wm_len: nat, p: nat) -> spec_fn(usize) -> bool {
    |j: usize| f[j as int] as nat % wm_len == p
}

/// A mapping between block indices and watermark bit positions.
#[derive(Clone, Debug)]
pub struct Permutation {
    /// The image of each block index.
    pub f: Vec<usize>,
    /// The number of blocks.
    pub n: usize,
}

impl Permutation {
    /// `f` is a permutation of `0 .. n`.
    pub open spec fn wf(&self) -> bool {
        &&& self.f@.len() == self.n
        &&& is_permutation_of_range(self.f@, self.n as nat)
    }

    /// The identity on `0 .. n`.
    pub fn identity(n: usize) -> (r: Permutation)
        ensures
            r.n == n,
            r.f@ == index_range(n as nat),
            r.wf(),
    {
        let f = range_vec(n);
        Permutation { f, n }
    }

    /// A permutation of `0 .. n` drawn from a generator seeded with `seed`;
    /// the same `(n, seed)` gives the same permutation.
    pub fn new(n: usize, seed: u64) -> (r: Permutation)
        ensures
            r.n == n,
            r.f@ == seeded_order(n as nat, seed),
            r.wf(),
    {
        let mut f = range_vec(n);
        seeded_shuffle(&mut f, seed);
        proof {
            broadcast use vstd::seq_lib::group_to_multiset_ensures;

            assert(f@.len() == f@.to_multiset().len());
        }
        Permutation { f, n }
    }

    /// The watermark bit position that block `block_position` carries.
    pub fn corresponding_wmbits_position(&self, block_position: usize, wm_len: usize) -> (r:
        usize)
        requires
            block_position < self.f@.len(),
            wm_len > 0,
        ensures
            r == self.f@[block_position as int] % wm_len,
            r < wm_len,
    {
        self.f[block_position] % wm_len
    }

    /// All blocks among `0 .. n` that carry watermark bit position
    /// `wmbits_position`, in increasing order.
    pub fn corresponding_block_positions(&self, wmbits_position: usize, wm_len: usize) -> (r: Vec<
        usize,
    >)
        requires
            self.f@.len() == self.n,
            wm_len > 0,
        ensures
            r@ == blocks_for_position(self.f@, wm_len as nat, wmbits_position as nat),
    {
        let ghost pred = maps_to(self.f@, wm_len as nat, wmbits_position as nat);
        let mut r: Vec<usize> = Vec::new();
        let mut i: usize = 0;
        while i < self.n
            invariant
                i <= self.n,
                self.f@.len() == self.n,
                wm_len > 0,
                pred == maps_to(self.f@, wm_len as nat, wmbits_position as nat),
                r@ == index_range(i as nat).filter(pred),
            decreases self.n - i,
        {
            proof {
                let next = index_range((i + 1) as nat);
                assert(next.drop_last() =~= index_range(i as nat));
                reveal(Seq::filter);
                assert(next.filter(pred) == if pred(i) {
                    index_range(i as nat).filter(pred).push(i)
                } else {
                    index_range(i as nat).filter(pred)
                });
            }
            if self.f[i] % wm_len == wmbits_position {
                r.push(i);
            }
            i = i + 1;
        }
        proof {
            assert(index_range(self.n as nat) =~= index_range(self.f@.len()));
        }
        r
    }
}

/// Two permutations built by `Permutation::new` with the same size and seed
/// are identical: the seeded order is a function of `(n, seed)` alone.
pub proof fn lemma_same_seed_same_permutation(a: Permutation, b: Permutation, n: usize, seed: u64)
    requires
        a.n == n && a.f@ == seeded_order(n as nat, seed),
        b.n == n && b.f@ == seeded_order(n as nat, seed),
    ensures
        a.f@ == b.f@,
        a.n == b.n,
{
}

/// The vector `[0, 1, ..., n - 1]`.
fn range_vec(n: usize) -> (r: Vec<usize>)
    ensures
        r@ == index_range(n as nat),
{
    let mut r: Vec<usize> = Vec::with_capacity(n);
    let mut i: usize = 0;
    while i < n
        invariant
            i <= n,
            r@ == index_range(i as nat),
        decreases n - i,
    {
        r.push(i);
        i = i + 1;
        proof {
            assert(r@ =~= index_range(i as nat));
        }
    }
    r
}

/// The permutation that a mode lays over `n` blocks: the identity for
/// `Normal`, the seeded order for `Strategy`.
pub open spec fn mode_order(mode: crate::config::WatermarkMode, n: nat) -> Seq<usize> {
    match mode {
        crate::config::WatermarkMode::Normal => index_range(n),
        crate::config::WatermarkMode::Strategy(seed) => seeded_order(n, seed),
    }
}

/// The permutation that `mode` lays over `n` blocks.
pub fn permutation_for_mode(mode: crate::config::WatermarkMode, n: usize) -> (r: Permutation)
    ensures
        r.n == n,
        r.f@ == mode_order(mode, n as nat),
        r.wf(),
{
    match mode {
        crate::config::WatermarkMode::Normal => Permutation::identity(n),
        crate::config::WatermarkMode::Strategy(seed) => Permutation::new(n, seed),
    }
}

} // verus!
