use crate::config::WatermarkConfig;
use crate::embed::{assign_bits, block_bits, WatermarkError};
use crate::pipeline::{has_plane_shape, plane_of_shape};
use crate::plane::{overwrite, window, Plane};
use crate::strategy::mode_order;
use vstd::arithmetic::div_mod::{lemma_fundamental_div_mod, lemma_fundamental_div_mod_converse};
use vstd::prelude::*;

verus! {

/// Side of the square tiles that the low-frequency subband is cut into.
pub const BLOCK_SIZE: usize = 4;

/// The four subbands of one channel: `(LL, HL, LH, HH)`.
pub type Subbands<T> = (Plane<T>, Plane<T>, Plane<T>, Plane<T>);

/// One tile of a low-frequency subband.
#[derive(Debug)]
pub struct Block<T> {
    /// The `BLOCK_SIZE` by `BLOCK_SIZE` samples.
    pub mat_data: Plane<T>,
}

/// Image data after the wavelet stage.
#[derive(Debug)]
pub struct DwtedYCrBrAMat<T> {
    /// Luma subbands.
    pub y: Subbands<T>,
    /// Blue-difference chroma subbands.
    pub cb: Subbands<T>,
    /// Red-difference chroma subbands.
    pub cr: Subbands<T>,
    /// Alpha, not transformed.
    pub a: Plane<T>,
    /// `(height, width)` before padding.
    pub original_dimensions: (usize, usize),
}

/// The low-frequency subbands cut into tiles; all subbands kept for the way back.
#[derive(Debug)]
pub struct BlockCutted<T> {
    /// Tiles of the luma LL subband, row by row.
    pub y_ll_blocks: Vec<Block<T>>,
    /// Tiles of the blue chroma LL subband, row by row.
    pub cb_ll_blocks: Vec<Block<T>>,
    /// Tiles of the red chroma LL subband, row by row.
    pub cr_ll_blocks: Vec<Block<T>>,
    /// Luma subbands.
    pub y: Subbands<T>,
    /// Blue-difference chroma subbands.
    pub cb: Subbands<T>,
    /// Red-difference chroma subbands.
    pub cr: Subbands<T>,
    /// Alpha.
    pub a: Plane<T>,
    /// `(height, width)` before padding.
    pub original_dimensions: (usize, usize),
    /// `(rows, columns)` of tiles.
    pub blocks_dimensions: (usize, usize),
}

/// Tiles that carry the watermark, with all subbands kept for the way back.
#[derive(Debug)]
pub struct Imbedded<T> {
    /// Luma tiles, row by row.
    pub y_ll_blocks: Vec<Block<T>>,
    /// Blue chroma tiles, row by row.
    pub cb_ll_blocks: Vec<Block<T>>,
    /// Red chroma tiles, row by row.
    pub cr_ll_blocks: Vec<Block<T>>,
    /// Luma subbands.
    pub y: Subbands<T>,
    /// Blue-difference chroma subbands.
    pub cb: Subbands<T>,
    /// Red-difference chroma subbands.
    pub cr: Subbands<T>,
    /// Alpha.
    pub a: Plane<T>,
    /// `(height, width)` before padding.
    pub original_dimensions: (usize, usize),
    /// `(rows, columns)` of tiles.
    pub blocks_dimensions: (usize, usize),
}

/// Subbands with the tiles written back, ready for the inverse wavelet stage.
#[derive(Debug)]
pub struct AssembledYCrBrAMat<T> {
    /// Luma subbands.
    pub y: Subbands<T>,
    /// Blue-difference chroma subbands.
    pub cb: Subbands<T>,
    /// Red-difference chroma subbands.
    pub cr: Subbands<T>,
    /// Alpha.
    pub a: Plane<T>,
    /// `(height, width)` before padding.
    pub original_dimensions: (usize, usize),
}

/// Tile `k` of `m`, for `bw` tiles per row: rows and columns counted row by row.
pub open spec fn tile<T>(m: Seq<Seq<T>>, k: nat, bw: nat) -> Seq<Seq<T>> {
    let b = BLOCK_SIZE as nat;
    window(m, (b * (k / bw)) as int, (b * (k % bw)) as int, b, b)
}

/// The `bh * bw` tiles of `m`, row by row.
pub open spec fn tiles<T>(m: Seq<Seq<T>>, bh: nat, bw: nat) -> Seq<Seq<Seq<T>>> {
    Seq::new(bh * bw, |k: int| tile(m, k as nat, bw))
}

/// The samples of each block.
pub open spec fn block_views<T>(bs: Seq<Block<T>>) -> Seq<Seq<Seq<T>>> {
    bs.map_values(|b: Block<T>| b.mat_data@)
}

/// `n` blocks, each a well-formed `BLOCK_SIZE` square.
pub open spec fn blocks_wf<T: Copy>(bs: Seq<Block<T>>, n: nat) -> bool {
    &&& bs.len() == n
    &&& forall|k: int|
        0 <= k < n ==> plane_of_shape(
            #[trigger] bs[k].mat_data,
            BLOCK_SIZE as nat,
            BLOCK_SIZE as nat,
        )
}

/// `ll` with the tiles `ts` written back in place; samples outside the
/// `bh` by `bw` tiles stay as they are.
pub open spec fn written_back<T>(ll: Seq<Seq<T>>, ts: Seq<Seq<Seq<T>>>, bh: nat, bw: nat) -> Seq<
    Seq<T>,
> {
    let b = BLOCK_SIZE as int;
    Seq::new(
        ll.len(),
        |r: int|
            Seq::new(
                ll[r].len(),
                |c: int|
                    if r < b * bh && c < b * bw {
                        ts[(r / b) * bw + c / b][r % b][c % b]
                    } else {
                        ll[r][c]
                    },
            ),
    )
}

/// `ll` with the first `k` of the tiles `ts` written back.
spec fn written_upto<T>(ll: Seq<Seq<T>>, ts: Seq<Seq<Seq<T>>>, bh: nat, bw: nat, k: int) -> Seq<
    Seq<T>,
> {
    let b = BLOCK_SIZE as int;
    Seq::new(
        ll.len(),
        |r: int|
            Seq::new(
                ll[r].len(),
                |c: int|
                    if r < b * bh && c < b * bw && (r / b) * bw + c / b < k {
                        ts[(r / b) * bw + c / b][r % b][c % b]
                    } else {
                        ll[r][c]
                    },
            ),
    )
}

/// Tile `k` of a grid of `bh` by `bw` tiles lies inside the tiled area.
proof fn lemma_tile_in_range(k: int, bh: int, bw: int)
    requires
        0 <= k < bh * bw,
        bw > 0,
    ensures
        0 <= k / bw < bh,
        0 <= k % bw < bw,
        4 * (k / bw) + 4 <= 4 * bh,
        4 * (k % bw) + 4 <= 4 * bw,
{
    lemma_fundamental_div_mod(k, bw);
    assert(0 <= k / bw < bh) by (nonlinear_arith)
        requires
            0 <= k < bh * bw,
            bw > 0,
            k == bw * (k / bw) + k % bw,
            0 <= k % bw < bw,
    ;
}

/// Sample `(r, c)` of the tiled area lies in tile `(r / 4) * bw + c / 4`, at
/// offset `(r % 4, c % 4)`; it lies in tile `k` exactly when that index is `k`.
proof fn lemma_tile_cell(r: int, c: int, k: int, bw: int)
    requires
        0 <= r,
        0 <= c < 4 * bw,
        0 <= k,
        bw > 0,
    ensures
        ((r / 4) * bw + c / 4 == k) <==> (4 * (k / bw) <= r < 4 * (k / bw) + 4 && 4 * (k % bw)
            <= c < 4 * (k % bw) + 4),
        r % 4 == r - 4 * (r / 4),
        c % 4 == c - 4 * (c / 4),
{
    lemma_fundamental_div_mod(r, 4);
    lemma_fundamental_div_mod(c, 4);
    lemma_fundamental_div_mod(k, bw);
    let i = r / 4;
    let j = c / 4;
    assert(0 <= j < bw);
    if i * bw + j == k {
        lemma_fundamental_div_mod_converse(k, bw, i, j);
    }
    if 4 * (k / bw) <= r < 4 * (k / bw) + 4 && 4 * (k % bw) <= c < 4 * (k % bw) + 4 {
        lemma_fundamental_div_mod_converse(r, 4, k / bw, r - 4 * (k / bw));
        lemma_fundamental_div_mod_converse(c, 4, k % bw, c - 4 * (k % bw));
        assert((k / bw) * bw == bw * (k / bw)) by (nonlinear_arith);
    }
}

/// Cuts the top-left `bh` by `bw` tiles out of `ll`, row by row.
fn cut_plane<T: Copy>(ll: &Plane<T>, bh: usize, bw: usize) -> (bs: Vec<Block<T>>)
    requires
        ll.wf(),
        bh == ll.height / BLOCK_SIZE,
        bw == ll.width / BLOCK_SIZE,
    ensures
        blocks_wf(bs@, (bh * bw) as nat),
        block_views(bs@) == tiles(ll@, bh as nat, bw as nat),
{
    let mut bs: Vec<Block<T>> = Vec::new();
    let mut i: usize = 0;
    while i < bh
        invariant
            i <= bh,
            ll.wf(),
            bh == ll.height / BLOCK_SIZE,
            bw == ll.width / BLOCK_SIZE,
            blocks_wf(bs@, (i * bw) as nat),
            forall|m: int| 0 <= m < i * bw ==> #[trigger] bs@[m].mat_data@ == tile(ll@, m as nat, bw as nat),
        decreases bh - i,
    {
        let mut j: usize = 0;
        while j < bw
            invariant
                i < bh,
                j <= bw,
                ll.wf(),
                bh == ll.height / BLOCK_SIZE,
                bw == ll.width / BLOCK_SIZE,
                blocks_wf(bs@, (i * bw + j) as nat),
                forall|m: int|
                    0 <= m < i * bw + j ==> #[trigger] bs@[m].mat_data@ == tile(
                        ll@,
                        m as nat,
                        bw as nat,
                    ),
            decreases bw - j,
        {
            proof {
                lemma_fundamental_div_mod_converse(i * bw + j, bw as int, i as int, j as int);
                assert(4 * i + 4 <= ll.height && 4 * j + 4 <= ll.width);
            }
            let mat_data = ll.submatrix(i * BLOCK_SIZE, j * BLOCK_SIZE, BLOCK_SIZE, BLOCK_SIZE);
            proof {
                assert(mat_data@ =~= tile(ll@, (i * bw + j) as nat, bw as nat));
            }
            bs.push(Block { mat_data });
            j = j + 1;
        }
        proof {
            assert(i * bw + bw == (i + 1) * bw) by (nonlinear_arith);
        }
        i = i + 1;
    }
    proof {
        assert(block_views(bs@) =~= tiles(ll@, bh as nat, bw as nat));
    }
    bs
}

/// Writes the tiles `bs` back into `ll`, row by row.
fn write_tiles<T: Copy>(ll: &mut Plane<T>, bs: &Vec<Block<T>>, bh: usize, bw: usize)
    requires
        old(ll).wf(),
        bh == old(ll).height / BLOCK_SIZE,
        bw == old(ll).width / BLOCK_SIZE,
        blocks_wf(bs@, (bh * bw) as nat),
    ensures
        final(ll).wf(),
        final(ll).height == old(ll).height,
        final(ll).width == old(ll).width,
        final(ll)@ == written_back(old(ll)@, block_views(bs@), bh as nat, bw as nat),
{
    let ghost orig = ll@;
    let ghost ts = block_views(bs@);
    let n = bs.len();
    let mut k: usize = 0;
    proof {
        assert forall|r: int, c: int| 0 <= r && 0 <= c implies #[trigger] ((r / 4) * bw + c / 4) >= 0 by {
            assert((r / 4) * bw >= 0) by (nonlinear_arith)
                requires
                    r >= 0,
            ;
        }
        let start = written_upto(orig, ts, bh as nat, bw as nat, 0);
        assert forall|r: int| 0 <= r < start.len() implies #[trigger] ll@[r] =~= start[r] by {
            assert forall|c: int| 0 <= c < start[r].len() implies ll@[r][c] == start[r][c] by {
                assert(((r / 4) * bw + c / 4) >= 0);
            }
        }
        assert(ll@ =~= start);
    }
    while k < n
        invariant
            k <= n,
            n == bh * bw,
            ll.wf(),
            ll.height == old(ll).height,
            ll.width == old(ll).width,
            orig == old(ll)@,
            old(ll).wf(),
            ts == block_views(bs@),
            bh == ll.height / BLOCK_SIZE,
            bw == ll.width / BLOCK_SIZE,
            blocks_wf(bs@, (bh * bw) as nat),
            ll@ == written_upto(orig, ts, bh as nat, bw as nat, k as int),
        decreases n - k,
    {
        proof {
            lemma_tile_in_range(k as int, bh as int, bw as int);
        }
        let i = k / bw;
        let j = k % bw;
        let ghost before = ll@;
        ll.write_submatrix(i * BLOCK_SIZE, j * BLOCK_SIZE, &bs[k].mat_data);
        proof {
            let next = written_upto(orig, ts, bh as nat, bw as nat, k + 1);
            assert(ts[k as int] == bs@[k as int].mat_data@);
            assert forall|r: int| 0 <= r < next.len() implies #[trigger] ll@[r] =~= next[r] by {
                assert forall|c: int| 0 <= c < next[r].len() implies ll@[r][c] == next[r][c] by {
                    if c < 4 * bw {
                        lemma_tile_cell(r, c, k as int, bw as int);
                    } else {
                        assert(4 * (k as int % bw as int) + 4 <= 4 * bw);
                    }
                }
            }
            assert(ll@ =~= next);
        }
        k = k + 1;
    }
    proof {
        let target = written_back(orig, ts, bh as nat, bw as nat);
        assert forall|r: int| 0 <= r < target.len() implies #[trigger] ll@[r] =~= target[r] by {
            assert forall|c: int| 0 <= c < target[r].len() implies ll@[r][c] == target[r][c] by {
                if r < 4 * bh && c < 4 * bw {
                    lemma_fundamental_div_mod(r, 4);
                    lemma_fundamental_div_mod(c, 4);
                    assert((r / 4) * bw + c / 4 < bh * bw) by (nonlinear_arith)
                        requires
                            0 <= r / 4 < bh,
                            0 <= c / 4 < bw,
                    ;
                }
            }
        }
        assert(ll@ =~= target);
    }
}

impl<T: Copy> DwtedYCrBrAMat<T> {
    /// The three low-frequency subbands are well formed and of one size.
    pub open spec fn wf(&self) -> bool {
        let h = self.y.0.height as nat;
        let w = self.y.0.width as nat;
        &&& plane_of_shape(self.y.0, h, w)
        &&& plane_of_shape(self.cb.0, h, w)
        &&& plane_of_shape(self.cr.0, h, w)
    }

    /// Whether the three low-frequency subbands are well formed and of one size.
    pub fn is_well_formed(&self) -> (ok: bool)
        ensures
            ok == self.wf(),
    {
        let h = self.y.0.height;
        let w = self.y.0.width;
        has_plane_shape(&self.y.0, h, w) && has_plane_shape(&self.cb.0, h, w) && has_plane_shape(
            &self.cr.0,
            h,
            w,
        )
    }

    /// Cuts the low-frequency subband of each channel into `BLOCK_SIZE`
    /// tiles, row by row; rows and columns past the last whole tile are left
    /// out. All subbands are kept.
    pub fn cut(self) -> (r: BlockCutted<T>)
        requires
            self.wf(),
        ensures
            r.wf(),
            r.blocks_dimensions == (
                self.y.0.height / BLOCK_SIZE,
                self.y.0.width / BLOCK_SIZE,
            ),
            block_views(r.y_ll_blocks@) == tiles(
                self.y.0@,
                r.blocks_dimensions.0 as nat,
                r.blocks_dimensions.1 as nat,
            ),
            block_views(r.cb_ll_blocks@) == tiles(
                self.cb.0@,
                r.blocks_dimensions.0 as nat,
                r.blocks_dimensions.1 as nat,
            ),
            block_views(r.cr_ll_blocks@) == tiles(
                self.cr.0@,
                r.blocks_dimensions.0 as nat,
                r.blocks_dimensions.1 as nat,
            ),
            r.y == self.y,
            r.cb == self.cb,
            r.cr == self.cr,
            r.a == self.a,
            r.original_dimensions == self.original_dimensions,
    {
        let bh = self.y.0.height / BLOCK_SIZE;
        let bw = self.y.0.width / BLOCK_SIZE;
        let y_ll_blocks = cut_plane(&self.y.0, bh, bw);
        let cb_ll_blocks = cut_plane(&self.cb.0, bh, bw);
        let cr_ll_blocks = cut_plane(&self.cr.0, bh, bw);
        BlockCutted {
            y_ll_blocks,
            cb_ll_blocks,
            cr_ll_blocks,
            y: self.y,
            cb: self.cb,
            cr: self.cr,
            a: self.a,
            original_dimensions: self.original_dimensions,
            blocks_dimensions: (bh, bw),
        }
    }
}

/// Tiles and subbands agree: the low-frequency subbands share one size, the
/// tile grid is the one that size gives, and each channel has one square
/// block per tile.
pub open spec fn tiling_wf<T: Copy>(
    y: Subbands<T>,
    cb: Subbands<T>,
    cr: Subbands<T>,
    blocks_dimensions: (usize, usize),
    y_ll_blocks: Seq<Block<T>>,
    cb_ll_blocks: Seq<Block<T>>,
    cr_ll_blocks: Seq<Block<T>>,
) -> bool {
    let h = y.0.height;
    let w = y.0.width;
    let n = (blocks_dimensions.0 * blocks_dimensions.1) as nat;
    &&& plane_of_shape(y.0, h as nat, w as nat)
    &&& plane_of_shape(cb.0, h as nat, w as nat)
    &&& plane_of_shape(cr.0, h as nat, w as nat)
    &&& blocks_dimensions == (h / BLOCK_SIZE, w / BLOCK_SIZE)
    &&& blocks_wf(y_ll_blocks, n)
    &&& blocks_wf(cb_ll_blocks, n)
    &&& blocks_wf(cr_ll_blocks, n)
}

impl<T: Copy> BlockCutted<T> {
    pub open spec fn wf(&self) -> bool {
        tiling_wf(
            self.y,
            self.cb,
            self.cr,
            self.blocks_dimensions,
            self.y_ll_blocks@,
            self.cb_ll_blocks@,
            self.cr_ll_blocks@,
        )
    }

    /// The number of tiles per channel.
    pub fn nblocks(&self) -> (n: usize)
        requires
            self.wf(),
        ensures
            n == self.blocks_dimensions.0 * self.blocks_dimensions.1,
            n == self.y_ll_blocks@.len(),
    {
        self.y_ll_blocks.len()
    }

    /// The bit that each tile is to carry under `config`, or the reason the
    /// watermark does not fit; nothing is modified either way.
    pub fn watermark_bits_per_block(&self, bits: &Vec<bool>, config: &WatermarkConfig) -> (r:
        Result<Vec<bool>, WatermarkError>)
        requires
            self.wf(),
        ensures
            bits@.len() == 0 <==> r == Err::<Vec<bool>, WatermarkError>(
                WatermarkError::EmptyWatermark,
            ),
            bits@.len() > self.y_ll_blocks@.len() <==> r == Err::<Vec<bool>, WatermarkError>(
                WatermarkError::CapacityExceeded,
            ),
            r is Ok <==> 0 < bits@.len() <= self.y_ll_blocks@.len(),
            r matches Ok(v) ==> v@ == block_bits(
                bits@,
                mode_order(config.mode, self.y_ll_blocks@.len()),
            ),
    {
        assign_bits(bits, self.nblocks(), config.mode)
    }

    /// Replaces the tiles of the three channels by `y`, `cb` and `cr`, which
    /// must hold one square block per tile each.
    pub fn replace_blocks(self, y: Vec<Block<T>>, cb: Vec<Block<T>>, cr: Vec<Block<T>>) -> (r:
        Result<Imbedded<T>, WatermarkError>)
        requires
            self.wf(),
        ensures
            r is Ok <==> {
                let n = self.y_ll_blocks@.len();
                blocks_wf(y@, n) && blocks_wf(cb@, n) && blocks_wf(cr@, n)
            },
            r is Err ==> r == Err::<Imbedded<T>, WatermarkError>(WatermarkError::ShapeMismatch),
            r matches Ok(im) ==> im.wf() && im.y_ll_blocks == y && im.cb_ll_blocks == cb
                && im.cr_ll_blocks == cr && im.y == self.y && im.cb == self.cb && im.cr == self.cr
                && im.a == self.a && im.original_dimensions == self.original_dimensions
                && im.blocks_dimensions == self.blocks_dimensions,
    {
        let n = self.nblocks();
        if !blocks_have_shape(&y, n) || !blocks_have_shape(&cb, n) || !blocks_have_shape(&cr, n) {
            return Err(WatermarkError::ShapeMismatch);
        }
        Ok(
            Imbedded {
                y_ll_blocks: y,
                cb_ll_blocks: cb,
                cr_ll_blocks: cr,
                y: self.y,
                cb: self.cb,
                cr: self.cr,
                a: self.a,
                original_dimensions: self.original_dimensions,
                blocks_dimensions: self.blocks_dimensions,
            },
        )
    }
}

/// Whether `bs` holds `n` well-formed square blocks.
fn blocks_have_shape<T: Copy>(bs: &Vec<Block<T>>, n: usize) -> (ok: bool)
    ensures
        ok == blocks_wf(bs@, n as nat),
{
    if bs.len() != n {
        return false;
    }
    let mut k: usize = 0;
    while k < n
        invariant
            k <= n,
            bs@.len() == n,
            forall|m: int|
                0 <= m < k ==> plane_of_shape(
                    #[trigger] bs@[m].mat_data,
                    BLOCK_SIZE as nat,
                    BLOCK_SIZE as nat,
                ),
        decreases n - k,
    {
        let p = &bs[k].mat_data;
        if p.height != BLOCK_SIZE || p.width != BLOCK_SIZE || !p.is_wf() {
            return false;
        }
        k = k + 1;
    }
    true
}

impl<T: Copy> Imbedded<T> {
    pub open spec fn wf(&self) -> bool {
        tiling_wf(
            self.y,
            self.cb,
            self.cr,
            self.blocks_dimensions,
            self.y_ll_blocks@,
            self.cb_ll_blocks@,
            self.cr_ll_blocks@,
        )
    }

    /// Writes every tile back into the low-frequency subband of its channel;
    /// the other subbands, alpha and the original size are carried over.
    pub fn assemble(self) -> (r: AssembledYCrBrAMat<T>)
        requires
            self.wf(),
        ensures
            r.y.0@ == written_back(
                self.y.0@,
                block_views(self.y_ll_blocks@),
                self.blocks_dimensions.0 as nat,
                self.blocks_dimensions.1 as nat,
            ),
            r.cb.0@ == written_back(
                self.cb.0@,
                block_views(self.cb_ll_blocks@),
                self.blocks_dimensions.0 as nat,
                self.blocks_dimensions.1 as nat,
            ),
            r.cr.0@ == written_back(
                self.cr.0@,
                block_views(self.cr_ll_blocks@),
                self.blocks_dimensions.0 as nat,
                self.blocks_dimensions.1 as nat,
            ),
            plane_of_shape(r.y.0, self.y.0.height as nat, self.y.0.width as nat),
            plane_of_shape(r.cb.0, self.y.0.height as nat, self.y.0.width as nat),
            plane_of_shape(r.cr.0, self.y.0.height as nat, self.y.0.width as nat),
            r.y.1 == self.y.1 && r.y.2 == self.y.2 && r.y.3 == self.y.3,
            r.cb.1 == self.cb.1 && r.cb.2 == self.cb.2 && r.cb.3 == self.cb.3,
            r.cr.1 == self.cr.1 && r.cr.2 == self.cr.2 && r.cr.3 == self.cr.3,
            r.a == self.a,
            r.original_dimensions == self.original_dimensions,
    {
        let (bh, bw) = self.blocks_dimensions;
        let (mut y_ll, y_hl, y_lh, y_hh) = self.y;
        let (mut cb_ll, cb_hl, cb_lh, cb_hh) = self.cb;
        let (mut cr_ll, cr_hl, cr_lh, cr_hh) = self.cr;
        write_tiles(&mut y_ll, &self.y_ll_blocks, bh, bw);
        write_tiles(&mut cb_ll, &self.cb_ll_blocks, bh, bw);
        write_tiles(&mut cr_ll, &self.cr_ll_blocks, bh, bw);
        AssembledYCrBrAMat {
            y: (y_ll, y_hl, y_lh, y_hh),
            cb: (cb_ll, cb_hl, cb_lh, cb_hh),
            cr: (cr_ll, cr_hl, cr_lh, cr_hh),
            a: self.a,
            original_dimensions: self.original_dimensions,
        }
    }
}

/// Writing the tiles of a subband back into it, unchanged, gives the subband
/// itself: cutting and reassembling lose and move nothing.
pub proof fn lemma_write_back_own_tiles<T>(ll: Seq<Seq<T>>, h: nat, w: nat)
    requires
        crate::plane::has_shape(ll, h, w),
    ensures
        written_back(
            ll,
            tiles(ll, h / BLOCK_SIZE as nat, w / BLOCK_SIZE as nat),
            h / BLOCK_SIZE as nat,
            w / BLOCK_SIZE as nat,
        ) == ll,
{
    let bh = h / 4;
    let bw = w / 4;
    let out = written_back(ll, tiles(ll, bh, bw), bh, bw);
    assert forall|r: int| 0 <= r < h implies #[trigger] out[r] =~= ll[r] by {
        assert forall|c: int| 0 <= c < w implies out[r][c] == ll[r][c] by {
            if r < 4 * bh && c < 4 * bw {
                let k = (r / 4) * bw + c / 4;
                lemma_fundamental_div_mod(r, 4);
                lemma_fundamental_div_mod(c, 4);
                assert(0 <= k < bh * bw) by (nonlinear_arith)
                    requires
                        0 <= r / 4 < bh,
                        0 <= c / 4 < bw,
                        k == (r / 4) * bw + c / 4,
                ;
                lemma_tile_cell(r, c, k, bw as int);
                lemma_tile_in_range(k, bh as int, bw as int);
            }
        }
    }
    assert(out =~= ll);
}

} // verus!
