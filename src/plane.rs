use vstd::prelude::*;

verus! {

/// A rectangular grid of samples, stored row by row.
#[derive(Clone, Debug)]
pub struct Plane<T> {
    /// Number of rows.
    pub height: usize,
    /// Number of columns.
    pub width: usize,
    /// The rows, each `width` samples long.
    pub cells: Vec<Vec<T>>,
}

/// `m` has `h` rows of `w` samples each.
pub open spec fn has_shape<T>(m: Seq<Seq<T>>, h: nat, w: nat) -> bool {
    &&& m.len() == h
    &&& forall|r: int| 0 <= r < h ==> #[trigger] m[r].len() == w
}

/// An `h` by `w` grid filled with `fill`.
pub open spec fn filled<T>(h: nat, w: nat, fill: T) -> Seq<Seq<T>> {
    Seq::new(h, |r: int| Seq::new(w, |c: int| fill))
}

/// The `h` by `w` window of `m` whose top-left sample is at `(r0, c0)`.
pub open spec fn window<T>(m: Seq<Seq<T>>, r0: int, c0: int, h: nat, w: nat) -> Seq<Seq<T>> {
    Seq::new(h, |r: int| Seq::new(w, |c: int| m[r0 + r][c0 + c]))
}

/// `m` with the window at `(r0, c0)` overwritten by `src`.
pub open spec fn overwrite<T>(m: Seq<Seq<T>>, r0: int, c0: int, src: Seq<Seq<T>>) -> Seq<Seq<T>> {
    Seq::new(
        m.len(),
        |r: int|
            Seq::new(
                m[r].len(),
                |c: int|
                    if r0 <= r < r0 + src.len() && c0 <= c < c0 + src[r - r0].len() {
                        src[r - r0][c - c0]
                    } else {
                        m[r][c]
                    },
            ),
    )
}

impl<T> View for Plane<T> {
    type V = Seq<Seq<T>>;

    open spec fn view(&self) -> Seq<Seq<T>> {
        self.cells@.map_values(|row: Vec<T>| row@)
    }
}

/// A copy of a row.
fn copy_row<T: Copy>(v: &Vec<T>) -> (r: Vec<T>)
    ensures
        r@ == v@,
{
    let mut r: Vec<T> = Vec::with_capacity(v.len());
    let mut c: usize = 0;
    while c < v.len()
        invariant
            c <= v@.len(),
            r@ == v@.take(c as int),
        decreases v@.len() - c,
    {
        r.push(v[c]);
        c = c + 1;
        proof {
            assert(r@ =~= v@.take(c as int));
        }
    }
    proof {
        assert(r@ =~= v@);
    }
    r
}

impl<T: Copy> Plane<T> {
    /// The row count and width agree with the rows held.
    pub open spec fn wf(&self) -> bool {
        &&& self.cells@.len() == self.height
        &&& forall|r: int| 0 <= r < self.height ==> #[trigger] self.cells@[r]@.len() == self.width
    }

    /// An `height` by `width` plane filled with `fill`.
    pub fn new(height: usize, width: usize, fill: T) -> (p: Plane<T>)
        ensures
            p.wf(),
            p.height == height,
            p.width == width,
            p@ == filled(height as nat, width as nat, fill),
    {
        let mut cells: Vec<Vec<T>> = Vec::with_capacity(height);
        let mut r: usize = 0;
        while r < height
            invariant
                r <= height,
                cells@.len() == r,
                forall|k: int| 0 <= k < r ==> #[trigger] cells@[k]@ == Seq::new(width as nat, |c: int| fill),
            decreases height - r,
        {
            let mut row: Vec<T> = Vec::with_capacity(width);
            let mut c: usize = 0;
            while c < width
                invariant
                    c <= width,
                    row@ == Seq::new(c as nat, |k: int| fill),
                decreases width - c,
            {
                row.push(fill);
                c = c + 1;
                proof {
                    assert(row@ =~= Seq::new(c as nat, |k: int| fill));
                }
            }
            cells.push(row);
            r = r + 1;
        }
        let p = Plane { height, width, cells };
        proof {
            assert(p@ =~= filled(height as nat, width as nat, fill));
        }
        p
    }

    /// Whether the row count and width agree with the rows held.
    pub fn is_wf(&self) -> (ok: bool)
        ensures
            ok == self.wf(),
    {
        if self.cells.len() != self.height {
            return false;
        }
        let mut r: usize = 0;
        while r < self.height
            invariant
                r <= self.height,
                self.cells@.len() == self.height,
                forall|k: int| 0 <= k < r ==> #[trigger] self.cells@[k]@.len() == self.width,
            decreases self.height - r,
        {
            if self.cells[r].len() != self.width {
                return false;
            }
            r = r + 1;
        }
        true
    }

    /// Number of rows.
    pub fn nrows(&self) -> (r: usize)
        ensures
            r == self.height,
    {
        self.height
    }

    /// Number of columns.
    pub fn ncols(&self) -> (r: usize)
        ensures
            r == self.width,
    {
        self.width
    }

    /// The sample at row `r`, column `c`.
    pub fn at(&self, r: usize, c: usize) -> (v: T)
        requires
            self.wf(),
            r < self.height,
            c < self.width,
        ensures
            v == self@[r as int][c as int],
    {
        self.cells[r][c]
    }

    /// Appends a row of `fill` at the bottom.
    pub fn push_row(&mut self, fill: T)
        requires
            old(self).wf(),
            old(self).height < usize::MAX,
        ensures
            final(self).wf(),
            final(self).height == old(self).height + 1,
            final(self).width == old(self).width,
            final(self)@ == old(self)@.push(Seq::new(old(self).width as nat, |c: int| fill)),
    {
        let mut row: Vec<T> = Vec::with_capacity(self.width);
        let mut c: usize = 0;
        while c < self.width
            invariant
                c <= self.width,
                row@ == Seq::new(c as nat, |k: int| fill),
            decreases self.width - c,
        {
            row.push(fill);
            c = c + 1;
            proof {
                assert(row@ =~= Seq::new(c as nat, |k: int| fill));
            }
        }
        let ghost before = self@;
        self.cells.push(row);
        self.height = self.height + 1;
        proof {
            assert(self@ =~= before.push(Seq::new(self.width as nat, |c: int| fill)));
        }
    }

    /// Appends a column of `fill` at the right.
    pub fn push_col(&mut self, fill: T)
        requires
            old(self).wf(),
            old(self).width < usize::MAX,
        ensures
            final(self).wf(),
            final(self).height == old(self).height,
            final(self).width == old(self).width + 1,
            final(self)@ == Seq::new(
                old(self).height as nat,
                |r: int| old(self)@[r].push(fill),
            ),
    {
        let ghost before = self@;
        let mut r: usize = 0;
        while r < self.height
            invariant
                r <= self.height,
                self.height == old(self).height,
                self.width == old(self).width,
                self.width < usize::MAX,
                self.cells@.len() == self.height,
                before == old(self)@,
                old(self).wf(),
                forall|k: int| 0 <= k < r ==> #[trigger] self.cells@[k]@ == before[k].push(fill),
                forall|k: int| r <= k < self.height ==> #[trigger] self.cells@[k]@ == before[k],
            decreases self.height - r,
        {
            let mut row = copy_row(&self.cells[r]);
            row.push(fill);
            self.cells.set(r, row);
            r = r + 1;
        }
        self.width = self.width + 1;
        proof {
            assert(self@ =~= Seq::new(before.len(), |r: int| before[r].push(fill)));
        }
    }

    /// A copy of the `h` by `w` window whose top-left sample is at `(r0, c0)`.
    pub fn submatrix(&self, r0: usize, c0: usize, h: usize, w: usize) -> (p: Plane<T>)
        requires
            self.wf(),
            r0 + h <= self.height,
            c0 + w <= self.width,
        ensures
            p.wf(),
            p.height == h,
            p.width == w,
            p@ == window(self@, r0 as int, c0 as int, h as nat, w as nat),
    {
        let mut cells: Vec<Vec<T>> = Vec::with_capacity(h);
        let mut r: usize = 0;
        while r < h
            invariant
                r <= h,
                self.wf(),
                r0 + h <= self.height,
                c0 + w <= self.width,
                cells@.len() == r,
                forall|k: int|
                    0 <= k < r ==> #[trigger] cells@[k]@ == Seq::new(
                        w as nat,
                        |c: int| self@[r0 + k][c0 + c],
                    ),
            decreases h - r,
        {
            let mut row: Vec<T> = Vec::with_capacity(w);
            let mut c: usize = 0;
            while c < w
                invariant
                    c <= w,
                    r < h,
                    self.wf(),
                    r0 + h <= self.height,
                    c0 + w <= self.width,
                    row@ == Seq::new(c as nat, |k: int| self@[r0 + r][c0 + k]),
                decreases w - c,
            {
                row.push(self.cells[r0 + r][c0 + c]);
                c = c + 1;
                proof {
                    assert(row@ =~= Seq::new(c as nat, |k: int| self@[r0 + r][c0 + k]));
                }
            }
            cells.push(row);
            r = r + 1;
        }
        let p = Plane { height: h, width: w, cells };
        proof {
            assert(p@ =~= window(self@, r0 as int, c0 as int, h as nat, w as nat));
        }
        p
    }

    /// Overwrites the window whose top-left sample is at `(r0, c0)` with `src`.
    pub fn write_submatrix(&mut self, r0: usize, c0: usize, src: &Plane<T>)
        requires
            old(self).wf(),
            src.wf(),
            r0 + src.height <= old(self).height,
            c0 + src.width <= old(self).width,
        ensures
            final(self).wf(),
            final(self).height == old(self).height,
            final(self).width == old(self).width,
            final(self)@ == overwrite(old(self)@, r0 as int, c0 as int, src@),
    {
        let ghost before = self@;
        let ghost target = overwrite(before, r0 as int, c0 as int, src@);
        let mut r: usize = 0;
        while r < src.height
            invariant
                r <= src.height,
                src.wf(),
                self.height == old(self).height,
                self.width == old(self).width,
                r0 + src.height <= self.height,
                c0 + src.width <= self.width,
                self.cells@.len() == self.height,
                before == old(self)@,
                old(self).wf(),
                target == overwrite(before, r0 as int, c0 as int, src@),
                forall|k: int|
                    0 <= k < self.height ==> #[trigger] self.cells@[k]@ == if r0 <= k < r0 + r {
                        target[k]
                    } else {
                        before[k]
                    },
            decreases src.height - r,
        {
            let old_row = &self.cells[r0 + r];
            let mut row: Vec<T> = Vec::with_capacity(self.width);
            let mut c: usize = 0;
            while c < self.width
                invariant
                    c <= self.width,
                    r < src.height,
                    src.wf(),
                    r0 + src.height <= self.height,
                    c0 + src.width <= self.width,
                    old_row@ == before[r0 + r],
                    old_row@.len() == self.width,
                    target == overwrite(before, r0 as int, c0 as int, src@),
                    before.len() == self.height,
                    row@ == target[r0 + r].take(c as int),
                    target[r0 + r].len() == self.width,
                decreases self.width - c,
            {
                if c0 <= c && c < c0 + src.width {
                    row.push(src.cells[r][c - c0]);
                } else {
                    row.push(old_row[c]);
                }
                c = c + 1;
                proof {
                    assert(row@ =~= target[r0 + r].take(c as int));
                }
            }
            proof {
                assert(row@ =~= target[r0 + r]);
            }
            self.cells.set(r0 + r, row);
            r = r + 1;
        }
        proof {
            assert forall|k: int| 0 <= k < self.height implies #[trigger] self.cells@[k]@ == target[k] by {
                if !(r0 <= k < r0 + src.height) {
                    assert(target[k] =~= before[k]);
                }
            }
            assert(self@ =~= target);
        }
    }
}

} // verus!
