use crate::plane::{has_shape, window, Plane};
use vstd::prelude::*;

verus! {

/// A plane's samples, and its row count and width agree with `(h, w)`.
pub open spec fn plane_of_shape<T: Copy>(p: Plane<T>, h: nat, w: nat) -> bool {
    &&& p.wf()
    &&& p.height == h
    &&& p.width == w
}

/// `m` (of `h` rows of `w` samples) grown to even size: one row of `fill`
/// below when `h` is odd, one column of `fill` to the right when `w` is odd.
pub open spec fn pad_to_even<T>(m: Seq<Seq<T>>, h: nat, w: nat, fill: T) -> Seq<Seq<T>> {
    Seq::new(
        h + h % 2,
        |r: int| Seq::new(w + w % 2, |c: int| if r < h && c < w { m[r][c] } else { fill }),
    )
}

/// The top-left `h` by `w` part of `m`.
pub open spec fn crop<T>(m: Seq<Seq<T>>, h: nat, w: nat) -> Seq<Seq<T>> {
    window(m, 0, 0, h, w)
}

/// An image as four planes: luma, blue and red chroma, and alpha.
#[derive(Debug)]
pub struct YCrBrAMat<T> {
    /// Luma.
    pub y: Plane<T>,
    /// Blue-difference chroma.
    pub cb: Plane<T>,
    /// Red-difference chroma.
    pub cr: Plane<T>,
    /// Alpha.
    pub a: Plane<T>,
    /// `(height, width)` of every plane.
    pub dimensions: (usize, usize),
}

/// All four planes grown to even size; the original size recorded.
#[derive(Debug)]
pub struct PaddedYCrBrAMat<T> {
    /// Luma, of even size.
    pub y: Plane<T>,
    /// Blue-difference chroma, of even size.
    pub cb: Plane<T>,
    /// Red-difference chroma, of even size.
    pub cr: Plane<T>,
    /// Alpha, of even size.
    pub a: Plane<T>,
    /// `(height, width)` before padding.
    pub original_dimensions: (usize, usize),
}

/// Whether `p` is well formed with `h` rows of `w` samples.
pub fn has_plane_shape<T: Copy>(p: &Plane<T>, h: usize, w: usize) -> (ok: bool)
    ensures
        ok == plane_of_shape(*p, h as nat, w as nat),
{
    p.height == h && p.width == w && p.is_wf()
}

impl<T: Copy> YCrBrAMat<T> {
    /// All four planes have the recorded size.
    pub open spec fn wf(&self) -> bool {
        let (h, w) = self.dimensions;
        &&& plane_of_shape(self.y, h as nat, w as nat)
        &&& plane_of_shape(self.cb, h as nat, w as nat)
        &&& plane_of_shape(self.cr, h as nat, w as nat)
        &&& plane_of_shape(self.a, h as nat, w as nat)
    }

    /// Whether all four planes have the recorded size.
    pub fn is_well_formed(&self) -> (ok: bool)
        ensures
            ok == self.wf(),
    {
        let (h, w) = self.dimensions;
        has_plane_shape(&self.y, h, w) && has_plane_shape(&self.cb, h, w) && has_plane_shape(
            &self.cr,
            h,
            w,
        ) && has_plane_shape(&self.a, h, w)
    }

    /// Pads all four planes to even height and width with `fill`, each on its
    /// own, and records the original size.
    pub fn add_padding(self, fill: T) -> (p: PaddedYCrBrAMat<T>)
        requires
            self.wf(),
            self.dimensions.0 < usize::MAX,
            self.dimensions.1 < usize::MAX,
        ensures
            p.wf(),
            p.original_dimensions == self.dimensions,
            p.y@ == pad_to_even(self.y@, self.dimensions.0 as nat, self.dimensions.1 as nat, fill),
            p.cb@ == pad_to_even(
                self.cb@,
                self.dimensions.0 as nat,
                self.dimensions.1 as nat,
                fill,
            ),
            p.cr@ == pad_to_even(
                self.cr@,
                self.dimensions.0 as nat,
                self.dimensions.1 as nat,
                fill,
            ),
            p.a@ == pad_to_even(self.a@, self.dimensions.0 as nat, self.dimensions.1 as nat, fill),
    {
        let (height, width) = self.dimensions;
        let mut y = self.y;
        let mut cb = self.cb;
        let mut cr = self.cr;
        let mut a = self.a;
        if height % 2 == 1 {
            y.push_row(fill);
            cb.push_row(fill);
            cr.push_row(fill);
            a.push_row(fill);
        }
        if width % 2 == 1 {
            y.push_col(fill);
            cb.push_col(fill);
            cr.push_col(fill);
            a.push_col(fill);
        }
        proof {
            lemma_pad_steps(self.y@, height as nat, width as nat, fill, y@);
            lemma_pad_steps(self.cb@, height as nat, width as nat, fill, cb@);
            lemma_pad_steps(self.cr@, height as nat, width as nat, fill, cr@);
            lemma_pad_steps(self.a@, height as nat, width as nat, fill, a@);
        }
        PaddedYCrBrAMat { y, cb, cr, a, original_dimensions: self.dimensions }
    }
}

/// Adding a row of `fill` when the height is odd, then a column of `fill`
/// when the width is odd, gives `pad_to_even`.
proof fn lemma_pad_steps<T>(m: Seq<Seq<T>>, h: nat, w: nat, fill: T, out: Seq<Seq<T>>)
    requires
        has_shape(m, h, w),
        out == ({
            let m1 = if h % 2 == 1 {
                m.push(Seq::new(w, |c: int| fill))
            } else {
                m
            };
            if w % 2 == 1 {
                Seq::new(m1.len(), |r: int| m1[r].push(fill))
            } else {
                m1
            }
        }),
    ensures
        out == pad_to_even(m, h, w, fill),
{
    let target = pad_to_even(m, h, w, fill);
    assert forall|r: int| 0 <= r < target.len() implies #[trigger] out[r] =~= target[r] by {}
    assert(out =~= target);
}

impl<T: Copy> PaddedYCrBrAMat<T> {
    /// All four planes share one even size that covers the original size by
    /// at most one row and one column.
    pub open spec fn wf(&self) -> bool {
        let (h, w) = self.original_dimensions;
        let ph = self.y.height;
        let pw = self.y.width;
        &&& plane_of_shape(self.y, ph as nat, pw as nat)
        &&& plane_of_shape(self.cb, ph as nat, pw as nat)
        &&& plane_of_shape(self.cr, ph as nat, pw as nat)
        &&& plane_of_shape(self.a, ph as nat, pw as nat)
        &&& ph % 2 == 0 && pw % 2 == 0
        &&& h <= ph <= h + 1
        &&& w <= pw <= w + 1
    }

    /// Whether the planes have the sizes that `wf` describes.
    pub fn is_well_formed(&self) -> (ok: bool)
        ensures
            ok == self.wf(),
    {
        let (h, w) = self.original_dimensions;
        let ph = self.y.height;
        let pw = self.y.width;
        has_plane_shape(&self.y, ph, pw) && has_plane_shape(&self.cb, ph, pw) && has_plane_shape(
            &self.cr,
            ph,
            pw,
        ) && has_plane_shape(&self.a, ph, pw) && ph % 2 == 0 && pw % 2 == 0 && h <= ph && ph - h
            <= 1 && w <= pw && pw - w <= 1
    }

    /// Crops all four planes back to the original size.
    pub fn remove_padding(self) -> (m: YCrBrAMat<T>)
        requires
            self.wf(),
        ensures
            m.wf(),
            m.dimensions == self.original_dimensions,
            m.y@ == crop(
                self.y@,
                self.original_dimensions.0 as nat,
                self.original_dimensions.1 as nat,
            ),
            m.cb@ == crop(
                self.cb@,
                self.original_dimensions.0 as nat,
                self.original_dimensions.1 as nat,
            ),
            m.cr@ == crop(
                self.cr@,
                self.original_dimensions.0 as nat,
                self.original_dimensions.1 as nat,
            ),
            m.a@ == crop(
                self.a@,
                self.original_dimensions.0 as nat,
                self.original_dimensions.1 as nat,
            ),
    {
        let (h, w) = self.original_dimensions;
        let y = self.y.submatrix(0, 0, h, w);
        let cb = self.cb.submatrix(0, 0, h, w);
        let cr = self.cr.submatrix(0, 0, h, w);
        let a = self.a.submatrix(0, 0, h, w);
        YCrBrAMat { y, cb, cr, a, dimensions: self.original_dimensions }
    }
}

/// Cropping a padded plane back to its original size gives the plane itself,
/// sample for sample.
pub proof fn lemma_crop_pad<T>(m: Seq<Seq<T>>, h: nat, w: nat, fill: T)
    requires
        has_shape(m, h, w),
    ensures
        crop(pad_to_even(m, h, w, fill), h, w) == m,
{
    let out = crop(pad_to_even(m, h, w, fill), h, w);
    assert forall|r: int| 0 <= r < h implies #[trigger] out[r] =~= m[r] by {}
    assert(out =~= m);
}

/// Removing the padding that `add_padding` added gives back every plane of
/// the image unchanged, sample for sample, alpha included.
pub proof fn lemma_padding_round_trip<T: Copy>(m: YCrBrAMat<T>, fill: T, p: PaddedYCrBrAMat<T>)
    requires
        m.wf(),
        p.original_dimensions == m.dimensions,
        p.y@ == pad_to_even(m.y@, m.dimensions.0 as nat, m.dimensions.1 as nat, fill),
        p.cb@ == pad_to_even(m.cb@, m.dimensions.0 as nat, m.dimensions.1 as nat, fill),
        p.cr@ == pad_to_even(m.cr@, m.dimensions.0 as nat, m.dimensions.1 as nat, fill),
        p.a@ == pad_to_even(m.a@, m.dimensions.0 as nat, m.dimensions.1 as nat, fill),
    ensures
        crop(p.y@, p.original_dimensions.0 as nat, p.original_dimensions.1 as nat) == m.y@,
        crop(p.cb@, p.original_dimensions.0 as nat, p.original_dimensions.1 as nat) == m.cb@,
        crop(p.cr@, p.original_dimensions.0 as nat, p.original_dimensions.1 as nat) == m.cr@,
        crop(p.a@, p.original_dimensions.0 as nat, p.original_dimensions.1 as nat) == m.a@,
{
    let (h, w) = m.dimensions;
    lemma_crop_pad(m.y@, h as nat, w as nat, fill);
    lemma_crop_pad(m.cb@, h as nat, w as nat, fill);
    lemma_crop_pad(m.cr@, h as nat, w as nat, fill);
    lemma_crop_pad(m.a@, h as nat, w as nat, fill);
}

} // verus!
