//! RGBA rasters and the drawing of one raster onto another.

use vstd::prelude::*;
use vstd::arithmetic::div_mod::lemma_fundamental_div_mod_converse;
use crate::blend::{
    blend, blend_pixel, lemma_blend_alpha, lemma_blend_onto_nothing, lemma_blend_opaque,
    lemma_blend_zero_opacity, Pixel,
};

verus! {

/// What an [`Image`] holds: its size and its bytes, row by row, four to a
/// pixel.
pub struct ImageView {
    pub width: u16,
    pub height: u16,
    pub data: Seq<u8>,
}

impl ImageView {
    /// The buffer holds exactly `width * height` pixels.
    pub open spec fn wf(self) -> bool {
        self.data.len() == self.width as int * self.height as int * 4
    }

    /// `(px, py)` is a pixel of this raster.
    pub open spec fn contains(self, px: int, py: int) -> bool {
        0 <= px < self.width && 0 <= py < self.height
    }

    /// Where the four bytes of the pixel `(px, py)` begin.
    pub open spec fn offset(self, px: int, py: int) -> int {
        (py * self.width + px) * 4
    }

    /// The pixel at `(px, py)`.
    pub open spec fn pixel_at(self, px: int, py: int) -> Pixel {
        let at = self.offset(px, py);
        Pixel { r: self.data[at], g: self.data[at + 1], b: self.data[at + 2], a: self.data[at + 3] }
    }

    /// This raster with the pixel `(px, py)` replaced by `p`.
    pub open spec fn set_pixel(self, px: int, py: int, p: Pixel) -> ImageView {
        let at = self.offset(px, py);
        ImageView {
            data: self.data.update(at, p.r).update(at + 1, p.g).update(at + 2, p.b).update(
                at + 3,
                p.a,
            ),
            ..self
        }
    }

    /// Every pixel is `(0, 0, 0, 0)`.
    pub open spec fn transparent(self) -> bool {
        forall|i: int| 0 <= i < self.data.len() ==> self.data[i] == 0
    }

    /// The fully transparent raster of the given size.
    pub open spec fn blank(width: u16, height: u16) -> ImageView {
        ImageView {
            width,
            height,
            data: Seq::new((width as int * height as int * 4) as nat, |i: int| 0u8),
        }
    }

    /// No pixel carries colour under a zero alpha.
    pub open spec fn clean(self) -> bool {
        forall|px: int, py: int|
            self.contains(px, py) && (#[trigger] self.pixel_at(px, py)).a == 0
                ==> self.pixel_at(px, py) == (Pixel { r: 0, g: 0, b: 0, a: 0 })
    }

    /// The pixel `(px, py)` lies under a patch `src` placed at `(x, y)`.
    pub open spec fn covered(self, x: int, y: int, src: ImageView, px: int, py: int) -> bool {
        src.contains(px - x, py - y)
    }

    /// The pixel `(px, py)` of this raster after `src` was drawn onto it at
    /// `(x, y)` with `opacity`: blended where the patch lies, untouched
    /// elsewhere.
    pub open spec fn drawn_pixel(
        self,
        x: int,
        y: int,
        src: ImageView,
        opacity: u8,
        px: int,
        py: int,
    ) -> Pixel {
        if self.covered(x, y, src, px, py) {
            blend(self.pixel_at(px, py), src.pixel_at(px - x, py - y), opacity)
        } else {
            self.pixel_at(px, py)
        }
    }

    /// `after` is this raster with `src` drawn onto it at `(x, y)` with
    /// `opacity`. The patch's pixels that fall outside this raster are dropped.
    pub open spec fn drawn(self, x: int, y: int, src: ImageView, opacity: u8, after: ImageView)
        -> bool {
        &&& after.width == self.width
        &&& after.height == self.height
        &&& after.wf()
        &&& forall|px: int, py: int|
            self.contains(px, py) ==> #[trigger] after.pixel_at(px, py) == self.drawn_pixel(
                x,
                y,
                src,
                opacity,
                px,
                py,
            )
    }

    /// This raster with `src` drawn onto it at `(x, y)` with `opacity`: the
    /// byte `i` belongs to the pixel `i / 4`, which stands in the row
    /// `(i / 4) / width` at the column `(i / 4) % width`.
    pub open spec fn draw(self, x: int, y: int, src: ImageView, opacity: u8) -> ImageView {
        ImageView {
            data: Seq::new(
                self.data.len(),
                |i: int|
                    self.drawn_pixel(
                        x,
                        y,
                        src,
                        opacity,
                        (i / 4) % (self.width as int),
                        (i / 4) / (self.width as int),
                    ).channel(i % 4),
            ),
            ..self
        }
    }

    /// The pixel `(px, py)` while a draw is under way: the rows of the patch
    /// above row `j`, and the first `i` pixels of row `j`, are blended.
    pub open spec fn partly_drawn_pixel(
        self,
        x: int,
        y: int,
        src: ImageView,
        opacity: u8,
        j: int,
        i: int,
        px: int,
        py: int,
    ) -> Pixel {
        if self.covered(x, y, src, px, py) && (py - y < j || (py - y == j && px - x < i)) {
            blend(self.pixel_at(px, py), src.pixel_at(px - x, py - y), opacity)
        } else {
            self.pixel_at(px, py)
        }
    }
}

/// The offsets of a raster's pixels lie inside its buffer.
pub proof fn lemma_offset_bounds(v: ImageView, px: int, py: int)
    requires
        v.wf(),
        v.contains(px, py),
    ensures
        0 <= v.offset(px, py),
        v.offset(px, py) + 4 <= v.data.len(),
{
    let w = v.width as int;
    let h = v.height as int;
    assert(0 <= py * w && py * w + w <= h * w) by (nonlinear_arith)
        requires
            0 <= py < h,
            0 <= w,
    ;
    assert(h * w * 4 == w * h * 4) by (nonlinear_arith);
}

/// Two pixels of a raster do not share a byte.
pub proof fn lemma_offsets_apart(v: ImageView, px: int, py: int, qx: int, qy: int)
    requires
        v.contains(px, py),
        v.contains(qx, qy),
        px != qx || py != qy,
    ensures
        v.offset(px, py) + 4 <= v.offset(qx, qy) || v.offset(qx, qy) + 4 <= v.offset(px, py),
{
    let w = v.width as int;
    if py < qy {
        assert(py * w + w <= qy * w) by (nonlinear_arith)
            requires
                py < qy,
                0 <= w,
        ;
    } else if qy < py {
        assert(qy * w + w <= py * w) by (nonlinear_arith)
            requires
                qy < py,
                0 <= w,
        ;
    }
}

/// Replacing one pixel changes that pixel and no other.
pub proof fn lemma_set_pixel(v: ImageView, px: int, py: int, p: Pixel)
    requires
        v.wf(),
        v.contains(px, py),
    ensures
        v.set_pixel(px, py, p).wf(),
        v.set_pixel(px, py, p).pixel_at(px, py) == p,
        forall|qx: int, qy: int|
            v.contains(qx, qy) && (qx != px || qy != py) ==> #[trigger] v.set_pixel(
                px,
                py,
                p,
            ).pixel_at(qx, qy) == v.pixel_at(qx, qy),
{
    lemma_offset_bounds(v, px, py);
    assert forall|qx: int, qy: int| v.contains(qx, qy) && (qx != px || qy != py) implies (
    #[trigger] v.set_pixel(px, py, p).pixel_at(qx, qy)) == v.pixel_at(qx, qy) by {
        lemma_offset_bounds(v, qx, qy);
        lemma_offsets_apart(v, px, py, qx, qy);
    }
}

/// Every byte of a raster belongs to one of its pixels.
pub proof fn lemma_byte_in_pixel(v: ImageView, i: int) -> (c: (int, int, int))
    requires
        v.wf(),
        0 <= i < v.data.len(),
    ensures
        v.contains(c.0, c.1),
        0 <= c.2 < 4,
        i == v.offset(c.0, c.1) + c.2,
{
    let w = v.width as int;
    let h = v.height as int;
    let q = i / 4;
    let k = i % 4;
    assert(w > 0) by (nonlinear_arith)
        requires
            0 <= i < w * h * 4,
            0 <= w,
            0 <= h,
    ;
    let py = q / w;
    let px = q % w;
    assert(q == py * w + px && 0 <= px < w) by (nonlinear_arith)
        requires
            py == q / w,
            px == q % w,
            w > 0,
    ;
    assert(0 <= py < h) by (nonlinear_arith)
        requires
            q == py * w + px,
            0 <= px < w,
            0 <= q,
            q * 4 < w * h * 4,
    ;
    (px, py, k)
}

/// Two rasters of one size that agree pixel by pixel hold the same bytes.
pub proof fn lemma_pixels_fix_data(a: ImageView, b: ImageView)
    requires
        a.wf(),
        b.wf(),
        a.width == b.width,
        a.height == b.height,
        forall|px: int, py: int| a.contains(px, py) ==> a.pixel_at(px, py) == b.pixel_at(px, py),
    ensures
        a == b,
{
    assert forall|i: int| 0 <= i < a.data.len() implies a.data[i] == b.data[i] by {
        let c = lemma_byte_in_pixel(a, i);
        assert(a.pixel_at(c.0, c.1) == b.pixel_at(c.0, c.1));
    }
    assert(a.data =~= b.data);
}

/// The raster that [`ImageView::draw`] gives is the drawn one: each pixel
/// under the patch is blended, each other pixel is as before.
pub proof fn lemma_draw_is_drawn(v: ImageView, x: int, y: int, src: ImageView, opacity: u8)
    requires
        v.wf(),
    ensures
        v.drawn(x, y, src, opacity, v.draw(x, y, src, opacity)),
{
    let after = v.draw(x, y, src, opacity);
    let w = v.width as int;
    assert forall|px: int, py: int| v.contains(px, py) implies #[trigger] after.pixel_at(px, py)
        == v.drawn_pixel(x, y, src, opacity, px, py) by {
        let q = py * w + px;
        lemma_offset_bounds(v, px, py);
        lemma_fundamental_div_mod_converse(q, w, py, px);
        lemma_fundamental_div_mod_converse(q * 4, 4, q, 0);
        lemma_fundamental_div_mod_converse(q * 4 + 1, 4, q, 1);
        lemma_fundamental_div_mod_converse(q * 4 + 2, 4, q, 2);
        lemma_fundamental_div_mod_converse(q * 4 + 3, 4, q, 3);
    }
}

/// A draw has one result.
pub proof fn lemma_draw_unique(
    v: ImageView,
    x: int,
    y: int,
    src: ImageView,
    opacity: u8,
    after: ImageView,
)
    requires
        v.wf(),
        v.drawn(x, y, src, opacity, after),
    ensures
        v.draw(x, y, src, opacity) == after,
{
    let made = v.draw(x, y, src, opacity);
    lemma_draw_is_drawn(v, x, y, src, opacity);
    assert forall|px: int, py: int| made.contains(px, py) implies made.pixel_at(px, py)
        == after.pixel_at(px, py) by {
        assert(v.contains(px, py));
    }
    lemma_pixels_fix_data(made, after);
}

/// Drawing any patch with opacity 0 leaves every pixel of a clean raster as
/// it was.
pub proof fn lemma_draw_zero_opacity(v: ImageView, x: int, y: int, src: ImageView)
    requires
        v.wf(),
        v.clean(),
    ensures
        v.drawn(x, y, src, 0, v),
        v.draw(x, y, src, 0) == v,
{
    assert forall|px: int, py: int| v.contains(px, py) implies #[trigger] v.pixel_at(px, py)
        == v.drawn_pixel(x, y, src, 0, px, py) by {
        lemma_blend_zero_opacity(v.pixel_at(px, py), src.pixel_at(px - x, py - y));
    }
    lemma_draw_unique(v, x, y, src, 0, v);
}

/// A draw leaves a clean raster clean: no pixel comes out with colour under
/// a zero alpha.
pub proof fn lemma_draw_keeps_clean(v: ImageView, x: int, y: int, src: ImageView, opacity: u8)
    requires
        v.wf(),
        v.clean(),
    ensures
        v.draw(x, y, src, opacity).clean(),
        v.draw(x, y, src, opacity).wf(),
        v.draw(x, y, src, opacity).width == v.width,
        v.draw(x, y, src, opacity).height == v.height,
{
    let after = v.draw(x, y, src, opacity);
    lemma_draw_is_drawn(v, x, y, src, opacity);
    assert forall|px: int, py: int|
        after.contains(px, py) && (#[trigger] after.pixel_at(px, py)).a == 0 implies after.pixel_at(
        px,
        py,
    ) == (Pixel { r: 0, g: 0, b: 0, a: 0 }) by {
        assert(v.contains(px, py));
        assert(after.pixel_at(px, py) == v.drawn_pixel(x, y, src, opacity, px, py));
        if v.covered(x, y, src, px, py) {
            lemma_blend_alpha(v.pixel_at(px, py), src.pixel_at(px - x, py - y), opacity);
        }
    }
}

/// Drawn with full opacity onto a blank raster of its own size, a clean
/// raster comes out as it is.
pub proof fn lemma_draw_onto_blank(src: ImageView)
    requires
        src.wf(),
        src.clean(),
    ensures
        ImageView::blank(src.width, src.height).drawn(0, 0, src, 255, src),
        ImageView::blank(src.width, src.height).draw(0, 0, src, 255) == src,
{
    let blank = ImageView::blank(src.width, src.height);
    assert(blank.wf());
    assert forall|px: int, py: int| blank.contains(px, py) implies #[trigger] src.pixel_at(px, py)
        == blank.drawn_pixel(0, 0, src, 255, px, py) by {
        lemma_offset_bounds(blank, px, py);
        assert(blank.pixel_at(px, py) == (Pixel { r: 0, g: 0, b: 0, a: 0 }));
        lemma_blend_onto_nothing(src.pixel_at(px, py));
    }
    lemma_draw_unique(blank, 0, 0, src, 255, src);
}

/// Every pixel of the patch has full alpha.
pub open spec fn opaque(src: ImageView) -> bool {
    forall|px: int, py: int| src.contains(px, py) ==> (#[trigger] src.pixel_at(px, py)).a == 255
}

/// Drawn with full opacity, a patch of full alpha replaces the region under
/// it: each covered pixel becomes the patch's pixel, each other pixel stays.
pub proof fn lemma_draw_opaque(v: ImageView, x: int, y: int, src: ImageView)
    requires
        v.wf(),
        opaque(src),
    ensures
        forall|px: int, py: int|
            v.contains(px, py) ==> #[trigger] v.draw(x, y, src, 255).pixel_at(px, py)
                == if v.covered(x, y, src, px, py) {
                src.pixel_at(px - x, py - y)
            } else {
                v.pixel_at(px, py)
            },
{
    let after = v.draw(x, y, src, 255);
    lemma_draw_is_drawn(v, x, y, src, 255);
    assert forall|px: int, py: int| v.contains(px, py) implies #[trigger] after.pixel_at(px, py)
        == if v.covered(x, y, src, px, py) {
        src.pixel_at(px - x, py - y)
    } else {
        v.pixel_at(px, py)
    } by {
        if v.covered(x, y, src, px, py) {
            lemma_blend_opaque(v.pixel_at(px, py), src.pixel_at(px - x, py - y));
        }
    }
}

/// An RGBA raster, eight bits to a channel, rows from the top.
#[derive(Debug)]
pub struct Image {
    pub width: u16,
    pub height: u16,
    pub data: Vec<u8>,
}

impl View for Image {
    type V = ImageView;

    open spec fn view(&self) -> ImageView {
        ImageView { width: self.width, height: self.height, data: self.data@ }
    }
}

impl Image {
    /// The buffer holds exactly `width * height` pixels.
    pub open spec fn wf(&self) -> bool {
        self@.wf()
    }

    /// A fully transparent raster.
    pub fn new(width: u16, height: u16) -> (r: Image)
        requires
            width as int * height as int * 4 <= usize::MAX,
        ensures
            r.width == width,
            r.height == height,
            r.wf(),
            r@.transparent(),
            r@ == ImageView::blank(width, height),
    {
        assert(width as int * height as int <= usize::MAX && 0 <= width as int * height as int)
            by (nonlinear_arith)
            requires
                width as int * height as int * 4 <= usize::MAX,
                0 <= width,
                0 <= height,
        ;
        let n: usize = width as usize * height as usize * 4;
        let mut data: Vec<u8> = Vec::new();
        let mut i: usize = 0;
        while i < n
            invariant
                i <= n,
                data@.len() == i,
                forall|k: int| 0 <= k < i ==> data@[k] == 0,
            decreases n - i,
        {
            data.push(0);
            i += 1;
        }
        assert(data@ =~= ImageView::blank(width, height).data);
        Image { width, height, data }
    }

    /// A raster over the given bytes, which must be `width * height * 4` in
    /// number.
    pub fn new_from_data(width: u16, height: u16, data: Vec<u8>) -> (r: Image)
        requires
            data@.len() == width as int * height as int * 4,
        ensures
            r@ == (ImageView { width, height, data: data@ }),
            r.wf(),
    {
        Image { width, height, data }
    }

    /// The pixel at `(x, y)`.
    pub fn pixel(&self, x: u16, y: u16) -> (p: Pixel)
        requires
            self.wf(),
            self@.contains(x as int, y as int),
        ensures
            p == self@.pixel_at(x as int, y as int),
    {
        let len: usize = self.data.len();
        proof {
            lemma_offset_bounds(self@, x as int, y as int);
            assert(0 <= y as int * self.width as int) by (nonlinear_arith);
            assert(self@.offset(x as int, y as int) + 4 <= len);
        }
        let at: usize = (y as usize * self.width as usize + x as usize) * 4;
        Pixel { r: self.data[at], g: self.data[at + 1], b: self.data[at + 2], a: self.data[at + 3] }
    }

    /// Blends one source pixel onto the pixel at `(x, y)`. A position outside
    /// the raster is dropped.
    pub fn draw_pixel(&mut self, x: i32, y: i32, sr: u8, sg: u8, sb: u8, sa: u8, opacity: u8)
        requires
            old(self).wf(),
        ensures
            final(self).wf(),
            old(self)@.contains(x as int, y as int) ==> final(self)@ == old(self)@.set_pixel(
                x as int,
                y as int,
                blend(
                    old(self)@.pixel_at(x as int, y as int),
                    Pixel { r: sr, g: sg, b: sb, a: sa },
                    opacity,
                ),
            ),
            !old(self)@.contains(x as int, y as int) ==> final(self)@ == old(self)@,
    {
        let w: i32 = self.width as i32;
        let h: i32 = self.height as i32;
        if x < 0 || y < 0 || x >= w || y >= h {
            return ;
        }
        let len: usize = self.data.len();
        proof {
            lemma_offset_bounds(self@, x as int, y as int);
            assert(0 <= y as int * self.width as int) by (nonlinear_arith)
                requires
                    0 <= y,
            ;
            assert(self@.offset(x as int, y as int) + 4 <= len);
        }
        let idx: usize = (x as usize + y as usize * self.width as usize) * 4;
        let backdrop = Pixel {
            r: self.data[idx],
            g: self.data[idx + 1],
            b: self.data[idx + 2],
            a: self.data[idx + 3],
        };
        let p = blend_pixel(backdrop, Pixel { r: sr, g: sg, b: sb, a: sa }, opacity);
        self.data.set(idx, p.r);
        self.data.set(idx + 1, p.g);
        self.data.set(idx + 2, p.b);
        self.data.set(idx + 3, p.a);
    }

    /// Draws `other` onto this raster with its top left corner at `(x, y)`,
    /// every pixel of it blended with `opacity`. What falls outside is dropped.
    pub fn draw(&mut self, x: i16, y: i16, other: &Image, opacity: u8)
        requires
            old(self).wf(),
            other.wf(),
        ensures
            old(self)@.drawn(x as int, y as int, other@, opacity, final(self)@),
            final(self)@ == old(self)@.draw(x as int, y as int, other@, opacity),
    {
        let ghost before = self@;
        let ghost src = other@;
        let sw: u16 = other.width;
        let sh: u16 = other.height;
        let mut j: u16 = 0;
        while j < sh
            invariant
                before.wf(),
                other.wf(),
                src == other@,
                sw == other.width,
                sh == other.height,
                self.wf(),
                self.width == before.width,
                self.height == before.height,
                j <= sh,
                forall|px: int, py: int|
                    before.contains(px, py) ==> #[trigger] self@.pixel_at(px, py)
                        == before.partly_drawn_pixel(
                        x as int,
                        y as int,
                        src,
                        opacity,
                        j as int,
                        0,
                        px,
                        py,
                    ),
            decreases sh - j,
        {
            let mut i: u16 = 0;
            while i < sw
                invariant
                    before.wf(),
                    other.wf(),
                    src == other@,
                    sw == other.width,
                    sh == other.height,
                    self.wf(),
                    self.width == before.width,
                    self.height == before.height,
                    j < sh,
                    i <= sw,
                    forall|px: int, py: int|
                        before.contains(px, py) ==> #[trigger] self@.pixel_at(px, py)
                            == before.partly_drawn_pixel(
                            x as int,
                            y as int,
                            src,
                            opacity,
                            j as int,
                            i as int,
                            px,
                            py,
                        ),
                decreases sw - i,
            {
                let p = other.pixel(i, j);
                let tx: i32 = x as i32 + i as i32;
                let ty: i32 = y as i32 + j as i32;
                let ghost prev = self@;
                self.draw_pixel(tx, ty, p.r, p.g, p.b, p.a, opacity);
                proof {
                    if prev.contains(tx as int, ty as int) {
                        lemma_set_pixel(
                            prev,
                            tx as int,
                            ty as int,
                            blend(prev.pixel_at(tx as int, ty as int), p, opacity),
                        );
                    }
                    assert forall|px: int, py: int| before.contains(px, py) implies (
                    #[trigger] self@.pixel_at(px, py)) == before.partly_drawn_pixel(
                        x as int,
                        y as int,
                        src,
                        opacity,
                        j as int,
                        i as int + 1,
                        px,
                        py,
                    ) by {
                        assert(prev.pixel_at(px, py) == before.partly_drawn_pixel(
                            x as int,
                            y as int,
                            src,
                            opacity,
                            j as int,
                            i as int,
                            px,
                            py,
                        ));
                    }
                }
                i += 1;
            }
            j += 1;
        }
        proof {
            lemma_draw_unique(before, x as int, y as int, src, opacity, self@);
        }
    }
}

} // verus!
