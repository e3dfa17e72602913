//! Layers, frames and the rules by which cels and layers become pixels.

use vstd::prelude::*;
use crate::constants;
use crate::error::{AsepriteError, Corruption};
use crate::blend::Pixel;
use crate::image::{
    lemma_draw_keeps_clean, lemma_draw_onto_blank, lemma_offset_bounds, Image, ImageView,
};
use crate::metadata::{LayerHeader, LayerView};
use crate::parser::{le_i16, le_u16, Parse, Parser, Skip};

verus! {

/// One entry of the document's layer list. Its place in the list is the
/// number by which cels name it.
#[derive(Debug)]
pub struct Layer {
    pub flags: u16,
    pub layer_type: u16,
    pub child_level: u16,
    pub default_width: u16,
    pub default_height: u16,
    pub blend_mode: u16,
    pub opacity: u8,
    pub name: String,
}

impl View for Layer {
    type V = LayerView;

    open spec fn view(&self) -> LayerView {
        LayerView {
            flags: self.flags,
            layer_type: self.layer_type,
            child_level: self.child_level,
            default_width: self.default_width,
            default_height: self.default_height,
            blend_mode: self.blend_mode,
            opacity: self.opacity,
            name: self.name@,
        }
    }
}

impl Layer {
    /// The layer that a layer chunk declares.
    pub fn from_header(h: LayerHeader) -> (l: Layer)
        ensures
            l@ == h@,
    {
        Layer {
            flags: h.flags,
            layer_type: h.layer_type,
            child_level: h.child_level,
            default_width: h.default_width,
            default_height: h.default_height,
            blend_mode: h.blend_mode,
            opacity: h.opacity,
            name: h.name,
        }
    }

    /// Whether the visibility bit is set.
    pub fn visible(&self) -> (b: bool)
        ensures
            b == self@.visible(),
    {
        self.flags & constants::LAYER_VISIBLE != 0
    }
}

/// The views of a list of layers.
pub open spec fn layer_views(v: Seq<Layer>) -> Seq<LayerView> {
    v.map_values(|l: Layer| l@)
}

/// The views of a list of rasters.
pub open spec fn image_views(v: Seq<Image>) -> Seq<ImageView> {
    v.map_values(|i: Image| i@)
}

/// What a [`Frame`] holds.
pub struct FrameView {
    pub duration: u16,
    pub layers: Seq<ImageView>,
    pub image: ImageView,
}

/// Every raster of the list is well formed and of the given size.
pub open spec fn canvases_fit(canvases: Seq<ImageView>, width: u16, height: u16) -> bool {
    forall|k: int|
        0 <= k < canvases.len() ==> (#[trigger] canvases[k]).wf() && canvases[k].width == width
            && canvases[k].height == height
}

impl FrameView {
    /// The composited image and every layer canvas are well formed and of the
    /// given size.
    pub open spec fn fits(self, width: u16, height: u16) -> bool {
        &&& self.image.wf()
        &&& self.image.width == width
        &&& self.image.height == height
        &&& canvases_fit(self.layers, width, height)
    }
}

/// One frame of the animation: a canvas for each layer known when the frame
/// was read, and the image that they composite to.
#[derive(Debug)]
pub struct Frame {
    pub duration: u16,
    pub layers: Vec<Image>,
    pub image: Image,
}

impl View for Frame {
    type V = FrameView;

    open spec fn view(&self) -> FrameView {
        FrameView {
            duration: self.duration,
            layers: image_views(self.layers@),
            image: self.image@,
        }
    }
}

/// The views of a list of frames.
pub open spec fn frame_views(v: Seq<Frame>) -> Seq<FrameView> {
    v.map_values(|f: Frame| f@)
}

/// The canvases of a frame once there is one for each of `n` layers: the new
/// ones are blank.
pub open spec fn grown(canvases: Seq<ImageView>, n: int, width: u16, height: u16) -> Seq<
    ImageView,
> {
    if canvases.len() >= n {
        canvases
    } else {
        canvases + Seq::new((n - canvases.len()) as nat, |i: int| ImageView::blank(width, height))
    }
}

/// The image of a frame after the first `n` layers were drawn, in the order
/// of their declaration, each with its own opacity, onto a blank canvas. A
/// layer whose visibility bit is clear is passed over.
pub open spec fn composite(
    layers: Seq<LayerView>,
    canvases: Seq<ImageView>,
    width: u16,
    height: u16,
    n: nat,
) -> ImageView
    decreases n,
{
    if n == 0 {
        ImageView::blank(width, height)
    } else {
        let below = composite(layers, canvases, width, height, (n - 1) as nat);
        if layers[n - 1].visible() {
            below.draw(0, 0, canvases[n - 1], layers[n - 1].opacity)
        } else {
            below
        }
    }
}

/// Whatever the canvases hold, the composite is a well-formed raster of the
/// document's size that carries no colour under a zero alpha.
pub proof fn lemma_composite_fits(
    layers: Seq<LayerView>,
    canvases: Seq<ImageView>,
    width: u16,
    height: u16,
    n: nat,
)
    ensures
        composite(layers, canvases, width, height, n).wf(),
        composite(layers, canvases, width, height, n).width == width,
        composite(layers, canvases, width, height, n).height == height,
        composite(layers, canvases, width, height, n).clean(),
    decreases n,
{
    if n > 0 {
        let below = composite(layers, canvases, width, height, (n - 1) as nat);
        lemma_composite_fits(layers, canvases, width, height, (n - 1) as nat);
        lemma_draw_keeps_clean(below, 0, 0, canvases[n - 1], layers[n - 1].opacity);
    } else {
        let blank = ImageView::blank(width, height);
        assert forall|px: int, py: int|
            blank.contains(px, py) && (#[trigger] blank.pixel_at(px, py)).a == 0 implies blank.pixel_at(
            px,
            py,
        ) == (Pixel { r: 0, g: 0, b: 0, a: 0 }) by {
            lemma_offset_bounds(blank, px, py);
        }
    }
}

/// A layer whose visibility bit is clear does not show in the composite:
/// whatever its canvas holds, the image is the same.
pub proof fn lemma_hidden_layer_unseen(
    layers: Seq<LayerView>,
    canvases: Seq<ImageView>,
    width: u16,
    height: u16,
    n: nat,
    hidden: int,
    other: ImageView,
)
    requires
        n <= layers.len() <= canvases.len(),
        0 <= hidden < layers.len(),
        !layers[hidden].visible(),
    ensures
        composite(layers, canvases.update(hidden, other), width, height, n) == composite(
            layers,
            canvases,
            width,
            height,
            n,
        ),
    decreases n,
{
    if n > 0 {
        lemma_hidden_layer_unseen(layers, canvases, width, height, (n - 1) as nat, hidden, other);
    }
}

/// The composite of a document in which no layer is visible is blank.
pub proof fn lemma_all_hidden_is_blank(
    layers: Seq<LayerView>,
    canvases: Seq<ImageView>,
    width: u16,
    height: u16,
    n: nat,
)
    requires
        n <= layers.len(),
        forall|i: int| 0 <= i < layers.len() ==> !(#[trigger] layers[i]).visible(),
    ensures
        composite(layers, canvases, width, height, n) == ImageView::blank(width, height),
    decreases n,
{
    if n > 0 {
        lemma_all_hidden_is_blank(layers, canvases, width, height, (n - 1) as nat);
    }
}

/// A document of one visible layer at full opacity shows the canvas of that
/// layer as it is, provided the canvas is clean and of the document's size.
pub proof fn lemma_single_layer_shows_its_canvas(
    layers: Seq<LayerView>,
    canvases: Seq<ImageView>,
    width: u16,
    height: u16,
)
    requires
        layers.len() == 1,
        canvases.len() == 1,
        layers[0].visible(),
        layers[0].opacity == 255,
        canvases[0].wf(),
        canvases[0].clean(),
        canvases[0].width == width,
        canvases[0].height == height,
    ensures
        composite(layers, canvases, width, height, 1) == canvases[0],
{
    lemma_draw_onto_blank(canvases[0]);
    assert(composite(layers, canvases, width, height, 0) == ImageView::blank(width, height));
}

/// The fields that every cel chunk begins with.
#[derive(Clone, Copy, Debug)]
pub struct CelHeader {
    pub layer_index: u16,
    pub x: i16,
    pub y: i16,
    pub opacity: u8,
    pub cel_type: u16,
}

impl View for CelHeader {
    type V = CelHeader;

    open spec fn view(&self) -> CelHeader {
        *self
    }
}

impl Parse for CelHeader {
    /// Nine bytes of fields and seven reserved ones.
    open spec fn decode(data: Seq<u8>, pos: int) -> Result<(CelHeader, int), AsepriteError> {
        if pos + 16 <= data.len() {
            Ok(
                (
                    CelHeader {
                        layer_index: le_u16(data, pos),
                        x: le_i16(data, pos + 2),
                        y: le_i16(data, pos + 4),
                        opacity: data[pos + 6],
                        cel_type: le_u16(data, pos + 7),
                    },
                    pos + 16,
                ),
            )
        } else {
            Err(AsepriteError::Io)
        }
    }

    fn parse(p: &mut Parser) -> (r: Result<CelHeader, AsepriteError>) {
        if !p.available(16) {
            return Err(AsepriteError::Io);
        }
        let layer_index: u16 = p.next()?;
        let x: i16 = p.next()?;
        let y: i16 = p.next()?;
        let opacity: u8 = p.next()?;
        let cel_type: u16 = p.next()?;
        let _reserved: Skip<7> = p.next()?;
        Ok(CelHeader { layer_index, x, y, opacity, cel_type })
    }
}

/// The canvases after `patch` was drawn as the cel `cel` says.
pub open spec fn placed(canvases: Seq<ImageView>, cel: CelHeader, patch: ImageView) -> Seq<
    ImageView,
> {
    canvases.update(
        cel.layer_index as int,
        canvases[cel.layer_index as int].draw(cel.x as int, cel.y as int, patch, cel.opacity),
    )
}

/// What a compressed cel does to the canvases of its frame, given what its
/// pixel data inflated to.
pub open spec fn compressed_cel_outcome(
    canvases: Seq<ImageView>,
    cel: CelHeader,
    width: u16,
    height: u16,
    inflated: Option<Seq<u8>>,
) -> Result<Seq<ImageView>, AsepriteError> {
    match inflated {
        None => Err(AsepriteError::CorruptFile(Corruption::BadCompressedData)),
        Some(pixels) => if pixels.len() != width as int * height as int * 4 {
            Err(AsepriteError::CorruptFile(Corruption::PixelSizeMismatch))
        } else if cel.layer_index >= canvases.len() {
            Err(AsepriteError::CorruptFile(Corruption::LayerIndexOutOfRange))
        } else {
            Ok(placed(canvases, cel, ImageView { width, height, data: pixels }))
        },
    }
}

/// What a linked cel does to the canvases of its frame: it draws the canvas
/// that the same layer had in the frame `linked`, which must be a finished
/// one.
pub open spec fn linked_cel_outcome(
    canvases: Seq<ImageView>,
    frames: Seq<FrameView>,
    cel: CelHeader,
    linked: u16,
) -> Result<Seq<ImageView>, AsepriteError> {
    if linked >= frames.len() {
        Err(AsepriteError::CorruptFile(Corruption::LinkedFrameNotEarlier))
    } else if cel.layer_index >= canvases.len() || cel.layer_index
        >= frames[linked as int].layers.len() {
        Err(AsepriteError::CorruptFile(Corruption::LayerIndexOutOfRange))
    } else {
        Ok(placed(canvases, cel, frames[linked as int].layers[cel.layer_index as int]))
    }
}

/// A linked cel that names its own frame or a later one makes the file
/// corrupt: with `frames` finished, the frame under way has the index
/// `frames.len()`.
pub proof fn lemma_link_must_point_back(
    canvases: Seq<ImageView>,
    frames: Seq<FrameView>,
    cel: CelHeader,
    linked: u16,
)
    requires
        linked >= frames.len(),
    ensures
        linked_cel_outcome(canvases, frames, cel, linked) == Err::<Seq<ImageView>, AsepriteError>(
            AsepriteError::CorruptFile(Corruption::LinkedFrameNotEarlier),
        ),
{
}

impl Frame {
    /// The canvases and the image are well formed and of the given size.
    pub open spec fn fits(&self, width: u16, height: u16) -> bool {
        self@.fits(width, height)
    }

    /// Draws `patch` onto the canvas of the layer that `cel` names.
    fn place(
        &mut self,
        cel: &CelHeader,
        patch: &Image,
        Ghost(width): Ghost<u16>,
        Ghost(height): Ghost<u16>,
    )
        requires
            canvases_fit(old(self)@.layers, width, height),
            cel.layer_index < old(self)@.layers.len(),
            patch.wf(),
        ensures
            final(self)@.layers == placed(old(self)@.layers, *cel, patch@),
            final(self).duration == old(self).duration,
            final(self).image == old(self).image,
            canvases_fit(final(self)@.layers, width, height),
    {
        let li: usize = cel.layer_index as usize;
        let ghost before = self.layers@;
        assert(image_views(before)[li as int] == before[li as int]@);
        assert(image_views(before)[li as int].wf());
        self.layers[li].draw(cel.x, cel.y, patch, cel.opacity);
        assert(image_views(self.layers@) =~= placed(image_views(before), *cel, patch@));
        assert forall|k: int| 0 <= k < self@.layers.len() implies (#[trigger] self@.layers[k]).wf()
            && self@.layers[k].width == width && self@.layers[k].height == height by {
            assert(image_views(before)[k].wf());
        }
    }

    /// Applies a compressed cel, given what its pixel data inflated to.
    pub fn place_compressed_cel(
        &mut self,
        cel: &CelHeader,
        width: u16,
        height: u16,
        inflated: Option<Vec<u8>>,
    ) -> (r: Result<(), AsepriteError>)
        requires
            canvases_fit(old(self)@.layers, old(self).image.width, old(self).image.height),
        ensures
            final(self).duration == old(self).duration,
            final(self).image == old(self).image,
            canvases_fit(final(self)@.layers, old(self).image.width, old(self).image.height),
            match compressed_cel_outcome(
                old(self)@.layers,
                *cel,
                width,
                height,
                match inflated {
                    Some(v) => Some(v@),
                    None => None,
                },
            ) {
                Ok(canvases) => r is Ok && final(self)@.layers == canvases,
                Err(e) => r == Err::<(), AsepriteError>(e) && final(self)@.layers == old(
                    self,
                )@.layers,
            },
    {
        let pixels = match inflated {
            Some(pixels) => pixels,
            None => {
                return Err(AsepriteError::CorruptFile(Corruption::BadCompressedData));
            },
        };
        assert(0 <= width as int * height as int * 4 <= 65535 * 65535 * 4) by (nonlinear_arith)
            requires
                0 <= width <= 65535,
                0 <= height <= 65535,
        ;
        let expected: u64 = width as u64 * height as u64 * 4;
        if pixels.len() as u64 != expected {
            return Err(AsepriteError::CorruptFile(Corruption::PixelSizeMismatch));
        }
        if cel.layer_index as usize >= self.layers.len() {
            return Err(AsepriteError::CorruptFile(Corruption::LayerIndexOutOfRange));
        }
        let patch = Image::new_from_data(width, height, pixels);
        self.place(cel, &patch, Ghost(self.image.width), Ghost(self.image.height));
        Ok(())
    }

    /// Applies a linked cel, `frames` being the frames finished so far.
    pub fn place_linked_cel(&mut self, frames: &Vec<Frame>, cel: &CelHeader, linked: u16) -> (r:
        Result<(), AsepriteError>)
        requires
            canvases_fit(old(self)@.layers, old(self).image.width, old(self).image.height),
            forall|k: int|
                0 <= k < frames@.len() ==> (#[trigger] frames@[k]).fits(
                    old(self).image.width,
                    old(self).image.height,
                ),
        ensures
            final(self).duration == old(self).duration,
            final(self).image == old(self).image,
            canvases_fit(final(self)@.layers, old(self).image.width, old(self).image.height),
            match linked_cel_outcome(old(self)@.layers, frame_views(frames@), *cel, linked) {
                Ok(canvases) => r is Ok && final(self)@.layers == canvases,
                Err(e) => r == Err::<(), AsepriteError>(e) && final(self)@.layers == old(
                    self,
                )@.layers,
            },
    {
        if linked as usize >= frames.len() {
            return Err(AsepriteError::CorruptFile(Corruption::LinkedFrameNotEarlier));
        }
        let source: &Frame = &frames[linked as usize];
        assert(frame_views(frames@)[linked as int] == source@);
        if cel.layer_index as usize >= self.layers.len() || cel.layer_index as usize
            >= source.layers.len() {
            return Err(AsepriteError::CorruptFile(Corruption::LayerIndexOutOfRange));
        }
        let patch: &Image = &source.layers[cel.layer_index as usize];
        assert(source@.layers[cel.layer_index as int] == patch@);
        assert(source.fits(self.image.width, self.image.height));
        assert(source@.layers[cel.layer_index as int].wf());
        self.place(cel, patch, Ghost(self.image.width), Ghost(self.image.height));
        Ok(())
    }

    /// Gives the frame a blank canvas for each of `n` layers that has none.
    pub fn grow(&mut self, n: usize)
        requires
            old(self).fits(old(self).image.width, old(self).image.height),
            old(self).image.width as int * old(self).image.height as int * 4 <= usize::MAX,
        ensures
            final(self)@ == (FrameView {
                layers: grown(
                    old(self)@.layers,
                    n as int,
                    old(self).image.width,
                    old(self).image.height,
                ),
                ..old(self)@
            }),
            final(self).image == old(self).image,
            final(self).fits(old(self).image.width, old(self).image.height),
    {
        let width: u16 = self.image.width;
        let height: u16 = self.image.height;
        let ghost before = self@.layers;
        assert(self@.layers =~= before + Seq::new(0nat, |i: int| ImageView::blank(width, height)));
        while self.layers.len() < n
            invariant
                self.image == old(self).image,
                self.duration == old(self).duration,
                width == self.image.width,
                height == self.image.height,
                width as int * height as int * 4 <= usize::MAX,
                before == old(self)@.layers,
                self.fits(width, height),
                before.len() <= self.layers@.len(),
                before.len() < n ==> self.layers@.len() <= n,
                before.len() >= n ==> self.layers@.len() == before.len(),
                self@.layers == before + Seq::new(
                    (self.layers@.len() - before.len()) as nat,
                    |i: int| ImageView::blank(width, height),
                ),
            decreases n - self.layers@.len(),
        {
            let ghost prev = self@.layers;
            let canvas = Image::new(width, height);
            self.layers.push(canvas);
            assert(self@.layers =~= prev.push(ImageView::blank(width, height)));
            assert(self@.layers =~= before + Seq::new(
                (self.layers@.len() - before.len()) as nat,
                |i: int| ImageView::blank(width, height),
            ));
        }
        assert(self@.layers =~= grown(before, n as int, width, height));
    }
}

} // verus!
