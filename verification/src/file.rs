//! The decoder: the file header, then frame after frame, chunk after chunk.

use vstd::prelude::*;
use crate::constants;
use crate::document::{
    composite, compressed_cel_outcome, frame_views, grown, layer_views, linked_cel_outcome,
    CelHeader, Frame, FrameView, Layer,
};
use crate::error::{AsepriteError, Corruption, Unsupported};
use crate::image::{Image, ImageView};
use crate::metadata::{
    read_slice, read_tags, slice_chunk, slice_views, tag_views, tags_chunk, FileHeader,
    LayerHeader, LayerView, Slice, SliceView, Tag, TagView, UserData,
};
use crate::parser::{advance_outcome, le_u16, le_u32, Parse, Parser, ParserView, Skip};
use crate::zlib::{inflate_zlib, zlib_inflated};

verus! {

/// What a document holds.
pub struct DocView {
    pub header: FileHeader,
    pub layers: Seq<LayerView>,
    pub frames: Seq<FrameView>,
    pub tags: Seq<TagView>,
    pub slices: Seq<SliceView>,
}

impl DocView {
    /// A canvas of the document's size can be addressed on this machine.
    pub open spec fn addressable(self) -> bool {
        self.header.width as int * self.header.height as int * 4 <= usize::MAX
    }

    /// Every finished frame is well formed and of the document's size.
    pub open spec fn wf(self) -> bool {
        &&& self.addressable()
        &&& forall|k: int|
            0 <= k < self.frames.len() ==> (#[trigger] self.frames[k]).fits(
                self.header.width,
                self.header.height,
            )
    }
}

/// The decoder's state inside a frame: the document so far and the canvases
/// of the frame that is being read.
pub struct Decoding {
    pub doc: DocView,
    pub canvases: Seq<ImageView>,
}

impl Decoding {
    /// This state with a canvas for every layer known.
    pub open spec fn grown(self) -> Decoding {
        Decoding {
            canvases: grown(
                self.canvases,
                self.doc.layers.len() as int,
                self.doc.header.width,
                self.doc.header.height,
            ),
            ..self
        }
    }
}

/// What the body of a cel chunk does to the canvases. The body begins at
/// `pos`; the chunk declares its end at `end`. A compressed cel takes all the
/// bytes up to `end` as its pixel data.
pub open spec fn cel_chunk(
    canvases: Seq<ImageView>,
    frames: Seq<FrameView>,
    data: Seq<u8>,
    pos: int,
    end: int,
) -> Result<(Seq<ImageView>, int), AsepriteError> {
    match CelHeader::decode(data, pos) {
        Err(e) => Err(e),
        Ok((cel, at)) => if cel.cel_type == constants::ASE_FILE_COMPRESSED_CEL {
            if at + 4 > data.len() {
                Err(AsepriteError::Io)
            } else if end < at + 4 {
                Err(AsepriteError::CorruptFile(Corruption::ChunkOverrun))
            } else if end > data.len() {
                Err(AsepriteError::Io)
            } else {
                match compressed_cel_outcome(
                    canvases,
                    cel,
                    le_u16(data, at),
                    le_u16(data, at + 2),
                    zlib_inflated(data.subrange(at + 4, end)),
                ) {
                    Ok(canvases) => Ok((canvases, end)),
                    Err(e) => Err(e),
                }
            }
        } else if cel.cel_type == constants::ASE_FILE_LINK_CEL {
            if at + 2 > data.len() {
                Err(AsepriteError::Io)
            } else {
                match linked_cel_outcome(canvases, frames, cel, le_u16(data, at)) {
                    Ok(canvases) => Ok((canvases, at + 2)),
                    Err(e) => Err(e),
                }
            }
        } else {
            Err(AsepriteError::Unimplemented(Unsupported::CelType(cel.cel_type)))
        },
    }
}

/// The slices after the user-data chunk whose body begins at `pos` was
/// attached to the slice appended last. With no slice yet, the chunk is
/// passed over unread.
pub open spec fn user_data_chunk(slices: Seq<SliceView>, data: Seq<u8>, pos: int) -> Result<
    (Seq<SliceView>, int),
    AsepriteError,
> {
    if slices.len() == 0 {
        Ok((slices, pos))
    } else {
        match UserData::decode_onto(slices.last().user_data, data, pos) {
            Err(e) => Err(e),
            Ok((user_data, at)) => Ok(
                (slices.update(slices.len() - 1, SliceView { user_data, ..slices.last() }), at),
            ),
        }
    }
}

/// A chunk of this type holds nothing that the document needs, and is
/// passed over.
pub open spec fn decorative(chunk_type: u16) -> bool {
    chunk_type == constants::ASE_FILE_CHUNK_COLOR_PROFILE || chunk_type
        == constants::ASE_FILE_CHUNK_PALETTE || chunk_type == constants::ASE_FILE_CHUNK_FLI_COLOR2
}

/// What the handler of a chunk of type `chunk_type` does, its body beginning
/// at `pos` and the chunk ending at `end`: the state behind it, and the offset
/// at which the handler stops reading.
pub open spec fn chunk_body(st: Decoding, data: Seq<u8>, pos: int, chunk_type: u16, end: int)
    -> Result<(Decoding, int), AsepriteError> {
    if decorative(chunk_type) {
        Ok((st, pos))
    } else if chunk_type == constants::ASE_FILE_CHUNK_CEL {
        match cel_chunk(st.canvases, st.doc.frames, data, pos, end) {
            Ok((canvases, at)) => Ok((Decoding { canvases, ..st }, at)),
            Err(e) => Err(e),
        }
    } else if chunk_type == constants::ASE_FILE_CHUNK_LAYER {
        match LayerHeader::decode(data, pos) {
            Ok((layer, at)) => Ok(
                (
                    Decoding { doc: DocView { layers: st.doc.layers.push(layer), ..st.doc }, ..st },
                    at,
                ),
            ),
            Err(e) => Err(e),
        }
    } else if chunk_type == constants::ASE_FILE_CHUNK_TAGS {
        match tags_chunk(data, pos) {
            Ok((tags, at)) => Ok(
                (Decoding { doc: DocView { tags: st.doc.tags + tags, ..st.doc }, ..st }, at),
            ),
            Err(e) => Err(e),
        }
    } else if chunk_type == constants::ASE_FILE_CHUNK_SLICE {
        match slice_chunk(data, pos) {
            Ok((slice, at)) => Ok(
                (
                    Decoding { doc: DocView { slices: st.doc.slices.push(slice), ..st.doc }, ..st },
                    at,
                ),
            ),
            Err(e) => Err(e),
        }
    } else if chunk_type == constants::ASE_FILE_CHUNK_USER_DATA {
        match user_data_chunk(st.doc.slices, data, pos) {
            Ok((slices, at)) => Ok((Decoding { doc: DocView { slices, ..st.doc }, ..st }, at)),
            Err(e) => Err(e),
        }
    } else {
        Err(AsepriteError::Unimplemented(Unsupported::ChunkType(chunk_type)))
    }
}

/// What the chunk at `pos` does: a header of six bytes gives its size, which
/// counts the header, and its type; the handler runs; the cursor advances
/// from where the handler stopped to the chunk's end, never backwards.
pub open spec fn chunk_step(st: Decoding, data: Seq<u8>, pos: int) -> Result<
    (Decoding, int),
    AsepriteError,
> {
    if pos + 6 > data.len() {
        Err(AsepriteError::Io)
    } else {
        let end = pos + le_u32(data, pos);
        match chunk_body(st, data, pos + 6, le_u16(data, pos + 4), end) {
            Err(e) => Err(e),
            Ok((after, at)) => match advance_outcome(ParserView { data, pos: at }, end) {
                Err(e) => Err(e),
                Ok(_) => Ok((after, end)),
            },
        }
    }
}

/// A chunk that is read with success leaves the cursor on the end that its
/// header declares, and its handler has stopped at or before that end. A
/// handler that stops behind the declared end makes the file corrupt.
pub proof fn lemma_chunk_lands_on_end(st: Decoding, data: Seq<u8>, pos: int)
    requires
        pos + 6 <= data.len(),
    ensures
        match chunk_body(st, data, pos + 6, le_u16(data, pos + 4), pos + le_u32(data, pos)) {
            Ok((_, at)) => if at > pos + le_u32(data, pos) {
                chunk_step(st, data, pos) == Err::<(Decoding, int), AsepriteError>(
                    AsepriteError::CorruptFile(Corruption::ChunkOverrun),
                )
            } else {
                chunk_step(st, data, pos) is Ok ==> chunk_step(st, data, pos)->Ok_0.1 == pos
                    + le_u32(data, pos)
            },
            Err(e) => chunk_step(st, data, pos) == Err::<(Decoding, int), AsepriteError>(e),
        },
{
}

/// A link cel whose frame number is not below the number of finished frames
/// makes the file corrupt, wherever it points and whatever else it says.
pub proof fn lemma_forward_link_is_corrupt(
    canvases: Seq<ImageView>,
    frames: Seq<FrameView>,
    data: Seq<u8>,
    pos: int,
    end: int,
)
    requires
        pos + 18 <= data.len(),
        le_u16(data, pos + 7) == constants::ASE_FILE_LINK_CEL,
        le_u16(data, pos + 16) >= frames.len(),
    ensures
        cel_chunk(canvases, frames, data, pos, end) == Err::<(Seq<ImageView>, int), AsepriteError>(
            AsepriteError::CorruptFile(Corruption::LinkedFrameNotEarlier),
        ),
{
}

/// What `n` chunks do, the first of them at `pos`. Before each chunk the
/// frame gets a canvas for every layer known by then.
pub open spec fn chunks(st: Decoding, data: Seq<u8>, pos: int, n: nat) -> Result<
    (Decoding, int),
    AsepriteError,
>
    decreases n,
{
    if n == 0 {
        Ok((st, pos))
    } else {
        match chunk_step(st.grown(), data, pos) {
            Err(e) => Err(e),
            Ok((after, next)) => chunks(after, data, next, (n - 1) as nat),
        }
    }
}

/// What the frame at `pos` gives: the document with the layers, tags and
/// slices that the frame's chunks add, the frame itself, and the offset
/// behind it. The frame's image is the composite of its canvases.
pub open spec fn frame_step(doc: DocView, data: Seq<u8>, pos: int) -> Result<
    (DocView, FrameView, int),
    AsepriteError,
> {
    if pos + 16 > data.len() {
        Err(AsepriteError::Io)
    } else if le_u16(data, pos + 4) != constants::ASE_FILE_FRAME_MAGIC {
        Err(AsepriteError::CorruptFile(Corruption::BadMagic))
    } else {
        match chunks(
            Decoding { doc, canvases: Seq::empty() },
            data,
            pos + 16,
            le_u16(data, pos + 6) as nat,
        ) {
            Err(e) => Err(e),
            Ok((st, end)) => {
                let canvases = st.grown().canvases;
                Ok(
                    (
                        st.doc,
                        FrameView {
                            duration: le_u16(data, pos + 8),
                            layers: canvases,
                            image: composite(
                                st.doc.layers,
                                canvases,
                                doc.header.width,
                                doc.header.height,
                                st.doc.layers.len(),
                            ),
                        },
                        end,
                    ),
                )
            },
        }
    }
}

/// The document once as many frames are read as the header declares, the
/// next of them at `pos`. What follows the last frame is not looked at.
pub open spec fn frames_from(doc: DocView, data: Seq<u8>, pos: int) -> Result<
    DocView,
    AsepriteError,
>
    decreases doc.header.frames - doc.frames.len(),
{
    if doc.frames.len() >= doc.header.frames {
        Ok(doc)
    } else {
        match frame_step(doc, data, pos) {
            Err(e) => Err(e),
            Ok((after, frame, next)) => frames_from(
                DocView {
                    header: doc.header,
                    layers: after.layers,
                    frames: doc.frames.push(frame),
                    tags: after.tags,
                    slices: after.slices,
                },
                data,
                next,
            ),
        }
    }
}

/// The document that the bytes of a file hold: the header at offset 0, which
/// must carry the file magic, then the frames from offset 128 on.
pub open spec fn load(data: Seq<u8>) -> Result<DocView, AsepriteError> {
    match FileHeader::decode(data, 0) {
        Err(e) => Err(e),
        Ok((header, _)) => if header.magic != constants::ASE_FILE_MAGIC {
            Err(AsepriteError::CorruptFile(Corruption::BadMagic))
        } else if header.width as int * header.height as int * 4 > usize::MAX {
            Err(AsepriteError::Unimplemented(Unsupported::CanvasSize))
        } else {
            frames_from(
                DocView {
                    header,
                    layers: Seq::empty(),
                    frames: Seq::empty(),
                    tags: Seq::empty(),
                    slices: Seq::empty(),
                },
                data,
                constants::ASE_FILE_HEADER_SIZE as int,
            )
        },
    }
}

/// A document under decoding, and the decoded document once every frame is
/// read.
#[derive(Debug)]
pub struct AsepriteFile {
    pub header: FileHeader,
    pub parser: Parser,
    pub layers: Vec<Layer>,
    pub frames: Vec<Frame>,
    pub tags: Vec<Tag>,
    pub slices: Vec<Slice>,
}

impl View for AsepriteFile {
    type V = DocView;

    open spec fn view(&self) -> DocView {
        DocView {
            header: self.header,
            layers: layer_views(self.layers@),
            frames: frame_views(self.frames@),
            tags: tag_views(self.tags@),
            slices: slice_views(self.slices@),
        }
    }
}

/// Reads the body of a cel chunk that ends at `end` and draws the cel onto
/// its layer's canvas in `frame`; `frames` are the frames finished so far.
fn read_cel(p: &mut Parser, frames: &Vec<Frame>, frame: &mut Frame, end: u128) -> (r: Result<
    (),
    AsepriteError,
>)
    requires
        old(frame).fits(old(frame).image.width, old(frame).image.height),
        forall|k: int|
            0 <= k < frames@.len() ==> (#[trigger] frames@[k]).fits(
                old(frame).image.width,
                old(frame).image.height,
            ),
    ensures
        final(p)@.data == old(p)@.data,
        final(frame).duration == old(frame).duration,
        final(frame).image == old(frame).image,
        match cel_chunk(
            old(frame)@.layers,
            frame_views(frames@),
            old(p)@.data,
            old(p)@.pos,
            end as int,
        ) {
            Ok((canvases, at)) => r is Ok && final(frame)@.layers == canvases && final(p)@.pos
                == at && final(frame).fits(old(frame).image.width, old(frame).image.height),
            Err(e) => r == Err::<(), AsepriteError>(e),
        },
{
    let cel: CelHeader = p.next()?;
    if cel.cel_type == constants::ASE_FILE_COMPRESSED_CEL {
        if !p.available(4) {
            return Err(AsepriteError::Io);
        }
        let width: u16 = p.next()?;
        let height: u16 = p.next()?;
        let at: usize = p.position();
        if end < at as u128 {
            return Err(AsepriteError::CorruptFile(Corruption::ChunkOverrun));
        }
        if end > p.len() as u128 {
            return Err(AsepriteError::Io);
        }
        let compressed: Vec<u8> = p.next_n(end as usize - at)?;
        let inflated: Option<Vec<u8>> = inflate_zlib(&compressed);
        frame.place_compressed_cel(&cel, width, height, inflated)
    } else if cel.cel_type == constants::ASE_FILE_LINK_CEL {
        let linked: u16 = p.next()?;
        frame.place_linked_cel(frames, &cel, linked)
    } else {
        Err(AsepriteError::Unimplemented(Unsupported::CelType(cel.cel_type)))
    }
}

impl AsepriteFile {
    /// Every finished frame is well formed and of the document's size.
    pub open spec fn wf(&self) -> bool {
        self@.wf()
    }

    /// Reads the chunk at the cursor and applies it to the document and to
    /// the frame under way. Whatever the handler has read of the chunk, the
    /// cursor ends on the chunk's declared end; a handler that has read past
    /// it makes the file corrupt. After a failure the state is left open.
    pub fn apply_chunk(&mut self, frame: &mut Frame) -> (r: Result<(), AsepriteError>)
        requires
            old(self).wf(),
            old(frame).fits(old(self).header.width, old(self).header.height),
        ensures
            final(self).parser@.data == old(self).parser@.data,
            final(self).header == old(self).header,
            final(self).frames == old(self).frames,
            final(frame).duration == old(frame).duration,
            final(frame).image == old(frame).image,
            match chunk_step(
                Decoding { doc: old(self)@, canvases: old(frame)@.layers },
                old(self).parser@.data,
                old(self).parser@.pos,
            ) {
                Ok((st, next)) => r is Ok && final(self)@ == st.doc && final(frame)@.layers
                    == st.canvases && final(self).parser@.pos == next && final(frame).fits(
                    old(self).header.width,
                    old(self).header.height,
                ),
                Err(e) => r == Err::<(), AsepriteError>(e),
            },
    {
        if !self.parser.available(6) {
            return Err(AsepriteError::Io);
        }
        let chunk_pos: usize = self.parser.position();
        let chunk_size: u32 = self.parser.next()?;
        let chunk_type: u16 = self.parser.next()?;
        let chunk_end: u128 = chunk_pos as u128 + chunk_size as u128;

        if chunk_type == constants::ASE_FILE_CHUNK_COLOR_PROFILE || chunk_type
            == constants::ASE_FILE_CHUNK_PALETTE || chunk_type
            == constants::ASE_FILE_CHUNK_FLI_COLOR2 {
        } else if chunk_type == constants::ASE_FILE_CHUNK_CEL {
            assert forall|k: int| 0 <= k < self.frames@.len() implies (
            #[trigger] self.frames@[k]).fits(frame.image.width, frame.image.height) by {
                assert(self@.frames[k].fits(self.header.width, self.header.height));
            }
            read_cel(&mut self.parser, &self.frames, frame, chunk_end)?;
        } else if chunk_type == constants::ASE_FILE_CHUNK_LAYER {
            let header: LayerHeader = self.parser.next()?;
            let ghost before = layer_views(self.layers@);
            self.layers.push(Layer::from_header(header));
            assert(layer_views(self.layers@) =~= before.push(header@));
        } else if chunk_type == constants::ASE_FILE_CHUNK_TAGS {
            let mut tags: Vec<Tag> = read_tags(&mut self.parser)?;
            let ghost before = tag_views(self.tags@);
            let ghost added = tag_views(tags@);
            self.tags.append(&mut tags);
            assert(tag_views(self.tags@) =~= before + added);
        } else if chunk_type == constants::ASE_FILE_CHUNK_SLICE {
            let slice: Slice = read_slice(&mut self.parser)?;
            let ghost before = slice_views(self.slices@);
            self.slices.push(slice);
            assert(slice_views(self.slices@) =~= before.push(slice@));
        } else if chunk_type == constants::ASE_FILE_CHUNK_USER_DATA {
            let n: usize = self.slices.len();
            if n > 0 {
                let ghost before = slice_views(self.slices@);
                assert(before.last() == self.slices@[n - 1]@);
                self.slices[n - 1].user_data.parse_onto(&mut self.parser)?;
                assert(slice_views(self.slices@) =~= before.update(
                    n - 1,
                    SliceView { user_data: self.slices@[n - 1].user_data@, ..before.last() },
                ));
            }
        } else {
            return Err(AsepriteError::Unimplemented(Unsupported::ChunkType(chunk_type)));
        }

        let at: usize = self.parser.position();
        if chunk_end >= at as u128 && chunk_end > self.parser.len() as u128 {
            // the chunk claims to end behind the last byte of the source
            return Err(AsepriteError::Io);
        }
        self.parser.advance_to(chunk_end as usize)
    }

    /// Reads the next frame: its header, its chunks, and the compositing of
    /// its canvases, layer by layer, into its image. Gives nothing once as
    /// many frames are held as the header declares. The caller appends the
    /// frame. After a failure the state is left open.
    pub fn next_frame(&mut self) -> (r: Result<Option<Frame>, AsepriteError>)
        requires
            old(self).wf(),
        ensures
            final(self).parser@.data == old(self).parser@.data,
            final(self).header == old(self).header,
            final(self).frames == old(self).frames,
            old(self)@.frames.len() >= old(self).header.frames ==> r is Ok && r->Ok_0 is None
                && final(self)@ == old(self)@ && final(self).parser@ == old(self).parser@,
            old(self)@.frames.len() < old(self).header.frames ==> match frame_step(
                old(self)@,
                old(self).parser@.data,
                old(self).parser@.pos,
            ) {
                Ok((doc, frame, next)) => r is Ok && r->Ok_0 is Some && r->Ok_0->0@ == frame
                    && final(self)@ == doc && final(self).parser@.pos == next && frame.fits(
                    old(self).header.width,
                    old(self).header.height,
                ),
                Err(e) => r is Err && r->Err_0 == e,
            },
    {
        if self.frames.len() >= self.header.frames as usize {
            return Ok(None);
        }
        if !self.parser.available(16) {
            return Err(AsepriteError::Io);
        }
        let ghost data = self.parser@.data;
        let ghost start = self.parser@.pos;
        let ghost doc = self@;
        let width: u16 = self.header.width;
        let height: u16 = self.header.height;
        let _size: u32 = self.parser.next()?;
        let magic: u16 = self.parser.next()?;
        let chunk_count: u16 = self.parser.next()?;
        let duration: u16 = self.parser.next()?;
        let _reserved: Skip<6> = self.parser.next()?;
        if magic != constants::ASE_FILE_FRAME_MAGIC {
            return Err(AsepriteError::CorruptFile(Corruption::BadMagic));
        }
        let mut frame = Frame { duration, layers: Vec::new(), image: Image::new(width, height) };
        assert(frame@.layers =~= Seq::empty());
        let ghost first = Decoding { doc, canvases: Seq::empty() };

        let mut i: u16 = 0;
        while i < chunk_count
            invariant
                i <= chunk_count,
                self.wf(),
                self.header == old(self).header,
                self.frames == old(self).frames,
                self.parser@.data == data,
                data == old(self).parser@.data,
                start == old(self).parser@.pos,
                doc == old(self)@,
                width == self.header.width,
                height == self.header.height,
                frame.duration == duration,
                frame.image@ == ImageView::blank(width, height),
                frame.fits(width, height),
                chunks(first, data, start + 16, chunk_count as nat) == chunks(
                    Decoding { doc: self@, canvases: frame@.layers },
                    data,
                    self.parser@.pos,
                    (chunk_count - i) as nat,
                ),
                start + 16 <= data.len(),
                le_u16(data, start + 4) == constants::ASE_FILE_FRAME_MAGIC,
                le_u16(data, start + 6) == chunk_count,
                le_u16(data, start + 8) == duration,
                first == (Decoding { doc, canvases: Seq::empty() }),
                doc.frames.len() < doc.header.frames,
                doc.header == self.header,
            decreases chunk_count - i,
        {
            frame.grow(self.layers.len());
            assert(layer_views(self.layers@).len() == self.layers@.len());
            self.apply_chunk(&mut frame)?;
            i += 1;
        }
        frame.grow(self.layers.len());
        assert(layer_views(self.layers@).len() == self.layers@.len());

        let ghost canvases = frame@.layers;
        let ghost layers = layer_views(self.layers@);
        let mut k: usize = 0;
        while k < self.layers.len()
            invariant
                k <= self.layers@.len(),
                layers == layer_views(self.layers@),
                canvases == frame@.layers,
                canvases.len() >= self.layers@.len(),
                frame.duration == duration,
                frame.fits(width, height),
                frame.image@ == composite(layers, canvases, width, height, k as nat),
            decreases self.layers@.len() - k,
        {
            assert(layers[k as int] == self.layers@[k as int]@);
            assert(canvases[k as int] == frame.layers@[k as int]@);
            assert(canvases[k as int].wf());
            if self.layers[k].visible() {
                frame.image.draw(0, 0, &frame.layers[k], self.layers[k].opacity);
            }
            k += 1;
        }
        Ok(Some(frame))
    }

    /// Decodes a whole file: the header, which must carry the file magic, and
    /// from offset 128 on as many frames as the header declares. Bytes behind
    /// the last frame are not looked at.
    pub fn parse(data: Vec<u8>) -> (r: Result<AsepriteFile, AsepriteError>)
        ensures
            match load(data@) {
                Ok(doc) => r is Ok && r->Ok_0@ == doc && r->Ok_0.wf() && doc.frames.len()
                    == doc.header.frames && r->Ok_0.parser@.data == data@,
                Err(e) => r is Err && r->Err_0 == e,
            },
    {
        let mut parser = Parser::new(data);
        let header: FileHeader = parser.next()?;
        if header.magic != constants::ASE_FILE_MAGIC {
            return Err(AsepriteError::CorruptFile(Corruption::BadMagic));
        }
        assert(0 <= header.width as int * header.height as int * 4 <= 65535 * 65535 * 4)
            by (nonlinear_arith)
            requires
                0 <= header.width <= 65535,
                0 <= header.height <= 65535,
        ;
        let canvas_bytes: u64 = header.width as u64 * header.height as u64 * 4;
        if canvas_bytes > usize::MAX as u64 {
            return Err(AsepriteError::Unimplemented(Unsupported::CanvasSize));
        }
        parser.seek(constants::ASE_FILE_HEADER_SIZE as u64)?;

        let mut file = AsepriteFile {
            header,
            parser,
            layers: Vec::new(),
            frames: Vec::new(),
            tags: Vec::new(),
            slices: Vec::new(),
        };
        assert(file@.layers =~= Seq::empty() && file@.frames =~= Seq::empty() && file@.tags
            =~= Seq::empty() && file@.slices =~= Seq::empty());

        while file.frames.len() < header.frames as usize
            invariant
                file.wf(),
                file.header == header,
                file.parser@.data == data@,
                file.frames@.len() <= header.frames,
                load(data@) == frames_from(file@, data@, file.parser@.pos),
            decreases header.frames - file.frames@.len(),
        {
            let ghost before = file@;
            match file.next_frame()? {
                Some(frame) => {
                    file.frames.push(frame);
                    assert(file@.frames =~= before.frames.push(frame@));
                },
                None => {},
            }
        }
        Ok(file)
    }
}

} // verus!
