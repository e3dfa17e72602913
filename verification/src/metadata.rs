//! The records of the file format and their layout on disk.

use vstd::prelude::*;
use crate::constants;
use crate::error::AsepriteError;
use crate::parser::{le_i16, le_u16, le_u32, Parse, Parser, Skip};

verus! {

/// The header of the whole file. Its fields take 47 bytes; the file reserves
/// more for it.
#[derive(Clone, Copy, Debug)]
pub struct FileHeader {
    pub size: u32,
    pub magic: u16,
    pub frames: u16,
    pub width: u16,
    pub height: u16,
    pub depth: u16,
    pub flags: u32,
    pub speed: u16,
    pub next: u32,
    pub frit: u32,
    pub transparent_index: u32,
    pub ncolors: u16,
    pub pixel_width: u8,
    pub pixel_height: u8,
    pub grid_x: i16,
    pub grid_y: i16,
    pub grid_width: u16,
    pub grid_height: u16,
}

impl View for FileHeader {
    type V = FileHeader;

    open spec fn view(&self) -> FileHeader {
        *self
    }
}

impl Parse for FileHeader {
    open spec fn decode(data: Seq<u8>, pos: int) -> Result<(FileHeader, int), AsepriteError> {
        if pos + 47 <= data.len() {
            Ok(
                (
                    FileHeader {
                        size: le_u32(data, pos),
                        magic: le_u16(data, pos + 4),
                        frames: le_u16(data, pos + 6),
                        width: le_u16(data, pos + 8),
                        height: le_u16(data, pos + 10),
                        depth: le_u16(data, pos + 12),
                        flags: le_u32(data, pos + 14),
                        speed: le_u16(data, pos + 18),
                        next: le_u32(data, pos + 20),
                        frit: le_u32(data, pos + 24),
                        transparent_index: le_u32(data, pos + 28),
                        ncolors: le_u16(data, pos + 35),
                        pixel_width: data[pos + 37],
                        pixel_height: data[pos + 38],
                        grid_x: le_i16(data, pos + 39),
                        grid_y: le_i16(data, pos + 41),
                        grid_width: le_u16(data, pos + 43),
                        grid_height: le_u16(data, pos + 45),
                    },
                    pos + 47,
                ),
            )
        } else {
            Err(AsepriteError::Io)
        }
    }

    fn parse(p: &mut Parser) -> (r: Result<FileHeader, AsepriteError>) {
        if !p.available(47) {
            return Err(AsepriteError::Io);
        }
        let size: u32 = p.next()?;
        let magic: u16 = p.next()?;
        let frames: u16 = p.next()?;
        let width: u16 = p.next()?;
        let height: u16 = p.next()?;
        let depth: u16 = p.next()?;
        let flags: u32 = p.next()?;
        let speed: u16 = p.next()?;
        let next: u32 = p.next()?;
        let frit: u32 = p.next()?;
        let transparent_index: u32 = p.next()?;
        let _reserved: Skip<3> = p.next()?;
        let ncolors: u16 = p.next()?;
        let pixel_width: u8 = p.next()?;
        let pixel_height: u8 = p.next()?;
        let grid_x: i16 = p.next()?;
        let grid_y: i16 = p.next()?;
        let grid_width: u16 = p.next()?;
        let grid_height: u16 = p.next()?;
        Ok(
            FileHeader {
                size,
                magic,
                frames,
                width,
                height,
                depth,
                flags,
                speed,
                next,
                frit,
                transparent_index,
                ncolors,
                pixel_width,
                pixel_height,
                grid_x,
                grid_y,
                grid_width,
                grid_height,
            },
        )
    }
}

/// What a [`LayerHeader`] holds, its name as a sequence of characters.
pub struct LayerView {
    pub flags: u16,
    pub layer_type: u16,
    pub child_level: u16,
    pub default_width: u16,
    pub default_height: u16,
    pub blend_mode: u16,
    pub opacity: u8,
    pub name: Seq<char>,
}

impl LayerView {
    /// The layer takes part in the composited frame.
    pub open spec fn visible(self) -> bool {
        self.flags & constants::LAYER_VISIBLE != 0
    }
}

/// The body of a layer chunk.
#[derive(Debug)]
pub struct LayerHeader {
    pub flags: u16,
    pub layer_type: u16,
    pub child_level: u16,
    pub default_width: u16,
    pub default_height: u16,
    pub blend_mode: u16,
    pub opacity: u8,
    pub name: String,
}

impl View for LayerHeader {
    type V = LayerView;

    open spec fn view(&self) -> LayerView {
        LayerView {
            flags: self.flags,
            layer_type: self.layer_type,
            child_level: self.child_level,
            default_width: self.default_width,
            default_height: self.default_height,
            blend_mode: self.blend_mode,
            opacity: self.opacity,
            name: self.name@,
        }
    }
}

impl LayerHeader {
    /// Whether the visibility bit is set.
    pub fn visible(&self) -> (b: bool)
        ensures
            b == self@.visible(),
    {
        self.flags & constants::LAYER_VISIBLE != 0
    }
}

impl Parse for LayerHeader {
    /// Sixteen bytes of fields and reserved space, then the name.
    open spec fn decode(data: Seq<u8>, pos: int) -> Result<(LayerView, int), AsepriteError> {
        if pos + 16 > data.len() {
            Err(AsepriteError::Io)
        } else {
            match String::decode(data, pos + 16) {
                Ok((name, end)) => Ok(
                    (
                        LayerView {
                            flags: le_u16(data, pos),
                            layer_type: le_u16(data, pos + 2),
                            child_level: le_u16(data, pos + 4),
                            default_width: le_u16(data, pos + 6),
                            default_height: le_u16(data, pos + 8),
                            blend_mode: le_u16(data, pos + 10),
                            opacity: data[pos + 12],
                            name,
                        },
                        end,
                    ),
                ),
                Err(e) => Err(e),
            }
        }
    }

    fn parse(p: &mut Parser) -> (r: Result<LayerHeader, AsepriteError>) {
        if !p.available(16) {
            return Err(AsepriteError::Io);
        }
        let start: usize = p.position();
        let flags: u16 = p.next()?;
        let layer_type: u16 = p.next()?;
        let child_level: u16 = p.next()?;
        let default_width: u16 = p.next()?;
        let default_height: u16 = p.next()?;
        let blend_mode: u16 = p.next()?;
        let opacity: u8 = p.next()?;
        let _reserved: Skip<3> = p.next()?;
        match p.next::<String>() {
            Ok(name) => Ok(
                LayerHeader {
                    flags,
                    layer_type,
                    child_level,
                    default_width,
                    default_height,
                    blend_mode,
                    opacity,
                    name,
                },
            ),
            Err(e) => {
                p.rewind(start);
                Err(e)
            },
        }
    }
}

/// What a [`Tag`] holds, its name as a sequence of characters.
pub struct TagView {
    pub from: u16,
    pub to: u16,
    pub anidir: u8,
    pub r: u8,
    pub g: u8,
    pub b: u8,
    pub name: Seq<char>,
}

/// A named range of frames.
#[derive(Debug)]
pub struct Tag {
    pub from: u16,
    pub to: u16,
    pub anidir: u8,
    pub r: u8,
    pub g: u8,
    pub b: u8,
    pub name: String,
}

impl View for Tag {
    type V = TagView;

    open spec fn view(&self) -> TagView {
        TagView {
            from: self.from,
            to: self.to,
            anidir: self.anidir,
            r: self.r,
            g: self.g,
            b: self.b,
            name: self.name@,
        }
    }
}

impl Parse for Tag {
    /// Seventeen bytes of fields and reserved space, then the name.
    open spec fn decode(data: Seq<u8>, pos: int) -> Result<(TagView, int), AsepriteError> {
        if pos + 17 > data.len() {
            Err(AsepriteError::Io)
        } else {
            match String::decode(data, pos + 17) {
                Ok((name, end)) => Ok(
                    (
                        TagView {
                            from: le_u16(data, pos),
                            to: le_u16(data, pos + 2),
                            anidir: data[pos + 4],
                            r: data[pos + 13],
                            g: data[pos + 14],
                            b: data[pos + 15],
                            name,
                        },
                        end,
                    ),
                ),
                Err(e) => Err(e),
            }
        }
    }

    fn parse(p: &mut Parser) -> (r: Result<Tag, AsepriteError>) {
        if !p.available(17) {
            return Err(AsepriteError::Io);
        }
        let start: usize = p.position();
        let from: u16 = p.next()?;
        let to: u16 = p.next()?;
        let anidir: u8 = p.next()?;
        let _reserved: Skip<8> = p.next()?;
        let r: u8 = p.next()?;
        let g: u8 = p.next()?;
        let b: u8 = p.next()?;
        let _unused: Skip<1> = p.next()?;
        match p.next::<String>() {
            Ok(name) => Ok(Tag { from, to, anidir, r, g, b, name }),
            Err(e) => {
                p.rewind(start);
                Err(e)
            },
        }
    }
}

/// A rectangle: its top left corner and its size.
#[derive(Clone, Copy, Debug)]
pub struct Rect {
    pub x: u32,
    pub y: u32,
    pub w: u32,
    pub h: u32,
}

impl View for Rect {
    type V = Rect;

    open spec fn view(&self) -> Rect {
        *self
    }
}

impl Default for Rect {
    fn default() -> (r: Rect)
        ensures
            r == (Rect { x: 0, y: 0, w: 0, h: 0 }),
    {
        Rect { x: 0, y: 0, w: 0, h: 0 }
    }
}

/// The rectangle whose sixteen bytes begin at `pos`.
pub open spec fn rect_at(data: Seq<u8>, pos: int) -> Rect {
    Rect {
        x: le_u32(data, pos),
        y: le_u32(data, pos + 4),
        w: le_u32(data, pos + 8),
        h: le_u32(data, pos + 12),
    }
}

/// The point whose eight bytes begin at `pos`.
pub open spec fn point_at(data: Seq<u8>, pos: int) -> Point {
    Point { x: le_u32(data, pos), y: le_u32(data, pos + 4) }
}

impl Parse for Rect {
    open spec fn decode(data: Seq<u8>, pos: int) -> Result<(Rect, int), AsepriteError> {
        if pos + 16 <= data.len() {
            Ok((rect_at(data, pos), pos + 16))
        } else {
            Err(AsepriteError::Io)
        }
    }

    fn parse(p: &mut Parser) -> (r: Result<Rect, AsepriteError>) {
        if !p.available(16) {
            return Err(AsepriteError::Io);
        }
        let x: u32 = p.next()?;
        let y: u32 = p.next()?;
        let w: u32 = p.next()?;
        let h: u32 = p.next()?;
        Ok(Rect { x, y, w, h })
    }
}

/// A point.
#[derive(Clone, Copy, Debug)]
pub struct Point {
    pub x: u32,
    pub y: u32,
}

impl View for Point {
    type V = Point;

    open spec fn view(&self) -> Point {
        *self
    }
}

impl Default for Point {
    fn default() -> (r: Point)
        ensures
            r == (Point { x: 0, y: 0 }),
    {
        Point { x: 0, y: 0 }
    }
}

impl Parse for Point {
    open spec fn decode(data: Seq<u8>, pos: int) -> Result<(Point, int), AsepriteError> {
        if pos + 8 <= data.len() {
            Ok((point_at(data, pos), pos + 8))
        } else {
            Err(AsepriteError::Io)
        }
    }

    fn parse(p: &mut Parser) -> (r: Result<Point, AsepriteError>) {
        if !p.available(8) {
            return Err(AsepriteError::Io);
        }
        let x: u32 = p.next()?;
        let y: u32 = p.next()?;
        Ok(Point { x, y })
    }
}

/// The views of a list of tags.
pub open spec fn tag_views(v: Seq<Tag>) -> Seq<TagView> {
    v.map_values(|t: Tag| t@)
}

/// The tags that `n` tag records give, the first of them at `pos`, behind the
/// tags `acc` read before them; with the offset behind the last one.
pub open spec fn tags_from(data: Seq<u8>, pos: int, n: nat, acc: Seq<TagView>) -> Result<
    (Seq<TagView>, int),
    AsepriteError,
>
    decreases n,
{
    if n == 0 {
        Ok((acc, pos))
    } else {
        match Tag::decode(data, pos) {
            Ok((t, next)) => tags_from(data, next, (n - 1) as nat, acc.push(t)),
            Err(e) => Err(e),
        }
    }
}

/// The body of a tags chunk that begins at `pos`: a count, eight reserved
/// bytes, and the tags.
pub open spec fn tags_chunk(data: Seq<u8>, pos: int) -> Result<(Seq<TagView>, int), AsepriteError> {
    if pos + 10 > data.len() {
        Err(AsepriteError::Io)
    } else {
        tags_from(data, pos + 10, le_u16(data, pos) as nat, Seq::empty())
    }
}

/// Reads the body of a tags chunk. A read that fails leaves the cursor where
/// it was.
pub fn read_tags(p: &mut Parser) -> (r: Result<Vec<Tag>, AsepriteError>)
    ensures
        final(p)@.data == old(p)@.data,
        match tags_chunk(old(p)@.data, old(p)@.pos) {
            Ok((tags, end)) => r is Ok && tag_views(r->Ok_0@) == tags && final(p)@.pos == end,
            Err(e) => r is Err && r->Err_0 == e && final(p)@.pos == old(p)@.pos,
        },
{
    if !p.available(10) {
        return Err(AsepriteError::Io);
    }
    let start: usize = p.position();
    let ghost data = p@.data;
    let count: u16 = p.next()?;
    let _reserved: Skip<8> = p.next()?;
    let ghost first = p@.pos;
    let mut tags: Vec<Tag> = Vec::new();
    let mut i: u16 = 0;
    assert(tag_views(tags@) =~= Seq::empty());
    while i < count
        invariant
            i <= count,
            p@.data == data,
            data == old(p)@.data,
            start == old(p)@.pos,
            start <= p@.pos,
            tags_chunk(data, old(p)@.pos) == tags_from(data, first, count as nat, Seq::empty()),
            tags_from(data, first, count as nat, Seq::empty()) == tags_from(
                data,
                p@.pos,
                (count - i) as nat,
                tag_views(tags@),
            ),
        decreases count - i,
    {
        let ghost before = tag_views(tags@);
        let t: Tag = match p.next() {
            Ok(t) => t,
            Err(e) => {
                p.rewind(start);
                return Err(e);
            },
        };
        tags.push(t);
        assert(tag_views(tags@) =~= before.push(t@));
        i += 1;
    }
    Ok(tags)
}

/// One keyframe of a slice.
#[derive(Clone, Copy, Debug)]
pub struct SliceKey {
    pub frame: u32,
    pub bounds: Rect,
    pub center: Option<Rect>,
    pub pivot: Option<Point>,
}

impl SliceKey {
    /// The keys of a slice carry a centre rectangle.
    pub open spec fn has_center(flags: u32) -> bool {
        flags & constants::ASE_SLICE_FLAG_HAS_CENTER_BOUNDS != 0
    }

    /// The keys of a slice carry a pivot.
    pub open spec fn has_pivot(flags: u32) -> bool {
        flags & constants::ASE_SLICE_FLAG_HAS_PIVOT_POINT != 0
    }

    /// Where the pivot of a key stands, counted from the key's first byte.
    pub open spec fn pivot_offset(flags: u32) -> int {
        if Self::has_center(flags) {
            36
        } else {
            20
        }
    }

    /// The number of bytes that one key takes.
    pub open spec fn size(flags: u32) -> int {
        Self::pivot_offset(flags) + if Self::has_pivot(flags) {
            8int
        } else {
            0int
        }
    }

    /// The key that begins at `pos`, in a slice with the given flags: the
    /// frame, the bounds, then the centre and the pivot where the flags
    /// announce them.
    pub open spec fn decode(data: Seq<u8>, pos: int, flags: u32) -> Result<
        (SliceKey, int),
        AsepriteError,
    > {
        if pos + Self::size(flags) > data.len() {
            Err(AsepriteError::Io)
        } else {
            Ok(
                (
                    SliceKey {
                        frame: le_u32(data, pos),
                        bounds: rect_at(data, pos + 4),
                        center: if Self::has_center(flags) {
                            Some(rect_at(data, pos + 20))
                        } else {
                            None
                        },
                        pivot: if Self::has_pivot(flags) {
                            Some(point_at(data, pos + Self::pivot_offset(flags)))
                        } else {
                            None
                        },
                    },
                    pos + Self::size(flags),
                ),
            )
        }
    }

    /// Reads one key of a slice with the given flags. A read that fails
    /// leaves the cursor where it was.
    pub fn parse(p: &mut Parser, flags: u32) -> (r: Result<SliceKey, AsepriteError>)
        ensures
            final(p)@.data == old(p)@.data,
            match Self::decode(old(p)@.data, old(p)@.pos, flags) {
                Ok((k, end)) => r == Ok::<SliceKey, AsepriteError>(k) && final(p)@.pos == end,
                Err(e) => r == Err::<SliceKey, AsepriteError>(e) && final(p)@.pos == old(p)@.pos,
            },
    {
        let with_center: bool = flags & constants::ASE_SLICE_FLAG_HAS_CENTER_BOUNDS != 0;
        let with_pivot: bool = flags & constants::ASE_SLICE_FLAG_HAS_PIVOT_POINT != 0;
        let mut size: usize = 20;
        if with_center {
            size += 16;
        }
        if with_pivot {
            size += 8;
        }
        if !p.available(size) {
            return Err(AsepriteError::Io);
        }
        let frame: u32 = p.next()?;
        let bounds: Rect = p.next()?;
        let center: Option<Rect> = if with_center {
            Some(p.next()?)
        } else {
            None
        };
        let pivot: Option<Point> = if with_pivot {
            Some(p.next()?)
        } else {
            None
        };
        Ok(SliceKey { frame, bounds, center, pivot })
    }
}

/// What a [`UserData`] holds, its text as a sequence of characters.
pub struct UserDataView {
    pub string: Seq<char>,
    pub r: u8,
    pub g: u8,
    pub b: u8,
    pub a: u8,
}

impl UserDataView {
    /// No text and the colour `(0, 0, 0, 0)`.
    pub open spec fn empty() -> UserDataView {
        UserDataView { string: Seq::empty(), r: 0, g: 0, b: 0, a: 0 }
    }
}

/// The text and the colour attached to a slice.
#[derive(Debug)]
pub struct UserData {
    pub string: String,
    pub r: u8,
    pub g: u8,
    pub b: u8,
    pub a: u8,
}

impl View for UserData {
    type V = UserDataView;

    open spec fn view(&self) -> UserDataView {
        UserDataView { string: self.string@, r: self.r, g: self.g, b: self.b, a: self.a }
    }
}

impl Default for UserData {
    fn default() -> (r: UserData)
        ensures
            r@ == UserDataView::empty(),
    {
        UserData { string: String::new(), r: 0, g: 0, b: 0, a: 0 }
    }
}

impl UserData {
    /// A user-data chunk carries a text.
    pub open spec fn has_text(flags: u32) -> bool {
        flags & constants::ASE_USER_DATA_FLAG_HAS_TEXT != 0
    }

    /// A user-data chunk carries a colour.
    pub open spec fn has_color(flags: u32) -> bool {
        flags & constants::ASE_USER_DATA_FLAG_HAS_COLOR != 0
    }

    /// The user data `current` after the user-data chunk whose body begins at
    /// `pos` was attached to it: the text is replaced where the chunk has
    /// one, the colour where it has one, and what it lacks stays.
    pub open spec fn decode_onto(current: UserDataView, data: Seq<u8>, pos: int) -> Result<
        (UserDataView, int),
        AsepriteError,
    > {
        if pos + 4 > data.len() {
            Err(AsepriteError::Io)
        } else {
            let flags = le_u32(data, pos);
            let text: Result<(Seq<char>, int), AsepriteError> = if Self::has_text(flags) {
                String::decode(data, pos + 4)
            } else {
                Ok((current.string, pos + 4))
            };
            match text {
                Err(e) => Err(e),
                Ok((string, at)) => if !Self::has_color(flags) {
                    Ok((UserDataView { string, ..current }, at))
                } else if at + 4 > data.len() {
                    Err(AsepriteError::Io)
                } else {
                    Ok(
                        (
                            UserDataView {
                                string,
                                r: data[at],
                                g: data[at + 1],
                                b: data[at + 2],
                                a: data[at + 3],
                            },
                            at + 4,
                        ),
                    )
                },
            }
        }
    }

    /// Reads the body of a user-data chunk and attaches what it holds. On a
    /// failure nothing is attached and the cursor stays where it was.
    pub fn parse_onto(&mut self, p: &mut Parser) -> (r: Result<(), AsepriteError>)
        ensures
            final(p)@.data == old(p)@.data,
            match Self::decode_onto(old(self)@, old(p)@.data, old(p)@.pos) {
                Ok((v, end)) => r is Ok && final(self)@ == v && final(p)@.pos == end,
                Err(e) => r == Err::<(), AsepriteError>(e) && final(self)@ == old(self)@
                    && final(p)@.pos == old(p)@.pos,
            },
    {
        let start: usize = p.position();
        let flags: u32 = p.next()?;
        let text: Option<String> = if flags & constants::ASE_USER_DATA_FLAG_HAS_TEXT != 0 {
            match p.next() {
                Ok(s) => Some(s),
                Err(e) => {
                    p.rewind(start);
                    return Err(e);
                },
            }
        } else {
            None
        };
        if flags & constants::ASE_USER_DATA_FLAG_HAS_COLOR != 0 {
            if !p.available(4) {
                p.rewind(start);
                return Err(AsepriteError::Io);
            }
            let r: u8 = p.next()?;
            let g: u8 = p.next()?;
            let b: u8 = p.next()?;
            let a: u8 = p.next()?;
            self.r = r;
            self.g = g;
            self.b = b;
            self.a = a;
        }
        match text {
            Some(s) => {
                self.string = s;
            },
            None => {},
        }
        Ok(())
    }
}

/// What a [`Slice`] holds.
pub struct SliceView {
    pub name: Seq<char>,
    pub keys: Seq<SliceKey>,
    pub user_data: UserDataView,
}

/// A named region with its keyframes and the user data attached to it.
#[derive(Debug)]
pub struct Slice {
    pub name: String,
    pub keys: Vec<SliceKey>,
    pub user_data: UserData,
}

impl View for Slice {
    type V = SliceView;

    open spec fn view(&self) -> SliceView {
        SliceView { name: self.name@, keys: self.keys@, user_data: self.user_data@ }
    }
}

/// The views of a list of slices.
pub open spec fn slice_views(v: Seq<Slice>) -> Seq<SliceView> {
    v.map_values(|s: Slice| s@)
}

/// The keys that `n` key records give, the first of them at `pos`, behind the
/// keys `acc` read before them; with the offset behind the last one.
pub open spec fn keys_from(data: Seq<u8>, pos: int, flags: u32, n: nat, acc: Seq<SliceKey>)
    -> Result<(Seq<SliceKey>, int), AsepriteError>
    decreases n,
{
    if n == 0 {
        Ok((acc, pos))
    } else {
        match SliceKey::decode(data, pos, flags) {
            Ok((k, next)) => keys_from(data, next, flags, (n - 1) as nat, acc.push(k)),
            Err(e) => Err(e),
        }
    }
}

/// The slice of the given name with the keys that were read, or the error
/// that reading them gave. The slice starts with empty user data.
pub open spec fn slice_with_keys(
    name: Seq<char>,
    keys: Result<(Seq<SliceKey>, int), AsepriteError>,
) -> Result<(SliceView, int), AsepriteError> {
    match keys {
        Err(e) => Err(e),
        Ok((keys, end)) => Ok((SliceView { name, keys, user_data: UserDataView::empty() }, end)),
    }
}

/// The body of a slice chunk that begins at `pos`: the number of keys, the
/// flags, four reserved bytes, the name, and the keys.
pub open spec fn slice_chunk(data: Seq<u8>, pos: int) -> Result<(SliceView, int), AsepriteError> {
    if pos + 12 > data.len() {
        Err(AsepriteError::Io)
    } else {
        match String::decode(data, pos + 12) {
            Err(e) => Err(e),
            Ok((name, first)) => slice_with_keys(
                name,
                keys_from(
                    data,
                    first,
                    le_u32(data, pos + 4),
                    le_u32(data, pos) as nat,
                    Seq::empty(),
                ),
            ),
        }
    }
}

/// Reads the body of a slice chunk. A read that fails leaves the cursor
/// where it was.
pub fn read_slice(p: &mut Parser) -> (r: Result<Slice, AsepriteError>)
    ensures
        final(p)@.data == old(p)@.data,
        match slice_chunk(old(p)@.data, old(p)@.pos) {
            Ok((slice, end)) => r is Ok && r->Ok_0@ == slice && final(p)@.pos == end,
            Err(e) => r is Err && r->Err_0 == e && final(p)@.pos == old(p)@.pos,
        },
{
    if !p.available(12) {
        return Err(AsepriteError::Io);
    }
    let start: usize = p.position();
    let ghost data = p@.data;
    let count: u32 = p.next()?;
    let flags: u32 = p.next()?;
    let _reserved: Skip<4> = p.next()?;
    let name: String = match p.next() {
        Ok(name) => name,
        Err(e) => {
            p.rewind(start);
            return Err(e);
        },
    };
    let ghost first = p@.pos;
    let mut keys: Vec<SliceKey> = Vec::new();
    let mut i: u32 = 0;
    assert(keys@ =~= Seq::empty());
    while i < count
        invariant
            i <= count,
            p@.data == data,
            data == old(p)@.data,
            start == old(p)@.pos,
            start <= p@.pos,
            slice_chunk(data, old(p)@.pos) == slice_with_keys(
                name@,
                keys_from(data, first, flags, count as nat, Seq::empty()),
            ),
            keys_from(data, first, flags, count as nat, Seq::empty()) == keys_from(
                data,
                p@.pos,
                flags,
                (count - i) as nat,
                keys@,
            ),
        decreases count - i,
    {
        let k: SliceKey = match SliceKey::parse(p, flags) {
            Ok(k) => k,
            Err(e) => {
                p.rewind(start);
                return Err(e);
            },
        };
        keys.push(k);
        i += 1;
    }
    Ok(Slice { name, keys, user_data: UserData::default() })
}

} // verus!
