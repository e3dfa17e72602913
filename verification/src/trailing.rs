//! What lies behind the bytes that a load has read does not matter: a file
//! that loads keeps its meaning when bytes are appended to it.

use vstd::prelude::*;
use crate::document::{CelHeader, FrameView};
use crate::file::{
    cel_chunk, chunk_body, chunk_step, chunks, frame_step, frames_from, load, Decoding, DocView,
};
use crate::image::ImageView;
use crate::metadata::{
    keys_from, slice_chunk, tags_from, FileHeader, LayerHeader, SliceKey, Tag, TagView, UserData,
    UserDataView,
};
use crate::parser::{string_bytes, Parse};

verus! {

/// `b` begins with the bytes of `a`.
pub open spec fn begins_with(b: Seq<u8>, a: Seq<u8>) -> bool {
    &&& a.len() <= b.len()
    &&& forall|i: int| 0 <= i < a.len() ==> a[i] == b[i]
}

/// A string that reads from `a` reads the same from `b`.
proof fn lemma_string(a: Seq<u8>, b: Seq<u8>, pos: int)
    requires
        begins_with(b, a),
        0 <= pos,
        String::decode(a, pos) is Ok,
    ensures
        String::decode(b, pos) == String::decode(a, pos),
        pos <= String::decode(a, pos)->Ok_0.1 <= a.len(),
{
    assert(string_bytes(a, pos) =~= string_bytes(b, pos));
}

/// A layer record that reads from `a` reads the same from `b`.
proof fn lemma_layer(a: Seq<u8>, b: Seq<u8>, pos: int)
    requires
        begins_with(b, a),
        0 <= pos,
        LayerHeader::decode(a, pos) is Ok,
    ensures
        LayerHeader::decode(b, pos) == LayerHeader::decode(a, pos),
        pos <= LayerHeader::decode(a, pos)->Ok_0.1 <= a.len(),
{
    lemma_string(a, b, pos + 16);
}

/// A tag record that reads from `a` reads the same from `b`.
proof fn lemma_tag(a: Seq<u8>, b: Seq<u8>, pos: int)
    requires
        begins_with(b, a),
        0 <= pos,
        Tag::decode(a, pos) is Ok,
    ensures
        Tag::decode(b, pos) == Tag::decode(a, pos),
        pos <= Tag::decode(a, pos)->Ok_0.1 <= a.len(),
{
    lemma_string(a, b, pos + 17);
}

/// So do any number of tag records in a row.
proof fn lemma_tags_from(a: Seq<u8>, b: Seq<u8>, pos: int, n: nat, acc: Seq<TagView>)
    requires
        begins_with(b, a),
        0 <= pos <= a.len(),
        tags_from(a, pos, n, acc) is Ok,
    ensures
        tags_from(b, pos, n, acc) == tags_from(a, pos, n, acc),
        pos <= tags_from(a, pos, n, acc)->Ok_0.1 <= a.len(),
    decreases n,
{
    if n > 0 {
        lemma_tag(a, b, pos);
        let (t, next) = Tag::decode(a, pos)->Ok_0;
        lemma_tags_from(a, b, next, (n - 1) as nat, acc.push(t));
    }
}

/// So do any number of slice keys in a row.
proof fn lemma_keys_from(a: Seq<u8>, b: Seq<u8>, pos: int, flags: u32, n: nat, acc: Seq<SliceKey>)
    requires
        begins_with(b, a),
        0 <= pos <= a.len(),
        keys_from(a, pos, flags, n, acc) is Ok,
    ensures
        keys_from(b, pos, flags, n, acc) == keys_from(a, pos, flags, n, acc),
        pos <= keys_from(a, pos, flags, n, acc)->Ok_0.1 <= a.len(),
    decreases n,
{
    if n > 0 {
        let (k, next) = SliceKey::decode(a, pos, flags)->Ok_0;
        assert(SliceKey::decode(b, pos, flags) == SliceKey::decode(a, pos, flags));
        lemma_keys_from(a, b, next, flags, (n - 1) as nat, acc.push(k));
    }
}

/// A slice chunk that reads from `a` reads the same from `b`.
proof fn lemma_slice(a: Seq<u8>, b: Seq<u8>, pos: int)
    requires
        begins_with(b, a),
        0 <= pos,
        slice_chunk(a, pos) is Ok,
    ensures
        slice_chunk(b, pos) == slice_chunk(a, pos),
        pos <= slice_chunk(a, pos)->Ok_0.1 <= a.len(),
{
    lemma_string(a, b, pos + 12);
    let (name, first) = String::decode(a, pos + 12)->Ok_0;
    lemma_keys_from(
        a,
        b,
        first,
        crate::parser::le_u32(a, pos + 4),
        crate::parser::le_u32(a, pos) as nat,
        Seq::empty(),
    );
}

/// A user-data chunk that reads from `a` reads the same from `b`.
proof fn lemma_user_data(current: UserDataView, a: Seq<u8>, b: Seq<u8>, pos: int)
    requires
        begins_with(b, a),
        0 <= pos,
        UserData::decode_onto(current, a, pos) is Ok,
    ensures
        UserData::decode_onto(current, b, pos) == UserData::decode_onto(current, a, pos),
        pos <= UserData::decode_onto(current, a, pos)->Ok_0.1 <= a.len(),
{
    if UserData::has_text(crate::parser::le_u32(a, pos)) {
        lemma_string(a, b, pos + 4);
    }
}

/// A cel chunk that reads from `a` reads the same from `b`: its pixel data
/// ends where the chunk ends, inside `a`.
proof fn lemma_cel(
    canvases: Seq<ImageView>,
    frames: Seq<FrameView>,
    a: Seq<u8>,
    b: Seq<u8>,
    pos: int,
    end: int,
)
    requires
        begins_with(b, a),
        0 <= pos,
        cel_chunk(canvases, frames, a, pos, end) is Ok,
    ensures
        cel_chunk(canvases, frames, b, pos, end) == cel_chunk(canvases, frames, a, pos, end),
        pos <= cel_chunk(canvases, frames, a, pos, end)->Ok_0.1 <= a.len(),
{
    let (cel, at) = CelHeader::decode(a, pos)->Ok_0;
    assert(CelHeader::decode(b, pos) == CelHeader::decode(a, pos));
    if cel.cel_type == crate::constants::ASE_FILE_COMPRESSED_CEL {
        assert(a.subrange(at + 4, end) =~= b.subrange(at + 4, end));
    }
}

/// Whatever its type, a chunk body that is handled with success on `a` is
/// handled the same on `b`, and the handler stops inside `a`.
proof fn lemma_chunk_body(st: Decoding, a: Seq<u8>, b: Seq<u8>, pos: int, chunk_type: u16, end: int)
    requires
        begins_with(b, a),
        0 <= pos <= a.len(),
        chunk_body(st, a, pos, chunk_type, end) is Ok,
    ensures
        chunk_body(st, b, pos, chunk_type, end) == chunk_body(st, a, pos, chunk_type, end),
        pos <= chunk_body(st, a, pos, chunk_type, end)->Ok_0.1 <= a.len(),
{
    if crate::file::decorative(chunk_type) {
    } else if chunk_type == crate::constants::ASE_FILE_CHUNK_CEL {
        lemma_cel(st.canvases, st.doc.frames, a, b, pos, end);
    } else if chunk_type == crate::constants::ASE_FILE_CHUNK_LAYER {
        lemma_layer(a, b, pos);
    } else if chunk_type == crate::constants::ASE_FILE_CHUNK_TAGS {
        lemma_tags_from(a, b, pos + 10, crate::parser::le_u16(a, pos) as nat, Seq::empty());
    } else if chunk_type == crate::constants::ASE_FILE_CHUNK_SLICE {
        lemma_slice(a, b, pos);
    } else if chunk_type == crate::constants::ASE_FILE_CHUNK_USER_DATA {
        if st.doc.slices.len() > 0 {
            lemma_user_data(st.doc.slices.last().user_data, a, b, pos);
        }
    }
}

/// A chunk that succeeds on `a` does the same on `b`, and ends inside `a`.
proof fn lemma_chunk_step(st: Decoding, a: Seq<u8>, b: Seq<u8>, pos: int)
    requires
        begins_with(b, a),
        0 <= pos,
        chunk_step(st, a, pos) is Ok,
    ensures
        chunk_step(st, b, pos) == chunk_step(st, a, pos),
        pos <= chunk_step(st, a, pos)->Ok_0.1 <= a.len(),
{
    lemma_chunk_body(
        st,
        a,
        b,
        pos + 6,
        crate::parser::le_u16(a, pos + 4),
        pos + crate::parser::le_u32(a, pos),
    );
}

/// So do any number of chunks in a row.
proof fn lemma_chunks(st: Decoding, a: Seq<u8>, b: Seq<u8>, pos: int, n: nat)
    requires
        begins_with(b, a),
        0 <= pos <= a.len(),
        chunks(st, a, pos, n) is Ok,
    ensures
        chunks(st, b, pos, n) == chunks(st, a, pos, n),
        pos <= chunks(st, a, pos, n)->Ok_0.1 <= a.len(),
    decreases n,
{
    if n > 0 {
        lemma_chunk_step(st.grown(), a, b, pos);
        let (after, next) = chunk_step(st.grown(), a, pos)->Ok_0;
        lemma_chunks(after, a, b, next, (n - 1) as nat);
    }
}

/// A frame that reads from `a` reads the same from `b`, and ends inside `a`.
proof fn lemma_frame_step(doc: DocView, a: Seq<u8>, b: Seq<u8>, pos: int)
    requires
        begins_with(b, a),
        0 <= pos,
        frame_step(doc, a, pos) is Ok,
    ensures
        frame_step(doc, b, pos) == frame_step(doc, a, pos),
        pos <= frame_step(doc, a, pos)->Ok_0.2 <= a.len(),
{
    lemma_chunks(
        Decoding { doc, canvases: Seq::empty() },
        a,
        b,
        pos + 16,
        crate::parser::le_u16(a, pos + 6) as nat,
    );
}

/// So do all the frames that are still to read.
proof fn lemma_frames_from(doc: DocView, a: Seq<u8>, b: Seq<u8>, pos: int)
    requires
        begins_with(b, a),
        0 <= pos,
        frames_from(doc, a, pos) is Ok,
    ensures
        frames_from(doc, b, pos) == frames_from(doc, a, pos),
    decreases doc.header.frames - doc.frames.len(),
{
    if doc.frames.len() < doc.header.frames {
        lemma_frame_step(doc, a, b, pos);
        let (after, frame, next) = frame_step(doc, a, pos)->Ok_0;
        lemma_frames_from(
            DocView {
                header: doc.header,
                layers: after.layers,
                frames: doc.frames.push(frame),
                tags: after.tags,
                slices: after.slices,
            },
            a,
            b,
            next,
        );
    }
}

/// A file that loads gives the same document with any bytes appended: the
/// frames are as many as the header declares, and nothing behind the last of
/// them is read.
pub proof fn lemma_trailing_bytes_ignored(data: Seq<u8>, longer: Seq<u8>)
    requires
        begins_with(longer, data),
        load(data) is Ok,
    ensures
        load(longer) == load(data),
{
    assert(FileHeader::decode(longer, 0) == FileHeader::decode(data, 0));
    let (header, _) = FileHeader::decode(data, 0)->Ok_0;
    lemma_frames_from(
        DocView {
            header,
            layers: Seq::empty(),
            frames: Seq::empty(),
            tags: Seq::empty(),
            slices: Seq::empty(),
        },
        data,
        longer,
        crate::constants::ASE_FILE_HEADER_SIZE as int,
    );
}

/// A document that loads holds as many frames as its header declares.
pub proof fn lemma_frames_as_declared(doc: DocView, data: Seq<u8>, pos: int)
    requires
        doc.frames.len() <= doc.header.frames,
        frames_from(doc, data, pos) is Ok,
    ensures
        frames_from(doc, data, pos)->Ok_0.frames.len() == doc.header.frames,
        frames_from(doc, data, pos)->Ok_0.header == doc.header,
    decreases doc.header.frames - doc.frames.len(),
{
    if doc.frames.len() < doc.header.frames {
        let (after, frame, next) = frame_step(doc, data, pos)->Ok_0;
        lemma_frames_as_declared(
            DocView {
                header: doc.header,
                layers: after.layers,
                frames: doc.frames.push(frame),
                tags: after.tags,
                slices: after.slices,
            },
            data,
            next,
        );
    }
}

} // verus!
