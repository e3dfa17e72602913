//! Decompression of cel pixels, which is left to the `inflate` crate.

use vstd::prelude::*;

verus! {

/// What a zlib stream inflates to: its payload, or nothing where the bytes
/// are no valid stream.
pub uninterp spec fn zlib_inflated(input: Seq<u8>) -> Option<Seq<u8>>;

/// `inflate::inflate_bytes_zlib`: the payload of the zlib stream in `data`,
/// or nothing where the crate reports an error. The error's text is dropped.
/// The result depends on the bytes alone.
#[verifier::external_body]
pub(crate) fn inflate_zlib(data: &Vec<u8>) -> (r: Option<Vec<u8>>)
    ensures
        match r {
            Some(v) => zlib_inflated(data@) == Some(v@),
            None => zlib_inflated(data@) is None,
        },
{
    inflate::inflate_bytes_zlib(data).ok()
}

} // verus!
