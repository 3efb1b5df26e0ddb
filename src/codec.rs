use vstd::prelude::*;
use std::io::Read;
use crate::nbt::{decode_root, root_end, root_tree, NbtError};
use crate::tag::Compound;

verus! {

/// The bytes that a gzip stream `b` inflates to, if it is a valid stream.
pub uninterp spec fn gunzipped(b: Seq<u8>) -> Option<Seq<u8>>;

/// The bytes that a zlib stream `b` inflates to, if it is a valid stream.
pub uninterp spec fn unzlibbed(b: Seq<u8>) -> Option<Seq<u8>>;

/// Relies on flate2's `GzDecoder`: reading it to the end inflates a gzip stream,
/// or fails on a malformed one; the result depends on the bytes alone.
#[verifier::external_body]
pub(crate) fn inflate_gzip(b: &Vec<u8>) -> (r: Option<Vec<u8>>)
    ensures
        r matches Some(v) ==> gunzipped(b@) == Some(v@),
        r is None ==> gunzipped(b@) is None,
{
    let mut out = Vec::new();
    match flate2::read::GzDecoder::new(&b[..]).read_to_end(&mut out) {
        Ok(_) => Some(out),
        Err(_) => None,
    }
}

/// Relies on flate2's `ZlibDecoder`: reading it to the end inflates a zlib stream,
/// or fails on a malformed one; the result depends on the bytes alone.
#[verifier::external_body]
pub(crate) fn inflate_zlib(b: &Vec<u8>) -> (r: Option<Vec<u8>>)
    ensures
        r matches Some(v) ==> unzlibbed(b@) == Some(v@),
        r is None ==> unzlibbed(b@) is None,
{
    let mut out = Vec::new();
    match flate2::read::ZlibDecoder::new(&b[..]).read_to_end(&mut out) {
        Ok(_) => Some(out),
        Err(_) => None,
    }
}

/// The bytes a standalone NBT file holds once its outer framing is removed: the
/// first of gzip, zlib and no framing whose output starts with a compound tag.
pub open spec fn unframed(b: Seq<u8>) -> Seq<u8> {
    if gunzipped(b) is Some && gunzipped(b).unwrap().len() > 0 && gunzipped(b).unwrap()[0] == 10 {
        gunzipped(b).unwrap()
    } else if unzlibbed(b) is Some && unzlibbed(b).unwrap().len() > 0 && unzlibbed(b).unwrap()[0] == 10 {
        unzlibbed(b).unwrap()
    } else {
        b
    }
}

fn starts_compound(v: &Vec<u8>) -> (r: bool)
    ensures
        r == (v@.len() > 0 && v@[0] == 10),
{
    v.len() > 0 && v[0] == 10
}

/// Removes the outer gzip or zlib framing of a standalone NBT file, if any.
pub fn unframe(b: Vec<u8>) -> (r: Vec<u8>)
    ensures
        r@ == unframed(b@),
{
    if let Some(v) = inflate_gzip(&b) {
        if starts_compound(&v) {
            return v;
        }
    }
    if let Some(v) = inflate_zlib(&b) {
        if starts_compound(&v) {
            return v;
        }
    }
    b
}

/// Decodes a standalone NBT file: its outer framing removed, then its root compound.
pub fn decode_file(b: Vec<u8>) -> (r: Result<Compound, NbtError>)
    ensures
        r is Ok <==> root_end(unframed(b@)) is Ok,
        r matches Ok(c) ==> root_tree(unframed(b@), c),
        r matches Err(e) ==> root_end(unframed(b@)) == Err::<int, NbtError>(e),
{
    let bytes = unframe(b);
    decode_root(&bytes)
}

} // verus!
