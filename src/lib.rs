// Decoding of Minecraft world data: the NBT tag format, region files,
// the tag tree and its search, and palette-packed block sections.
use vstd::prelude::*;

pub mod packing;
pub mod inspect;
pub mod tag;
pub mod region;
pub mod nbt;
pub mod codec;
pub mod mutf8;
pub mod json;

verus! {

} // verus!
