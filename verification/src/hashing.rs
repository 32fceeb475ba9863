//! Content hashing for the culling stages, and prefix extraction for the
//! cheap pre-filter stage.
use vstd::prelude::*;

use vstd::slice::slice_subrange;
use vstd::slice::slice_to_vec;

verus! {

/// How many leading bytes the prefix-hash cull reads of each file.
pub const PREFIX_LEN: usize = 64000;

/// The digest that seahash assigns to a byte sequence. It depends on the
/// bytes alone, so it is left unspecified here and pinned down only by
/// `hash_bytes`.
pub uninterp spec fn seahash_of(data: Seq<u8>) -> u64;

/// Relies on seahash::hash: a portable, stable digest over the buffer with a
/// fixed, pre-chosen seed — a pure function of the bytes alone.
#[verifier::external_body]
pub(crate) fn hash_bytes(data: &Vec<u8>) -> (h: u64)
    ensures
        h == seahash_of(data@),
{
    seahash::hash(data)
}

/// The bounded prefix that the prefix-hash cull keys on: the whole content
/// when the file is shorter than the bound.
pub open spec fn spec_prefix(content: Seq<u8>) -> Seq<u8> {
    if content.len() <= PREFIX_LEN {
        content
    } else {
        content.take(PREFIX_LEN as int)
    }
}

/// Copy out the first `PREFIX_LEN` bytes of `content` (all of it, if shorter).
pub fn prefix_of(content: &Vec<u8>) -> (out: Vec<u8>)
    ensures
        out@ == spec_prefix(content@),
{
    let m = if content.len() <= PREFIX_LEN {
        content.len()
    } else {
        PREFIX_LEN
    };
    let out = slice_to_vec(slice_subrange(content.as_slice(), 0, m));
    proof {
        if content@.len() <= PREFIX_LEN {
            assert(content@.subrange(0, m as int) =~= content@);
        }
    }
    out
}

} // verus!
