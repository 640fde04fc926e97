//! Trusted shims over the Snappy raw format, used for optional payload
//! compression.

use vstd::prelude::*;

verus! {

/// What Snappy compression returns for a buffer: a function of the bytes
/// alone.
pub uninterp spec fn snap_of(b: Seq<u8>) -> Seq<u8>;

/// What Snappy decompression returns for a buffer: the original bytes of
/// a valid Snappy block, nothing for anything else.
pub uninterp spec fn unsnap_of(b: Seq<u8>) -> Option<Seq<u8>>;

/// An input the Snappy encoder accepts: its worst-case output bound
/// `32 + n + n/6` must fit the format's 32-bit size field.
pub open spec fn snappy_input_ok(n: int) -> bool {
    32 + n + n / 6 <= 0xFFFF_FFFF
}

/// Relies on `snap::raw::Encoder::compress_vec`: deterministic Snappy
/// compression, which cannot fail when the worst-case output bound
/// `32 + n + n/6` fits the format's 32-bit size field, and which
/// `snap::raw::Decoder::decompress_vec` restores exactly.
#[verifier::external_body]
pub fn compress(b: &[u8]) -> (r: Vec<u8>)
    requires
        snappy_input_ok(b@.len() as int),
    ensures
        r@ == snap_of(b@),
        unsnap_of(r@) == Option::Some(b@),
{
    snap::raw::Encoder::new().compress_vec(b).expect("input within the Snappy size cap")
}

/// Relies on `snap::raw::Decoder::decompress_vec`: the result is a
/// function of the compressed bytes alone; it fails on anything but a
/// valid Snappy block.
#[verifier::external_body]
pub fn decompress(b: &[u8]) -> (r: Option<Vec<u8>>)
    ensures
        match r {
            Option::Some(v) => unsnap_of(b@) == Option::Some(v@),
            Option::None => unsnap_of(b@) is None,
        },
{
    match snap::raw::Decoder::new().decompress_vec(b) {
        Ok(v) => Some(v),
        Err(_) => None,
    }
}

} // verus!
