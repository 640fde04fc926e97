//! A multi-language dictionary engine: it ingests Yomitan v3 dictionary
//! archives, stores each record in a compact binary payload, and serves
//! longest-match lookups over a cursor position in arbitrary text.

use vstd::prelude::*;

pub mod codec;
pub mod deinflect;
pub mod guard;
pub mod import;
pub mod jsonio;
pub mod jsonval;
pub mod lookup;
pub mod repair;
pub mod services;
pub mod snappy;
pub mod store;
pub mod text;
pub mod textio;
pub mod zipio;

verus! {

/// The four magic bytes that open every binary-v1 payload.
pub open spec fn magic_bytes() -> Seq<u8> {
    seq![0x4Du8, 0x47u8, 0x42u8, 0x31u8]
}

/// True when `b` opens with the binary-v1 magic.
pub open spec fn has_magic(b: Seq<u8>) -> bool {
    b.len() >= 4 && b.subrange(0, 4) == magic_bytes()
}

/// Whether a byte sequence opens with the binary-v1 magic.
pub fn starts_with_magic(b: &[u8]) -> (r: bool)
    ensures
        r == has_magic(b@),
{
    if b.len() < 4 {
        assert(!has_magic(b@));
        return false;
    }
    let r = b[0] == 0x4D && b[1] == 0x47 && b[2] == 0x42 && b[3] == 0x31;
    proof {
        assert(b@.subrange(0, 4) =~= seq![b@[0], b@[1], b@[2], b@[3]]);
        assert(magic_bytes() == seq![0x4Du8, 0x47u8, 0x42u8, 0x31u8]);
        if r {
            assert(b@.subrange(0, 4) =~= magic_bytes());
        } else {
            assert(b@.subrange(0, 4) != magic_bytes());
        }
    }
    r
}

} // verus!
