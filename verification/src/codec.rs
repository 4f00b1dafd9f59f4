//! Selection of the decoding engine from a container's four-character code.

use vstd::prelude::*;

verus! {

/// The bit-stream formats for which a decoding engine exists.
#[derive(Clone, Copy, Debug, PartialEq, Eq, Structural)]
pub enum Codec {
    /// VP8, tagged `VP80`.
    Vp8,
    /// VP9, tagged `VP90`.
    Vp9,
}

/// The four bytes `V`, `P`, `8`, `0`.
pub open spec fn fourcc_vp8() -> Seq<u8> {
    seq![0x56u8, 0x50u8, 0x38u8, 0x30u8]
}

/// The four bytes `V`, `P`, `9`, `0`.
pub open spec fn fourcc_vp9() -> Seq<u8> {
    seq![0x56u8, 0x50u8, 0x39u8, 0x30u8]
}

/// The engine that a tag selects, if any.
pub open spec fn codec_of(fourcc: Seq<u8>) -> Option<Codec> {
    if fourcc == fourcc_vp8() {
        Some(Codec::Vp8)
    } else if fourcc == fourcc_vp9() {
        Some(Codec::Vp9)
    } else {
        None
    }
}

impl Codec {
    /// Picks the engine by the tag alone.
    pub fn from_fourcc(fourcc: &[u8; 4]) -> (codec: Option<Codec>)
        ensures
            codec == codec_of(fourcc@),
    {
        let known = fourcc[0] == 0x56 && fourcc[1] == 0x50 && fourcc[3] == 0x30;
        proof {
            assert(fourcc@.len() == 4);
            if fourcc@ == fourcc_vp8() {
                assert(fourcc@[0] == 0x56 && fourcc@[1] == 0x50 && fourcc@[2] == 0x38 && fourcc@[3] == 0x30);
            }
            if fourcc@ == fourcc_vp9() {
                assert(fourcc@[0] == 0x56 && fourcc@[1] == 0x50 && fourcc@[2] == 0x39 && fourcc@[3] == 0x30);
            }
        }
        if known && fourcc[2] == 0x38 {
            assert(fourcc@ =~= fourcc_vp8());
            Some(Codec::Vp8)
        } else if known && fourcc[2] == 0x39 {
            assert(fourcc@ =~= fourcc_vp9());
            Some(Codec::Vp9)
        } else {
            None
        }
    }
}

} // verus!
