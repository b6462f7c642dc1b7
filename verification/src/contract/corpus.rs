//! The frozen identity of the preservation link-analysis corpus.
use vstd::prelude::*;

use super::identity::LinkAnalysisFingerprint;

verus! {

/// Textual form of the preservation corpus identity.
pub const PRESERVATION_LINK_ANALYSIS_FINGERPRINT: &'static str =
    "lanalysis2_470f6007292587b5d92e1ecc5c92c8baa67caf96f39e6492eb6f6bfabe35db37";

/// The digest bytes of the preservation corpus identity.
pub open spec fn preservation_digest() -> Seq<u8> {
    seq![
        71u8, 15u8, 96u8, 7u8, 41u8, 37u8, 135u8, 181u8, 217u8, 46u8, 30u8, 204u8, 92u8, 146u8, 200u8, 186u8,
        166u8, 124u8, 175u8, 150u8, 243u8, 158u8, 100u8, 146u8, 235u8, 111u8, 107u8, 250u8, 190u8, 53u8, 219u8, 55u8,
    ]
}

/// The frozen identity of the preservation link analysis, whose textual
/// form is `PRESERVATION_LINK_ANALYSIS_FINGERPRINT`.
pub fn preservation_link_analysis_fingerprint() -> (out: LinkAnalysisFingerprint)
    ensures
        out@ == preservation_digest(),
{
    let bytes: [u8; 32] = [
        0x47, 0x0f, 0x60, 0x07, 0x29, 0x25, 0x87, 0xb5, 0xd9, 0x2e, 0x1e, 0xcc, 0x5c, 0x92, 0xc8, 0xba, 0xa6, 0x7c,
        0xaf, 0x96, 0xf3, 0x9e, 0x64, 0x92, 0xeb, 0x6f, 0x6b, 0xfa, 0xbe, 0x35, 0xdb, 0x37,
    ];
    assert(bytes@ =~= preservation_digest());
    LinkAnalysisFingerprint::from_bytes(bytes)
}

} // verus!
