//! Frame Filter: decides whether a raw frame payload is a decodable quote
//! packet.

use vstd::prelude::*;

verus! {

/// Offset of the quote payload inside a raw frame: the combined size of the
/// link, network and transport headers that precede it.
pub const PAYLOAD_OFFSET: usize = 42;

/// A raw frame must extend past this many bytes to hold a complete quote
/// packet.
pub const MIN_FRAME_LEN: usize = 225;

/// The five ASCII marker bytes `"B6034"` that open every quote packet.
pub open spec fn marker_bytes() -> Seq<u8> {
    seq![66u8, 54u8, 48u8, 51u8, 52u8]
}

/// What the Frame Filter accepts: the frame is long enough and carries the
/// quote marker at the payload offset.
pub open spec fn valid_quote_frame(b: Seq<u8>) -> bool {
    &&& b.len() > MIN_FRAME_LEN
    &&& b.subrange(42, 47) == marker_bytes()
}

/// Frame Filter: accepts exactly the frames whose payload starts with the
/// `"B6034"` marker at byte 42 and which are long enough to decode.
pub fn is_valid_quote(b: &[u8]) -> (r: bool)
    ensures
        r == valid_quote_frame(b@),
{
    if b.len() <= MIN_FRAME_LEN {
        proof {
            assert(b@.len() <= 225);
        }
        return false;
    }
    let ok = b[42] == 66 && b[43] == 54 && b[44] == 48 && b[45] == 51 && b[46] == 52;
    proof {
        if ok {
            assert(b@.subrange(42, 47) =~= marker_bytes());
        } else {
            assert(b@.subrange(42, 47) != marker_bytes()) by {
                if b@.subrange(42, 47) == marker_bytes() {
                    assert(b@[42] == marker_bytes()[0]);
                    assert(b@[43] == marker_bytes()[1]);
                    assert(b@[44] == marker_bytes()[2]);
                    assert(b@[45] == marker_bytes()[3]);
                    assert(b@[46] == marker_bytes()[4]);
                }
            }
        }
    }
    ok
}

} // verus!
