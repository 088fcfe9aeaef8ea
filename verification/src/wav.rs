use vstd::prelude::*;

verus! {

// A WAV file is a RIFF container: its first four bytes are the letters R, I,
// F and F.

/// The four bytes that a RIFF container begins with.
pub open spec fn riff_tag() -> Seq<u8> {
    seq![0x52u8, 0x49u8, 0x46u8, 0x46u8]
}

/// Tells whether the bytes begin as a RIFF container does.
pub fn is_riff_header(header: &[u8]) -> (riff: bool)
    ensures
        riff == (header@.len() >= 4 && header@.subrange(0, 4) == riff_tag()),
{
    if header.len() < 4 {
        return false;
    }
    let riff = header[0] == 0x52 && header[1] == 0x49 && header[2] == 0x46 && header[3] == 0x46;
    proof {
        let head = header@.subrange(0, 4);
        if riff {
            assert(head =~= riff_tag());
        } else {
            assert(head[0] == header@[0] && head[1] == header@[1] && head[2] == header@[2]
                && head[3] == header@[3]);
            assert(riff_tag()[0] == 0x52 && riff_tag()[1] == 0x49 && riff_tag()[2] == 0x46
                && riff_tag()[3] == 0x46);
        }
    }
    riff
}

} // verus!
