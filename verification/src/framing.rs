use vstd::prelude::*;

use crate::errors::DecodeError;
use crate::parse::{be_i32_at, frame_at, FrameSpec};

verus! {

broadcast use vstd::seq::group_seq_axioms, vstd::std_specs::vec::group_vec_axioms;

/// Outcome of reading one length-prefixed frame: a clean end, a short read
/// (or a negative length), or the frame body.
#[derive(Debug)]
pub enum FrameOut {
    Eof,
    Short,
    Data(Vec<u8>),
}

/// Read one length-prefixed frame at `*pos`: a four-byte big-endian signed
/// length, then that many bytes. The same framing carries the file's blocks,
/// the Snappy chunks inside a block, and the tree records inside the
/// decompressed stream; each caller maps `Short` to its own error.
#[verifier::loop_isolation(false)]
pub fn try_read_data(s: &Vec<u8>, pos: &mut usize) -> (r: FrameOut)
    requires
        *old(pos) <= s@.len(),
    ensures
        match frame_at(s@, *old(pos) as int) {
            FrameSpec::Eof => r is Eof && *final(pos) == *old(pos),
            FrameSpec::Short => r is Short,
            FrameSpec::Data(b, p) => r matches FrameOut::Data(v) && v@ == b && *final(pos) == p
                && *old(pos) < p <= s@.len(),
        },
{
    let p = *pos;
    if p == s.len() {
        return FrameOut::Eof;
    }
    if s.len() - p < 4 {
        return FrameOut::Short;
    }
    let b0 = s[p];
    let b1 = s[p + 1];
    let b2 = s[p + 2];
    let b3 = s[p + 3];
    if b0 >= 128 {
        proof {
            assert(be_i32_at(s@, p as int) < 0);
        }
        return FrameOut::Short;
    }
    let n: u32 = (b0 as u32) * 0x1000000 + (b1 as u32) * 0x10000 + (b2 as u32) * 0x100 + (
    b3 as u32);
    proof {
        assert(be_i32_at(s@, p as int) == n as int);
    }
    if (n as u64) > ((s.len() - p - 4) as u64) {
        return FrameOut::Short;
    }
    let start = p + 4;
    let end = start + (n as usize);
    let mut out: Vec<u8> = Vec::new();
    let mut i = start;
    proof {
        assert(out@ =~= s@.subrange(start as int, start as int));
    }
    while i < end
        invariant
            start <= i <= end,
            end <= s@.len(),
            out@ == s@.subrange(start as int, i as int),
        decreases end - i,
    {
        let b = s[i];
        out.push(b);
        i += 1;
        proof {
            assert(s@.subrange(start as int, i - 1 as int).push(s@[i - 1 as int]) =~= s@.subrange(
                start as int,
                i as int,
            ));
        }
    }
    *pos = end;
    FrameOut::Data(out)
}

} // verus!
