//! Command frames: every command starts with `+`, its complement, the opcode
//! and the opcode's complement.

use vstd::prelude::*;
use vstd::string::*;

verus! {

/// The complement of a byte.
pub open spec fn complement(b: u8) -> u8 {
    (255 - b) as u8
}

/// The frame of an opcode.
pub open spec fn frame(opcode: u8) -> Seq<u8> {
    seq![0x2Bu8, 0xD4u8, opcode, complement(opcode)]
}

/// Encodes the frame of an opcode.
pub fn encode_cmd(opcode: u8) -> (r: [u8; 4])
    ensures
        r@ == frame(opcode),
{
    let r: [u8; 4] = [0x2B, 0xD4, opcode, 255 - opcode];
    proof {
        assert(r@ =~= frame(opcode));
    }
    r
}

/// Why a frame is not valid.
#[derive(Debug, Clone, Copy, PartialEq, Eq, Structural)]
pub enum FramingError {
    BadSync,
    BadChecksum,
}

impl FramingError {
    /// The error's message.
    pub fn message(&self) -> (r: String)
        ensures
            r@ == match *self {
                FramingError::BadSync => "bad sync bytes (expected 0x2B 0xD4)"@,
                FramingError::BadChecksum => "opcode checksum mismatch"@,
            },
    {
        match *self {
            FramingError::BadSync => "bad sync bytes (expected 0x2B 0xD4)".to_owned(),
            FramingError::BadChecksum => "opcode checksum mismatch".to_owned(),
        }
    }
}

/// What decoding a frame gives.
pub open spec fn decoded(buf: Seq<u8>) -> Result<u8, FramingError> {
    if buf[0] != 0x2B || buf[1] != 0xD4 {
        Err(FramingError::BadSync)
    } else if buf[3] != complement(buf[2]) {
        Err(FramingError::BadChecksum)
    } else {
        Ok(buf[2])
    }
}

/// Decodes a frame.
pub fn decode_cmd(buf: &[u8; 4]) -> (r: Result<u8, FramingError>)
    ensures
        r == decoded(buf@),
{
    if buf[0] != 0x2B || buf[1] != 0xD4 {
        return Err(FramingError::BadSync);
    }
    if buf[3] != 255 - buf[2] {
        return Err(FramingError::BadChecksum);
    }
    Ok(buf[2])
}

/// Decoding an encoded opcode gives the opcode, and only encoded opcodes decode.
pub proof fn law_frame_round_trip(opcode: u8, buf: Seq<u8>)
    requires
        buf.len() == 4,
    ensures
        decoded(frame(opcode)) == Ok::<u8, FramingError>(opcode),
        decoded(buf) == Ok::<u8, FramingError>(opcode) ==> buf == frame(opcode),
{
    if decoded(buf) == Ok::<u8, FramingError>(opcode) {
        assert(buf =~= frame(opcode));
    }
}

/// A frame with one changed byte does not decode to another opcode.
pub proof fn law_frame_detects_change(opcode: u8, at: int, b: u8)
    requires
        0 <= at < 4,
        b != frame(opcode)[at],
    ensures
        decoded(frame(opcode).update(at, b)) is Err,
{
}

/// A frame is a `+` and an opcode, each followed by what makes it 255.
pub proof fn law_frame_bytes(opcode: u8)
    ensures
        ({
            let f = frame(opcode);
            &&& f.len() == 4
            &&& f[0] == '+' as u8
            &&& f[0] + f[1] == 255
            &&& f[2] == opcode
            &&& f[2] + f[3] == 255
        }),
{
}

/// A bad start is told before a bad complement.
pub proof fn law_frame_faults(buf: Seq<u8>)
    requires
        buf.len() == 4,
    ensures
        decoded(buf) == Err::<u8, FramingError>(FramingError::BadSync) <==> !(buf[0] == 43 && buf[1]
            == 212),
        decoded(buf) == Err::<u8, FramingError>(FramingError::BadChecksum) <==> buf[0] == 43
            && buf[1] == 212 && buf[2] + buf[3] != 255,
{
}

} // verus!
