//! Framing of one message on the socket: a length prefix of four bytes,
//! least significant first, followed by that many bytes of payload.

use vstd::prelude::*;

verus! {

/// Longest payload that is accepted: 10 MiB.
pub const MAX_FRAME_LEN: u32 = 10485760;

/// Number of bytes of the length prefix.
pub const FRAME_HEADER_LEN: usize = 4;

/// Why a frame is refused.
#[derive(Clone, Copy, Debug, PartialEq, Eq, Structural)]
pub enum FrameError {
    /// The announced payload is longer than [`MAX_FRAME_LEN`].
    TooLarge,
    /// Fewer bytes are there than the frame needs.
    Truncated,
}

/// The four bytes that announce a payload of `len` bytes.
pub open spec fn header_bytes(len: u32) -> Seq<u8> {
    seq![
        (len % 256) as u8,
        ((len / 256) % 256) as u8,
        ((len / 65536) % 256) as u8,
        ((len / 16777216) % 256) as u8,
    ]
}

/// The length that a prefix announces.
pub open spec fn announced_len(header: Seq<u8>) -> int
    recommends
        header.len() >= 4,
{
    header[0] as int + 256 * header[1] as int + 65536 * header[2] as int + 16777216
        * header[3] as int
}

/// The frame that carries `payload`.
pub open spec fn frame_of(payload: Seq<u8>) -> Seq<u8>
    recommends
        payload.len() <= MAX_FRAME_LEN,
{
    header_bytes(payload.len() as u32) + payload
}

/// What reading a frame from the front of `bytes` gives: the payload, or
/// the reason for refusing it.
pub open spec fn parse_frame(bytes: Seq<u8>) -> Result<Seq<u8>, FrameError> {
    if bytes.len() < 4 {
        Err(FrameError::Truncated)
    } else if announced_len(bytes) > MAX_FRAME_LEN {
        Err(FrameError::TooLarge)
    } else if bytes.len() < 4 + announced_len(bytes) {
        Err(FrameError::Truncated)
    } else {
        Ok(bytes.subrange(4, 4 + announced_len(bytes)))
    }
}

/// A prefix announces the length it was made from.
pub proof fn lemma_header_round_trip(len: u32)
    ensures
        header_bytes(len).len() == 4,
        announced_len(header_bytes(len)) == len,
{
}

/// Reading the frame of a payload gives the payload back, whatever follows
/// the frame.
pub proof fn lemma_frame_round_trip(payload: Seq<u8>, rest: Seq<u8>)
    requires
        payload.len() <= MAX_FRAME_LEN,
    ensures
        parse_frame(frame_of(payload) + rest) == Ok::<Seq<u8>, FrameError>(payload),
{
    let len = payload.len() as u32;
    lemma_header_round_trip(len);
    let bytes = frame_of(payload) + rest;
    assert(bytes[0] == header_bytes(len)[0]);
    assert(bytes[1] == header_bytes(len)[1]);
    assert(bytes[2] == header_bytes(len)[2]);
    assert(bytes[3] == header_bytes(len)[3]);
    assert(bytes.subrange(4, 4 + len as int) =~= payload);
}

/// The length prefix for a payload of `len` bytes, which is refused where
/// it exceeds [`MAX_FRAME_LEN`].
pub fn frame_header(len: usize) -> (header: Result<Vec<u8>, FrameError>)
    ensures
        match header {
            Ok(bytes) => len <= MAX_FRAME_LEN && bytes@ == header_bytes(len as u32),
            Err(e) => len > MAX_FRAME_LEN && e == FrameError::TooLarge,
        },
{
    if len > MAX_FRAME_LEN as usize {
        return Err(FrameError::TooLarge);
    }
    let n: u32 = len as u32;
    let mut bytes: Vec<u8> = Vec::new();
    bytes.push((n % 256) as u8);
    bytes.push(((n / 256) % 256) as u8);
    bytes.push(((n / 65536) % 256) as u8);
    bytes.push(((n / 16777216) % 256) as u8);
    assert(bytes@ =~= header_bytes(n));
    Ok(bytes)
}

/// The payload length that the first four bytes of `header` announce. A
/// length of exactly [`MAX_FRAME_LEN`] is accepted, one byte more is not.
pub fn frame_length(header: &Vec<u8>) -> (len: Result<u32, FrameError>)
    ensures
        match len {
            Ok(n) => header.len() >= 4 && n == announced_len(header@) && n <= MAX_FRAME_LEN,
            Err(e) => e == if header.len() < 4 {
                FrameError::Truncated
            } else {
                FrameError::TooLarge
            } && (header.len() < 4 || announced_len(header@) > MAX_FRAME_LEN),
        },
{
    if header.len() < FRAME_HEADER_LEN {
        return Err(FrameError::Truncated);
    }
    let n: u64 = header[0] as u64 + 256 * (header[1] as u64) + 65536 * (header[2] as u64) + 16777216
        * (header[3] as u64);
    if n > MAX_FRAME_LEN as u64 {
        Err(FrameError::TooLarge)
    } else {
        Ok(n as u32)
    }
}

/// Puts `payload` into a frame.
pub fn encode_frame(payload: &Vec<u8>) -> (frame: Result<Vec<u8>, FrameError>)
    ensures
        match frame {
            Ok(bytes) => payload.len() <= MAX_FRAME_LEN && bytes@ == frame_of(payload@),
            Err(e) => payload.len() > MAX_FRAME_LEN && e == FrameError::TooLarge,
        },
{
    let mut bytes = match frame_header(payload.len()) {
        Ok(header) => header,
        Err(e) => {
            return Err(e);
        },
    };
    let ghost header = bytes@;
    let mut k: usize = 0;
    while k < payload.len()
        invariant
            k <= payload.len(),
            bytes@ == header + payload@.take(k as int),
        decreases payload.len() - k,
    {
        bytes.push(payload[k]);
        assert(bytes@ =~= header + payload@.take(k as int + 1));
        k += 1;
    }
    assert(payload@.take(k as int) =~= payload@);
    Ok(bytes)
}

/// Reads one frame from the front of `bytes` and returns its payload.
pub fn decode_frame(bytes: &Vec<u8>) -> (payload: Result<Vec<u8>, FrameError>)
    ensures
        match payload {
            Ok(p) => parse_frame(bytes@) == Ok::<Seq<u8>, FrameError>(p@),
            Err(e) => parse_frame(bytes@) == Err::<Seq<u8>, FrameError>(e),
        },
{
    let len = match frame_length(bytes) {
        Ok(n) => n as usize,
        Err(e) => {
            return Err(e);
        },
    };
    if bytes.len() - FRAME_HEADER_LEN < len {
        return Err(FrameError::Truncated);
    }
    let mut payload: Vec<u8> = Vec::new();
    let mut k: usize = 0;
    while k < len
        invariant
            k <= len,
            FRAME_HEADER_LEN + len <= bytes.len(),
            payload@ == bytes@.subrange(4, 4 + k as int),
        decreases len - k,
    {
        payload.push(bytes[FRAME_HEADER_LEN + k]);
        assert(payload@ =~= bytes@.subrange(4, 4 + k as int + 1));
        k += 1;
    }
    Ok(payload)
}

} // verus!
