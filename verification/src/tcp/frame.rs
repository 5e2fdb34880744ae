//! Frames of a TCP session: a length in four bytes, and as many bytes behind it.
use vstd::prelude::*;

use crate::bytes::{be_bytes, be_value, lemma_be_u32};
use crate::quic::{frame, frame_len, framed, FrameError};

verus! {

/// The longest frame that is read.
pub const MAX_FRAME: usize = 10 * 1024 * 1024;

/// The bytes to send for a frame.
pub fn write_frame(data: &[u8]) -> (r: Vec<u8>)
    ensures
        r@ == framed(data@),
{
    frame(data)
}

/// The length of a frame, from the four bytes before it; an error where it is too long.
pub fn read_frame_len(prefix: &[u8]) -> (r: Result<usize, FrameError>)
    requires
        prefix@.len() == 4,
    ensures
        r == (if be_value(prefix@) > MAX_FRAME {
            Err::<usize, FrameError>(FrameError::TooLarge)
        } else {
            Ok(be_value(prefix@) as usize)
        }),
{
    frame_len(prefix, MAX_FRAME)
}

/// A frame that is not too long announces its length, and its content follows.
pub proof fn law_frame_round_trip(data: Seq<u8>, rest: Seq<u8>)
    requires
        data.len() <= MAX_FRAME,
    ensures
        be_value((framed(data) + rest).take(4)) == data.len(),
        (framed(data) + rest).subrange(4, (4 + data.len()) as int) == data,
{
    lemma_be_u32(data.len() as u32);
    let all = framed(data) + rest;
    assert(all.take(4) =~= be_bytes(data.len(), 4));
    assert(all.subrange(4, (4 + data.len()) as int) =~= data);
}

/// Frames of up to 10 MiB are read, and longer ones refused; the length is read most
/// significant byte first.
pub proof fn law_frame_limit(prefix: &[u8], r: Result<usize, FrameError>, data: Seq<u8>)
    requires
        prefix@.len() == 4,
        call_ensures(read_frame_len, (prefix,), r),
    ensures
        r is Ok <==> be_value(prefix@) <= 10 * 1024 * 1024,
        r matches Ok(n) ==> n == be_value(prefix@),
        data.len() <= 10 * 1024 * 1024 && prefix@ == framed(data).take(4) ==> r == Ok::<
            usize,
            FrameError,
        >(data.len() as usize),
{
    if data.len() <= 10 * 1024 * 1024 && prefix@ == framed(data).take(4) {
        law_frame_round_trip(data, Seq::empty());
        assert(framed(data) + Seq::empty() =~= framed(data));
    }
}

} // verus!
