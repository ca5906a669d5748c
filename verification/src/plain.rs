//! Sending and receiving frames without a checksum.
//!
//! A frame here is the payload COBS-encoded, followed by a terminating
//! `FRAME_END_SYMBOL`.

use crate::bytes::{frames_read, lemma_frames_read_frame, free_of_end_symbol, ReadEvent};
use crate::error::{Error, Result};
use crate::stuffing::{cobs_decode, cobs_decoding, cobs_encode, cobs_encoding, cobs_encoding_room};
use crate::FRAME_END_SYMBOL;
use vstd::prelude::*;

verus! {

/// A frame's payload: arbitrary user data.
pub struct Frame(pub Vec<u8>);

/// An encoded frame, ready to send or just received.
pub struct Encoded(pub Vec<u8>);

impl View for Frame {
    type V = Seq<u8>;

    open spec fn view(&self) -> Seq<u8> {
        self.0@
    }
}

impl View for Encoded {
    type V = Seq<u8>;

    open spec fn view(&self) -> Seq<u8> {
        self.0@
    }
}

/// The encoded frame that carries `payload`.
pub open spec fn plain_frame(payload: Seq<u8>) -> Seq<u8> {
    cobs_encoding(payload).push(FRAME_END_SYMBOL)
}

/// What decoding the encoded frame `e` gives: the payload, or the error
/// that is reported.
pub open spec fn plain_payload(e: Seq<u8>) -> core::result::Result<Seq<u8>, Error> {
    if e.len() == 0 || e.last() != FRAME_END_SYMBOL {
        Err(Error::EofDuringFrame)
    } else {
        match cobs_decoding(e.drop_last()) {
            None => Err(Error::CobsDecodeFailed),
            Some(d) => Ok(d),
        }
    }
}

/// Encodes `f` as a frame at the start of `dest` and returns the frame's
/// length.
///
/// `dest` must have room for the COBS encoding of `f` and one more byte.
pub fn to_slice(f: &Frame, dest: &mut [u8]) -> (r: Result<usize>)
    requires
        old(dest)@.len() >= cobs_encoding_room(f@.len()) + 1,
    ensures
        final(dest)@.len() == old(dest)@.len(),
        match r {
            Ok(n) => {
                &&& n == plain_frame(f@).len()
                &&& n <= cobs_encoding_room(f@.len()) + 1
                &&& final(dest)@.take(n as int) == plain_frame(f@)
                &&& final(dest)@.skip(n as int) == old(dest)@.skip(n as int)
                &&& plain_payload(final(dest)@.take(n as int)) == Ok::<Seq<u8>, Error>(f@)
                &&& free_of_end_symbol(final(dest)@.take(n - 1))
            },
            Err(_) => false,
        },
{
    let cobs_len = cobs_encode(f.0.as_slice(), dest);
    let ghost after_cobs = dest@;
    dest[cobs_len] = FRAME_END_SYMBOL;
    let n = cobs_len + 1;
    proof {
        let frame = plain_frame(f@);
        assert(dest@.take(n as int) =~= frame);
        assert(dest@.skip(n as int) =~= old(dest)@.skip(n as int));
        assert(frame.drop_last() =~= after_cobs.take(cobs_len as int));
        assert(dest@.take(n - 1) =~= after_cobs.take(cobs_len as int));
    }
    Ok(n)
}

/// Encodes `f` as a frame and returns it on the heap.
pub fn to_box(f: &Frame) -> (r: Result<Box<Encoded>>)
    requires
        cobs_encoding_room(f@.len()) + 1 <= usize::MAX,
    ensures
        match r {
            Ok(b) => {
                &&& b@ == plain_frame(f@)
                &&& plain_payload(b@) == Ok::<Seq<u8>, Error>(f@)
                &&& free_of_end_symbol(b@.drop_last())
                &&& forall|s: Seq<u8>| #[trigger] plain_read_stream(Seq::empty(), b@ + s) == seq![
                    Ok::<Seq<u8>, Error>(f@),
                ] + plain_read_stream(Seq::empty(), s)
            },
            Err(_) => false,
        },
{
    let mut buf = vec![0u8; f.0.len() + f.0.len() / 254 + 2];
    let n = match to_slice(f, buf.as_mut_slice()) {
        Ok(n) => n,
        Err(e) => {
            return Err(e);
        },
    };
    buf.truncate(n);
    proof {
        let e = plain_frame(f@);
        assert(buf@ =~= e);
        assert(e.drop_last() =~= buf@.take(n - 1));
        assert forall|s: Seq<u8>| #[trigger] plain_read_stream(Seq::empty(), e + s) == seq![
            Ok::<Seq<u8>, Error>(f@),
        ] + plain_read_stream(Seq::empty(), s) by {
            lemma_frames_read_frame(|g: Seq<u8>| plain_payload(g), Seq::empty(), e, s);
            assert(Seq::<u8>::empty() + e =~= e);
        }
    }
    Ok(Box::new(Encoded(buf)))
}

/// Decodes the frame `src`, placing the payload at the start of `dst`,
/// and returns the payload's length.
///
/// Returns `Err(Error::EofDuringFrame)` if `src` does not end with
/// `FRAME_END_SYMBOL`, and `Err(Error::CobsDecodeFailed)` if the bytes
/// before it are not valid COBS. Where `src` ends with `FRAME_END_SYMBOL`,
/// `dst` must be at least as long as `src`.
pub fn from_slice_to_slice(src: &[u8], dst: &mut [u8]) -> (r: Result<usize>)
    requires
        (src@.len() > 0 && src@.last() == FRAME_END_SYMBOL) ==> old(dst)@.len() >= src@.len(),
    ensures
        final(dst)@.len() == old(dst)@.len(),
        (src@.len() == 0 || src@.last() != FRAME_END_SYMBOL) ==> final(dst)@ == old(dst)@,
        match r {
            Ok(n) => {
                &&& n < src@.len()
                &&& plain_payload(src@) == Ok::<Seq<u8>, Error>(final(dst)@.take(n as int))
                &&& final(dst)@.skip(n as int) == old(dst)@.skip(n as int)
            },
            Err(err) => plain_payload(src@) == Err::<Seq<u8>, Error>(err),
        },
{
    if src.len() == 0 || src[src.len() - 1] != FRAME_END_SYMBOL {
        return Err(Error::EofDuringFrame);
    }
    let body = vstd::slice::slice_subrange(src, 0, src.len() - 1);
    proof {
        assert(body@ =~= src@.drop_last());
    }
    match cobs_decode(body, dst) {
        Ok(n) => Ok(n),
        Err(_) => Err(Error::CobsDecodeFailed),
    }
}

/// Decodes the frame `src` and returns the payload on the heap.
pub fn from_slice_to_box(src: &Encoded) -> (r: Result<Box<Frame>>)
    ensures
        match r {
            Ok(b) => plain_payload(src@) == Ok::<Seq<u8>, Error>(b@),
            Err(err) => plain_payload(src@) == Err::<Seq<u8>, Error>(err),
        },
{
    let mut buf = vec![0u8; src.0.len()];
    let n = match from_slice_to_slice(src.0.as_slice(), buf.as_mut_slice()) {
        Ok(n) => n,
        Err(err) => {
            return Err(err);
        },
    };
    buf.truncate(n);
    proof {
        assert(buf@ =~= buf@.take(n as int));
    }
    Ok(Box::new(Frame(buf)))
}

/// Returns the length of the payload that the frame `code` carries, or
/// the error that decoding it reports.
pub fn decoded_length(code: &Encoded) -> (r: Result<usize>)
    ensures
        match r {
            Ok(n) => plain_payload(code@) matches Ok(d) && d.len() == n,
            Err(err) => plain_payload(code@) == Err::<Seq<u8>, Error>(err),
        },
{
    let mut buf = vec![0u8; code.0.len()];
    from_slice_to_slice(code.0.as_slice(), buf.as_mut_slice())
}

/// Returns the length of the encoded frame that carries `f`.
pub fn encoded_length(f: &Frame) -> (r: Result<usize>)
    requires
        cobs_encoding_room(f@.len()) + 1 <= usize::MAX,
    ensures
        match r {
            Ok(n) => n == plain_frame(f@).len(),
            Err(_) => false,
        },
{
    let mut buf = vec![0u8; f.0.len() + f.0.len() / 254 + 2];
    to_slice(f, buf.as_mut_slice())
}

/// What `plain::FrameReader::step` asks of its caller.
pub enum ReadAction {
    /// Read another byte and pass it on.
    Continue,
    /// A frame has been collected (or the data has ended): this is the
    /// outcome of decoding it.
    Finished(Result<Vec<u8>>),
}

/// The outcome that `a` carries: `None` to continue reading, or the
/// decoded payload or error.
pub open spec fn plain_read_outcome(a: ReadAction) -> Option<core::result::Result<Seq<u8>, Error>> {
    match a {
        ReadAction::Continue => None,
        ReadAction::Finished(Ok(v)) => Some(Ok(v@)),
        ReadAction::Finished(Err(e)) => Some(Err(e)),
    }
}

/// One step of reading plain frames: with `pending` bytes collected so far
/// and the event `ev`, the bytes collected afterwards and the outcome, if
/// any. The end of the data, wherever it comes, gives
/// `Error::EofDuringFrame`.
pub open spec fn plain_read_step(pending: Seq<u8>, ev: ReadEvent) -> (
    Seq<u8>,
    Option<core::result::Result<Seq<u8>, Error>>,
) {
    match ev {
        ReadEvent::Byte(b) => if b == FRAME_END_SYMBOL {
            (Seq::empty(), Some(plain_payload(pending.push(b))))
        } else {
            (pending.push(b), None)
        },
        ReadEvent::End => (Seq::empty(), Some(Err(Error::EofDuringFrame))),
    }
}

/// Collects the bytes of a stream into plain frames and decodes them.
pub struct FrameReader {
    pending: Vec<u8>,
}

impl FrameReader {
    /// The bytes of the current frame collected so far.
    pub closed spec fn pending(&self) -> Seq<u8> {
        self.pending@
    }

    /// A reader with no bytes collected.
    pub fn new() -> (r: FrameReader)
        ensures
            r.pending() == Seq::<u8>::empty(),
    {
        FrameReader { pending: Vec::new() }
    }

    /// Takes in the next event of the stream.
    pub fn step(&mut self, ev: ReadEvent) -> (a: ReadAction)
        ensures
            (final(self).pending(), plain_read_outcome(a)) == plain_read_step(
                old(self).pending(),
                ev,
            ),
    {
        match ev {
            ReadEvent::Byte(b) => {
                self.pending.push(b);
                if b == FRAME_END_SYMBOL {
                    let mut frame = Vec::new();
                    std::mem::swap(&mut frame, &mut self.pending);
                    let r = match from_slice_to_box(&Encoded(frame)) {
                        Ok(f) => Ok((*f).0),
                        Err(e) => Err(e),
                    };
                    ReadAction::Finished(r)
                } else {
                    ReadAction::Continue
                }
            },
            ReadEvent::End => {
                self.pending = Vec::new();
                ReadAction::Finished(Err(Error::EofDuringFrame))
            },
        }
    }
}


/// The outcomes of the plain frames that a reader completes while it reads
/// `stream`, in order, when it has collected `pending` before.
pub open spec fn plain_read_stream(pending: Seq<u8>, stream: Seq<u8>) -> Seq<
    core::result::Result<Seq<u8>, Error>,
> {
    frames_read(|f: Seq<u8>| plain_payload(f), pending, stream)
}


/// Reading a stream is taking `plain::FrameReader` steps: the outcomes of
/// reading a non-empty `stream` are the outcome, if any, of the step on its
/// first byte, then the outcomes of reading the rest from where that step
/// left.
pub proof fn lemma_plain_read_stream_steps(pending: Seq<u8>, stream: Seq<u8>)
    requires
        stream.len() > 0,
    ensures
        ({
            let (next, out) = plain_read_step(pending, ReadEvent::Byte(stream[0]));
            plain_read_stream(pending, stream) == match out {
                Some(r) => seq![r] + plain_read_stream(next, stream.drop_first()),
                None => plain_read_stream(next, stream.drop_first()),
            }
        }),
{
}


/// At the end of the data a plain reader reports `Error::EofDuringFrame`,
/// whatever bytes it has collected, and starts afresh.
pub proof fn lemma_plain_read_end_of_data(pending: Seq<u8>)
    ensures
        plain_read_step(pending, ReadEvent::End) == (
            Seq::<u8>::empty(),
            Some(Err::<Seq<u8>, Error>(Error::EofDuringFrame)),
        ),
{
}

/// A plain frame is the COBS encoding of the payload itself, followed by
/// the end symbol; decoding a frame that ends with the end symbol gives the
/// COBS decoding of the bytes before it, and `Error::CobsDecodeFailed`
/// where they are not valid COBS.
pub proof fn lemma_plain_frame_is_cobs(f: Seq<u8>, e: Seq<u8>)
    ensures
        plain_frame(f) == cobs_encoding(f).push(FRAME_END_SYMBOL),
        e.len() > 0 && e.last() == FRAME_END_SYMBOL ==> plain_payload(e) == match cobs_decoding(
            e.drop_last(),
        ) {
            Some(d) => Ok::<Seq<u8>, Error>(d),
            None => Err::<Seq<u8>, Error>(Error::CobsDecodeFailed),
        },
        !(e.len() > 0 && e.last() == FRAME_END_SYMBOL) ==> plain_payload(e) == Err::<
            Seq<u8>,
            Error,
        >(Error::EofDuringFrame),
{
}

} // verus!
