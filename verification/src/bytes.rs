//! Sending and receiving slices of bytes.
//!
//! A payload is encoded as a frame: the payload followed by its checksum,
//! COBS-encoded so that it holds no `FRAME_END_SYMBOL`, then
//! `FRAME_END_SYMBOL`. The end symbol is the frame's only zero byte, so a
//! reader can collect bytes up to that symbol and decode them as one frame.

use crate::checksum::{
    checksum_bytes, checksum_len, crc16_cdma2000, lemma_checksum_bytes_len, lemma_checksum_bytes_of,
    Checksum,
};
use crate::error::{Error, Result};
use crate::stuffing::{cobs_decode, cobs_decoding, cobs_encode, cobs_encoding, cobs_encoding_room};
use crate::{BoxEncoded, BoxPayload, Encoded, Payload, FRAME_END_SYMBOL};
use vstd::prelude::*;

verus! {

const HEADER_LEN: usize = 0;

const CHECKSUM_LEN: usize = 2;

// ## The frame format

/// The frame that carries `payload` when frames are checked with `c`:
/// the COBS encoding of the payload followed by its checksum bytes, then
/// the end symbol.
pub open spec fn frame_with(c: Checksum, payload: Seq<u8>) -> Seq<u8> {
    cobs_encoding(payload + checksum_bytes(c, payload)).push(FRAME_END_SYMBOL)
}

/// What decoding the encoded frame `e`, checked with `c`, gives: the
/// payload, or the error that is reported.
pub open spec fn payload_with(c: Checksum, e: Seq<u8>) -> core::result::Result<Seq<u8>, Error> {
    let sum_len = checksum_len(c);
    if e.len() == 0 {
        Err(Error::EofBeforeFrame)
    } else if e.len() < sum_len + 1 || e.last() != FRAME_END_SYMBOL {
        Err(Error::EofDuringFrame)
    } else {
        match cobs_decoding(e.drop_last()) {
            None => Err(Error::CobsDecodeFailed),
            Some(d) => if d.len() < sum_len {
                Err(Error::EncodedFrameTooShort)
            } else if checksum_bytes(c, d.take(d.len() - sum_len)) == d.skip(d.len() - sum_len) {
                Ok(d.take(d.len() - sum_len))
            } else {
                Err(Error::ChecksumError)
            },
        }
    }
}

/// A frame carries the COBS encoding of its payload followed by the
/// payload's checksum, and then the end symbol; for the default checksum
/// that is the CRC-16/CDMA2000 of the whole payload, most significant byte
/// first.
pub proof fn lemma_frame_layout(c: Checksum, p: Seq<u8>)
    ensures
        frame_with(c, p) == cobs_encoding(p + checksum_bytes(c, p)).push(FRAME_END_SYMBOL),
        frame_with(c, p).last() == FRAME_END_SYMBOL,
        frame_with(Checksum::Crc16Cdma2000, p) == cobs_encoding(
            p + seq![(crc16_cdma2000(p) / 256) as u8, (crc16_cdma2000(p) % 256) as u8],
        ).push(FRAME_END_SYMBOL),
        frame_with(Checksum::NoChecksum, p) == cobs_encoding(p).push(FRAME_END_SYMBOL),
{
    lemma_checksum_bytes_of(p);
    assert(p + Seq::<u8>::empty() =~= p);
}

/// A frame decodes to a payload exactly when its body decodes to that
/// payload followed by the payload's whole checksum: decoding gives `Ok(q)`
/// just where `e` is long enough, ends with the end symbol, and the COBS
/// decoding of the rest
/// is `q` followed by `checksum_bytes(c, q)`.
pub proof fn lemma_decode_checks_whole_checksum(c: Checksum, e: Seq<u8>, q: Seq<u8>)
    ensures
        payload_with(c, e) == Ok::<Seq<u8>, Error>(q) <==> (e.len() >= checksum_len(c) + 1
            && e.last() == FRAME_END_SYMBOL && cobs_decoding(e.drop_last()) == Some(
            q + checksum_bytes(c, q),
        )),
{
    let sum = checksum_bytes(c, q);
    let whole = q + sum;
    lemma_checksum_bytes_len(c, q);
    if payload_with(c, e) == Ok::<Seq<u8>, Error>(q) {
        let d = cobs_decoding(e.drop_last())->Some_0;
        assert(d =~= d.take(d.len() - checksum_len(c)) + d.skip(d.len() - checksum_len(c)));
    }
    if e.len() >= checksum_len(c) + 1 && e.last() == FRAME_END_SYMBOL && cobs_decoding(
        e.drop_last(),
    ) == Some(whole) {
        assert(whole.take(whole.len() - checksum_len(c)) =~= q);
        assert(whole.skip(whole.len() - checksum_len(c)) =~= sum);
    }
}

/// Which error decoding reports: `Error::EofBeforeFrame` for no bytes,
/// `Error::EofDuringFrame` for bytes too few for a frame or not ended by the
/// end symbol, `Error::CobsDecodeFailed` where the bytes before the end
/// symbol are not valid COBS, and `Error::EncodedFrameTooShort` where they
/// decode to fewer bytes than a checksum.
pub proof fn lemma_decode_errors(c: Checksum, e: Seq<u8>)
    ensures
        e.len() == 0 ==> payload_with(c, e) == Err::<Seq<u8>, Error>(Error::EofBeforeFrame),
        e.len() > 0 && (e.len() < checksum_len(c) + 1 || e.last() != FRAME_END_SYMBOL)
            ==> payload_with(c, e) == Err::<Seq<u8>, Error>(Error::EofDuringFrame),
        e.len() >= checksum_len(c) + 1 && e.last() == FRAME_END_SYMBOL && cobs_decoding(
            e.drop_last(),
        ) is None ==> payload_with(c, e) == Err::<Seq<u8>, Error>(Error::CobsDecodeFailed),
        e.len() >= checksum_len(c) + 1 && e.last() == FRAME_END_SYMBOL && (cobs_decoding(
            e.drop_last(),
        ) matches Some(d) && d.len() < checksum_len(c)) ==> payload_with(c, e) == Err::<
            Seq<u8>,
            Error,
        >(Error::EncodedFrameTooShort),
{
}

/// A frame whose body decodes to a payload `q` followed by checksum bytes
/// `s` other than the checksum of `q` is refused with
/// `Error::ChecksumError`.
pub proof fn lemma_decode_rejects_wrong_checksum(c: Checksum, e: Seq<u8>, q: Seq<u8>, s: Seq<u8>)
    requires
        e.len() >= checksum_len(c) + 1,
        e.last() == FRAME_END_SYMBOL,
        s.len() == checksum_len(c),
        cobs_decoding(e.drop_last()) == Some(q + s),
        s != checksum_bytes(c, q),
    ensures
        payload_with(c, e) == Err::<Seq<u8>, Error>(Error::ChecksumError),
{
    let d = q + s;
    assert(d.take(d.len() - checksum_len(c)) =~= q);
    assert(d.skip(d.len() - checksum_len(c)) =~= s);
}

/// Whether decoding `e` stops before anything is decoded: `e` is empty,
/// too short, or does not end with the end symbol.
pub open spec fn stops_early(c: Checksum, e: Seq<u8>) -> bool {
    e.len() < checksum_len(c) + 1 || e.last() != FRAME_END_SYMBOL
}

/// The number of bytes that a frame for a payload of `n` bytes, checked
/// with `c`, may take.
pub open spec fn frame_room(c: Checksum, n: nat) -> nat {
    cobs_encoding_room(n + checksum_len(c)) + 1
}

/// The frame that the free functions of this module produce for `payload`
/// (checked with CRC-16/CDMA2000).
pub open spec fn encoded_frame(payload: Seq<u8>) -> Seq<u8> {
    frame_with(Checksum::Crc16Cdma2000, payload)
}

/// What the free decoding functions of this module make of `e`.
pub open spec fn decoded_frame(e: Seq<u8>) -> core::result::Result<Seq<u8>, Error> {
    payload_with(Checksum::Crc16Cdma2000, e)
}

/// The upper bound that `max_encoded_len` gives for a payload of `n` bytes.
pub open spec fn encoded_len_bound(n: nat) -> nat {
    frame_room(Checksum::Crc16Cdma2000, n)
}

/// No byte of `s` is `FRAME_END_SYMBOL`.
pub open spec fn free_of_end_symbol(s: Seq<u8>) -> bool {
    forall|i: int| 0 <= i < s.len() ==> #[trigger] s[i] != FRAME_END_SYMBOL
}

/// Encodes `p` as a frame checked with `c` at the start of `dest`, and
/// returns the frame's length.
fn encode_with(c: &Checksum, p: &Payload, dest: &mut Encoded) -> (n: usize)
    requires
        old(dest)@.len() >= frame_room(*c, p@.len()),
    ensures
        n == frame_with(*c, p@).len(),
        n <= frame_room(*c, p@.len()),
        final(dest)@ == frame_with(*c, p@) + old(dest)@.skip(n as int),
        payload_with(*c, frame_with(*c, p@)) == Ok::<Seq<u8>, Error>(p@),
        free_of_end_symbol(frame_with(*c, p@).drop_last()),
{
    let value = c.calculate(p);
    let sum = value.as_slice();
    let mut body = vstd::slice::slice_to_vec(p);
    let mut i: usize = 0;
    while i < sum.len()
        invariant
            body@ == p@ + sum@.take(i as int),
            0 <= i <= sum@.len(),
            sum@.len() == checksum_len(*c),
        decreases sum@.len() - i,
    {
        body.push(sum[i]);
        i = i + 1;
        proof {
            assert(body@ =~= p@ + sum@.take(i as int));
        }
    }
    let ghost whole = p@ + checksum_bytes(*c, p@);
    assert(body@ =~= whole);
    let cobs_len = cobs_encode(body.as_slice(), dest);
    let ghost after_cobs = dest@;
    dest[cobs_len] = FRAME_END_SYMBOL;
    let n = cobs_len + 1;
    proof {
        let code = cobs_encoding(whole);
        let frame = frame_with(*c, p@);
        assert(after_cobs.take(cobs_len as int) =~= code);
        assert(frame.drop_last() =~= code);
        assert forall|i: int| 0 <= i < frame.drop_last().len() implies #[trigger] frame.drop_last()[i]
            != FRAME_END_SYMBOL by {
            assert(after_cobs[i] == code[i]);
        }
        assert(dest@ =~= frame + old(dest)@.skip(n as int));
        assert(code.len() >= checksum_len(*c));
        let d = whole;
        assert(d.take(d.len() - checksum_len(*c)) =~= p@);
        assert(d.skip(d.len() - checksum_len(*c)) =~= checksum_bytes(*c, p@));
    }
    n
}

/// Decodes the frame `e`, checked with `c`, placing the payload at the
/// start of `dest`, and returns the payload's length.
fn decode_with(c: &Checksum, e: &Encoded, dest: &mut [u8]) -> (r: Result<usize>)
    requires
        !stops_early(*c, e@) ==> old(dest)@.len() >= e@.len(),
    ensures
        final(dest)@.len() == old(dest)@.len(),
        stops_early(*c, e@) ==> final(dest)@ == old(dest)@,
        match r {
            Ok(n) => {
                &&& n < e@.len()
                &&& payload_with(*c, e@) == Ok::<Seq<u8>, Error>(final(dest)@.take(n as int))
                &&& final(dest)@.skip(n + checksum_len(*c)) == old(dest)@.skip(
                    n + checksum_len(*c),
                )
            },
            Err(err) => payload_with(*c, e@) == Err::<Seq<u8>, Error>(err),
        },
{
    let sum_len = c.len();
    if e.len() == 0 {
        return Err(Error::EofBeforeFrame);
    }
    if e.len() < sum_len + 1 {
        return Err(Error::EofDuringFrame);
    }
    if e[e.len() - 1] != FRAME_END_SYMBOL {
        return Err(Error::EofDuringFrame);
    }
    let body = vstd::slice::slice_subrange(e, 0, e.len() - 1);
    proof {
        assert(body@ =~= e@.drop_last());
    }
    let decoded_len = match cobs_decode(body, dest) {
        Ok(n) => n,
        Err(_) => {
            return Err(Error::CobsDecodeFailed);
        },
    };
    if decoded_len < sum_len {
        return Err(Error::EncodedFrameTooShort);
    }
    let payload_len = decoded_len - sum_len;
    let ghost d = dest@.take(decoded_len as int);
    let payload = vstd::slice::slice_subrange(dest, 0, payload_len);
    let received = vstd::slice::slice_subrange(dest, payload_len, decoded_len);
    let calc_checksum = c.calculate(payload);
    proof {
        assert(payload@ =~= d.take(d.len() - sum_len));
        assert(received@ =~= d.skip(d.len() - sum_len));
        assert(dest@.take(payload_len as int) =~= d.take(d.len() - sum_len));
    }
    if !calc_checksum.matches(received) {
        return Err(Error::ChecksumError);
    }
    Ok(payload_len)
}

/// Encode the supplied payload data as a frame at the beginning of
/// the supplied buffer `dest`.
///
/// Returns the number of bytes it has written to the buffer.
///
/// `dest` must be at least `max_encoded_len(p.len())` bytes long.
pub fn encode_to_slice(p: &Payload, dest: &mut Encoded) -> (r: Result<usize>)
    requires
        old(dest)@.len() >= encoded_len_bound(p@.len()),
    ensures
        final(dest)@.len() == old(dest)@.len(),
        match r {
            Ok(n) => {
                &&& n == encoded_frame(p@).len()
                &&& n <= encoded_len_bound(p@.len())
                &&& final(dest)@.take(n as int) == encoded_frame(p@)
                &&& final(dest)@.skip(n as int) == old(dest)@.skip(n as int)
                &&& decoded_frame(final(dest)@.take(n as int)) == Ok::<Seq<u8>, Error>(p@)
                &&& free_of_end_symbol(final(dest)@.take(n - 1))
            },
            Err(_) => false,
        },
{
    let len = encode_with(&Checksum::Crc16Cdma2000, p, dest);
    proof {
        let frame = encoded_frame(p@);
        assert(dest@.take(len as int) =~= frame);
        assert(dest@.skip(len as int) =~= old(dest)@.skip(len as int));
        assert(dest@.take(len - 1) =~= frame.drop_last());
    }
    Ok(len)
}

/// Encode the supplied payload data as a frame and return it on the heap.
pub fn encode_to_box(p: &Payload) -> (r: Result<BoxEncoded>)
    requires
        encoded_len_bound(p@.len()) <= usize::MAX,
    ensures
        match r {
            Ok(b) => {
                &&& b@ == encoded_frame(p@)
                &&& b@.len() <= encoded_len_bound(p@.len())
                &&& decoded_frame(b@) == Ok::<Seq<u8>, Error>(p@)
                &&& free_of_end_symbol(b@.drop_last())
                &&& forall|s: Seq<u8>| #[trigger]
                    read_stream(Checksum::Crc16Cdma2000, Seq::empty(), b@ + s) == seq![
                        Ok::<Seq<u8>, Error>(p@),
                    ] + read_stream(Checksum::Crc16Cdma2000, Seq::empty(), s)
            },
            Err(_) => false,
        },
{
    let mut buf = vec![0u8; max_encoded_len(p.len())];
    let len = match encode_to_slice(p, buf.as_mut_slice()) {
        Ok(len) => len,
        Err(e) => {
            return Err(e);
        },
    };
    assert(len <= buf.len());
    buf.truncate(len);
    assert(buf@ =~= encoded_frame(p@));
    let b = BoxEncoded::from(buf);
    proof {
        lemma_sent_frame_read_back(Checksum::Crc16Cdma2000, p@);
    }
    Ok(b)
}

/// Decode the supplied encoded frame, placing the payload at the
/// beginning of the supplied buffer `dest`.
///
/// When reading from a stream, the caller can continue reading data
/// and buffering it until a `FRAME_END_SYMBOL` is read, then pass the
/// whole buffer including `FRAME_END_SYMBOL` to this function for
/// decoding.
///
/// Returns the length of the payload it has decoded, or
/// `Err(Error::EofBeforeFrame)` if `e` is empty,
/// `Err(Error::EofDuringFrame)` if `e` is too short to be a frame or does
/// not end with `FRAME_END_SYMBOL` (in these cases `dest` is left as it
/// was), `Err(Error::CobsDecodeFailed)` if the frame's body is not valid
/// COBS, `Err(Error::EncodedFrameTooShort)` if it decodes to fewer bytes
/// than a checksum, and `Err(Error::ChecksumError)` if the checksum does
/// not match the decoded payload.
///
/// Where `e` ends with `FRAME_END_SYMBOL` and is long enough to be a
/// frame, `dest` must be at least `max_decoded_len(e.len())` bytes long.
/// The checksum is decoded into `dest` just after the payload.
pub fn decode_to_slice(e: &Encoded, dest: &mut [u8]) -> (r: Result<usize>)
    requires
        !stops_early(Checksum::Crc16Cdma2000, e@) ==> old(dest)@.len() >= e@.len(),
    ensures
        final(dest)@.len() == old(dest)@.len(),
        stops_early(Checksum::Crc16Cdma2000, e@) ==> final(dest)@ == old(dest)@,
        match r {
            Ok(n) => {
                &&& n < e@.len()
                &&& decoded_frame(e@) == Ok::<Seq<u8>, Error>(final(dest)@.take(n as int))
                &&& final(dest)@.skip(n + 2) == old(dest)@.skip(n + 2)
            },
            Err(err) => decoded_frame(e@) == Err::<Seq<u8>, Error>(err),
        },
{
    decode_with(&Checksum::Crc16Cdma2000, e, dest)
}

/// Decode the supplied encoded frame, returning the payload on the heap.
pub fn decode_to_box(e: &Encoded) -> (r: Result<BoxPayload>)
    ensures
        match r {
            Ok(b) => decoded_frame(e@) == Ok::<Seq<u8>, Error>(b@),
            Err(err) => decoded_frame(e@) == Err::<Seq<u8>, Error>(err),
        },
{
    if e.len() == 0 {
        return Err(Error::EofBeforeFrame);
    }
    let mut buf = vec![0u8; max_decoded_len(e.len())];
    let len = match decode_to_slice(e, buf.as_mut_slice()) {
        Ok(len) => len,
        Err(err) => {
            return Err(err);
        },
    };
    buf.truncate(len);
    Ok(BoxPayload::from(buf))
}

/// Returns an upper bound for the decoded length of the payload
/// within a frame with the encoded length supplied.
///
/// Useful for calculating an appropriate buffer length.
pub fn max_decoded_len(code_len: usize) -> (n: usize)
    ensures
        n == code_len,
{
    code_len
}

/// Returns an upper bound for the encoded length of a frame with
/// the payload length supplied.
///
/// Useful for calculating an appropriate buffer length.
pub fn max_encoded_len(payload_len: usize) -> (n: usize)
    requires
        encoded_len_bound(payload_len as nat) <= usize::MAX,
    ensures
        n == encoded_len_bound(payload_len as nat),
{
    HEADER_LEN + cobs_max_encoded_len(payload_len + CHECKSUM_LEN) + 1
}

/// An upper bound for the length of the COBS encoding of `len` bytes: one
/// byte more than `cobs::max_encoding_length` where `len` is a multiple of
/// 254.
fn cobs_max_encoded_len(len: usize) -> (n: usize)
    requires
        cobs_encoding_room(len as nat) <= usize::MAX,
    ensures
        n == cobs_encoding_room(len as nat),
{
    len + (len / 254) + 1
}

/// A reader reads the frame of `p` back whole, and then reads on afresh.
proof fn lemma_sent_frame_read_back(c: Checksum, p: Seq<u8>)
    requires
        free_of_end_symbol(frame_with(c, p).drop_last()),
        payload_with(c, frame_with(c, p)) == Ok::<Seq<u8>, Error>(p),
    ensures
        forall|s: Seq<u8>| #[trigger]
            read_stream(c, Seq::empty(), frame_with(c, p) + s) == seq![Ok::<Seq<u8>, Error>(p)]
                + read_stream(c, Seq::empty(), s),
{
    let e = frame_with(c, p);
    assert forall|s: Seq<u8>| #[trigger] read_stream(c, Seq::empty(), e + s) == seq![
        Ok::<Seq<u8>, Error>(p),
    ] + read_stream(c, Seq::empty(), s) by {
        lemma_frames_read_frame(|f: Seq<u8>| payload_with(c, f), Seq::empty(), e, s);
        assert(Seq::<u8>::empty() + e =~= e);
    }
}

// ## Configured encoding

/// Configurable options for encoding and decoding frames, using a
/// builder pattern.
#[derive(Clone, Copy, Debug)]
pub struct Config {
    checksum: Checksum,
}

impl View for Config {
    type V = Checksum;

    /// The checksum that frames are checked with.
    closed spec fn view(&self) -> Checksum {
        self.checksum
    }
}

impl Default for Config {
    fn default() -> (c: Config)
        ensures
            c@ == Checksum::Crc16Cdma2000,
    {
        Config { checksum: Checksum::Crc16Cdma2000 }
    }
}

impl Config {
    /// The checksum that frames are checked with.
    pub fn checksum(&self) -> (c: Checksum)
        ensures
            c == self@,
    {
        self.checksum
    }

    /// Check frames with `checksum`.
    pub fn set_checksum(&mut self, checksum: Checksum)
        ensures
            final(self)@ == checksum,
    {
        self.checksum = checksum;
    }

    /// Construct a `Codec` instance with this configuration.
    pub fn to_codec(&mut self) -> (c: Codec)
        ensures
            c@ == old(self)@,
            final(self)@ == old(self)@,
    {
        Codec { config: *self }
    }
}

/// Contains methods for encoding and decoding frames with a specific
/// configuration.
///
/// Construct an instance from a `Config` instance with the
/// `Config::to_codec` method.
#[derive(Clone, Copy, Debug)]
pub struct Codec {
    config: Config,
}

impl View for Codec {
    type V = Checksum;

    /// The checksum that frames are checked with.
    closed spec fn view(&self) -> Checksum {
        self.config@
    }
}

impl Codec {
    /// The length of the shortest frame: the checksum's length and one
    /// byte for the end symbol.
    pub fn footer_len(&self) -> (n: usize)
        ensures
            n == checksum_len(self@) + 1,
    {
        self.config.checksum.len() + 1
    }

    /// Returns an upper bound for the encoded length of a frame with
    /// the payload length supplied.
    pub fn max_encoded_len(&self, payload_len: usize) -> (n: usize)
        requires
            frame_room(self@, payload_len as nat) <= usize::MAX,
        ensures
            n == frame_room(self@, payload_len as nat),
    {
        cobs_max_encoded_len(payload_len + self.config.checksum.len()) + 1
    }

    /// Encode the supplied payload data as a frame at the beginning of
    /// the supplied buffer `dest`, and return the frame's length.
    ///
    /// `dest` must be at least `self.max_encoded_len(p.len())` bytes long.
    pub fn encode_to_slice(&self, p: &Payload, dest: &mut Encoded) -> (r: Result<usize>)
        requires
            old(dest)@.len() >= frame_room(self@, p@.len()),
        ensures
            final(dest)@.len() == old(dest)@.len(),
            match r {
                Ok(n) => {
                    &&& n <= frame_room(self@, p@.len())
                    &&& final(dest)@.take(n as int) == frame_with(self@, p@)
                    &&& final(dest)@.skip(n as int) == old(dest)@.skip(n as int)
                    &&& payload_with(self@, final(dest)@.take(n as int)) == Ok::<Seq<u8>, Error>(
                        p@,
                    )
                },
                Err(_) => false,
            },
    {
        let len = encode_with(&self.config.checksum, p, dest);
        proof {
            assert(dest@.take(len as int) =~= frame_with(self@, p@));
            assert(dest@.skip(len as int) =~= old(dest)@.skip(len as int));
        }
        Ok(len)
    }

    /// Encode the supplied payload data as a frame and return it on the heap.
    pub fn encode_to_box(&self, p: &Payload) -> (r: Result<BoxEncoded>)
        requires
            frame_room(self@, p@.len()) <= usize::MAX,
        ensures
            match r {
                Ok(b) => {
                    &&& b@ == frame_with(self@, p@)
                    &&& payload_with(self@, b@) == Ok::<Seq<u8>, Error>(p@)
                    &&& free_of_end_symbol(b@.drop_last())
                    &&& forall|s: Seq<u8>| #[trigger]
                        read_stream(self@, Seq::empty(), b@ + s) == seq![
                            Ok::<Seq<u8>, Error>(p@),
                        ] + read_stream(self@, Seq::empty(), s)
                },
                Err(_) => false,
            },
    {
        let mut buf = vec![0u8; self.max_encoded_len(p.len())];
        let len = encode_with(&self.config.checksum, p, buf.as_mut_slice());
        buf.truncate(len);
        proof {
            assert(buf@ =~= frame_with(self@, p@));
            lemma_sent_frame_read_back(self@, p@);
        }
        Ok(BoxEncoded::from(buf))
    }

    /// Decode the supplied encoded frame, placing the payload at the
    /// beginning of the supplied buffer `dest`, and return the payload's
    /// length.
    ///
    /// Where `e` ends with `FRAME_END_SYMBOL` and is long enough to be a
    /// frame, `dest` must be at least `e.len()` bytes long. The checksum is
    /// decoded into `dest` just after the payload; where decoding stops
    /// before the COBS stage `dest` is left as it was.
    pub fn decode_to_slice(&self, e: &Encoded, dest: &mut [u8]) -> (r: Result<usize>)
        requires
            !stops_early(self@, e@) ==> old(dest)@.len() >= e@.len(),
        ensures
            final(dest)@.len() == old(dest)@.len(),
            stops_early(self@, e@) ==> final(dest)@ == old(dest)@,
            match r {
                Ok(n) => {
                    &&& n < e@.len()
                    &&& payload_with(self@, e@) == Ok::<Seq<u8>, Error>(final(dest)@.take(n as int))
                    &&& final(dest)@.skip(n + checksum_len(self@)) == old(dest)@.skip(
                        n + checksum_len(self@),
                    )
                },
                Err(err) => payload_with(self@, e@) == Err::<Seq<u8>, Error>(err),
            },
    {
        decode_with(&self.config.checksum, e, dest)
    }

    /// Decode the supplied encoded frame, returning the payload on the heap.
    pub fn decode_to_box(&self, e: &Encoded) -> (r: Result<BoxPayload>)
        ensures
            match r {
                Ok(b) => payload_with(self@, e@) == Ok::<Seq<u8>, Error>(b@),
                Err(err) => payload_with(self@, e@) == Err::<Seq<u8>, Error>(err),
            },
    {
        if e.len() == 0 {
            return Err(Error::EofBeforeFrame);
        }
        let mut buf = vec![0u8; max_decoded_len(e.len())];
        let len = match decode_with(&self.config.checksum, e, buf.as_mut_slice()) {
            Ok(len) => len,
            Err(err) => {
                return Err(err);
            },
        };
        buf.truncate(len);
        proof {
            assert(buf@ =~= buf@.take(len as int));
        }
        Ok(BoxPayload::from(buf))
    }
}

// ## Reading frames from a stream of bytes

/// What a reader of a byte stream reports: the next byte, or the end of
/// the data.
pub enum ReadEvent {
    /// The next byte of the stream.
    Byte(u8),
    /// The stream has no more data.
    End,
}

/// What `FrameReader::step` asks of its caller.
pub enum ReadAction {
    /// Read another byte and pass it on.
    Continue,
    /// A frame has been collected (or the data has ended): this is the
    /// outcome of decoding it.
    Finished(Result<BoxPayload>),
}

/// The outcome that `a` carries: `None` to continue reading, or the
/// decoded payload or error.
pub open spec fn read_outcome(a: ReadAction) -> Option<core::result::Result<Seq<u8>, Error>> {
    match a {
        ReadAction::Continue => None,
        ReadAction::Finished(Ok(b)) => Some(Ok(b@)),
        ReadAction::Finished(Err(e)) => Some(Err(e)),
    }
}

/// One step of reading frames checked with `c`: with `pending` bytes
/// collected so far and the event `ev`, the bytes collected afterwards and
/// the outcome, if any.
///
/// A byte other than `FRAME_END_SYMBOL` is collected. `FRAME_END_SYMBOL`
/// completes the frame, which is decoded, and reading starts afresh. At the
/// end of the data the bytes collected so far are decoded, so that no
/// bytes give `Error::EofBeforeFrame` and a partial frame gives
/// `Error::EofDuringFrame`.
pub open spec fn read_step(c: Checksum, pending: Seq<u8>, ev: ReadEvent) -> (
    Seq<u8>,
    Option<core::result::Result<Seq<u8>, Error>>,
) {
    match ev {
        ReadEvent::Byte(b) => if b == FRAME_END_SYMBOL {
            (Seq::empty(), Some(payload_with(c, pending.push(b))))
        } else {
            (pending.push(b), None)
        },
        ReadEvent::End => (Seq::empty(), Some(payload_with(c, pending))),
    }
}

/// Collects the bytes of a stream into frames and decodes them.
///
/// The caller reads the stream byte by byte, passes each byte (or the end
/// of the data) to `step`, and stops when `step` returns
/// `ReadAction::Finished`.
pub struct FrameReader {
    codec: Codec,
    pending: Vec<u8>,
}

impl FrameReader {
    /// The checksum that frames are checked with.
    pub closed spec fn checksum(&self) -> Checksum {
        self.codec@
    }

    /// The bytes of the current frame collected so far.
    pub closed spec fn pending(&self) -> Seq<u8> {
        self.pending@
    }

    /// A reader of frames that `codec` decodes, with no bytes collected.
    pub fn new(codec: Codec) -> (r: FrameReader)
        ensures
            r.checksum() == codec@,
            r.pending() == Seq::<u8>::empty(),
    {
        FrameReader { codec, pending: Vec::new() }
    }

    /// Takes in the next event of the stream.
    pub fn step(&mut self, ev: ReadEvent) -> (a: ReadAction)
        ensures
            final(self).checksum() == old(self).checksum(),
            (final(self).pending(), read_outcome(a)) == read_step(
                old(self).checksum(),
                old(self).pending(),
                ev,
            ),
    {
        match ev {
            ReadEvent::Byte(b) => {
                self.pending.push(b);
                if b == FRAME_END_SYMBOL {
                    let mut frame = Vec::new();
                    std::mem::swap(&mut frame, &mut self.pending);
                    ReadAction::Finished(self.codec.decode_to_box(frame.as_slice()))
                } else {
                    ReadAction::Continue
                }
            },
            ReadEvent::End => {
                let mut frame = Vec::new();
                std::mem::swap(&mut frame, &mut self.pending);
                ReadAction::Finished(self.codec.decode_to_box(frame.as_slice()))
            },
        }
    }
}


/// The outcomes of the frames completed while reading `stream`, when
/// `pending` was collected before: each frame (the bytes up to and
/// including the next `FRAME_END_SYMBOL`) is decoded by `decode`, in order.
pub open spec fn frames_read(
    decode: spec_fn(Seq<u8>) -> core::result::Result<Seq<u8>, Error>,
    pending: Seq<u8>,
    stream: Seq<u8>,
) -> Seq<core::result::Result<Seq<u8>, Error>>
    decreases stream.len(),
{
    if stream.len() == 0 {
        Seq::empty()
    } else if stream[0] == FRAME_END_SYMBOL {
        seq![decode(pending.push(stream[0]))] + frames_read(
            decode,
            Seq::empty(),
            stream.drop_first(),
        )
    } else {
        frames_read(decode, pending.push(stream[0]), stream.drop_first())
    }
}

/// The outcomes of the frames that a `FrameReader` checking frames with
/// `c` completes while it reads `stream`, in order, when it has collected
/// `pending` before (the steps of `read_step` on each byte).
pub open spec fn read_stream(c: Checksum, pending: Seq<u8>, stream: Seq<u8>) -> Seq<
    core::result::Result<Seq<u8>, Error>,
> {
    frames_read(|f: Seq<u8>| payload_with(c, f), pending, stream)
}

/// At the end of the data a reader decides by the bytes it has collected
/// alone: with none it reports `Error::EofBeforeFrame`, and with a partial
/// frame (bytes that do not end with `FRAME_END_SYMBOL`) it reports
/// `Error::EofDuringFrame`; either way it starts afresh.
pub proof fn lemma_read_end_of_data(c: Checksum, pending: Seq<u8>)
    ensures
        read_step(c, pending, ReadEvent::End).0 == Seq::<u8>::empty(),
        pending.len() == 0 ==> read_step(c, pending, ReadEvent::End).1 == Some(
            Err::<Seq<u8>, Error>(Error::EofBeforeFrame),
        ),
        pending.len() > 0 && pending.last() != FRAME_END_SYMBOL ==> read_step(
            c,
            pending,
            ReadEvent::End,
        ).1 == Some(Err::<Seq<u8>, Error>(Error::EofDuringFrame)),
{
}

/// A frame cut off before its end symbol is never reported as a frame:
/// where the data ends after all of a frame but its last byte, the reader
/// reports `Error::EofDuringFrame`, or `Error::EofBeforeFrame` where that
/// frame was the single end symbol.
pub proof fn lemma_read_truncated_frame(c: Checksum, p: Seq<u8>)
    requires
        free_of_end_symbol(frame_with(c, p).drop_last()),
    ensures
        ({
            let cut = frame_with(c, p).drop_last();
            read_step(c, cut, ReadEvent::End).1 == Some(Err::<Seq<u8>, Error>(
                if cut.len() == 0 {
                    Error::EofBeforeFrame
                } else {
                    Error::EofDuringFrame
                },
            ))
        }),
{
    let cut = frame_with(c, p).drop_last();
    if cut.len() > 0 {
        assert(cut[cut.len() - 1] != FRAME_END_SYMBOL);
    }
    lemma_read_end_of_data(c, cut);
}

/// Reading a stream is taking `FrameReader` steps: the outcomes of reading
/// a non-empty `stream` are the outcome, if any, of the step on its first
/// byte, then the outcomes of reading the rest from where that step left.
pub proof fn lemma_read_stream_steps(c: Checksum, pending: Seq<u8>, stream: Seq<u8>)
    requires
        stream.len() > 0,
    ensures
        ({
            let (next, out) = read_step(c, pending, ReadEvent::Byte(stream[0]));
            read_stream(c, pending, stream) == match out {
                Some(r) => seq![r] + read_stream(c, next, stream.drop_first()),
                None => read_stream(c, next, stream.drop_first()),
            }
        }),
{
}

/// A frame is read back whole: where `e` ends with `FRAME_END_SYMBOL` and
/// holds it nowhere else, reading `e` followed by any bytes `s`, after
/// `pending` was collected, yields the outcome of decoding `pending + e`,
/// and then what reading `s` afresh yields.
pub proof fn lemma_frames_read_frame(
    decode: spec_fn(Seq<u8>) -> core::result::Result<Seq<u8>, Error>,
    pending: Seq<u8>,
    e: Seq<u8>,
    s: Seq<u8>,
)
    requires
        e.len() > 0,
        e.last() == FRAME_END_SYMBOL,
        free_of_end_symbol(e.drop_last()),
    ensures
        frames_read(decode, pending, e + s) == seq![decode(pending + e)] + frames_read(
            decode,
            Seq::empty(),
            s,
        ),
    decreases e.len(),
{
    let st = e + s;
    assert(st[0] == e[0]);
    if e.len() == 1 {
        assert(st.drop_first() =~= s);
        assert(pending.push(e[0]) =~= pending + e);
    } else {
        assert(e.drop_last()[0] == e[0]);
        assert(st.drop_first() =~= e.drop_first() + s);
        assert forall|i: int| 0 <= i < e.drop_first().drop_last().len() implies #[trigger] e.drop_first().drop_last()[i]
            != FRAME_END_SYMBOL by {
            assert(e.drop_first().drop_last()[i] == e.drop_last()[i + 1]);
        }
        lemma_frames_read_frame(decode, pending.push(e[0]), e.drop_first(), s);
        assert(pending.push(e[0]) + e.drop_first() =~= pending + e);
    }
}

} // verus!
