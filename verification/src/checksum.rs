//! Checksums computed over a frame's payload.

use vstd::prelude::*;

verus! {

broadcast use vstd::array::group_array_axioms;

/// CRC-16/CDMA2000 of `msg`, as computed by the `crc16` crate.
pub uninterp spec fn crc16_cdma2000(msg: Seq<u8>) -> u16;

/// The two bytes of `n` in network (big-endian) order.
pub open spec fn u16_be_bytes(n: u16) -> Seq<u8> {
    seq![(n / 256) as u8, (n % 256) as u8]
}

/// Calls `crc16::State::<crc16::CDMA2000>::calculate`, which computes the
/// CRC-16/CDMA2000 of `msg` from `msg` alone; its value is named
/// `crc16_cdma2000`.
#[verifier::external_body]
fn crc16_cdma2000_of(msg: &[u8]) -> (crc: u16)
    ensures
        crc == crc16_cdma2000(msg@),
{
    crc16::State::<crc16::CDMA2000>::calculate(msg)
}

/// Calls `byteorder::NetworkEndian::write_u16` on a fresh two-byte buffer,
/// which stores `n` most significant byte first.
#[verifier::external_body]
fn network_endian_u16(n: u16) -> (bytes: [u8; 2])
    ensures
        bytes@ == u16_be_bytes(n),
{
    let mut bytes = [0u8; 2];
    <byteorder::NetworkEndian as byteorder::ByteOrder>::write_u16(&mut bytes, n);
    bytes
}

/// A checksum algorithm configuration to use when encoding data.
#[derive(Clone, Copy, Debug)]
pub enum Checksum {
    /// Use no checksum.
    NoChecksum,
    /// CRC-16/CDMA2000 as implemented in crate `crc16`.
    /// This is the default checksum.
    Crc16Cdma2000,
}

/// The number of bytes that checksum `c` takes in a frame.
pub open spec fn checksum_len(c: Checksum) -> nat {
    match c {
        Checksum::NoChecksum => 0,
        Checksum::Crc16Cdma2000 => 2,
    }
}

/// The checksum bytes that `c` computes over `payload`.
pub open spec fn checksum_bytes(c: Checksum, payload: Seq<u8>) -> Seq<u8> {
    match c {
        Checksum::NoChecksum => Seq::empty(),
        Checksum::Crc16Cdma2000 => u16_be_bytes(crc16_cdma2000(payload)),
    }
}

impl Default for Checksum {
    fn default() -> (c: Checksum)
        ensures
            c == Checksum::Crc16Cdma2000,
    {
        Checksum::Crc16Cdma2000
    }
}


/// The largest number of bytes that any checksum takes.
pub(crate) const MAX_CHECKSUM_LEN: usize = 2;

/// A checksum computed over a payload: the first `len` bytes of `data`.
#[derive(Debug)]
pub(crate) struct ChecksumValue {
    data: [u8; MAX_CHECKSUM_LEN],
    len: usize,
}

impl ChecksumValue {
    #[verifier::type_invariant]
    spec fn wf(self) -> bool {
        self.len <= MAX_CHECKSUM_LEN
    }

    /// The checksum bytes.
    pub closed spec fn bytes(self) -> Seq<u8> {
        self.data@.take(self.len as int)
    }

    /// The checksum bytes, as a slice.
    pub(crate) fn as_slice(&self) -> (s: &[u8])
        ensures
            s@ == self.bytes(),
    {
        proof {
            use_type_invariant(self);
        }
        vstd::slice::slice_subrange(self.data.as_slice(), 0, self.len)
    }
}

impl ChecksumValue {
    /// Whether `bytes` are exactly these checksum bytes.
    pub(crate) fn matches(&self, bytes: &[u8]) -> (r: bool)
        ensures
            r == (self.bytes() == bytes@),
    {
        proof {
            use_type_invariant(self);
        }
        if self.len != bytes.len() {
            assert(self.bytes().len() != bytes@.len());
            return false;
        }
        let mut i: usize = 0;
        while i < self.len
            invariant
                self.len == bytes@.len(),
                self.len <= MAX_CHECKSUM_LEN,
                0 <= i <= self.len,
                forall|j: int| 0 <= j < i ==> self.data@[j] == bytes@[j],
            decreases self.len - i,
        {
            if self.data[i] != bytes[i] {
                assert(self.bytes()[i as int] != bytes@[i as int]);
                return false;
            }
            i = i + 1;
        }
        proof {
            assert(self.bytes() =~= bytes@);
        }
        true
    }
}

impl PartialEq for ChecksumValue {
    fn eq(&self, other: &ChecksumValue) -> (r: bool) {
        self.matches(other.as_slice())
    }
}

impl vstd::std_specs::cmp::PartialEqSpecImpl for ChecksumValue {
    open spec fn obeys_eq_spec() -> bool {
        true
    }

    open spec fn eq_spec(&self, other: &ChecksumValue) -> bool {
        self.bytes() == other.bytes()
    }
}

impl Checksum {
    /// The number of bytes this checksum takes in a frame.
    pub(crate) fn len(&self) -> (n: usize)
        ensures
            n == checksum_len(*self),
    {
        match *self {
            Checksum::NoChecksum => 0,
            Checksum::Crc16Cdma2000 => 2,
        }
    }

    /// Computes this checksum over `payload`.
    pub(crate) fn calculate(&self, payload: &[u8]) -> (v: ChecksumValue)
        ensures
            v.bytes() == checksum_bytes(*self, payload@),
    {
        let v = match *self {
            Checksum::NoChecksum => ChecksumValue { data: [0u8; MAX_CHECKSUM_LEN], len: self.len() },
            Checksum::Crc16Cdma2000 => {
                let crc = crc16_cdma2000_of(payload);
                ChecksumValue { data: network_endian_u16(crc), len: self.len() }
            },
        };
        proof {
            assert(v.bytes() =~= checksum_bytes(*self, payload@));
        }
        v
    }
}


/// A checksum computed by `c` always takes `checksum_len(c)` bytes, the
/// length that `Checksum::len` reports.
pub proof fn lemma_checksum_bytes_len(c: Checksum, payload: Seq<u8>)
    ensures
        checksum_bytes(c, payload).len() == checksum_len(c),
{
}


/// The two bytes of `u16_be_bytes(n)` give `n` back, most significant
/// byte first.
pub proof fn lemma_u16_be_bytes(n: u16)
    ensures
        u16_be_bytes(n).len() == 2,
        u16_be_bytes(n)[0] as int * 256 + u16_be_bytes(n)[1] as int == n as int,
{
    assert((n / 256) < 256);
    assert(((n / 256) as u8) as int == n as int / 256);
    assert(((n % 256) as u8) as int == n as int % 256);
}

/// What each checksum computes over a payload: nothing for
/// `Checksum::NoChecksum`, and for `Checksum::Crc16Cdma2000` the
/// CRC-16/CDMA2000 of the whole payload, most significant byte first.
pub proof fn lemma_checksum_bytes_of(payload: Seq<u8>)
    ensures
        checksum_bytes(Checksum::NoChecksum, payload) == Seq::<u8>::empty(),
        checksum_bytes(Checksum::Crc16Cdma2000, payload) == seq![
            (crc16_cdma2000(payload) / 256) as u8,
            (crc16_cdma2000(payload) % 256) as u8,
        ],
        checksum_bytes(Checksum::Crc16Cdma2000, payload)[0] as int * 256 + checksum_bytes(
            Checksum::Crc16Cdma2000,
            payload,
        )[1] as int == crc16_cdma2000(payload) as int,
{
    lemma_u16_be_bytes(crc16_cdma2000(payload));
}

} // verus!
