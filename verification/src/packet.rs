//! A CCSDS space packet, owned, with the time it arrived.

use vstd::prelude::*;

use crate::time::Utc;

verus! {

/// Bytes of the primary header of a space packet.
pub const PRIMARY_HEADER_LEN: usize = 6;

/// One space packet as it came off the link.
#[derive(Clone, Debug)]
pub struct RawPacket {
    /// When the ground received it. For a file replay, when the replay produced it.
    pub received: Utc,
    /// The packet, primary header first. Exactly one packet, never a fragment.
    pub bytes: Vec<u8>,
    /// The virtual channel it was assembled from, when the link supplied transfer frames.
    pub vcid: Option<u8>,
}

/// The application process identifier: the low eleven bits of the first two bytes.
pub open spec fn apid_of(bytes: Seq<u8>) -> int {
    (bytes[0] as int % 8) * 256 + bytes[1]
}

/// The sequence count: the low fourteen bits of the next two bytes.
pub open spec fn count_of(bytes: Seq<u8>) -> int {
    (bytes[2] as int % 64) * 256 + bytes[3]
}

/// How long a packet says it is, primary header included: one more than the length field, after
/// the header.
pub open spec fn declared_len(bytes: Seq<u8>) -> int {
    6 + bytes[4] * 256 + bytes[5] + 1
}

/// The primary header of a space packet.
#[derive(Clone, Copy, PartialEq, Eq, Debug, Structural)]
pub struct PrimaryHeader {
    /// Application process identifier, eleven bits.
    pub apid: u16,
    /// Sequence count, fourteen bits.
    pub sequence_count: u16,
    /// The length field: one less than the bytes behind the header.
    pub data_length: u16,
}

/// Reads the primary header that `bytes` start with, when there are enough for one.
pub fn read_header(bytes: &[u8]) -> (r: Option<PrimaryHeader>)
    ensures
        r is Some <==> bytes@.len() >= 6,
        r matches Some(header) ==> {
            &&& header.apid == apid_of(bytes@)
            &&& header.apid < 2048
            &&& header.sequence_count == count_of(bytes@)
            &&& header.sequence_count < 16384
            &&& 6 + header.data_length + 1 == declared_len(bytes@)
        },
{
    if bytes.len() < PRIMARY_HEADER_LEN {
        return None;
    }
    Some(
        PrimaryHeader {
            apid: (bytes[0] % 8) as u16 * 256 + bytes[1] as u16,
            sequence_count: (bytes[2] % 64) as u16 * 256 + bytes[3] as u16,
            data_length: bytes[4] as u16 * 256 + bytes[5] as u16,
        },
    )
}

impl RawPacket {
    /// Wraps bytes received now.
    pub fn now(bytes: Vec<u8>) -> (r: Self)
        ensures
            r.bytes == bytes,
            r.vcid is None,
    {
        RawPacket { received: Utc::now(), bytes, vcid: None }
    }

    /// The primary header, when there are enough bytes for one.
    pub fn header(&self) -> (r: Option<PrimaryHeader>)
        ensures
            r is Some <==> self.bytes@.len() >= 6,
            r matches Some(header) ==> {
                &&& header.apid == apid_of(self.bytes@)
                &&& header.apid < 2048
                &&& header.sequence_count == count_of(self.bytes@)
                &&& header.sequence_count < 16384
                &&& 6 + header.data_length + 1 == declared_len(self.bytes@)
            },
    {
        read_header(self.bytes.as_slice())
    }

    /// Application process identifier, or `None` if the packet is too short to have one.
    pub fn apid(&self) -> (r: Option<u16>)
        ensures
            r == (if self.bytes@.len() >= 6 {
                Some(apid_of(self.bytes@) as u16)
            } else {
                None
            }),
            r matches Some(apid) ==> apid < 2048 && apid == apid_of(self.bytes@),
    {
        match self.header() {
            Some(header) => Some(header.apid),
            None => None,
        }
    }

    /// Sequence count, or `None` if the packet is too short to have one.
    pub fn sequence_count(&self) -> (r: Option<u16>)
        ensures
            r == (if self.bytes@.len() >= 6 {
                Some(count_of(self.bytes@) as u16)
            } else {
                None
            }),
            r matches Some(count) ==> count < 16384 && count == count_of(self.bytes@),
    {
        match self.header() {
            Some(header) => Some(header.sequence_count),
            None => None,
        }
    }

    /// Length in bytes.
    pub fn len(&self) -> (r: usize)
        ensures
            r == self.bytes@.len(),
    {
        self.bytes.len()
    }

    /// Whether the packet carries no bytes at all.
    pub fn is_empty(&self) -> (r: bool)
        ensures
            r == (self.bytes@.len() == 0),
    {
        self.bytes.len() == 0
    }
}

} // verus!
