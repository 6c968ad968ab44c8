//! An addressed packet framing protocol for byte-oriented links.
//!
//! A frame on the wire is `4 + N` bytes for a payload of `N` bytes
//! (`0 <= N <= 255`): a destination byte carrying a start marker in its top
//! two bits, a sender byte, a length byte, the payload, and a closing
//! checksum byte that XORs every preceding byte of the frame.
//!
//! [`ZPacket`] is the validated packet value, `serialize::ZPacketSerializer`
//! emits a packet's frame one byte at a time, and
//! `deserialize::ZPacketDeserializer` rebuilds packets from a byte stream
//! delivered in chunks of any size. The module `wire` holds the mathematical
//! model of the wire format that all contracts are stated against.

use vstd::prelude::*;

pub mod deserialize;
pub mod serialize;
pub mod wire;

verus! {

/// Greatest payload length a packet can carry: the length byte holds 0-255.
pub const ZPACKET_DATA_LENGTH: usize = 255;

/// Greatest address the 6-bit address fields can carry.
pub const MAX_ADDRESS: u8 = 63;

/// Low six bits of the destination and sender bytes: the address itself.
pub const ADDRESS_MASK: u8 = 0x3F;

/// The frame-start marker: bit 7 set, bit 6 clear, in the destination byte.
pub const DEST_ADDR_PACKET_START_IDENTIFER_BITS: u8 = 0x80;

/// Why a packet could not be built or read.
#[derive(Debug, PartialEq, Eq, Structural)]
pub enum ZPacketCreateError {
    /// The destination address does not fit in six bits.
    DestinationAddressOutOfRange,
    /// The sender address does not fit in six bits.
    SenderAddressOutOfRange,
    /// A frame's checksum byte did not match the bytes before it.
    BadCRC,
}

/// A validated packet: two 6-bit addresses and a payload of at most
/// [`ZPACKET_DATA_LENGTH`] bytes. Immutable once constructed.
pub struct ZPacket {
    pub(crate) d_addr: u8,
    pub(crate) s_addr: u8,
    pub(crate) d: Vec<u8>,
}

impl ZPacket {
    /// The destination address, as a mathematical value.
    pub open(crate) spec fn spec_dest(self) -> u8 {
        self.d_addr
    }

    /// The sender address, as a mathematical value.
    pub open(crate) spec fn spec_sender(self) -> u8 {
        self.s_addr
    }

    /// The payload, as a mathematical sequence of bytes.
    pub open(crate) spec fn spec_data(self) -> Seq<u8> {
        self.d@
    }

    /// Validity: both addresses fit in six bits and the payload fits in a
    /// length byte. Every constructed `ZPacket` satisfies this.
    pub open spec fn wf(self) -> bool {
        &&& self.spec_dest() <= MAX_ADDRESS
        &&& self.spec_sender() <= MAX_ADDRESS
        &&& self.spec_data().len() <= ZPACKET_DATA_LENGTH
    }

    /// Builds a packet, rejecting an address over 63. Succeeds if and only
    /// if both addresses fit in six bits; the payload is copied as given.
    pub fn new(dest_addr: u8, sender_addr: u8, data: &[u8]) -> (r: Result<Self, ZPacketCreateError>)
        requires
            data@.len() <= ZPACKET_DATA_LENGTH,
        ensures
            match r {
                Ok(p) => {
                    &&& dest_addr <= MAX_ADDRESS
                    &&& sender_addr <= MAX_ADDRESS
                    &&& p.wf()
                    &&& p.spec_dest() == dest_addr
                    &&& p.spec_sender() == sender_addr
                    &&& p.spec_data() == data@
                },
                Err(e) => {
                    &&& dest_addr > MAX_ADDRESS || sender_addr > MAX_ADDRESS
                    &&& (e is DestinationAddressOutOfRange <==> dest_addr > MAX_ADDRESS)
                    &&& (e is SenderAddressOutOfRange <==> dest_addr <= MAX_ADDRESS
                        && sender_addr > MAX_ADDRESS)
                    &&& !(e is BadCRC)
                },
            },
    {
        if dest_addr > MAX_ADDRESS {
            return Err(ZPacketCreateError::DestinationAddressOutOfRange);
        }

        if sender_addr > MAX_ADDRESS {
            return Err(ZPacketCreateError::SenderAddressOutOfRange);
        }

        let mut d: Vec<u8> = Vec::new();
        let mut i: usize = 0;
        while i < data.len()
            invariant
                i <= data@.len(),
                d@ == data@.take(i as int),
            decreases data@.len() - i,
        {
            d.push(data[i]);
            i += 1;
        }
        proof {
            assert(d@ =~= data@);
        }

        Ok(ZPacket { d_addr: dest_addr, s_addr: sender_addr, d })
    }

    /// The destination address.
    pub fn dest_address(&self) -> (r: u8)
        ensures
            r == self.spec_dest(),
    {
        self.d_addr
    }

    /// The sender address.
    pub fn sender_addr(&self) -> (r: u8)
        ensures
            r == self.spec_sender(),
    {
        self.s_addr
    }

    /// A read-only view of the payload.
    pub fn data(&self) -> (r: &[u8])
        ensures
            r@ == self.spec_data(),
    {
        self.d.as_slice()
    }

    /// Consumes the packet and starts encoding it; the serializer will emit
    /// exactly the frame of `wire::frame_bytes` for this packet's fields.
    pub fn to_iter(self) -> (r: serialize::ZPacketSerializer)
        requires
            self.wf(),
        ensures
            r.wf(),
            r.spec_packet() == self,
            r.pos() == 0,
    {
        serialize::ZPacketSerializer::new(self)
    }
}

} // verus!
