//! Incremental frame encoder.
//!
//! A [`ZPacketSerializer`] consumes one validated packet and hands out its
//! wire frame one byte per call to [`ZPacketSerializer::next`], so a caller
//! can drain it into a transmit buffer of any size. Once the checksum byte
//! has been produced the serializer is permanently exhausted.

use vstd::prelude::*;

use crate::wire::{frame_body, frame_bytes, lemma_xor_all_push, xor_all};
use crate::{ZPacket, ADDRESS_MASK, DEST_ADDR_PACKET_START_IDENTIFER_BITS};

verus! {

pub(crate) enum SerializerState {
    DestinationAddress,
    SenderAddress,
    DataLength,
    Data,
    CRC,
    Done,
}

/// Emits the wire frame of one packet, byte by byte, in order: destination,
/// sender, length, payload, checksum.
pub struct ZPacketSerializer {
    pub(crate) state: SerializerState,
    pub(crate) cur_data_i: usize,
    pub(crate) calc_crc: u8,
    pub(crate) packet: ZPacket,
}

impl ZPacketSerializer {
    /// The packet being encoded.
    pub open(crate) spec fn spec_packet(self) -> ZPacket {
        self.packet
    }

    /// The frame this serializer emits, as a mathematical byte sequence.
    pub open spec fn frame(self) -> Seq<u8> {
        frame_bytes(
            self.spec_packet().spec_dest(),
            self.spec_packet().spec_sender(),
            self.spec_packet().spec_data(),
        )
    }

    /// How many bytes of the frame have been emitted so far.
    pub open(crate) spec fn pos(self) -> int {
        match self.state {
            SerializerState::DestinationAddress => 0,
            SerializerState::SenderAddress => 1,
            SerializerState::DataLength => 2,
            SerializerState::Data => 3 + self.cur_data_i,
            SerializerState::CRC => self.frame().len() - 1,
            SerializerState::Done => self.frame().len() as int,
        }
    }

    /// Internal consistency: the packet is valid, the payload cursor is in
    /// bounds for the current state, and the checksum accumulator equals the
    /// XOR of every frame byte emitted so far.
    pub open(crate) spec fn wf(self) -> bool {
        &&& self.packet.wf()
        &&& match self.state {
            SerializerState::DestinationAddress => self.cur_data_i == 0 && self.calc_crc == 0,
            SerializerState::SenderAddress => self.cur_data_i == 0 && self.calc_crc == xor_all(
                self.frame().take(1),
            ),
            SerializerState::DataLength => self.cur_data_i == 0 && self.calc_crc == xor_all(
                self.frame().take(2),
            ),
            SerializerState::Data => {
                &&& self.cur_data_i < self.packet.spec_data().len()
                &&& self.calc_crc == xor_all(self.frame().take(3 + self.cur_data_i))
            },
            SerializerState::CRC => self.calc_crc == xor_all(
                self.frame().take(self.frame().len() - 1),
            ),
            SerializerState::Done => true,
        }
    }

    /// Starts encoding the given packet from its first byte.
    pub fn new(packet: ZPacket) -> (r: Self)
        requires
            packet.wf(),
        ensures
            r.wf(),
            r.spec_packet() == packet,
            r.pos() == 0,
    {
        ZPacketSerializer {
            state: SerializerState::DestinationAddress,
            cur_data_i: 0,
            calc_crc: 0,
            packet,
        }
    }

    /// Folds one emitted byte into the checksum accumulator; the first frame
    /// byte seeds the accumulator instead of being XORed into it.
    fn calculate_crc(&mut self, b: u8)
        ensures
            final(self).state == old(self).state,
            final(self).cur_data_i == old(self).cur_data_i,
            final(self).packet == old(self).packet,
            final(self).calc_crc == (match old(self).state {
                SerializerState::DestinationAddress => b,
                _ => old(self).calc_crc ^ b,
            }),
    {
        match self.state {
            SerializerState::DestinationAddress => self.calc_crc = b,
            _ => self.calc_crc = self.calc_crc ^ b,
        }
    }

    /// Produces the next frame byte, or `None` once the whole frame,
    /// checksum included, has been emitted.
    pub fn next(&mut self) -> (r: Option<u8>)
        requires
            old(self).wf(),
        ensures
            final(self).wf(),
            final(self).spec_packet() == old(self).spec_packet(),
            old(self).pos() < old(self).frame().len() ==> {
                &&& r == Some(old(self).frame()[old(self).pos()])
                &&& final(self).pos() == old(self).pos() + 1
            },
            old(self).pos() == old(self).frame().len() ==> {
                &&& r is None
                &&& final(self).pos() == old(self).pos()
            },
    {
        let ghost w = self.frame();
        let ghost body = frame_body(
            self.packet.spec_dest(),
            self.packet.spec_sender(),
            self.packet.spec_data(),
        );
        match self.state {
            SerializerState::Done => None,
            SerializerState::DestinationAddress => {
                self.state = SerializerState::SenderAddress;
                let b = DEST_ADDR_PACKET_START_IDENTIFER_BITS | (self.packet.d_addr & ADDRESS_MASK);
                self.calculate_crc(b);
                proof {
                    assert(w[0] == b);
                    assert(w.take(1) =~= Seq::<u8>::empty().push(b));
                    lemma_xor_all_push(Seq::<u8>::empty(), b);
                    assert(0u8 ^ b == b) by (bit_vector);
                }
                Some(b)
            },
            SerializerState::SenderAddress => {
                self.state = SerializerState::DataLength;
                let b = self.packet.s_addr & ADDRESS_MASK;
                self.calculate_crc(b);
                proof {
                    assert(w[1] == b);
                    assert(w.take(2) =~= w.take(1).push(b));
                    lemma_xor_all_push(w.take(1), b);
                }
                Some(b)
            },
            SerializerState::DataLength => {
                if self.packet.d.len() == 0 {
                    self.state = SerializerState::CRC;
                } else {
                    self.state = SerializerState::Data;
                }
                let b = self.packet.d.len() as u8;
                self.calculate_crc(b);
                proof {
                    assert(w[2] == b);
                    assert(w.take(3) =~= w.take(2).push(b));
                    lemma_xor_all_push(w.take(2), b);
                    assert(w.len() == 4 + self.packet.spec_data().len());
                }
                Some(b)
            },
            SerializerState::Data => {
                let cur_byte = self.packet.d[self.cur_data_i];
                self.cur_data_i = self.cur_data_i + 1;
                if self.cur_data_i == self.packet.d.len() {
                    self.state = SerializerState::CRC;
                }
                self.calculate_crc(cur_byte);
                proof {
                    let i = old(self).cur_data_i as int;
                    assert(w[3 + i] == body[3 + i]);
                    assert(body[3 + i] == old(self).packet.spec_data()[i]);
                    assert(w.take(3 + i + 1) =~= w.take(3 + i).push(cur_byte));
                    lemma_xor_all_push(w.take(3 + i), cur_byte);
                    assert(w.len() == 4 + self.packet.spec_data().len());
                }
                Some(cur_byte)
            },
            SerializerState::CRC => {
                self.state = SerializerState::Done;
                proof {
                    assert(w.take(w.len() - 1) =~= body);
                    assert(w[w.len() - 1] == xor_all(body));
                }
                Some(self.calc_crc)
            },
        }
    }
}

} // verus!
