//! Resumable frame decoder.
//!
//! A single long-lived [`ZPacketDeserializer`] ingests byte slices of any
//! size across repeated calls to [`ZPacketDeserializer::read`] and yields a
//! packet once a complete, checksum-valid frame has been observed. Its
//! contract is stated against the state machine `wire::ds_run`.
//!
//! After a frame completes — accepted or rejected — the machine is put back
//! into its start-seeking state before anything further is processed, so
//! the same instance parses an unbounded succession of frames.

use vstd::prelude::*;

use crate::wire::{
    ds_init, ds_run, ds_step, lemma_ds_run_append, lemma_ds_run_stop, DsModel, DsStage,
    ParseOutcome, RunResult,
};
use crate::{
    ZPacket, ZPacketCreateError, ADDRESS_MASK, DEST_ADDR_PACKET_START_IDENTIFER_BITS, MAX_ADDRESS,
    ZPACKET_DATA_LENGTH,
};

verus! {

pub(crate) enum DeserializerState {
    DestinationAddress,
    SenderAddress,
    DataLength,
    Data,
    CRC,
}

/// Rebuilds packets from a byte stream delivered in arbitrary chunks,
/// buffering partial frame state between calls.
pub struct ZPacketDeserializer {
    pub(crate) read_state: DeserializerState,
    pub(crate) p_d_addr: u8,
    pub(crate) p_s_addr: u8,
    pub(crate) p_data_len: usize,
    pub(crate) p_data: Vec<u8>,
    pub(crate) p_calc_crc: u8,
}

impl ZPacketDeserializer {
    /// The parse stage this deserializer is in.
    pub open(crate) spec fn stage(self) -> DsStage {
        match self.read_state {
            DeserializerState::DestinationAddress => DsStage::SeekStart,
            DeserializerState::SenderAddress => DsStage::Sender,
            DeserializerState::DataLength => DsStage::Length,
            DeserializerState::Data => DsStage::Data,
            DeserializerState::CRC => DsStage::Crc,
        }
    }

    /// This deserializer's state as the mathematical machine of `wire`.
    pub open(crate) spec fn model(self) -> DsModel {
        DsModel {
            stage: self.stage(),
            dest: self.p_d_addr,
            src: self.p_s_addr,
            len: self.p_data_len as nat,
            data: self.p_data@,
            crc: self.p_calc_crc,
        }
    }

    /// Internal consistency: addresses are already masked to six bits, the
    /// declared length fits in a length byte, and the payload buffer never
    /// holds more than it; while payload bytes are awaited the buffer is
    /// strictly below the declared length.
    pub open(crate) spec fn wf(self) -> bool {
        &&& self.p_d_addr <= MAX_ADDRESS
        &&& self.p_s_addr <= MAX_ADDRESS
        &&& self.p_data_len <= ZPACKET_DATA_LENGTH
        &&& self.p_data@.len() <= ZPACKET_DATA_LENGTH
        &&& (self.read_state is Data ==> self.p_data@.len() < self.p_data_len)
        &&& ((self.read_state is SenderAddress || self.read_state is DataLength)
            ==> self.p_data@.len() == 0)
    }

    /// A fresh deserializer, seeking the start of a frame.
    pub fn new() -> (r: Self)
        ensures
            r.wf(),
            r.model() == ds_init(),
    {
        let d = ZPacketDeserializer {
            read_state: DeserializerState::DestinationAddress,
            p_d_addr: 0,
            p_s_addr: 0,
            p_data_len: 0,
            p_data: Vec::new(),
            p_calc_crc: 0,
        };
        proof {
            assert(d.model() =~= ds_init());
        }
        d
    }

    /// Feeds bytes to the state machine, stopping at the first completed
    /// frame. Returns how many of the supplied bytes were consumed, and
    /// either a validated packet, a checksum error, or `None` when the
    /// input ran out mid-frame; unconsumed bytes must be re-submitted.
    /// The effect is exactly that of `wire::ds_run` on the input.
    pub fn read(&mut self, data_in: &[u8]) -> (r: (usize, Result<
        Option<ZPacket>,
        ZPacketCreateError,
    >))
        requires
            old(self).wf(),
        ensures
            final(self).wf(),
            ({
                let run = ds_run(old(self).model(), data_in@);
                &&& final(self).model() == run.state
                &&& r.0 == run.consumed
                &&& (match r.1 {
                    Ok(Some(p)) => {
                        &&& p.wf()
                        &&& run.outcome == (ParseOutcome::Accepted {
                            dest: p.spec_dest(),
                            src: p.spec_sender(),
                            data: p.spec_data(),
                        })
                    },
                    Ok(None) => run.outcome is Pending && r.0 == data_in@.len(),
                    Err(e) => e is BadCRC && run.outcome is Rejected,
                })
            }),
    {
        let ghost m0 = old(self).model();
        let mut num_bytes_read: usize = 0;
        proof {
            assert(data_in@.take(0) =~= Seq::<u8>::empty());
        }
        while num_bytes_read < data_in.len()
            invariant
                m0 == old(self).model(),
                self.wf(),
                num_bytes_read <= data_in@.len(),
                ds_run(m0, data_in@.take(num_bytes_read as int)) == (RunResult {
                    state: self.model(),
                    consumed: num_bytes_read as nat,
                    outcome: ParseOutcome::Pending,
                }),
            decreases data_in@.len() - num_bytes_read,
        {
            let ghost i = num_bytes_read as int;
            let ghost cur = self.model();
            let cur_b = data_in[num_bytes_read];
            proof {
                assert(data_in@.take(i + 1) =~= data_in@.take(i) + seq![cur_b]);
                lemma_ds_run_append(m0, data_in@.take(i), seq![cur_b]);
                assert(seq![cur_b][0] == cur_b);
                assert(seq![cur_b].drop_first() =~= Seq::<u8>::empty());
            }

            match self.read_state {
                DeserializerState::DestinationAddress => {
                    proof {
                        assert(cur_b & !ADDRESS_MASK == cur_b & 0xC0) by (bit_vector);
                        assert(cur_b & ADDRESS_MASK <= MAX_ADDRESS) by (bit_vector);
                    }
                    if cur_b & !ADDRESS_MASK == DEST_ADDR_PACKET_START_IDENTIFER_BITS {
                        // The start marker: keep the address bits, seed the
                        // checksum, start an empty payload buffer.
                        self.p_d_addr = cur_b & ADDRESS_MASK;
                        self.p_calc_crc = cur_b;
                        self.p_data.clear();
                        self.read_state = DeserializerState::SenderAddress;
                    }
                    // Any other byte is discarded: stream resynchronization.
                    proof {
                        assert(self.model() =~= ds_step(cur, cur_b));
                    }
                },
                DeserializerState::SenderAddress => {
                    proof {
                        assert(cur_b & ADDRESS_MASK <= MAX_ADDRESS) by (bit_vector);
                    }
                    // The top two bits are reserved; keep the address bits.
                    self.p_s_addr = cur_b & ADDRESS_MASK;
                    self.p_calc_crc = self.p_calc_crc ^ cur_b;
                    self.read_state = DeserializerState::DataLength;
                    proof {
                        assert(self.model() =~= ds_step(cur, cur_b));
                    }
                },
                DeserializerState::DataLength => {
                    self.p_data_len = cur_b as usize;
                    self.p_calc_crc = self.p_calc_crc ^ cur_b;
                    // A zero length has no payload bytes: straight to the
                    // checksum.
                    if self.p_data_len == 0 {
                        self.read_state = DeserializerState::CRC;
                    } else {
                        self.read_state = DeserializerState::Data;
                    }
                    proof {
                        assert(self.model() =~= ds_step(cur, cur_b));
                    }
                },
                DeserializerState::Data => {
                    self.p_data.push(cur_b);
                    self.p_calc_crc = self.p_calc_crc ^ cur_b;
                    if self.p_data.len() == self.p_data_len {
                        self.read_state = DeserializerState::CRC;
                    }
                    proof {
                        assert(self.model() =~= ds_step(cur, cur_b));
                    }
                },
                DeserializerState::CRC => {
                    proof {
                        assert(ds_run(cur, seq![cur_b]) == (RunResult {
                            state: ds_init(),
                            consumed: 1nat,
                            outcome: if cur_b == cur.crc {
                                ParseOutcome::Accepted { dest: cur.dest, src: cur.src, data: cur.data }
                            } else {
                                ParseOutcome::Rejected
                            },
                        }));
                        assert(!(ds_run(m0, data_in@.take(i + 1)).outcome is Pending));
                        lemma_ds_run_stop(m0, data_in@, i + 1);
                    }
                    if cur_b == self.p_calc_crc {
                        // The frame checks out: build the packet and seek
                        // the next frame's start.
                        let zp_res = ZPacket::new(
                            self.p_d_addr,
                            self.p_s_addr,
                            self.p_data.as_slice(),
                        );
                        self.reset();
                        match zp_res {
                            Ok(zp) => return (num_bytes_read + 1, Ok(Some(zp))),
                            Err(e) => return (num_bytes_read + 1, Err(e)),
                        }
                    } else {
                        // Checksum mismatch: report it, then seek the next
                        // frame's start.
                        self.reset();
                        return (num_bytes_read + 1, Err(ZPacketCreateError::BadCRC));
                    }
                },
            }
            proof {
                assert(ds_run(ds_step(cur, cur_b), Seq::<u8>::empty()) == (RunResult {
                    state: ds_step(cur, cur_b),
                    consumed: 0nat,
                    outcome: ParseOutcome::Pending,
                }));
                assert(ds_run(cur, seq![cur_b]) == (RunResult {
                    state: ds_step(cur, cur_b),
                    consumed: 1nat,
                    outcome: ParseOutcome::Pending,
                }));
            }
            num_bytes_read = num_bytes_read + 1;
        }
        proof {
            assert(data_in@.take(data_in@.len() as int) =~= data_in@);
        }
        (num_bytes_read, Ok(None))
    }

    /// Returns the machine to its start-seeking state, as after
    /// construction.
    fn reset(&mut self)
        ensures
            final(self).wf(),
            final(self).model() == ds_init(),
    {
        self.read_state = DeserializerState::DestinationAddress;
        self.p_d_addr = 0;
        self.p_s_addr = 0;
        self.p_data_len = 0;
        self.p_data.clear();
        self.p_calc_crc = 0;
        proof {
            assert(self.model() =~= ds_init());
        }
    }
}

} // verus!
