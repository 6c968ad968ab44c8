//! The mathematical model of the wire format.
//!
//! [`frame_bytes`] says which byte sequence encodes a packet, and
//! [`ds_run`] says what the deserializer's state machine does to any byte
//! sequence. The public lemmas at the end state the protocol's laws:
//! round trip, chunking invariance, checksum sensitivity, and
//! resynchronization after noise.

use vstd::prelude::*;

verus! {

/// XOR of all bytes of a sequence; 0 for the empty sequence.
pub open spec fn xor_all(s: Seq<u8>) -> u8
    decreases s.len(),
{
    if s.len() == 0 {
        0u8
    } else {
        s[0] ^ xor_all(s.drop_first())
    }
}

/// Whether a byte opens a frame: bit 7 set, bit 6 clear.
pub open spec fn marker_ok(b: u8) -> bool {
    b & 0xC0 == 0x80
}

/// Everything of a frame but its checksum byte: destination byte with the
/// start marker, sender byte, length byte, then the payload.
pub open spec fn frame_body(dest: u8, src: u8, payload: Seq<u8>) -> Seq<u8> {
    seq![
        (0x80u8 | (dest & 0x3F)) as u8,
        (src & 0x3F) as u8,
        payload.len() as u8,
    ] + payload
}

/// The frame that encodes a packet with the given fields: the body of
/// [`frame_body`] followed by the XOR checksum of all of its bytes.
pub open spec fn frame_bytes(dest: u8, src: u8, payload: Seq<u8>) -> Seq<u8> {
    frame_body(dest, src, payload).push(xor_all(frame_body(dest, src, payload)))
}

/// The parse stage the deserializer's state machine is in.
#[verifier::ext_equal]
pub ghost enum DsStage {
    /// Discarding bytes until one carries the start marker.
    SeekStart,
    /// The next byte is the sender byte.
    Sender,
    /// The next byte is the length byte.
    Length,
    /// The next byte is a payload byte.
    Data,
    /// The next byte is the checksum byte, which completes the frame.
    Crc,
}

/// The deserializer's state, as a mathematical value: the stage, the fields
/// gathered so far, and the running checksum.
#[verifier::ext_equal]
pub ghost struct DsModel {
    pub stage: DsStage,
    pub dest: u8,
    pub src: u8,
    pub len: nat,
    pub data: Seq<u8>,
    pub crc: u8,
}

/// The state of a freshly constructed deserializer, to which it also
/// returns after every completed frame.
pub open spec fn ds_init() -> DsModel {
    DsModel {
        stage: DsStage::SeekStart,
        dest: 0,
        src: 0,
        len: 0,
        data: Seq::empty(),
        crc: 0,
    }
}

/// One step of the deserializer on one byte, in every stage but `Crc`
/// (a byte arriving in stage `Crc` completes the frame: see [`ds_run`]).
pub open spec fn ds_step(m: DsModel, b: u8) -> DsModel {
    match m.stage {
        DsStage::SeekStart => if marker_ok(b) {
            DsModel {
                stage: DsStage::Sender,
                dest: (b & 0x3F) as u8,
                crc: b,
                data: Seq::empty(),
                ..m
            }
        } else {
            m
        },
        DsStage::Sender => DsModel {
            stage: DsStage::Length,
            src: (b & 0x3F) as u8,
            crc: (m.crc ^ b) as u8,
            ..m
        },
        DsStage::Length => DsModel {
            stage: if b == 0 {
                DsStage::Crc
            } else {
                DsStage::Data
            },
            len: b as nat,
            crc: (m.crc ^ b) as u8,
            ..m
        },
        DsStage::Data => DsModel {
            stage: if m.data.len() + 1 == m.len {
                DsStage::Crc
            } else {
                DsStage::Data
            },
            data: m.data.push(b),
            crc: (m.crc ^ b) as u8,
            ..m
        },
        DsStage::Crc => m,
    }
}

/// What one call of the deserializer's read operation reports.
#[verifier::ext_equal]
pub ghost enum ParseOutcome {
    /// The input ran out before a frame completed.
    Pending,
    /// A frame completed with a matching checksum, carrying these fields.
    Accepted { dest: u8, src: u8, data: Seq<u8> },
    /// A frame completed but its checksum byte did not match.
    Rejected,
}

/// The full effect of feeding a byte sequence to the deserializer: the
/// state left behind, how many bytes were consumed, and the outcome.
#[verifier::ext_equal]
pub ghost struct RunResult {
    pub state: DsModel,
    pub consumed: nat,
    pub outcome: ParseOutcome,
}

/// Runs the deserializer over an input, stopping at the first completed
/// frame. Bytes after a completing checksum byte are not consumed; after a
/// completion, whether accepted or rejected, the state is [`ds_init`]
/// again, so one deserializer can parse an unbounded stream of frames.
pub open spec fn ds_run(m: DsModel, input: Seq<u8>) -> RunResult
    decreases input.len(),
{
    if input.len() == 0 {
        RunResult { state: m, consumed: 0, outcome: ParseOutcome::Pending }
    } else if m.stage is Crc {
        RunResult {
            state: ds_init(),
            consumed: 1,
            outcome: if input[0] == m.crc {
                ParseOutcome::Accepted { dest: m.dest, src: m.src, data: m.data }
            } else {
                ParseOutcome::Rejected
            },
        }
    } else {
        let r = ds_run(ds_step(m, input[0]), input.drop_first());
        RunResult { state: r.state, consumed: (r.consumed + 1) as nat, outcome: r.outcome }
    }
}

proof fn lemma_xor_assoc(a: u8, b: u8, c: u8)
    by (bit_vector)
    ensures
        (a ^ b) ^ c == a ^ (b ^ c),
{
}

proof fn lemma_xor_zero(a: u8)
    by (bit_vector)
    ensures
        a ^ 0 == a,
        0 ^ a == a,
{
}

/// XOR over a concatenation splits into the XOR of each part.
pub proof fn lemma_xor_all_append(s1: Seq<u8>, s2: Seq<u8>)
    ensures
        xor_all(s1 + s2) == xor_all(s1) ^ xor_all(s2),
    decreases s1.len(),
{
    if s1.len() == 0 {
        assert(s1 + s2 =~= s2);
        lemma_xor_zero(xor_all(s2));
    } else {
        assert((s1 + s2).drop_first() =~= s1.drop_first() + s2);
        lemma_xor_all_append(s1.drop_first(), s2);
        lemma_xor_assoc(s1[0], xor_all(s1.drop_first()), xor_all(s2));
    }
}

/// Appending one byte XORs it into the total.
pub proof fn lemma_xor_all_push(s: Seq<u8>, b: u8)
    ensures
        xor_all(s.push(b)) == xor_all(s) ^ b,
{
    assert(s.push(b) =~= s + seq![b]);
    lemma_xor_all_append(s, seq![b]);
    assert(xor_all(seq![b]) == b ^ xor_all(seq![b].drop_first()));
    assert(seq![b].drop_first() =~= Seq::<u8>::empty());
    lemma_xor_zero(b);
}

/// Changing one byte of a sequence XORs the old and the new byte into the
/// total.
pub proof fn lemma_xor_all_update(s: Seq<u8>, i: int, v: u8)
    requires
        0 <= i < s.len(),
    ensures
        xor_all(s.update(i, v)) == (xor_all(s) ^ s[i]) ^ v,
    decreases s.len(),
{
    let x = xor_all(s.drop_first());
    if i == 0 {
        assert(s.update(0, v).drop_first() =~= s.drop_first());
        assert(xor_all(s.update(0, v)) == v ^ x);
        let h = s[0];
        assert(v ^ x == ((h ^ x) ^ h) ^ v) by (bit_vector);
    } else {
        assert(s.update(i, v).drop_first() =~= s.drop_first().update(i - 1, v));
        lemma_xor_all_update(s.drop_first(), i - 1, v);
        assert(s.drop_first()[i - 1] == s[i]);
        let h = s[0];
        let a = s[i];
        assert(h ^ ((x ^ a) ^ v) == ((h ^ x) ^ a) ^ v) by (bit_vector);
    }
}

/// Chunking invariance: while a run of the deserializer is still pending,
/// feeding more bytes continues exactly where it left off. Splitting an
/// input at any pending point changes neither the final state, nor the
/// total count of consumed bytes, nor the outcome.
pub proof fn lemma_ds_run_append(m: DsModel, s1: Seq<u8>, s2: Seq<u8>)
    requires
        ds_run(m, s1).outcome is Pending,
    ensures
        ds_run(m, s1 + s2) == (RunResult {
            state: ds_run(ds_run(m, s1).state, s2).state,
            consumed: (s1.len() + ds_run(ds_run(m, s1).state, s2).consumed) as nat,
            outcome: ds_run(ds_run(m, s1).state, s2).outcome,
        }),
    decreases s1.len(),
{
    if s1.len() == 0 {
        assert(s1 + s2 =~= s2);
        assert(ds_run(m, s1).state == m);
        assert(ds_run(m, s1 + s2) =~= ds_run(m, s2));
    } else {
        assert(!(m.stage is Crc));
        assert((s1 + s2)[0] == s1[0]);
        assert((s1 + s2).drop_first() =~= s1.drop_first() + s2);
        lemma_ds_run_append(ds_step(m, s1[0]), s1.drop_first(), s2);
    }
}

/// A run never consumes more bytes than it was given, and a pending run
/// has consumed them all.
pub proof fn lemma_ds_run_consumed(m: DsModel, input: Seq<u8>)
    ensures
        ds_run(m, input).consumed <= input.len(),
        ds_run(m, input).outcome is Pending ==> ds_run(m, input).consumed == input.len(),
    decreases input.len(),
{
    if input.len() == 0 {
    } else if m.stage is Crc {
    } else {
        lemma_ds_run_consumed(ds_step(m, input[0]), input.drop_first());
    }
}

/// The first completed frame decides the whole call: once a prefix of the
/// input already yields an outcome, the bytes after it change nothing.
pub proof fn lemma_ds_run_stop(m: DsModel, s: Seq<u8>, k: int)
    requires
        0 <= k <= s.len(),
        !(ds_run(m, s.take(k)).outcome is Pending),
    ensures
        ds_run(m, s) == ds_run(m, s.take(k)),
    decreases k,
{
    if k == 0 {
        assert(s.take(0) =~= Seq::<u8>::empty());
    } else {
        assert(s.take(k)[0] == s[0]);
        if m.stage is Crc {
            assert(ds_run(m, s) =~= ds_run(m, s.take(k)));
        } else {
            assert(s.take(k).drop_first() =~= s.drop_first().take(k - 1));
            lemma_ds_run_stop(ds_step(m, s[0]), s.drop_first(), k - 1);
        }
    }
}

/// Runs the data stage over exactly the payload bytes that are still owed:
/// they are appended to the buffer, XORed into the checksum, and the stage
/// moves on to the checksum byte.
proof fn lemma_ds_run_data(m: DsModel, bytes: Seq<u8>, rest: Seq<u8>)
    requires
        m.stage is Data,
        bytes.len() >= 1,
        m.data.len() + bytes.len() == m.len,
    ensures
        ({
            let mend = DsModel {
                stage: DsStage::Crc,
                data: m.data + bytes,
                crc: m.crc ^ xor_all(bytes),
                ..m
            };
            ds_run(m, bytes + rest) == (RunResult {
                state: ds_run(mend, rest).state,
                consumed: (bytes.len() + ds_run(mend, rest).consumed) as nat,
                outcome: ds_run(mend, rest).outcome,
            })
        }),
    decreases bytes.len(),
{
    let b = bytes[0];
    let mend = DsModel {
        stage: DsStage::Crc,
        data: m.data + bytes,
        crc: m.crc ^ xor_all(bytes),
        ..m
    };
    assert((bytes + rest)[0] == b);
    let m1 = ds_step(m, b);
    assert(xor_all(bytes) == b ^ xor_all(bytes.drop_first()));
    if bytes.len() == 1 {
        assert(m1.stage is Crc);
        assert(bytes.drop_first() =~= Seq::<u8>::empty());
        lemma_xor_zero(b);
        assert(m1.data =~= m.data + bytes);
        assert(m1 =~= mend);
        assert((bytes + rest).drop_first() =~= rest);
    } else {
        assert(m1.stage is Data);
        assert((bytes + rest).drop_first() =~= bytes.drop_first() + rest);
        lemma_ds_run_data(m1, bytes.drop_first(), rest);
        let mend1 = DsModel {
            stage: DsStage::Crc,
            data: m1.data + bytes.drop_first(),
            crc: m1.crc ^ xor_all(bytes.drop_first()),
            ..m1
        };
        assert(mend1.data =~= m.data + bytes);
        let x = xor_all(bytes.drop_first());
        let c0 = m.crc;
        assert((c0 ^ b) ^ x == c0 ^ (b ^ x)) by (bit_vector);
        assert(mend1 =~= mend);
    }
}

/// Parses one whole well-shaped frame from the initial state: a marker
/// byte, a sender byte, a length byte, exactly that many payload bytes,
/// and a final byte. Every byte is consumed; the final byte decides
/// between acceptance, with the addresses' low six bits and the payload,
/// and rejection; either way the machine is back in its initial state.
pub proof fn lemma_parse_frame(h: u8, s: u8, data: Seq<u8>, c: u8)
    requires
        marker_ok(h),
        data.len() <= 255,
    ensures
        ({
            let w = seq![h, s, (data.len() as u8)] + data + seq![c];
            ds_run(ds_init(), w) == (RunResult {
                state: ds_init(),
                consumed: w.len() as nat,
                outcome: if c == xor_all(w.drop_last()) {
                    ParseOutcome::Accepted {
                        dest: (h & 0x3F) as u8,
                        src: (s & 0x3F) as u8,
                        data,
                    }
                } else {
                    ParseOutcome::Rejected
                },
            })
        }),
{
    let l = data.len() as u8;
    let w = seq![h, s, l] + data + seq![c];
    let q = w.drop_last();
    assert(q =~= seq![h, s, l] + data);
    assert(w[0] == h);
    let m0 = ds_init();
    let m1 = ds_step(m0, h);
    assert(m1.stage is Sender && m1.dest == (h & 0x3F) && m1.crc == h && m1.data =~= Seq::<
        u8,
    >::empty());
    assert(w.drop_first() =~= seq![s, l] + data + seq![c]);
    assert(w.drop_first()[0] == s);
    let m2 = ds_step(m1, s);
    assert(m2.stage is Length && m2.src == (s & 0x3F) && m2.crc == (h ^ s));
    assert(w.drop_first().drop_first() =~= seq![l] + data + seq![c]);
    assert(w.drop_first().drop_first()[0] == l);
    let m3 = ds_step(m2, l);
    assert(m3.len == l as nat && m3.crc == ((h ^ s) ^ l) && m3.data =~= Seq::<u8>::empty());
    let w1 = w.drop_first();
    let w2 = w1.drop_first();
    let after3 = w2.drop_first();
    assert(after3 =~= data + seq![c]);
    // The checksum of everything before the final byte, peeled from the front.
    assert(q.drop_first() =~= seq![s, l] + data);
    assert(q.drop_first().drop_first() =~= seq![l] + data);
    assert(q.drop_first().drop_first().drop_first() =~= data);
    assert(q[0] == h && (seq![s, l] + data)[0] == s && (seq![l] + data)[0] == l);
    assert(xor_all(seq![l] + data) == l ^ xor_all(data));
    assert(xor_all(seq![s, l] + data) == s ^ xor_all(seq![l] + data));
    assert(xor_all(q) == h ^ (s ^ (l ^ xor_all(data))));
    let x = xor_all(data);
    assert(((h ^ s) ^ l) ^ x == h ^ (s ^ (l ^ x))) by (bit_vector);
    let want = if c == xor_all(q) {
        ParseOutcome::Accepted { dest: (h & 0x3F) as u8, src: (s & 0x3F) as u8, data }
    } else {
        ParseOutcome::Rejected
    };
    if l == 0 {
        assert(m3.stage is Crc);
        assert(data =~= Seq::<u8>::empty());
        lemma_xor_zero((h ^ s) ^ l);
        assert(m3.crc == xor_all(q));
        assert(after3 =~= seq![c]);
        assert(after3[0] == c);
        assert(ds_run(m3, after3) == (RunResult { state: ds_init(), consumed: 1nat, outcome: want })) by {
            assert(m3.data =~= data);
            if c == m3.crc {
                assert(ds_run(m3, after3).outcome =~= want);
            }
        }
        assert(w.len() == 4);
    } else {
        assert(m3.stage is Data);
        assert(m3.data.len() + data.len() == m3.len);
        lemma_ds_run_data(m3, data, seq![c]);
        let mend = DsModel {
            stage: DsStage::Crc,
            data: m3.data + data,
            crc: m3.crc ^ xor_all(data),
            ..m3
        };
        assert(mend.data =~= data);
        assert(mend.crc == xor_all(q));
        assert(mend.dest == (h & 0x3F) && mend.src == (s & 0x3F));
        assert(seq![c][0] == c);
        assert(ds_run(mend, seq![c]) == (RunResult { state: ds_init(), consumed: 1nat, outcome: want })) by {
            if c == mend.crc {
                assert(ds_run(mend, seq![c]).outcome =~= want);
            }
        }
        assert(after3 == data + seq![c]);
        assert(ds_run(m3, after3) == (RunResult {
            state: ds_init(),
            consumed: (data.len() + 1) as nat,
            outcome: want,
        }));
        assert(w.len() == 4 + data.len());
    }
    let r3 = ds_run(m3, after3);
    assert(r3.state == ds_init() && r3.outcome == want && r3.consumed == w.len() - 3);
    assert(w1[0] == s && w2[0] == l);
    assert(ds_run(m2, w2) == (RunResult {
        state: r3.state,
        consumed: (r3.consumed + 1) as nat,
        outcome: r3.outcome,
    }));
    assert(ds_run(m1, w1) == (RunResult {
        state: r3.state,
        consumed: (r3.consumed + 2) as nat,
        outcome: r3.outcome,
    }));
    assert(ds_run(m0, w) == (RunResult {
        state: r3.state,
        consumed: (r3.consumed + 3) as nat,
        outcome: r3.outcome,
    }));
}

/// Round trip: the frame that encodes a valid packet parses back, from the
/// initial state, to exactly that packet's fields, consuming the whole
/// frame and leaving the machine ready for the next one.
pub proof fn lemma_round_trip(dest: u8, src: u8, payload: Seq<u8>)
    requires
        dest <= 63,
        src <= 63,
        payload.len() <= 255,
    ensures
        ds_run(ds_init(), frame_bytes(dest, src, payload)) == (RunResult {
            state: ds_init(),
            consumed: frame_bytes(dest, src, payload).len() as nat,
            outcome: ParseOutcome::Accepted { dest, src, data: payload },
        }),
{
    let h = (0x80u8 | (dest & 0x3F)) as u8;
    let s = (src & 0x3F) as u8;
    let body = frame_body(dest, src, payload);
    let c = xor_all(body);
    let w = frame_bytes(dest, src, payload);
    assert(w =~= seq![h, s, (payload.len() as u8)] + payload + seq![c]);
    assert(w.drop_last() =~= body);
    assert(marker_ok(h)) by (bit_vector)
        requires
            h == (0x80u8 | (dest & 0x3F)) as u8,
    ;
    lemma_parse_frame(h, s, payload, c);
    assert((h & 0x3F) == dest && (s & 0x3F) == src) by (bit_vector)
        requires
            h == (0x80u8 | (dest & 0x3F)) as u8,
            s == (src & 0x3F) as u8,
            dest <= 63,
            src <= 63,
    ;
}

/// No proper prefix of a valid packet's frame completes: only the frame's
/// last byte, the checksum, decides it.
pub proof fn lemma_frame_prefix_pending(dest: u8, src: u8, payload: Seq<u8>, k: int)
    requires
        dest <= 63,
        src <= 63,
        payload.len() <= 255,
        0 <= k < frame_bytes(dest, src, payload).len(),
    ensures
        ds_run(ds_init(), frame_bytes(dest, src, payload).take(k)).outcome is Pending,
        ds_run(ds_init(), frame_bytes(dest, src, payload).take(k)).consumed == k,
{
    let w = frame_bytes(dest, src, payload);
    lemma_round_trip(dest, src, payload);
    lemma_ds_run_consumed(ds_init(), w.take(k));
    if !(ds_run(ds_init(), w.take(k)).outcome is Pending) {
        lemma_ds_run_stop(ds_init(), w, k);
        assert(ds_run(ds_init(), w).consumed <= k);
        assert(false);
    }
}

/// Chunking invariance for one frame: a valid frame split at any point
/// yields, across the two reads, a pending first part that is wholly
/// consumed, then the packet itself, with the consumed counts summing to
/// the frame's length. Splitting into more parts repeats this lemma and
/// [`lemma_ds_run_append`] on each further cut.
pub proof fn lemma_chunked_round_trip(dest: u8, src: u8, payload: Seq<u8>, k: int)
    requires
        dest <= 63,
        src <= 63,
        payload.len() <= 255,
        0 <= k < frame_bytes(dest, src, payload).len(),
    ensures
        ({
            let w = frame_bytes(dest, src, payload);
            let r1 = ds_run(ds_init(), w.take(k));
            let r2 = ds_run(r1.state, w.skip(k));
            &&& r1.outcome is Pending
            &&& r1.consumed == k
            &&& r2.consumed == w.len() - k
            &&& r2.outcome == (ParseOutcome::Accepted { dest, src, data: payload })
            &&& r2.state == ds_init()
        }),
{
    let w = frame_bytes(dest, src, payload);
    lemma_frame_prefix_pending(dest, src, payload, k);
    lemma_ds_run_append(ds_init(), w.take(k), w.skip(k));
    assert(w.take(k) + w.skip(k) =~= w);
    lemma_round_trip(dest, src, payload);
}

/// Resynchronization: bytes that never carry the start marker are consumed
/// and discarded from the initial state; whatever follows them parses
/// exactly as it would on its own.
pub proof fn lemma_resync(noise: Seq<u8>, rest: Seq<u8>)
    requires
        forall|i: int| 0 <= i < noise.len() ==> !marker_ok(noise[i]),
    ensures
        ds_run(ds_init(), noise + rest) == (RunResult {
            state: ds_run(ds_init(), rest).state,
            consumed: (noise.len() + ds_run(ds_init(), rest).consumed) as nat,
            outcome: ds_run(ds_init(), rest).outcome,
        }),
    decreases noise.len(),
{
    if noise.len() == 0 {
        assert(noise + rest =~= rest);
        assert(ds_run(ds_init(), noise + rest) =~= ds_run(ds_init(), rest));
    } else {
        assert((noise + rest)[0] == noise[0]);
        assert(!marker_ok(noise[0]));
        assert(ds_step(ds_init(), noise[0]) == ds_init());
        assert((noise + rest).drop_first() =~= noise.drop_first() + rest);
        lemma_resync(noise.drop_first(), rest);
    }
}

/// Noise that never carries the start marker, put before a valid packet's
/// frame, delays the decode but does not change it: the noise and the
/// frame are consumed and the packet's fields come out intact.
pub proof fn lemma_resync_round_trip(noise: Seq<u8>, dest: u8, src: u8, payload: Seq<u8>)
    requires
        forall|i: int| 0 <= i < noise.len() ==> !marker_ok(noise[i]),
        dest <= 63,
        src <= 63,
        payload.len() <= 255,
    ensures
        ds_run(ds_init(), noise + frame_bytes(dest, src, payload)) == (RunResult {
            state: ds_init(),
            consumed: (noise.len() + frame_bytes(dest, src, payload).len()) as nat,
            outcome: ParseOutcome::Accepted { dest, src, data: payload },
        }),
{
    lemma_round_trip(dest, src, payload);
    lemma_resync(noise, frame_bytes(dest, src, payload));
}

/// Checksum sensitivity: flipping one bit of a frame anywhere before the
/// checksum byte makes the deserializer reject the frame, as long as the
/// flip neither destroys the start marker in the first byte nor touches
/// the length byte.
pub proof fn lemma_checksum_sensitivity(dest: u8, src: u8, payload: Seq<u8>, i: int, k: u8)
    requires
        dest <= 63,
        src <= 63,
        payload.len() <= 255,
        0 <= i < frame_bytes(dest, src, payload).len() - 1,
        k < 8,
        i == 0 ==> k <= 5,
        i != 2,
    ensures
        ({
            let w = frame_bytes(dest, src, payload);
            let w2 = w.update(i, (w[i] ^ (1u8 << k)) as u8);
            ds_run(ds_init(), w2) == (RunResult {
                state: ds_init(),
                consumed: w2.len() as nat,
                outcome: ParseOutcome::Rejected,
            })
        }),
{
    let h = (0x80u8 | (dest & 0x3F)) as u8;
    let s = (src & 0x3F) as u8;
    let body = frame_body(dest, src, payload);
    let c = xor_all(body);
    let w = frame_bytes(dest, src, payload);
    let flip = (1u8 << k) as u8;
    let w2 = w.update(i, (w[i] ^ flip) as u8);
    assert(w =~= seq![h, s, (payload.len() as u8)] + payload + seq![c]);
    assert(w.drop_last() =~= body);
    let h2 = if i == 0 {
        (h ^ flip) as u8
    } else {
        h
    };
    let s2 = if i == 1 {
        (s ^ flip) as u8
    } else {
        s
    };
    let payload2 = if i >= 3 {
        payload.update(i - 3, (payload[i - 3] ^ flip) as u8)
    } else {
        payload
    };
    assert(payload2.len() == payload.len());
    assert(w2 =~= seq![h2, s2, (payload2.len() as u8)] + payload2 + seq![c]);
    if i == 0 {
        assert(marker_ok(h2)) by (bit_vector)
            requires
                h2 == ((0x80u8 | (dest & 0x3F)) ^ (1u8 << k)) as u8,
                k <= 5,
        ;
    } else {
        assert(marker_ok(h2)) by (bit_vector)
            requires
                h2 == (0x80u8 | (dest & 0x3F)) as u8,
        ;
    }
    lemma_parse_frame(h2, s2, payload2, c);
    assert(w2.drop_last() =~= w.drop_last().update(i, (w[i] ^ flip) as u8));
    lemma_xor_all_update(w.drop_last(), i, (w[i] ^ flip) as u8);
    let a = w[i];
    assert(c != ((c ^ a) ^ (a ^ flip))) by (bit_vector)
        requires
            flip == (1u8 << k) as u8,
            k < 8,
    ;
    assert(xor_all(w2.drop_last()) != c);
}

} // verus!
