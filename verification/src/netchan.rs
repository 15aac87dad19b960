//! Network channel: sequenced packets, acknowledgements and reliable
//! delivery with retransmission.
//!
//! Packet header: a 32-bit word with the outgoing sequence in its low 31 bits
//! and "carries reliable data" in bit 31; a 32-bit word with the last received
//! sequence and, in bit 31, the reliable bit last received; a 16-bit qport.

use vstd::prelude::*;
use crate::net_msg::{
    advanced, at_cursor, cursor_in_data, empty_view, law_long_roundtrip, law_short_roundtrip,
    lemma_at_cursor_split, long_bytes, long_read, short_bytes, short_read, MsgView, NetMsg,
};

verus! {

/// Maximum length of one packet.
pub const MAX_MSGLEN: usize = 1400;

/// Bit 31 of a sequence word: the reliable flag.
pub const SEQUENCE_RELIABLE_BIT: u32 = 0x8000_0000;

/// Length of the packet header in bytes.
pub const HEADER_LEN: usize = 10;

/// One side of a connection.
pub struct NetChan {
    /// Set on unrecoverable errors.
    pub fatal_error: bool,
    /// Next outgoing sequence number (starts at 1).
    pub outgoing_sequence: u32,
    /// Last sequence number received from the remote side.
    pub incoming_sequence: u32,
    /// Last outgoing sequence the remote side acknowledged.
    pub incoming_acknowledged: u32,
    /// Toggles between 0 and 1 each time a new reliable message is sent.
    pub reliable_sequence: u32,
    /// The outgoing sequence at the time the last reliable was sent.
    pub last_reliable_sequence: u32,
    /// Reliable data awaiting acknowledgement.
    pub reliable_buf: NetMsg,
    /// Reliable data is sent and not yet acknowledged.
    pub reliable_pending: bool,
    /// A reliable message has been sent.
    pub last_sent_reliable: bool,
    /// Toggles each time a reliable message is received.
    pub incoming_reliable_sequence: u32,
    /// The reliable bit the remote side acknowledged last.
    pub incoming_reliable_acknowledged: u32,
    /// Reliable data queued for the next free reliable slot.
    pub message_buf: NetMsg,
    /// Packets lost between the last two received packets.
    pub dropped: u32,
    /// Port written into each header to tell clients behind one address apart.
    pub qport: u16,
}

/// The first header word: the sequence in the low 31 bits, the reliable flag in bit 31.
pub open spec fn seq_word(sequence: u32, reliable: bool) -> u32 {
    (sequence & 0x7FFF_FFFF) | if reliable { 0x8000_0000u32 } else { 0u32 }
}

/// The second header word: the acknowledged sequence and the reliable bit received.
pub open spec fn ack_word(sequence: u32, reliable_bit: u32) -> u32 {
    (sequence & 0x7FFF_FFFF) | (reliable_bit << 31u32)
}

/// The ten header bytes.
pub open spec fn header_bytes(w1: u32, w2: u32, qport: u16) -> Seq<u8> {
    long_bytes(w1 as i32) + long_bytes(w2 as i32) + short_bytes(qport as i32)
}

/// The fields a packet is read as: both header words and the payload after
/// the header. A packet too short for a field reads it as -1.
pub open spec fn packet_fields(packet: Seq<u8>) -> (u32, u32, Seq<u8>) {
    let v0 = MsgView { data: packet, read_pos: 0, overflowed: false };
    let (w1, v1) = long_read(v0);
    let (w2, v2) = long_read(v1);
    let (q, v3) = short_read(v2);
    (w1 as u32, w2 as u32, packet.skip(v3.read_pos as int))
}

impl NetChan {
    /// The channel's buffers keep their cursors within their data.
    pub open spec fn wf(&self) -> bool {
        &&& cursor_in_data(self.reliable_buf@)
        &&& cursor_in_data(self.message_buf@)
    }

    /// Reliable data queued and not yet moved into the reliable buffer.
    pub open spec fn staged(&self) -> Seq<u8> {
        self.message_buf@.data
    }

    /// The staged data moves into the reliable buffer on the next transmit.
    pub open spec fn promotes(&self) -> bool {
        self.reliable_buf@.data.len() == 0 && self.staged().len() > 0
    }

    /// The next transmit carries reliable data: the remote side missed the
    /// last reliable, or new staged data can go out.
    pub open spec fn needs_reliable(&self) -> bool {
        ||| (self.incoming_acknowledged > self.last_reliable_sequence
            && self.incoming_reliable_acknowledged != self.reliable_sequence)
        ||| self.promotes()
    }

    /// The reliable data the next transmit carries, if it carries any.
    pub open spec fn reliable_payload(&self) -> Seq<u8> {
        if self.promotes() {
            self.staged()
        } else {
            self.reliable_buf@.data
        }
    }

    /// The packet the next transmit builds for the unreliable `data`.
    pub open spec fn packet_for(&self, data: Seq<u8>) -> Seq<u8> {
        let head = header_bytes(
            seq_word(self.outgoing_sequence, self.needs_reliable()),
            ack_word(self.incoming_sequence, self.incoming_reliable_sequence),
            self.qport,
        );
        let with_rel = if self.needs_reliable() {
            head + self.reliable_payload()
        } else {
            head
        };
        if MAX_MSGLEN - with_rel.len() >= data.len() {
            with_rel + data
        } else {
            with_rel
        }
    }

    /// Set up a channel: outgoing sequence 1, everything else empty.
    pub fn new(qport: u16) -> (r: Self)
        ensures
            r.wf(),
            r.fatal_error == false,
            r.outgoing_sequence == 1,
            r.incoming_sequence == 0,
            r.incoming_acknowledged == 0,
            r.reliable_sequence == 0,
            r.last_reliable_sequence == 0,
            r.reliable_buf@ == empty_view(),
            r.reliable_pending == false,
            r.last_sent_reliable == false,
            r.incoming_reliable_sequence == 0,
            r.incoming_reliable_acknowledged == 0,
            r.staged() == Seq::<u8>::empty(),
            r.dropped == 0,
            r.qport == qport,
    {
        NetChan {
            fatal_error: false,
            outgoing_sequence: 1,
            incoming_sequence: 0,
            incoming_acknowledged: 0,
            reliable_sequence: 0,
            last_reliable_sequence: 0,
            reliable_buf: NetMsg::new(),
            reliable_pending: false,
            last_sent_reliable: false,
            incoming_reliable_sequence: 0,
            incoming_reliable_acknowledged: 0,
            message_buf: NetMsg::new(),
            dropped: 0,
            qport,
        }
    }

    /// A new reliable message can go out: none is pending and the reliable
    /// buffer is empty.
    pub fn can_reliable(&self) -> (r: bool)
        ensures
            r == (!self.reliable_pending && self.reliable_buf@.data.len() == 0),
    {
        !self.reliable_pending && self.reliable_buf.is_empty()
    }

    /// Queue reliable data; it goes out once the reliable slot is free.
    pub fn queue_reliable(&mut self, data: &[u8])
        requires
            old(self).wf(),
        ensures
            final(self).wf(),
            final(self).staged() == old(self).staged() + data@,
            final(self).reliable_buf == old(self).reliable_buf,
            final(self).outgoing_sequence == old(self).outgoing_sequence,
            final(self).incoming_sequence == old(self).incoming_sequence,
            final(self).incoming_acknowledged == old(self).incoming_acknowledged,
            final(self).reliable_sequence == old(self).reliable_sequence,
            final(self).last_reliable_sequence == old(self).last_reliable_sequence,
            final(self).reliable_pending == old(self).reliable_pending,
            final(self).last_sent_reliable == old(self).last_sent_reliable,
            final(self).incoming_reliable_sequence == old(self).incoming_reliable_sequence,
            final(self).incoming_reliable_acknowledged == old(
                self,
            ).incoming_reliable_acknowledged,
            final(self).dropped == old(self).dropped,
            final(self).qport == old(self).qport,
            final(self).fatal_error == old(self).fatal_error,
    {
        self.message_buf.write_data(data);
    }

    /// Whether the next transmit carries reliable data.
    fn need_reliable(&self) -> (r: bool)
        ensures
            r == self.needs_reliable(),
    {
        if self.incoming_acknowledged > self.last_reliable_sequence
            && self.incoming_reliable_acknowledged != self.reliable_sequence {
            return true;
        }
        if self.reliable_buf.is_empty() && !self.message_buf.is_empty() {
            return true;
        }
        false
    }
}

impl NetChan {
    /// Build the next packet: the header, the reliable data if it must go
    /// out (promoting staged data into the free reliable slot first), and the
    /// unreliable `data` if it still fits within `MAX_MSGLEN`.
    pub fn transmit(&mut self, data: &[u8]) -> (r: Vec<u8>)
        requires
            old(self).wf(),
            old(self).outgoing_sequence < u32::MAX,
        ensures
            final(self).wf(),
            r@ == old(self).packet_for(data@),
            final(self).outgoing_sequence == old(self).outgoing_sequence + 1,
            final(self).reliable_buf@.data == old(self).reliable_payload(),
            old(self).promotes() ==> {
                &&& final(self).staged() == Seq::<u8>::empty()
                &&& final(self).reliable_sequence == old(self).reliable_sequence ^ 1
                &&& final(self).reliable_pending
            },
            !old(self).promotes() ==> {
                &&& final(self).staged() == old(self).staged()
                &&& final(self).reliable_sequence == old(self).reliable_sequence
                &&& final(self).reliable_pending == old(self).reliable_pending
            },
            old(self).needs_reliable() ==> {
                &&& final(self).last_reliable_sequence == old(self).outgoing_sequence + 1
                &&& final(self).last_sent_reliable
            },
            !old(self).needs_reliable() ==> {
                &&& final(self).last_reliable_sequence == old(self).last_reliable_sequence
                &&& final(self).last_sent_reliable == old(self).last_sent_reliable
            },
            final(self).incoming_sequence == old(self).incoming_sequence,
            final(self).incoming_acknowledged == old(self).incoming_acknowledged,
            final(self).incoming_reliable_sequence == old(self).incoming_reliable_sequence,
            final(self).incoming_reliable_acknowledged == old(
                self,
            ).incoming_reliable_acknowledged,
            final(self).dropped == old(self).dropped,
            final(self).qport == old(self).qport,
            final(self).fatal_error == old(self).fatal_error,
    {
        let send_reliable = self.need_reliable();
        if self.reliable_buf.is_empty() && !self.message_buf.is_empty() {
            std::mem::swap(&mut self.reliable_buf, &mut self.message_buf);
            self.message_buf.clear();
            self.reliable_sequence = self.reliable_sequence ^ 1;
            self.reliable_pending = true;
        }
        let mut send = NetMsg::with_capacity(MAX_MSGLEN);
        let w1: u32 = (self.outgoing_sequence & !SEQUENCE_RELIABLE_BIT) | if send_reliable {
            SEQUENCE_RELIABLE_BIT
        } else {
            0
        };
        let w2: u32 = (self.incoming_sequence & !SEQUENCE_RELIABLE_BIT) | (
        self.incoming_reliable_sequence << 31u32);
        assert(!SEQUENCE_RELIABLE_BIT == 0x7FFF_FFFFu32) by (bit_vector);
        self.outgoing_sequence = self.outgoing_sequence + 1;
        send.write_long(w1 as i32);
        send.write_long(w2 as i32);
        send.write_short(self.qport as i32);
        if send_reliable {
            send.write_data(self.reliable_buf.data());
            self.last_reliable_sequence = self.outgoing_sequence;
            self.last_sent_reliable = true;
        }
        if send.len() <= MAX_MSGLEN && MAX_MSGLEN - send.len() >= data.len() {
            send.write_data(data);
        }
        let mut out: Vec<u8> = Vec::new();
        crate::net_msg::append_bytes(&mut out, send.data());
        proof {
            let ghost o = old(self);
            assert(out@ =~= o.packet_for(data@));
        }
        out
    }

    /// Accept an incoming packet and return its payload, or `None` for a
    /// stale or duplicate packet (sequence not newer than the last one),
    /// which leaves the channel unchanged.
    pub fn process(&mut self, packet: &[u8]) -> (r: Option<Vec<u8>>)
        requires
            old(self).wf(),
        ensures
            final(self).wf(),
            ({
                let (w1, w2, payload) = packet_fields(packet@);
                let sequence = w1 & 0x7FFF_FFFF;
                let ack_bit = w2 >> 31u32;
                if sequence <= old(self).incoming_sequence {
                    &&& r is None
                    &&& *final(self) == *old(self)
                } else {
                    &&& r matches Some(p) && p@ == payload
                    &&& final(self).dropped == sequence - (old(self).incoming_sequence + 1)
                    &&& final(self).incoming_sequence == sequence
                    &&& final(self).incoming_acknowledged == w2 & 0x7FFF_FFFF
                    &&& final(self).incoming_reliable_acknowledged == ack_bit
                    &&& final(self).incoming_reliable_sequence == if w1 & 0x8000_0000 != 0 {
                        old(self).incoming_reliable_sequence ^ 1
                    } else {
                        old(self).incoming_reliable_sequence
                    }
                    &&& ack_bit == old(self).reliable_sequence ==> {
                        &&& final(self).reliable_buf@ == empty_view()
                        &&& !final(self).reliable_pending
                    }
                    &&& ack_bit != old(self).reliable_sequence ==> {
                        &&& final(self).reliable_buf == old(self).reliable_buf
                        &&& final(self).reliable_pending == old(self).reliable_pending
                    }
                    &&& final(self).message_buf == old(self).message_buf
                    &&& final(self).outgoing_sequence == old(self).outgoing_sequence
                    &&& final(self).reliable_sequence == old(self).reliable_sequence
                    &&& final(self).last_reliable_sequence == old(self).last_reliable_sequence
                    &&& final(self).last_sent_reliable == old(self).last_sent_reliable
                    &&& final(self).qport == old(self).qport
                    &&& final(self).fatal_error == old(self).fatal_error
                }
            }),
    {
        let mut msg = NetMsg::from_bytes(packet);
        msg.begin_reading();
        let raw_sequence = msg.read_long() as u32;
        let raw_sequence_ack = msg.read_long() as u32;
        let _qport = msg.read_short();
        let reliable_message = (raw_sequence & SEQUENCE_RELIABLE_BIT) != 0;
        let reliable_ack = raw_sequence_ack >> 31u32;
        assert(!SEQUENCE_RELIABLE_BIT == 0x7FFF_FFFFu32) by (bit_vector);
        let sequence = raw_sequence & !SEQUENCE_RELIABLE_BIT;
        let sequence_ack = raw_sequence_ack & !SEQUENCE_RELIABLE_BIT;
        if sequence <= self.incoming_sequence {
            return None;
        }
        self.dropped = sequence - (self.incoming_sequence + 1);
        if reliable_ack == self.reliable_sequence {
            self.reliable_buf.clear();
            self.reliable_pending = false;
        }
        self.incoming_sequence = sequence;
        self.incoming_acknowledged = sequence_ack;
        self.incoming_reliable_acknowledged = reliable_ack;
        if reliable_message {
            self.incoming_reliable_sequence = self.incoming_reliable_sequence ^ 1;
        }
        let mut payload: Vec<u8> = Vec::new();
        crate::net_msg::append_bytes(&mut payload, msg.remaining_data());
        assert(payload@ =~= packet_fields(packet@).2);
        Some(payload)
    }
}

} // verus!

verus! {

/// A packet is read back as the header words it was built with and the
/// bytes that follow the header.
pub proof fn law_header_roundtrip(w1: u32, w2: u32, qport: u16, body: Seq<u8>)
    ensures
        packet_fields(header_bytes(w1, w2, qport) + body) == (w1, w2, body),
{
    let l1 = long_bytes(w1 as i32);
    let l2 = long_bytes(w2 as i32);
    let q = short_bytes(qport as i32);
    let packet = header_bytes(w1, w2, qport) + body;
    let v0 = MsgView { data: packet, read_pos: 0, overflowed: false };
    assert(packet.subrange(0, packet.len() as int) =~= ((l1 + l2) + q) + body);
    assert(at_cursor(v0, ((l1 + l2) + q) + body));
    lemma_at_cursor_split(v0, (l1 + l2) + q, body);
    lemma_at_cursor_split(v0, l1 + l2, q);
    lemma_at_cursor_split(v0, l1, l2);
    law_long_roundtrip(v0, w1 as i32);
    law_long_roundtrip(advanced(v0, 4), w2 as i32);
    law_short_roundtrip(advanced(v0, 8), qport as i32);
    assert((w1 as i32) as u32 == w1) by (bit_vector);
    assert((w2 as i32) as u32 == w2) by (bit_vector);
    assert(packet.skip(10) =~= body);
}

/// The header words give back the sequence (below 2^31), the reliable flag
/// and the reliable bit (0 or 1) they were built from.
pub proof fn law_header_words(sequence: u32, reliable: bool, ack: u32, bit: u32)
    requires
        sequence < 0x8000_0000,
        ack < 0x8000_0000,
        bit <= 1,
    ensures
        seq_word(sequence, reliable) & 0x7FFF_FFFF == sequence,
        (seq_word(sequence, reliable) & 0x8000_0000 != 0) == reliable,
        ack_word(ack, bit) & 0x7FFF_FFFF == ack,
        ack_word(ack, bit) >> 31u32 == bit,
{
    let r: u32 = if reliable { 0x8000_0000u32 } else { 0u32 };
    assert((((sequence & 0x7FFF_FFFF) | r) & 0x7FFF_FFFF) == sequence) by (bit_vector)
        requires
            sequence < 0x8000_0000,
            r == 0 || r == 0x8000_0000,
    ;
    assert(((((sequence & 0x7FFF_FFFF) | r) & 0x8000_0000) != 0) == (r != 0)) by (bit_vector)
        requires
            r == 0 || r == 0x8000_0000,
    ;
    assert((((ack & 0x7FFF_FFFF) | (bit << 31u32)) & 0x7FFF_FFFF) == ack) by (bit_vector)
        requires
            ack < 0x8000_0000,
            bit <= 1,
    ;
    assert((((ack & 0x7FFF_FFFF) | (bit << 31u32)) >> 31u32) == bit) by (bit_vector)
        requires
            ack < 0x8000_0000,
            bit <= 1,
    ;
}

/// What one side transmits, the other side reads as: the sender's outgoing
/// sequence, whether reliable data rides along, the sender's acknowledgement
/// of what it received, and as payload the reliable data (if sent) followed
/// by the unreliable data (if it fit).
pub proof fn law_transmit_then_process(a: NetChan, data: Seq<u8>)
    requires
        a.outgoing_sequence < 0x8000_0000,
        a.incoming_sequence < 0x8000_0000,
        a.incoming_reliable_sequence <= 1,
    ensures
        ({
            let (w1, w2, payload) = packet_fields(a.packet_for(data));
            let rel = if a.needs_reliable() {
                a.reliable_payload()
            } else {
                Seq::<u8>::empty()
            };
            let fits = MAX_MSGLEN - (HEADER_LEN + rel.len()) >= data.len();
            &&& w1 & 0x7FFF_FFFF == a.outgoing_sequence
            &&& (w1 & 0x8000_0000 != 0) == a.needs_reliable()
            &&& w2 & 0x7FFF_FFFF == a.incoming_sequence
            &&& w2 >> 31u32 == a.incoming_reliable_sequence
            &&& payload == if fits {
                rel + data
            } else {
                rel
            }
        }),
{
    let w1 = seq_word(a.outgoing_sequence, a.needs_reliable());
    let w2 = ack_word(a.incoming_sequence, a.incoming_reliable_sequence);
    let head = header_bytes(w1, w2, a.qport);
    let rel = if a.needs_reliable() {
        a.reliable_payload()
    } else {
        Seq::<u8>::empty()
    };
    let fits = MAX_MSGLEN - (HEADER_LEN + rel.len()) >= data.len();
    let body = if fits {
        rel + data
    } else {
        rel
    };
    assert(head.len() == 10);
    assert(a.packet_for(data) =~= head + body);
    law_header_roundtrip(w1, w2, a.qport, body);
    law_header_words(a.outgoing_sequence, a.needs_reliable(), a.incoming_sequence, a.incoming_reliable_sequence);
}

} // verus!
