use qwasm2::net_msg::NetMsg;
use qwasm2::netchan::{NetChan, HEADER_LEN, MAX_MSGLEN, SEQUENCE_RELIABLE_BIT};

fn send(a: &mut NetChan, b: &mut NetChan, data: &[u8]) -> Option<Vec<u8>> {
    let packet = a.transmit(data);
    b.process(&packet)
}

#[test]
fn basic_transmit_receive() {
    let mut a = NetChan::new(27500);
    let mut b = NetChan::new(27501);
    let payload = b"hello world";
    let received = send(&mut a, &mut b, payload);
    assert!(received.is_some(), "B should accept the packet");
    assert_eq!(received.unwrap(), payload);
}

#[test]
fn sequence_numbers_increment() {
    let mut a = NetChan::new(100);
    let mut b = NetChan::new(200);
    assert_eq!(a.outgoing_sequence, 1);
    send(&mut a, &mut b, b"msg1");
    assert_eq!(a.outgoing_sequence, 2);
    send(&mut a, &mut b, b"msg2");
    assert_eq!(a.outgoing_sequence, 3);
    send(&mut a, &mut b, b"msg3");
    assert_eq!(a.outgoing_sequence, 4);
}

#[test]
fn reliable_delivery() {
    let mut a = NetChan::new(100);
    let mut b = NetChan::new(200);
    let reliable_data = b"important";
    a.queue_reliable(reliable_data);
    let packet_a_to_b = a.transmit(b"unreliable");
    let received = b.process(&packet_a_to_b);
    assert!(received.is_some());
    let payload = received.unwrap();
    assert!(payload.starts_with(reliable_data));
    assert!(payload.ends_with(b"unreliable"));
    assert!(a.reliable_pending);
    let packet_b_to_a = b.transmit(b"");
    a.process(&packet_b_to_a);
    assert!(!a.reliable_pending);
    assert!(a.reliable_buf.is_empty());
    assert!(a.can_reliable());
}

#[test]
fn reliable_retransmit() {
    let mut a = NetChan::new(100);
    let mut b = NetChan::new(200);
    let pkt = a.transmit(b"setup");
    b.process(&pkt);
    let ack_pkt = b.transmit(b"");
    a.process(&ack_pkt);

    a.queue_reliable(b"critical");
    let dropped = a.transmit(b"");
    {
        let mut peek = NetMsg::from_bytes(&dropped);
        peek.begin_reading();
        let w1 = peek.read_long() as u32;
        assert!((w1 & SEQUENCE_RELIABLE_BIT) != 0, "first send should carry reliable flag");
    }

    let plain1 = a.transmit(b"ping1");
    b.process(&plain1);
    let ack1 = b.transmit(b"");
    a.process(&ack1);

    let plain2 = a.transmit(b"ping2");
    b.process(&plain2);
    let ack2 = b.transmit(b"");
    a.process(&ack2);

    assert!(
        a.incoming_acknowledged > a.last_reliable_sequence,
        "ack should have advanced past last reliable: ack={} last_rel={}",
        a.incoming_acknowledged,
        a.last_reliable_sequence,
    );
    assert_ne!(
        a.incoming_reliable_acknowledged, a.reliable_sequence,
        "reliable ack should not match (B never got the reliable)"
    );

    let retransmit_pkt = a.transmit(b"");
    {
        let mut peek = NetMsg::from_bytes(&retransmit_pkt);
        peek.begin_reading();
        let w1 = peek.read_long() as u32;
        assert!((w1 & SEQUENCE_RELIABLE_BIT) != 0, "retransmit should carry reliable flag again");
    }

    let received = b.process(&retransmit_pkt);
    assert!(received.is_some());
    assert_eq!(received.unwrap(), b"critical");
}

#[test]
fn out_of_order_rejected() {
    let mut a = NetChan::new(100);
    let mut b = NetChan::new(200);
    let pkt1 = a.transmit(b"first");
    let pkt2 = a.transmit(b"second");
    let r2 = b.process(&pkt2);
    assert!(r2.is_some());
    let r1 = b.process(&pkt1);
    assert!(r1.is_none(), "out-of-order packet should be rejected");
}

#[test]
fn duplicate_rejected() {
    let mut a = NetChan::new(100);
    let mut b = NetChan::new(200);
    let pkt = a.transmit(b"data");
    let r1 = b.process(&pkt);
    assert!(r1.is_some());
    let r2 = b.process(&pkt);
    assert!(r2.is_none(), "duplicate packet should be rejected");
}

#[test]
fn dropped_count_tracked() {
    let mut a = NetChan::new(100);
    let mut b = NetChan::new(200);
    let _pkt1 = a.transmit(b"one");
    let _pkt2 = a.transmit(b"two");
    let pkt3 = a.transmit(b"three");
    b.process(&pkt3);
    assert_eq!(b.dropped, 2, "should count 2 dropped packets");
}

#[test]
fn qport_in_header() {
    let mut a = NetChan::new(12345);
    let pkt = a.transmit(b"test");
    let mut msg = NetMsg::from_bytes(&pkt);
    msg.begin_reading();
    let _w1 = msg.read_long();
    let _w2 = msg.read_long();
    let qp = msg.read_short() as u16;
    assert_eq!(qp, 12345);
}

#[test]
fn can_reliable_initially() {
    let chan = NetChan::new(100);
    assert!(chan.can_reliable());
}

#[test]
fn can_reliable_false_after_queue() {
    let mut chan = NetChan::new(100);
    chan.queue_reliable(b"stuff");
    assert!(chan.can_reliable(), "can still add more to staging buffer");
}

#[test]
fn first_packet_header_bytes() {
    let mut a = NetChan::new(0x0102);
    let pkt = a.transmit(b"x");
    assert_eq!(pkt, vec![1u8, 0, 0, 0, 0, 0, 0, 0, 0x02, 0x01, b'x']);
}

#[test]
fn unreliable_dropped_when_no_room() {
    let mut a = NetChan::new(1);
    let big = vec![7u8; 1391];
    let pkt = a.transmit(&big);
    assert_eq!(pkt.len(), 10);
    let fits = vec![7u8; 1390];
    let pkt2 = a.transmit(&fits);
    assert_eq!(pkt2.len(), 1400);
}

#[test]
fn oversized_reliable_leaves_out_unreliable_data() {
    let mut a = NetChan::new(1);
    a.queue_reliable(&vec![7u8; MAX_MSGLEN]);
    let packet = a.transmit(&[1, 2, 3]);
    assert_eq!(packet.len(), HEADER_LEN + MAX_MSGLEN);
    assert_eq!(packet[packet.len() - 1], 7);
}
