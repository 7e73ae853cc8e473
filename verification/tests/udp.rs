use std::io::{Error, ErrorKind};
use udp_hopper::{
    cvt_recv_res, cvt_send_res, lost_writability, BufferedSocket, Endpoint, FlushStep, Packet,
    SendAction, SendOutcome, RING_BUF_SIZE, UDP_BUF_SIZE,
};

fn packet(tag: u8) -> Packet {
    let mut data = [0u8; UDP_BUF_SIZE];
    data[0] = tag;
    Packet::new(data, 1, Endpoint::V4 { ip: 0x7f000001, port: 9000 + tag as u16 })
}

fn would_block() -> std::io::Result<usize> {
    Err(Error::from(ErrorKind::WouldBlock))
}

fn refused() -> std::io::Result<usize> {
    Err(Error::from(ErrorKind::ConnectionRefused))
}

#[test]
fn new_socket_is_writable_and_empty() {
    let s = BufferedSocket::new();
    assert!(s.writable());
    assert_eq!(s.pending(), 0);
    assert!(s.try_send().is_none());
}

#[test]
fn writable_socket_transmits_at_once() {
    let mut s = BufferedSocket::new();
    match s.send_one(packet(1)) {
        SendAction::Transmit(p) => {
            assert_eq!(p.data[0], 1);
            assert_eq!(s.complete_send_one(p, Ok(1)).unwrap(), SendOutcome::Sent);
        }
        _ => panic!("expected a transmit"),
    }
    assert!(s.writable());
    assert_eq!(s.pending(), 0);
}

#[test]
fn would_block_queues_the_packet_and_clears_writable() {
    let mut s = BufferedSocket::new();
    let p = match s.send_one(packet(2)) {
        SendAction::Transmit(p) => p,
        _ => panic!("expected a transmit"),
    };
    assert_eq!(s.complete_send_one(p, would_block()).unwrap(), SendOutcome::Queued);
    assert!(!s.writable());
    assert_eq!(s.pending(), 1);
    // While not writable, nothing is handed out.
    assert!(s.try_send().is_none());
    assert!(matches!(s.send_one(packet(3)), SendAction::Queued));
    assert_eq!(s.pending(), 2);
}

#[test]
fn other_send_error_is_passed_on_and_packet_lost() {
    let mut s = BufferedSocket::new();
    let r = s.complete_send_one(packet(4), refused());
    assert_eq!(r.unwrap_err().kind(), ErrorKind::ConnectionRefused);
    assert!(s.writable());
    assert_eq!(s.pending(), 0);
}

#[test]
fn full_buffer_drops_new_packets() {
    let mut s = BufferedSocket::new();
    let _ = s.complete_send_one(packet(0), would_block());
    for i in 1..RING_BUF_SIZE {
        assert!(matches!(s.send_one(packet(i as u8)), SendAction::Queued));
    }
    assert_eq!(s.pending(), RING_BUF_SIZE);
    assert!(matches!(s.send_one(packet(200)), SendAction::Dropped));
    assert_eq!(s.pending(), RING_BUF_SIZE);
    // A would-block with a full buffer drops the packet too, and says so.
    s.set_writable();
    assert_eq!(s.complete_send_one(packet(201), would_block()).unwrap(), SendOutcome::Dropped);
    assert_eq!(s.pending(), RING_BUF_SIZE);
    // The oldest is still first.
    s.set_writable();
    assert_eq!(s.try_send().unwrap().data[0], 0);
}

#[test]
fn flush_sends_in_order() {
    let mut s = BufferedSocket::new();
    let _ = s.complete_send_one(packet(10), would_block());
    let _ = s.send_one(packet(11));
    let _ = s.send_one(packet(12));
    s.set_writable();
    assert!(s.writable());
    let mut order = Vec::new();
    loop {
        let tag = match s.try_send() {
            Some(p) => p.data[0],
            None => break,
        };
        order.push(tag);
        match s.complete_try_send(Ok(1)) {
            FlushStep::Continue => {}
            FlushStep::Done(r) => {
                assert!(r.is_ok());
                break;
            }
        }
    }
    assert_eq!(order, vec![10, 11, 12]);
    assert_eq!(s.pending(), 0);
}

#[test]
fn flush_stops_on_would_block_keeping_the_packet() {
    let mut s = BufferedSocket::new();
    let _ = s.complete_send_one(packet(20), would_block());
    let _ = s.send_one(packet(21));
    s.set_writable();
    assert!(matches!(s.complete_try_send(Ok(1)), FlushStep::Continue));
    match s.complete_try_send(would_block()) {
        FlushStep::Done(r) => assert!(r.is_ok()),
        FlushStep::Continue => panic!("expected the flush to end"),
    }
    assert!(!s.writable());
    assert_eq!(s.pending(), 1);
}

#[test]
fn flush_passes_other_errors_on() {
    let mut s = BufferedSocket::new();
    let _ = s.complete_send_one(packet(30), would_block());
    s.set_writable();
    match s.complete_try_send(refused()) {
        FlushStep::Done(r) => assert_eq!(r.unwrap_err().kind(), ErrorKind::ConnectionRefused),
        FlushStep::Continue => panic!("expected the flush to end"),
    }
    assert!(s.writable());
    assert_eq!(s.pending(), 1);
    assert_eq!(s.try_send().unwrap().data[0], 30);
}

#[test]
fn lost_writability_only_on_falling_edge() {
    assert!(lost_writability(true, false));
    assert!(!lost_writability(true, true));
    assert!(!lost_writability(false, false));
    assert!(!lost_writability(false, true));
}

#[test]
fn send_result_conversion() {
    assert!(cvt_send_res(Ok(5)).is_ok());
    assert!(cvt_send_res(would_block()).is_ok());
    assert_eq!(cvt_send_res(refused()).unwrap_err().kind(), ErrorKind::ConnectionRefused);
}

#[test]
fn receive_result_conversion() {
    assert!(cvt_recv_res(Err(Error::from(ErrorKind::WouldBlock))).is_ok());
    let e = cvt_recv_res(Err(Error::from(ErrorKind::PermissionDenied))).unwrap_err();
    assert_eq!(e.kind(), ErrorKind::PermissionDenied);
}

#[test]
fn payload_is_the_first_len_bytes() {
    let mut data = [7u8; UDP_BUF_SIZE];
    data[0] = 1;
    data[1] = 2;
    let p = Packet::new(data, 2, Endpoint::V4 { ip: 1, port: 1 });
    assert_eq!(p.payload(), &[1u8, 2u8][..]);
    let empty = Packet::new(data, 0, Endpoint::V4 { ip: 1, port: 1 });
    assert_eq!(empty.payload().len(), 0);
}

#[test]
fn settled_socket_sends_in_acceptance_order() {
    // Packets 1..=4 offered; the second send blocks; then a flush.
    let mut s = BufferedSocket::new();
    let mut sent = Vec::new();
    let offer = |s: &mut BufferedSocket, sent: &mut Vec<u8>, tag: u8, block: bool| {
        match s.send_one(packet(tag)) {
            SendAction::Transmit(p) => {
                let r = if block { would_block() } else { Ok(1) };
                if s.complete_send_one(p, r).unwrap() == SendOutcome::Sent {
                    sent.push(tag);
                }
            }
            _ => {}
        }
    };
    offer(&mut s, &mut sent, 1, false);
    offer(&mut s, &mut sent, 2, true);
    offer(&mut s, &mut sent, 3, false);
    offer(&mut s, &mut sent, 4, false);
    s.set_writable();
    while let Some(p) = s.try_send() {
        sent.push(p.data[0]);
        if let FlushStep::Done(r) = s.complete_try_send(Ok(1)) {
            assert!(r.is_ok());
        }
    }
    offer(&mut s, &mut sent, 5, false);
    assert_eq!(sent, vec![1, 2, 3, 4, 5]);
}
