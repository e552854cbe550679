use iax2::consts::{frametype, iax};
use iax2::leg::{seq_before, Leg};
use iax2::time::Instant;
use iax2::FullFrame;

fn at(ms: u64) -> Instant {
    Instant::from_millis(ms)
}

#[test]
fn serial_order() {
    assert!(seq_before(0, 1));
    assert!(seq_before(0, 127));
    assert!(!seq_before(0, 128));
    assert!(!seq_before(5, 5));
    assert!(!seq_before(1, 0));
    assert!(seq_before(250, 3));
    assert!(!seq_before(3, 250));
}

#[test]
fn sequence_numbers_wrap() {
    let mut leg = Leg::new(7);
    leg.oseq = 255;
    let f = leg.build(1, frametype::IAX, iax::NEW, vec![]);
    assert_eq!((f.oseq, leg.oseq), (255, 0));
    leg.note_recv(&FullFrame::new(9, 7, 0, 255, 0, frametype::IAX, iax::ACK, vec![]));
    assert_eq!((leg.remote, leg.iseq), (9, 0));
    leg.note_recv(&FullFrame::new(0, 7, 0, 4, 0, frametype::IAX, iax::ACK, vec![]));
    assert_eq!((leg.remote, leg.iseq), (9, 5));
}

#[test]
fn an_acknowledgement_is_not_counted() {
    let mut leg = Leg::new(7);
    leg.remote = 9;
    leg.oseq = 3;
    leg.iseq = 4;
    let f = FullFrame::decode(&leg.ack_bytes(55)).expect("full frame");
    assert_eq!((f.src_call, f.dst_call, f.timestamp, f.oseq, f.iseq, f.subclass), (7, 9, 55, 3, 4, iax::ACK));
    assert_eq!(leg.oseq, 3);
}

#[test]
fn a_retransmission_is_marked_and_counted() {
    let mut leg = Leg::new(7);
    let first = leg.send_reliable(10, frametype::IAX, iax::NEW, vec![], at(0));
    assert_eq!(leg.retransmit(at(699)), (vec![], false));
    let (again, lost) = leg.retransmit(at(700));
    assert!(!lost);
    let f = FullFrame::decode(&again[0]).expect("full frame");
    let g = FullFrame::decode(&first).expect("full frame");
    assert!(f.retransmit && !g.retransmit);
    assert_eq!((f.oseq, f.timestamp, f.subclass), (g.oseq, g.timestamp, g.subclass));
    assert_eq!((leg.outstanding[0].tries, leg.outstanding[0].deadline), (1, at(1400)));
    leg.outstanding[0].tries = 5;
    assert_eq!(leg.retransmit(at(1400)), (vec![], true));
}

#[test]
fn the_peers_acknowledgement_clears_the_frame() {
    let mut leg = Leg::new(7);
    let mut peer = Leg::new(9);
    let bytes = leg.send_reliable(10, frametype::IAX, iax::NEW, vec![], at(0));
    let kept = leg.send_reliable(20, frametype::IAX, iax::NEW, vec![], at(0));
    peer.note_recv(&FullFrame::decode(&bytes).expect("full frame"));
    let ack = FullFrame::decode(&peer.ack_bytes(99)).expect("full frame");
    leg.ack_upto(ack.iseq, ack.timestamp, true);
    assert_eq!(leg.outstanding.len(), 1);
    assert_eq!(leg.outstanding[0].bytes, kept);
    leg.reset();
    assert_eq!((leg.local, leg.remote, leg.oseq, leg.iseq, leg.outstanding.len()), (7, 0, 0, 0, 0));
}
