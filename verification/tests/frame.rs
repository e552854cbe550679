use iax2::consts::{frametype, iax, ie as iec};
use iax2::frame::is_full_frame;
use iax2::{ie, FullFrame, Ie, MiniFrame};

#[test]
fn command_frame_roundtrip() {
    let f = FullFrame::new(
        5,
        0,
        1234,
        0,
        0,
        frametype::IAX,
        iax::REGREQ,
        vec![Ie::str(iec::USERNAME, "8001"), Ie::u16(iec::REFRESH, 60)],
    );
    let d = FullFrame::decode(&f.encode()).expect("decode");
    assert_eq!(d.subclass, iax::REGREQ);
    assert_eq!(ie::find(&d.ies, iec::USERNAME).unwrap().as_str(), "8001");
    assert!(d.media_payload.is_empty());
}

#[test]
fn voice_full_frame_keeps_raw_payload() {
    let audio = vec![0x7Fu8; 160];
    let f = FullFrame::new(3, 7, 20, 1, 1, frametype::VOICE, iax2::consts::format::ULAW as u8, vec![]);
    let bytes = f.encode_media(&audio);
    let d = FullFrame::decode(&bytes).expect("decode");
    assert_eq!(d.frametype, frametype::VOICE);
    assert_eq!(d.media_payload.len(), 160);
    assert!(d.ies.is_empty(), "il payload audio non va interpretato come IE");
}

#[test]
fn mini_frame_roundtrip() {
    let m = MiniFrame { src_call: 7, timestamp16: 20, payload: vec![0xAA; 160] };
    let bytes = m.encode();
    assert!(!is_full_frame(&bytes));
    let d = MiniFrame::decode(&bytes).expect("decode");
    assert_eq!(d.src_call, 7);
    assert_eq!(d.payload.len(), 160);
}

#[test]
fn full_frame_octets() {
    let mut f = FullFrame::new(
        0x0105,
        0x0207,
        0x0102_0304,
        9,
        8,
        frametype::IAX,
        iax::REGREQ,
        vec![Ie::u16(iec::REFRESH, 60)],
    );
    assert_eq!(
        f.encode(),
        vec![0x81, 5, 2, 7, 1, 2, 3, 4, 9, 8, frametype::IAX, iax::REGREQ, iec::REFRESH, 2, 0, 60]
    );
    f.retransmit = true;
    assert_eq!(f.encode()[2], 0x82);
    let d = FullFrame::decode(&f.encode()).expect("decode");
    assert!(d.retransmit);
    assert_eq!((d.src_call, d.dst_call, d.timestamp), (0x0105, 0x0207, 0x0102_0304));
    assert_eq!((d.oseq, d.iseq), (9, 8));
}

#[test]
fn wide_numbers_are_cut() {
    let f = FullFrame::new(0xFFFF, 0xFFFF, 1, 0, 0, frametype::IAX, 0xFF, vec![]);
    let d = FullFrame::decode(&f.encode()).expect("decode");
    assert_eq!((d.src_call, d.dst_call, d.subclass), (0x7FFF, 0x7FFF, 0x7F));
    assert!(!d.retransmit);
    let m = MiniFrame { src_call: 0xFFFF, timestamp16: 0xABCD, payload: vec![] };
    assert_eq!(m.encode(), vec![0x7F, 0xFF, 0xAB, 0xCD]);
    assert_eq!(MiniFrame::decode(&m.encode()).expect("decode").src_call, 0x7FFF);
}

#[test]
fn short_and_foreign_datagrams_are_refused() {
    assert!(!is_full_frame(&[]));
    assert!(!is_full_frame(&[0x80]));
    assert!(is_full_frame(&[0x80, 0]));
    assert!(FullFrame::decode(&[0x80; 11]).is_none());
    assert!(FullFrame::decode(&[0x00; 12]).is_none());
    assert!(MiniFrame::decode(&[0, 1, 2]).is_none());
    assert!(MiniFrame::decode(&[0x80, 1, 2, 3]).is_none());
    let mut cut = FullFrame::new(1, 0, 0, 0, 0, frametype::IAX, iax::NEW, vec![]).encode();
    cut.push(iec::USERNAME);
    assert!(FullFrame::decode(&cut).is_none());
    cut.push(5);
    assert!(FullFrame::decode(&cut).is_none());
}

#[test]
fn reencoding_clears_the_c_bit_only() {
    let mut bytes = FullFrame::new(
        3,
        4,
        5,
        6,
        7,
        frametype::CONTROL,
        0x14,
        vec![Ie::str(iec::CAUSE, "Busy"), Ie::empty(iec::CALLTOKEN)],
    )
    .encode();
    bytes[11] |= 0x80;
    let again = FullFrame::decode(&bytes).expect("decode").encode();
    bytes[11] &= 0x7F;
    assert_eq!(again, bytes);
}
