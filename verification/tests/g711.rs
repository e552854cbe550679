use iax2::g711::{decode, decode_block, encode, encode_block};

#[test]
fn roundtrip_is_close() {
    for s in (-32000..=32000).step_by(257) {
        let back = decode(encode(s as i16));
        let err = (s - back as i32).abs();
        assert!(err <= (s.abs() / 8 + 256), "s={s} back={back} err={err}");
    }
}

#[test]
fn zero_and_silence() {
    assert!(decode(encode(0)).abs() < 256);
}

#[test]
fn known_codes() {
    assert_eq!(encode(0), 0xFF);
    assert_eq!(encode(1000), 0xCE);
    assert_eq!(encode(-1000), 0x4E);
    assert_eq!(encode(i16::MAX), 0x80);
    assert_eq!(encode(i16::MIN), 0x00);
    assert_eq!(decode(0xFF), 0);
    assert_eq!(decode(0x7F), 0);
    assert_eq!(decode(0x80), 32124);
    assert_eq!(decode(0x00), -32124);
    assert_eq!(decode(0xCE), 988);
}

#[test]
fn every_octet_but_negative_zero_survives() {
    for b in 0..=255u8 {
        let again = encode(decode(b));
        assert_eq!(again, if b == 0x7F { 0xFF } else { b });
    }
}

#[test]
fn order_and_sign_survive() {
    let mut last = i16::MIN;
    for s in i16::MIN..=i16::MAX {
        let back = decode(encode(s));
        assert!(back >= last);
        last = back;
        if s > i16::MIN {
            assert_eq!(decode(encode(-s)), -back);
        }
        let err = (s as i32 - back as i32).abs();
        assert!(err <= (s as i32).abs() / 8 + 5);
    }
}

#[test]
fn blocks_are_appended() {
    let mut ulaw = vec![9];
    encode_block(&[0, 1000, -1000], &mut ulaw);
    assert_eq!(ulaw, vec![9, 0xFF, 0xCE, 0x4E]);
    let mut pcm = vec![7];
    decode_block(&ulaw[1..], &mut pcm);
    assert_eq!(pcm, vec![7, 0, 988, -988]);
}
