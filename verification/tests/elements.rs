use iax2::consts::ie as iec;
use iax2::{ie, Ie};

#[test]
fn values_are_read_back() {
    assert_eq!(Ie::u16(1, 0xABCD).data, vec![0xAB, 0xCD]);
    assert_eq!(Ie::u16(1, 0xABCD).as_u16(), Some(0xABCD));
    assert_eq!(Ie::u32(1, 0x0102_0304).data, vec![1, 2, 3, 4]);
    assert_eq!(Ie::u32(1, 0x0102_0304).as_u32(), Some(0x0102_0304));
    assert_eq!(Ie::str(1, "caffè").as_str(), "caffè");
    assert!(Ie::empty(1).data.is_empty());
    assert_eq!(Ie::new(7, vec![1, 2]).kind, 7);
}

#[test]
fn values_of_another_length_are_none() {
    assert_eq!(Ie::u32(1, 5).as_u16(), None);
    assert_eq!(Ie::u16(1, 5).as_u32(), None);
    assert_eq!(Ie::empty(1).as_u16(), None);
    assert_eq!(Ie::empty(1).as_u32(), None);
}

#[test]
fn octets_that_are_no_text_are_replaced() {
    assert_eq!(Ie::new(1, vec![b'a', 0xFF, b'b']).as_str(), "a\u{FFFD}b");
}

#[test]
fn lists_are_read_back_in_order() {
    let list = vec![Ie::str(iec::USERNAME, "8001"), Ie::empty(iec::CALLTOKEN), Ie::u16(iec::REFRESH, 60)];
    let mut out = vec![0xEE];
    ie::encode(&list, &mut out);
    assert_eq!(out[0], 0xEE);
    assert_eq!(ie::decode(&out[1..]).expect("decode"), list);
    assert_eq!(ie::decode(&[]).expect("decode"), Vec::new());
    let mut again = Vec::new();
    ie::encode(&ie::decode(&out[1..]).expect("decode"), &mut again);
    assert_eq!(again, out[1..].to_vec());
}

#[test]
fn cut_lists_are_refused() {
    assert!(ie::decode(&[1]).is_none());
    assert!(ie::decode(&[1, 2, 0]).is_none());
    assert!(ie::decode(&[1, 1, 0, 9]).is_none());
}

#[test]
fn the_first_of_a_kind_is_found() {
    let list = vec![Ie::u16(1, 1), Ie::u16(2, 2), Ie::u16(2, 3)];
    assert_eq!(ie::find(&list, 2).unwrap().as_u16(), Some(2));
    assert!(ie::find(&list, 9).is_none());
}

#[test]
fn a_long_element_wraps_its_length() {
    let mut out = Vec::new();
    ie::encode(&[Ie::new(1, vec![0; 258])], &mut out);
    assert_eq!(out[1], 2);
    assert_eq!(out.len(), 260);
}
