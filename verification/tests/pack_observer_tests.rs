use berbalang::observer::Window;
use berbalang::pack::{Endian, Pack};

#[test]
fn byte_payloads_pack_to_themselves() {
    let payload: Vec<u8> = vec![1, 2, 3, 4];
    assert_eq!(payload.pack(8, Endian::Little), vec![1, 2, 3, 4]);
}

#[test]
fn code_addrs_decode_big_endian_words() {
    let payload: Vec<u8> = vec![0x01, 0x02, 0x03, 0x04];
    assert_eq!(payload.as_code_addrs(2, Endian::Big), vec![0x0102, 0x0304]);
    // A trailing partial word is dropped.
    assert_eq!(payload.as_code_addrs(3, Endian::Big), vec![0x010203]);
}

#[test]
fn code_addrs_decode_little_endian_words() {
    let payload: Vec<u8> = vec![0x01, 0x02, 0x03, 0x04];
    assert_eq!(payload.as_code_addrs(2, Endian::Little), vec![0x0201, 0x0403]);
    assert_eq!(payload.as_code_addrs(4, Endian::Little), vec![0x04030201]);
}

#[test]
fn full_width_words_round_trip() {
    let payload: Vec<u8> = vec![0x11, 0x22, 0x33, 0x44, 0x55, 0x66, 0x77, 0x88];
    assert_eq!(payload.as_code_addrs(8, Endian::Big), vec![0x1122334455667788]);
    assert_eq!(payload.as_code_addrs(8, Endian::Little), vec![0x8877665544332211]);
}

#[test]
fn window_reports_mean_on_wrap() {
    let mut w = Window::new(3);
    assert_eq!(w.insert(1), None);
    assert_eq!(w.insert(2), None);
    // The third insertion wraps the circular index to zero and reports.
    assert_eq!(w.insert(3), Some(2));
    assert_eq!(w.insert(10), None);
    assert_eq!(w.insert(20), None);
    assert_eq!(w.insert(30), Some(20));
}

#[test]
fn window_mean_rounds_down() {
    let mut w = Window::new(2);
    assert_eq!(w.insert(1), None);
    assert_eq!(w.insert(2), Some(1));
}
