use blockfile::page::Page;

#[test]
fn new_is_zero_filled() {
    let p = Page::new(16);
    assert_eq!(p.size(), 16);
    assert_eq!(p.contents(), &[0u8; 16]);
}

#[test]
fn from_bytes_copies_verbatim() {
    let p = Page::from_bytes(&[1, 2, 3]);
    assert_eq!(p.size(), 3);
    assert_eq!(p.contents(), &[1, 2, 3]);
}

#[test]
fn int_round_trip_every_extreme() {
    let mut p = Page::new(12);
    for &v in &[i32::MIN, -2147483647, -1, 0, 1, 12345, 2147483646, i32::MAX] {
        p.i32(2, v);
        assert_eq!(p.i32_mut(2), v);
    }
}

#[test]
fn int_big_endian_layout() {
    let mut p = Page::new(8);
    p.i32(0, 0x01020304);
    assert_eq!(&p.contents()[0..4], &[1, 2, 3, 4]);
    p.i32(0, -1);
    assert_eq!(&p.contents()[0..4], &[0xff, 0xff, 0xff, 0xff]);
    p.i32(0, i32::MIN);
    assert_eq!(&p.contents()[0..4], &[0x80, 0x00, 0x00, 0x00]);
    p.i32(0, i32::MAX);
    assert_eq!(&p.contents()[0..4], &[0x7f, 0xff, 0xff, 0xff]);
}

#[test]
fn int_offsets_are_independent() {
    let mut p = Page::new(16);
    p.i32(0, 7);
    p.i32(4, -7);
    p.i32(8, 0);
    assert_eq!(p.i32_mut(0), 7);
    assert_eq!(p.i32_mut(4), -7);
    assert_eq!(p.i32_mut(8), 0);
}

#[test]
fn bytes_round_trip_with_length_prefix() {
    let mut p = Page::new(16);
    p.bytes_mut(3, &[9, 8, 7]);
    assert_eq!(p.bytes(3), vec![9, 8, 7]);
    // four-byte big-endian length prefix, then the payload
    assert_eq!(&p.contents()[3..7], &[0, 0, 0, 3]);
    assert_eq!(&p.contents()[7..10], &[9, 8, 7]);
    // bytes outside the written window keep their old value
    assert_eq!(p.contents()[0], 0);
    assert_eq!(p.contents()[10], 0);
}

#[test]
fn empty_blob_round_trip() {
    let mut p = Page::new(8);
    p.bytes_mut(0, &[]);
    assert_eq!(p.bytes(0), Vec::<u8>::new());
    assert_eq!(&p.contents()[0..4], &[0, 0, 0, 0]);
}

#[test]
fn string_round_trip_spans_max_length() {
    let mut p = Page::new(32);
    p.string_mut(0, "hello");
    assert_eq!(p.string(0), "hello");
    // the written region is exactly [0, max_length(5))
    assert_eq!(Page::max_length(5), 9);
    assert_eq!(&p.contents()[0..4], &[0, 0, 0, 5]);
    assert_eq!(&p.contents()[4..9], b"hello");
    assert!(p.contents()[9..].iter().all(|&b| b == 0));
}

#[test]
fn string_round_trip_multibyte() {
    let s = "h\u{e9}llo \u{2206}";
    let utf8_len = s.len();
    let mut p = Page::new(4 + utf8_len as u64 + 3);
    p.string_mut(2, s);
    assert_eq!(p.string(2), s);
    assert_eq!(&p.contents()[2..6], &(utf8_len as u32).to_be_bytes());
}

#[test]
fn empty_string_round_trip() {
    let mut p = Page::new(6);
    p.string_mut(0, "");
    assert_eq!(p.string(0), "");
}

#[test]
fn invalid_utf8_yields_placeholder() {
    let mut p = Page::new(12);
    p.bytes_mut(0, &[0xff, 0xfe, 0x41]);
    assert_eq!(p.string(0), "\u{00ef}\u{00bf}\u{00bd}");
}

#[test]
fn max_length_adds_prefix_size() {
    assert_eq!(Page::max_length(0), 4);
    assert_eq!(Page::max_length(10), 14);
    assert_eq!(Page::max_length(251), 255);
}

#[test]
fn contents_mut_overwrites_in_place() {
    let mut p = Page::new(4);
    {
        let view = p.contents_mut();
        view[0] = 0xab;
        view[3] = 0xcd;
    }
    assert_eq!(p.contents(), &[0xab, 0, 0, 0xcd]);
    assert_eq!(p.size(), 4);
}

#[test]
fn buffer_field_is_the_whole_page() {
    let p = Page::from_bytes(&[5, 6]);
    assert_eq!(p.buffer, vec![5, 6]);
}
