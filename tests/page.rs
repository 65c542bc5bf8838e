use simpledb::page::{Page, PageError};

#[test]
fn new_page_holds_capacity_zero_bytes() {
    let p = Page::new(5);
    assert_eq!(p.bytebuffer(), &vec![0u8; 5]);
}

#[test]
fn written_bytes_read_back_in_order() {
    let mut p = Page::new(0);
    let bs: Vec<u8> = vec![7, 0, 255, 1, 128];
    p.write_bytes(&bs);
    p.flip();
    let mut got = Vec::new();
    while let Some(b) = p.read_byte() {
        got.push(b);
    }
    assert_eq!(got, bs);
}

#[test]
fn write_byte_overwrites_then_grows() {
    let mut p = Page::new(2);
    p.write_bytes(&[1, 2, 3]);
    assert_eq!(p.bytebuffer(), &vec![1, 2, 3]);
    p.flip();
    p.write_byte(9);
    assert_eq!(p.bytebuffer(), &vec![9, 2, 3]);
}

#[test]
fn write_int_is_big_endian_twos_complement() {
    let mut p = Page::new(0);
    p.write_int(0x01020304);
    p.write_int(-2);
    assert_eq!(p.bytebuffer(), &vec![1, 2, 3, 4, 0xff, 0xff, 0xff, 0xfe]);
}

#[test]
fn ints_read_back() {
    for v in [i32::MIN, i32::MAX, 0, -1, 1, 123456789] {
        let mut p = Page::new(0);
        p.write_int(v);
        p.flip();
        assert_eq!(p.read_int(), Some(v));
    }
}

#[test]
fn write_str_is_length_prefixed_utf8() {
    let mut p = Page::new(0);
    p.write_str("hé");
    assert_eq!(p.bytebuffer(), &vec![0, 0, 0, 3, b'h', 0xc3, 0xa9]);
}

#[test]
fn strings_read_back() {
    for s in ["", "hello", "a\0b\0", "日本語のテキスト", "emoji 🦀"] {
        let mut p = Page::new(0);
        p.write_str(s);
        p.flip();
        assert_eq!(p.read_str(), Ok(s.to_string()));
    }
}

#[test]
fn mixed_fields_read_back() {
    let mut p = Page::new(64);
    p.write_int(42);
    p.write_str("name");
    p.write_byte(3);
    p.write_int(-7);
    p.flip();
    assert_eq!(p.read_int(), Some(42));
    assert_eq!(p.read_str(), Ok("name".to_string()));
    assert_eq!(p.read_byte(), Some(3));
    assert_eq!(p.read_int(), Some(-7));
}

#[test]
fn read_byte_at_end_gives_no_value() {
    let mut p = Page::new(1);
    assert_eq!(p.read_byte(), Some(0));
    assert_eq!(p.read_byte(), None);
    assert_eq!(p.read_byte(), None);
}

#[test]
fn read_int_short_gives_no_value_and_keeps_cursor() {
    let mut p = Page::new(0);
    p.write_bytes(&[0, 0, 1]);
    p.flip();
    assert_eq!(p.read_int(), None);
    assert_eq!(p.read_byte(), Some(0));
}

#[test]
fn read_str_without_length_gives_no_value() {
    let mut p = Page::new(0);
    p.write_bytes(&[0, 0]);
    p.flip();
    assert_eq!(p.read_str(), Err(PageError::NoValue));
    assert_eq!(p.read_byte(), Some(0));
}

#[test]
fn read_str_with_missing_bytes_gives_no_value() {
    let mut p = Page::new(0);
    p.write_int(5);
    p.write_bytes(b"abc");
    p.flip();
    assert_eq!(p.read_str(), Err(PageError::NoValue));
    assert_eq!(p.read_byte(), Some(b'a'));
}

#[test]
fn read_str_with_negative_length_gives_no_value() {
    let mut p = Page::new(0);
    p.write_int(-1);
    p.write_bytes(b"abcdef");
    p.flip();
    assert_eq!(p.read_str(), Err(PageError::NoValue));
}

#[test]
fn read_str_of_invalid_utf8_is_an_encoding_error() {
    let mut p = Page::new(0);
    p.write_int(2);
    p.write_bytes(&[0xc3, 0x28]);
    p.write_int(11);
    p.flip();
    assert_eq!(p.read_str(), Err(PageError::InvalidEncoding));
    assert_eq!(p.read_int(), Some(11));
}

#[test]
fn replace_contents_puts_cursor_at_end() {
    let mut p = Page::new(3);
    p.replace_contents(vec![0, 0, 0, 9]);
    assert_eq!(p.read_byte(), None);
    p.flip();
    assert_eq!(p.read_int(), Some(9));
}
