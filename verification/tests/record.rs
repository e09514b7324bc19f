use encoding_rs::GBK;
use ipdb::{Error, ErrorKind, RawRecord, Record, IPDB};

const IO: Error = Error { kind: ErrorKind::Io, offset: 0 };

/// An image with a header for a table of one entry at offset 8, followed by
/// `body`. The first byte of `body` is at offset 8.
fn image(body: &[u8]) -> IPDB {
    let mut bytes = vec![8, 0, 0, 0, 8, 0, 0, 0];
    bytes.extend_from_slice(body);
    IPDB::new(bytes).unwrap()
}

fn gbk(text: &str) -> Vec<u8> {
    let (bytes, _, unmappable) = GBK.encode(text);
    assert!(!unmappable);
    bytes.into_owned()
}

#[test]
fn string_ends_before_the_zero_byte() {
    let db = image(b"abc\0def\0");
    assert_eq!(db.read_string(8), Ok(b"abc".to_vec()));
    assert_eq!(db.read_string(9), Ok(b"bc".to_vec()));
    assert_eq!(db.read_string(12), Ok(b"def".to_vec()));
}

#[test]
fn string_at_a_zero_byte_is_empty() {
    let db = image(b"abc\0\0x\0");
    assert_eq!(db.read_string(11), Ok(Vec::new()));
    assert_eq!(db.read_string(12), Ok(Vec::new()));
    assert_eq!(db.read_string(13), Ok(b"x".to_vec()));
}

#[test]
fn string_keeps_every_byte_but_zero() {
    let mut body: Vec<u8> = (1..=255).collect();
    body.push(0);
    let db = image(&body);
    let expected: Vec<u8> = (1..=255).collect();
    assert_eq!(db.read_string(8), Ok(expected));
}

#[test]
fn string_without_a_zero_byte_is_a_failed_read() {
    let db = image(b"abc\0def");
    assert_eq!(db.read_string(12), Err(IO));
    assert_eq!(db.read_string(14), Err(IO));
}

#[test]
fn string_past_the_end_is_a_failed_read() {
    let db = image(b"abc\0");
    assert_eq!(db.read_string(12), Err(IO));
    assert_eq!(db.read_string(13), Err(IO));
    assert_eq!(db.read_string(u64::MAX), Err(IO));
}

#[test]
fn reads_of_fixed_width() {
    let db = image(&[1, 2, 3, 4, 0x56, 0x34, 0x12]);
    assert_eq!(db.read_ip(8), Ok([1, 2, 3, 4]));
    assert_eq!(db.read_ip(11), Ok([4, 0x56, 0x34, 0x12]));
    assert_eq!(db.read_ip(12), Err(IO));
    assert_eq!(db.read_u24(12), Ok(0x12_3456));
    assert_eq!(db.read_u24(13), Err(IO));
    assert_eq!(db.read_mode(8), Ok(ipdb::Mode::RedirectMode1));
    assert_eq!(db.read_mode(9), Ok(ipdb::Mode::RedirectMode2));
    assert_eq!(db.read_mode(10), Ok(ipdb::Mode::Other));
    assert_eq!(db.read_mode(14), Ok(ipdb::Mode::Other));
    assert_eq!(db.read_mode(15), Err(IO));
    assert_eq!(db.read_mode(u64::MAX), Err(IO));
    assert_eq!(db.read_u24(u64::MAX - 1), Err(IO));
}

#[test]
fn area_inline() {
    let db = image(b"Sydney\0");
    assert_eq!(db.read_area(8), Ok(b"Sydney".to_vec()));
    assert_eq!(db.read_area(14), Ok(Vec::new()));
}

#[test]
fn area_redirected_by_either_tag() {
    // 8: tag 1, pointer 16; 12: tag 2, pointer 16; 16: the text
    let db = image(&[1, 16, 0, 0, 2, 16, 0, 0, b'P', b'e', b'r', b't', b'h', 0]);
    assert_eq!(db.read_area(8), Ok(b"Perth".to_vec()));
    assert_eq!(db.read_area(12), Ok(b"Perth".to_vec()));
}

#[test]
fn area_redirect_is_followed_once() {
    // 8: tag 2, pointer 12; 12: tag 1, pointer 8, zero byte. The bytes at
    // 12 are taken as text, not as a second redirect.
    let db = image(&[2, 12, 0, 0, 1, 8, 0, 0]);
    assert_eq!(db.read_area(8), Ok(vec![1, 8]));
}

#[test]
fn area_redirect_to_zero_is_corrupt() {
    let db = image(&[b'x', 0, 1, 0, 0, 0, 2, 0, 0, 0]);
    assert_eq!(
        db.read_area(10),
        Err(Error { kind: ErrorKind::CorruptArea, offset: 11 })
    );
    assert_eq!(
        db.read_area(14),
        Err(Error { kind: ErrorKind::CorruptArea, offset: 15 })
    );
}

#[test]
fn area_redirect_cut_short_is_a_failed_read() {
    let db = image(&[b'x', 0, 2, 9, 0]);
    assert_eq!(db.read_area(10), Err(IO));
    assert_eq!(db.read_area(13), Err(IO));
    // the pointer is whole, the text it points at is not in the image
    let db = image(&[2, 0x00, 0x10, 0x00]);
    assert_eq!(db.read_area(8), Err(IO));
}

#[test]
fn record_with_inline_country() {
    // 8: address; 12: country; 15: area
    let db = image(b"\x01\x00\x00\x00AU\0Sydney\0");
    assert_eq!(
        db.read_record(8),
        Ok(RawRecord { ip: [1, 0, 0, 0], country: b"AU".to_vec(), area: b"Sydney".to_vec() })
    );
}

#[test]
fn record_with_empty_texts() {
    let db = image(&[9, 9, 9, 9, 0, 0]);
    assert_eq!(
        db.read_record(8),
        Ok(RawRecord { ip: [9, 9, 9, 9], country: Vec::new(), area: Vec::new() })
    );
    assert_eq!(
        db.get_content(8),
        Ok(Record { ip: [9, 9, 9, 9], country: String::new(), area: String::new() })
    );
}

#[test]
fn record_with_country_behind_tag_two() {
    // 8: address; 12: tag 2; 13: pointer 20; 16: area (8 + 5 + 3); 20: country
    let db = image(b"\x02\x00\x00\x00\x02\x14\x00\x00NSW\0USA\0");
    assert_eq!(
        db.read_record(8),
        Ok(RawRecord { ip: [2, 0, 0, 0], country: b"USA".to_vec(), area: b"NSW".to_vec() })
    );
}

#[test]
fn area_after_tag_two_is_placed_by_the_length_of_the_country() {
    // The area is looked for 5 bytes and the length of the country after the
    // start of the record, wherever the country was read from.
    // 8: address; 12: tag 2; 13: pointer 24; 16: "ab\0"; 19: "cd\0"; 24: country
    let mut body = b"\x03\x00\x00\x00\x02\x18\x00\x00ab\0cd\0".to_vec();
    body.extend_from_slice(&[0xee, 0xee]);
    body.extend_from_slice(b"China\0");
    let db = image(&body);
    // 8 + 5 + 5 = 18, in the middle of the first text
    assert_eq!(
        db.read_record(8),
        Ok(RawRecord { ip: [3, 0, 0, 0], country: b"China".to_vec(), area: Vec::new() })
    );

    // With a country of two bytes the area is looked for at 8 + 5 + 2 = 15,
    // the last byte of the pointer.
    let db = image(b"\x03\x00\x00\x00\x02\x15\x00\x00area\0CN\0");
    assert_eq!(
        db.read_record(8),
        Ok(RawRecord { ip: [3, 0, 0, 0], country: b"CN".to_vec(), area: Vec::new() })
    );

    // With a country of four bytes it is looked for at 17, one byte into
    // the text after the pointer.
    let db = image(b"\x03\x00\x00\x00\x02\x15\x00\x00area\0Peru\0");
    assert_eq!(
        db.read_record(8),
        Ok(RawRecord { ip: [3, 0, 0, 0], country: b"Peru".to_vec(), area: b"rea".to_vec() })
    );
}

#[test]
fn record_redirected_to_inline_country() {
    // 8: address; 12: tag 1; 13: pointer 16; 16: country; 22: area
    let db = image(b"\x04\x00\x00\x00\x01\x10\x00\x00Japan\0Tokyo\0");
    assert_eq!(
        db.read_record(8),
        Ok(RawRecord { ip: [4, 0, 0, 0], country: b"Japan".to_vec(), area: b"Tokyo".to_vec() })
    );
}

#[test]
fn record_redirected_to_redirected_country() {
    // 8: address; 12: tag 1; 13: pointer 16; 16: tag 2; 17: pointer 26;
    // 20: area; 26: country
    let db = image(b"\x05\x00\x00\x00\x01\x10\x00\x00\x02\x1a\x00\x00Osaka\0Japan\0");
    assert_eq!(
        db.read_record(8),
        Ok(RawRecord { ip: [5, 0, 0, 0], country: b"Japan".to_vec(), area: b"Osaka".to_vec() })
    );
}

#[test]
fn record_redirected_twice_with_redirected_area() {
    // 8: address; 12: tag 1; 13: pointer 16; 16: tag 2; 17: pointer 30;
    // 20: tag 2; 21: pointer 24; 24: area; 30: country
    let db = image(
        b"\x06\x00\x00\x00\x01\x10\x00\x00\x02\x1e\x00\x00\x02\x18\x00\x00Kyoto\0Japan\0",
    );
    assert_eq!(
        db.read_record(8),
        Ok(RawRecord { ip: [6, 0, 0, 0], country: b"Japan".to_vec(), area: b"Kyoto".to_vec() })
    );
}

#[test]
fn tag_one_behind_tag_one_starts_a_text() {
    // 8: address; 12: tag 1; 13: pointer 16; 16: 0x01 'x' 0: the country is
    // the two bytes 0x01 'x'; 19: area
    let db = image(b"\x07\x00\x00\x00\x01\x10\x00\x00\x01x\0y\0");
    assert_eq!(
        db.read_record(8),
        Ok(RawRecord { ip: [7, 0, 0, 0], country: vec![1, b'x'], area: b"y".to_vec() })
    );
}

#[test]
fn record_with_corrupt_area() {
    // 8: address; 12: country; 15: tag 1; 16: pointer 0
    let db = image(b"\x01\x00\x00\x00AU\0\x01\x00\x00\x00");
    let corrupt = Error { kind: ErrorKind::CorruptArea, offset: 16 };
    assert_eq!(db.read_record(8), Err(corrupt));
    assert_eq!(db.get_content(8), Err(corrupt));
}

#[test]
fn record_cut_short_is_a_failed_read() {
    // no tag
    assert_eq!(image(&[1, 0, 0, 0]).read_record(8), Err(IO));
    // no room for the address
    assert_eq!(image(&[1, 0]).read_record(8), Err(IO));
    // pointer cut short
    assert_eq!(image(&[1, 0, 0, 0, 1, 16, 0]).read_record(8), Err(IO));
    assert_eq!(image(&[1, 0, 0, 0, 2, 16, 0]).read_record(8), Err(IO));
    // country not ended
    assert_eq!(image(b"\x01\x00\x00\x00AU").read_record(8), Err(IO));
    // area missing
    assert_eq!(image(b"\x01\x00\x00\x00AU\0").read_record(8), Err(IO));
    // area not ended
    assert_eq!(image(b"\x01\x00\x00\x00AU\0Syd").read_record(8), Err(IO));
    // offsets past every image
    assert_eq!(image(b"\x01\x00\x00\x00AU\0S\0").read_record(u64::MAX), Err(IO));
    assert_eq!(image(b"\x01\x00\x00\x00AU\0S\0").read_record(u64::MAX - 4), Err(IO));
    assert_eq!(image(b"\x01\x00\x00\x00AU\0S\0").get_content(1 << 40), Err(IO));
}

#[test]
fn texts_are_decoded_from_gbk() {
    let raw = RawRecord {
        ip: [8, 8, 8, 8],
        country: vec![0xc3, 0xc0, 0xb9, 0xfa],
        area: vec![0xb1, 0xb1, 0xbe, 0xa9],
    };
    assert_eq!(
        raw.decode(),
        Ok(Record {
            ip: [8, 8, 8, 8],
            country: "\u{7f8e}\u{56fd}".to_string(),
            area: "\u{5317}\u{4eac}".to_string(),
        })
    );
}

#[test]
fn ascii_texts_decode_to_themselves() {
    let raw = RawRecord { ip: [1, 2, 3, 4], country: b"AU".to_vec(), area: b"Sydney".to_vec() };
    assert_eq!(
        raw.decode(),
        Ok(Record { ip: [1, 2, 3, 4], country: "AU".to_string(), area: "Sydney".to_string() })
    );
}

#[test]
fn malformed_text_is_replaced_not_refused() {
    // 0xff starts no GBK sequence
    let raw = RawRecord { ip: [0, 0, 0, 0], country: vec![b'a', 0xff, b'b'], area: Vec::new() };
    assert_eq!(
        raw.decode(),
        Ok(Record { ip: [0, 0, 0, 0], country: "a\u{fffd}b".to_string(), area: String::new() })
    );
}

#[test]
fn content_is_the_record_decoded() {
    let mut body = vec![10, 0, 0, 1];
    body.extend_from_slice(&gbk("\u{4e2d}\u{56fd}"));
    body.push(0);
    body.extend_from_slice(&gbk("\u{4e0a}\u{6d77}\u{5e02}"));
    body.push(0);
    let db = image(&body);
    assert_eq!(
        db.get_content(8),
        Ok(Record {
            ip: [10, 0, 0, 1],
            country: "\u{4e2d}\u{56fd}".to_string(),
            area: "\u{4e0a}\u{6d77}\u{5e02}".to_string(),
        })
    );
}

#[test]
fn decoder_takes_texts_up_to_a_sixth_of_the_address_space() {
    let longest = (isize::MAX as usize - 8) / 6;
    assert!(ipdb::text::fits_decoder(0));
    assert!(ipdb::text::fits_decoder(1 << 24));
    assert!(ipdb::text::fits_decoder(longest));
    assert!(!ipdb::text::fits_decoder(longest + 1));
    assert!(!ipdb::text::fits_decoder(usize::MAX));
}

#[test]
fn record_is_made_of_its_parts() {
    let record = Record::new([8, 8, 4, 4], "US".to_string(), "DNS".to_string());
    assert_eq!(record.ip, [8, 8, 4, 4]);
    assert_eq!(record.country, "US");
    assert_eq!(record.area, "DNS");
}
