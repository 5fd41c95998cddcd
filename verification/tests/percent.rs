use proptest_http_message::request_line::percent::{percent_encode, utf8_bytes};

fn decoded(text: &str) -> Vec<u8> {
    let bytes = text.as_bytes();
    assert_eq!(bytes.len() % 3, 0, "{text:?} is not made of groups of three");
    bytes
        .chunks(3)
        .map(|group| {
            assert_eq!(group[0], b'%');
            u8::from_str_radix(std::str::from_utf8(&group[1..]).unwrap(), 16).unwrap()
        })
        .collect()
}

#[test]
fn one_byte_characters() {
    assert_eq!(percent_encode('a'), "%61");
    assert_eq!(percent_encode(' '), "%20");
    assert_eq!(percent_encode('\u{0}'), "%00");
    assert_eq!(percent_encode('\n'), "%0a");
    assert_eq!(percent_encode('\u{7F}'), "%7f");
    assert_eq!(percent_encode('/'), "%2f");
}

#[test]
fn two_byte_characters() {
    assert_eq!(percent_encode('\u{80}'), "%c2%80");
    assert_eq!(percent_encode('é'), "%c3%a9");
    assert_eq!(percent_encode('\u{7FF}'), "%df%bf");
}

#[test]
fn three_byte_characters() {
    assert_eq!(percent_encode('\u{800}'), "%e0%a0%80");
    assert_eq!(percent_encode('€'), "%e2%82%ac");
    assert_eq!(percent_encode('\u{D7FF}'), "%ed%9f%bf");
    assert_eq!(percent_encode('\u{E000}'), "%ee%80%80");
    assert_eq!(percent_encode('\u{FFFF}'), "%ef%bf%bf");
}

#[test]
fn four_byte_characters() {
    assert_eq!(percent_encode('\u{10000}'), "%f0%90%80%80");
    assert_eq!(percent_encode('😀'), "%f0%9f%98%80");
    assert_eq!(percent_encode('\u{10FFFF}'), "%f4%8f%bf%bf");
}

#[test]
fn hexadecimal_digits_are_small_and_two_to_a_byte() {
    let text = percent_encode('\u{ABCD}');
    assert_eq!(text, "%ea%af%8d");
    assert!(text.chars().all(|c| c == '%' || c.is_ascii_digit() || ('a'..='f').contains(&c)));
}

#[test]
fn utf8_bytes_are_those_of_the_standard_encoding() {
    let mut v: u32 = 0;
    while v <= 0x10FFFF {
        if let Some(c) = char::from_u32(v) {
            let mut buffer = [0u8; 4];
            assert_eq!(utf8_bytes(c), c.encode_utf8(&mut buffer).as_bytes());
        }
        v += 97;
    }
}

#[test]
fn decoding_the_groups_gives_the_utf8_encoding_back() {
    let mut v: u32 = 0;
    while v <= 0x10FFFF {
        if let Some(c) = char::from_u32(v) {
            let bytes = decoded(&percent_encode(c));
            assert_eq!(String::from_utf8(bytes).unwrap(), c.to_string());
        }
        v += 61;
    }
    for c in ['\u{7F}', '\u{80}', '\u{7FF}', '\u{800}', '\u{FFFF}', '\u{10000}', '\u{10FFFF}'] {
        let bytes = decoded(&percent_encode(c));
        assert_eq!(String::from_utf8(bytes).unwrap(), c.to_string());
    }
}
