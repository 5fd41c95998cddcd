use proptest::test_runner::{RngAlgorithm, TestRng};
use proptest_http_message::request_line::target::components::host::ip_v4::{
    ip_v4, ip_v4_from, Ipv4Address,
};
use proptest_http_message::request_line::target::components::host::ip_v6::{
    ip_v6, ip_v6_compressed_end, ip_v6_compressed_end_from, ip_v6_compressed_middle,
    ip_v6_compressed_middle_from, ip_v6_compressed_start, ip_v6_compressed_start_from,
    ip_v6_in_layout, ip_v6_mapped_ip_v4, ip_v6_mapped_ip_v4_from, ip_v6_segment_from,
    ip_v6_uncompressed, ip_v6_uncompressed_from, layout_from, Ipv6Address, TextLayout,
};
use url::Host;

fn rng() -> TestRng {
    TestRng::deterministic_rng(RngAlgorithm::ChaCha)
}

fn segments(items: &[(u16, &str)]) -> Vec<(u16, String)> {
    items.iter().map(|(v, s)| (*v, s.to_string())).collect()
}

fn parsed_v6(repr: &str) -> [u16; 8] {
    match Host::parse(&format!("[{repr}]")) {
        Ok(Host::Ipv6(ip)) => ip.segments(),
        other => panic!("{repr:?} was parsed as {other:?}"),
    }
}

fn parsed_v4(repr: &str) -> [u8; 4] {
    match Host::parse(repr) {
        Ok(Host::Ipv4(ip)) => ip.octets(),
        other => panic!("{repr:?} was parsed as {other:?}"),
    }
}

fn explicit_groups(repr: &str) -> usize {
    repr.split(':').filter(|group| !group.is_empty()).count()
}

#[test]
fn dotted_text_of_four_octets() {
    let (ip, repr) = ip_v4_from(0, 9, 10, 255);
    assert_eq!(repr, "0.9.10.255");
    assert_eq!(ip, Ipv4Address { octets: [0, 9, 10, 255] });
    let (ip, repr) = ip_v4_from(192, 168, 100, 1);
    assert_eq!(repr, "192.168.100.1");
    assert_eq!(ip.octets, [192, 168, 100, 1]);
    assert_eq!(ip_v4_from(99, 100, 199, 200).1, "99.100.199.200");
}

#[test]
fn ip_v4_works() {
    let mut rng = rng();
    for _ in 0..1000 {
        let (ip, repr) = ip_v4(&mut rng);
        assert_eq!(ip.octets, parsed_v4(&repr));
    }
}

#[test]
fn a_group_is_at_least_as_wide_as_asked() {
    assert_eq!(ip_v6_segment_from(0x1, 1), (0x1, "1".to_string()));
    assert_eq!(ip_v6_segment_from(0x1, 2).1, "01");
    assert_eq!(ip_v6_segment_from(0x1, 3).1, "001");
    assert_eq!(ip_v6_segment_from(0x1, 4).1, "0001");
    assert_eq!(ip_v6_segment_from(0x0, 1).1, "0");
    assert_eq!(ip_v6_segment_from(0x0, 4).1, "0000");
    assert_eq!(ip_v6_segment_from(0x10, 1).1, "10");
    assert_eq!(ip_v6_segment_from(0x10, 3).1, "010");
    assert_eq!(ip_v6_segment_from(0xabc, 1).1, "abc");
    assert_eq!(ip_v6_segment_from(0xabcd, 1).1, "abcd");
    assert_eq!(ip_v6_segment_from(0xffff, 4).1, "ffff");
    assert_eq!(ip_v6_segment_from(0x9a0f, 2).1, "9a0f");
}

#[test]
fn compressed_at_the_start() {
    let (ip, repr) = ip_v6_compressed_start_from(segments(&[(0x1, "1"), (0x2, "2")]));
    assert_eq!(repr, "::1:2");
    assert_eq!(ip, Ipv6Address { segments: [0, 0, 0, 0, 0, 0, 1, 2] });
    assert_eq!(parsed_v6(&repr), [0, 0, 0, 0, 0, 0, 1, 2]);
    let (ip, repr) = ip_v6_compressed_start_from(segments(&[(0xa, "000a")]));
    assert_eq!(repr, "::000a");
    assert_eq!(ip.segments, [0, 0, 0, 0, 0, 0, 0, 0xa]);
    let seven = segments(&[(1, "1"), (2, "2"), (3, "3"), (4, "4"), (5, "5"), (6, "6"), (7, "7")]);
    let (ip, repr) = ip_v6_compressed_start_from(seven);
    assert_eq!(repr, "::1:2:3:4:5:6:7");
    assert_eq!(ip.segments, [0, 1, 2, 3, 4, 5, 6, 7]);
}

#[test]
fn compressed_at_the_end() {
    let (ip, repr) = ip_v6_compressed_end_from(segments(&[(0x1, "1"), (0x2, "02")]));
    assert_eq!(repr, "1:02::");
    assert_eq!(ip.segments, [1, 2, 0, 0, 0, 0, 0, 0]);
    let seven = segments(&[(1, "1"), (2, "2"), (3, "3"), (4, "4"), (5, "5"), (6, "6"), (7, "7")]);
    let (ip, repr) = ip_v6_compressed_end_from(seven);
    assert_eq!(repr, "1:2:3:4:5:6:7::");
    assert_eq!(ip.segments, [1, 2, 3, 4, 5, 6, 7, 0]);
}

#[test]
fn compressed_in_the_middle() {
    let (ip, repr) = ip_v6_compressed_middle_from(
        segments(&[(0xfe80, "fe80")]),
        segments(&[(0x1, "0001"), (0xff, "ff")]),
    );
    assert_eq!(repr, "fe80::0001:ff");
    assert_eq!(ip.segments, [0xfe80, 0, 0, 0, 0, 0, 1, 0xff]);
    let (ip, repr) = ip_v6_compressed_middle_from(
        segments(&[(1, "1"), (2, "2"), (3, "3"), (4, "4"), (5, "5"), (6, "6")]),
        segments(&[(8, "8")]),
    );
    assert_eq!(repr, "1:2:3:4:5:6::8");
    assert_eq!(ip.segments, [1, 2, 3, 4, 5, 6, 0, 8]);
}

#[test]
fn all_groups_written_out() {
    let eight = segments(&[
        (0x2001, "2001"),
        (0xdb8, "0db8"),
        (0, "0"),
        (0, "000"),
        (1, "1"),
        (0, "00"),
        (0, "0000"),
        (0xffff, "ffff"),
    ]);
    let (ip, repr) = ip_v6_uncompressed_from(eight);
    assert_eq!(repr, "2001:0db8:0:000:1:00:0000:ffff");
    assert_eq!(ip.segments, [0x2001, 0xdb8, 0, 0, 1, 0, 0, 0xffff]);
}

#[test]
fn mapped_from_an_ip_v4_address() {
    let (ip_v4, ip_v4_repr) = ip_v4_from(1, 2, 3, 4);
    let (ip, repr) = ip_v6_mapped_ip_v4_from(ip_v4, ip_v4_repr);
    assert_eq!(repr, "::ffff:1.2.3.4");
    assert_eq!(ip.segments, [0, 0, 0, 0, 0, 0xffff, 0x0102, 0x0304]);
    assert_eq!(parsed_v6(&repr), ip.segments);
    let (ip_v4, ip_v4_repr) = ip_v4_from(255, 0, 128, 255);
    let (ip, repr) = ip_v6_mapped_ip_v4_from(ip_v4, ip_v4_repr);
    assert_eq!(repr, "::ffff:255.0.128.255");
    assert_eq!(ip.segments, [0, 0, 0, 0, 0, 0xffff, 0xff00, 0x80ff]);
}

#[test]
fn ip_v6_uncompressed_works() {
    let mut rng = rng();
    for _ in 0..1000 {
        let (ip, repr) = ip_v6_uncompressed(&mut rng);
        assert!(!repr.contains("::"));
        assert_eq!(ip.segments, parsed_v6(&repr));
        assert_eq!(explicit_groups(&repr), 8);
    }
}

#[test]
fn ip_v6_compressed_start_works() {
    let mut rng = rng();
    let mut counts = [false; 8];
    for _ in 0..1000 {
        let (ip, repr) = ip_v6_compressed_start(&mut rng);
        assert!(repr.starts_with("::"));
        assert_eq!(ip.segments, parsed_v6(&repr));
        assert!((1..=7).contains(&explicit_groups(&repr)));
        counts[explicit_groups(&repr)] = true;
        assert_eq!(ip.segments[0], 0);
    }
    assert_eq!(counts, [false, true, true, true, true, true, true, true]);
}

#[test]
fn ip_v6_compressed_end_works() {
    let mut rng = rng();
    let mut counts = [false; 8];
    for _ in 0..1000 {
        let (ip, repr) = ip_v6_compressed_end(&mut rng);
        assert!(repr.ends_with("::"));
        assert_eq!(ip.segments, parsed_v6(&repr));
        assert!((1..=7).contains(&explicit_groups(&repr)));
        counts[explicit_groups(&repr)] = true;
        assert_eq!(ip.segments[7], 0);
    }
    assert_eq!(counts, [false, true, true, true, true, true, true, true]);
}

#[test]
fn ip_v6_compressed_middle_works() {
    let mut rng = rng();
    let mut counts = [false; 8];
    for _ in 0..1000 {
        let (ip, repr) = ip_v6_compressed_middle(&mut rng);
        assert!(!repr.starts_with("::"));
        assert!(!repr.ends_with("::"));
        assert!(repr.contains("::"));
        assert_eq!(ip.segments, parsed_v6(&repr));
        assert!((2..=7).contains(&explicit_groups(&repr)));
        counts[explicit_groups(&repr)] = true;
    }
    assert_eq!(counts, [false, false, true, true, true, true, true, true]);
}

#[test]
fn ip_v6_mapped_ip_v4_works() {
    let mut rng = rng();
    for _ in 0..1000 {
        let (ip, repr) = ip_v6_mapped_ip_v4(&mut rng);
        assert!(repr.to_lowercase().starts_with("::ffff:"));
        assert_eq!(ip.segments, parsed_v6(&repr));
        assert_eq!(&ip.segments[..6], &[0, 0, 0, 0, 0, 0xffff]);
    }
}

#[test]
fn ip_v6_works() {
    let mut rng = rng();
    let mut dotted = false;
    let mut plain = false;
    let mut compressed = false;
    for _ in 0..2000 {
        let (ip, repr) = ip_v6(&mut rng);
        assert_eq!(ip.segments, parsed_v6(&repr));
        dotted |= repr.contains('.');
        plain |= !repr.contains("::");
        compressed |= repr.contains("::") && !repr.contains('.');
    }
    assert!(dotted && plain && compressed);
}

#[test]
fn each_layout_has_its_shape() {
    let mut rng = rng();
    for _ in 0..200 {
        let repr = ip_v6_in_layout(&mut rng, TextLayout::Uncompressed).1;
        assert!(!repr.contains("::"));
        let repr = ip_v6_in_layout(&mut rng, TextLayout::CompressedStart).1;
        assert!(repr.starts_with("::") && !repr.contains('.'));
        let repr = ip_v6_in_layout(&mut rng, TextLayout::CompressedMiddle).1;
        assert!(repr.contains("::") && !repr.starts_with(':') && !repr.ends_with(':'));
        let repr = ip_v6_in_layout(&mut rng, TextLayout::CompressedEnd).1;
        assert!(repr.ends_with("::") && !repr.starts_with(':'));
        let repr = ip_v6_in_layout(&mut rng, TextLayout::MappedV4).1;
        assert!(repr.starts_with("::ffff:") && repr.contains('.'));
    }
}

#[test]
fn the_layouts_by_number() {
    assert_eq!(layout_from(0), TextLayout::Uncompressed);
    assert_eq!(layout_from(1), TextLayout::CompressedStart);
    assert_eq!(layout_from(2), TextLayout::CompressedMiddle);
    assert_eq!(layout_from(3), TextLayout::CompressedEnd);
    assert_eq!(layout_from(4), TextLayout::MappedV4);
}
