use proptest::test_runner::{RngAlgorithm, TestRng};
use proptest_http_message::request_line::target::authority_form::{
    authority, authority_from, AuthorityForm,
};
use proptest_http_message::request_line::target::components::host::domain::{
    alphanumeric_from, domain, domain_from, domain_label, domain_label_from, label_char_from,
    letter_from,
};
use proptest_http_message::request_line::target::components::host::ip_v4::ip_v4_from;
use proptest_http_message::request_line::target::components::host::ip_v6::{
    ip_v6_compressed_start_from, Ipv6Address,
};
use proptest_http_message::request_line::target::components::host::{
    host, ip_v6_host, ip_v6_host_from, Host,
};
use url::Url;

fn rng() -> TestRng {
    TestRng::deterministic_rng(RngAlgorithm::ChaCha)
}

fn assert_label_is_correct(label: &str) {
    assert!(label.len() <= 63, "label must be no more than 63 characters but got {label:?}");
    assert!(!label.is_empty(), "label must have at least one letter but got {label:?}");
    assert!(
        label.starts_with(|c: char| c.is_ascii_alphabetic()),
        "domain label must start with letter but got {label:?}"
    );
    assert!(
        label.ends_with(|c: char| c.is_ascii_alphanumeric()),
        "domain label must end with alphanumeric but got {label:?}"
    );
    assert!(
        label.chars().all(|c| matches!(c, 'a'..='z'| 'A'..='Z' | '0'..='9' | '-')),
        "domain label must only contain letters, digits and hyphen"
    );
}

fn assert_host_is_parsed(host: &Host, port: Option<u16>, parsed: &Url) {
    match (host, parsed.host()) {
        (Host::Domain(domain), Some(url::Host::Domain(domain2))) => {
            assert_eq!(domain.to_lowercase(), domain2.to_lowercase());
        }
        (Host::Ipv6(ip, _), Some(url::Host::Ipv6(ip2))) => assert_eq!(ip.segments, ip2.segments()),
        (Host::Ipv4(ip, _), Some(url::Host::Ipv4(ip2))) => assert_eq!(ip.octets, ip2.octets()),
        _ => panic!("expected host {:?} but parsed {:?}", host, parsed.host()),
    }
    match (port, parsed.port()) {
        (None | Some(80), None) => {}
        (Some(port), Some(port2)) => assert_eq!(port, port2),
        (port, port2) => panic!("expected port {port:?} but parsed {port2:?}"),
    }
}

#[test]
fn characters_of_a_label_by_number() {
    assert_eq!(letter_from(0), 'a');
    assert_eq!(letter_from(25), 'z');
    assert_eq!(letter_from(26), 'A');
    assert_eq!(letter_from(51), 'Z');
    assert_eq!(alphanumeric_from(0), 'a');
    assert_eq!(alphanumeric_from(51), 'Z');
    assert_eq!(alphanumeric_from(52), '0');
    assert_eq!(alphanumeric_from(61), '9');
    assert_eq!(label_char_from(61), '9');
    assert_eq!(label_char_from(62), '-');
}

#[test]
fn a_label_is_its_first_character_and_the_rest() {
    assert_eq!(domain_label_from('a', "b-c".to_string()), "ab-c");
    assert_eq!(domain_label_from('Z', String::new()), "Z");
}

#[test]
fn a_domain_joins_its_labels_with_dots() {
    let labels = vec!["www".to_string(), "example".to_string(), "com".to_string()];
    assert_eq!(domain_from(String::new(), labels.clone()), "www.example.com");
    assert_eq!(domain_from(".".to_string(), labels), ".www.example.com");
    assert_eq!(domain_from(String::new(), vec!["localhost".to_string()]), "localhost");
}

#[test]
fn domain_label_works() {
    let mut rng = rng();
    let mut shortest = usize::MAX;
    let mut longest = 0;
    for _ in 0..3000 {
        let label = domain_label(&mut rng);
        assert_label_is_correct(&label);
        shortest = shortest.min(label.len());
        longest = longest.max(label.len());
    }
    assert_eq!(shortest, 1);
    assert_eq!(longest, 63);
}

#[test]
fn domain_works() {
    let mut rng = rng();
    let mut rooted = false;
    let mut most = 0;
    for _ in 0..1000 {
        let domain = domain(&mut rng, 12);
        assert!(domain.starts_with(|c: char| c.is_ascii_alphabetic() || c == '.'));
        rooted |= domain.starts_with('.');
        let domain = domain.strip_prefix('.').unwrap_or(&domain);
        let labels: Vec<&str> = domain.split('.').collect();
        assert!((1..=12).contains(&labels.len()));
        most = most.max(labels.len());
        for label in labels {
            assert_label_is_correct(label);
        }
    }
    assert!(rooted);
    assert_eq!(most, 12);
}

#[test]
fn a_domain_of_one_label_at_most_has_one_label() {
    let mut rng = rng();
    for _ in 0..200 {
        let domain = domain(&mut rng, 1);
        let domain = domain.strip_prefix('.').unwrap_or(&domain);
        assert!(!domain.contains('.'));
        assert_label_is_correct(domain);
    }
}

#[test]
fn an_ip_v6_host_is_in_square_brackets() {
    let (ip, repr) = ip_v6_compressed_start_from(vec![(1, "1".to_string())]);
    let (host_ip, host_repr) = ip_v6_host_from(ip, repr);
    assert_eq!(host_repr, "[::1]");
    assert_eq!(host_ip, Ipv6Address { segments: [0, 0, 0, 0, 0, 0, 0, 1] });
    let mut rng = rng();
    for _ in 0..200 {
        let (ip, repr) = ip_v6_host(&mut rng);
        assert!(repr.starts_with('[') && repr.ends_with(']'));
        match url::Host::parse(&repr) {
            Ok(url::Host::Ipv6(parsed)) => assert_eq!(parsed.segments(), ip.segments),
            other => panic!("{repr:?} was parsed as {other:?}"),
        }
    }
}

#[test]
fn the_text_of_a_host() {
    assert_eq!(Host::Domain("a.b".to_string()).repr(), "a.b");
    let (ip, repr) = ip_v4_from(127, 0, 0, 1);
    assert_eq!(Host::Ipv4(ip, repr).repr(), "127.0.0.1");
    let (ip, repr) = ip_v6_compressed_start_from(vec![(1, "1".to_string())]);
    let (ip, repr) = ip_v6_host_from(ip, repr);
    assert_eq!(Host::Ipv6(ip, repr).repr(), "[::1]");
}

#[test]
fn a_parser_finds_the_host_that_was_generated() {
    let mut rng = rng();
    let mut kinds = [false; 3];
    for _ in 0..1500 {
        let host = host(&mut rng, 20);
        let parsed = Url::parse(&format!("http://{}", host.repr())).unwrap();
        assert_host_is_parsed(&host, None, &parsed);
        match host {
            Host::Domain(_) => kinds[0] = true,
            Host::Ipv4(..) => kinds[1] = true,
            Host::Ipv6(..) => kinds[2] = true,
        }
    }
    assert_eq!(kinds, [true; 3]);
}

#[test]
fn the_authority_form_is_host_colon_port() {
    let (form, repr) = authority_from(Host::Domain("example.com".to_string()), 8080);
    assert_eq!(repr, "example.com:8080");
    assert_eq!(form, AuthorityForm { host: Host::Domain("example.com".to_string()), port: 8080 });
    let (ip, ip_repr) = ip_v4_from(10, 0, 0, 1);
    assert_eq!(authority_from(Host::Ipv4(ip, ip_repr), 0).1, "10.0.0.1:0");
    let (ip, ip_repr) = ip_v6_compressed_start_from(vec![(1, "1".to_string())]);
    let (ip, ip_repr) = ip_v6_host_from(ip, ip_repr);
    assert_eq!(authority_from(Host::Ipv6(ip, ip_repr), 65535).1, "[::1]:65535");
}

#[test]
fn authority_works() {
    let mut rng = rng();
    for _ in 0..1500 {
        let (authority_form, repr) = authority(&mut rng, 20);
        let url = Url::parse(&format!("http://{repr}")).unwrap();
        assert_host_is_parsed(&authority_form.host, Some(authority_form.port), &url);
        assert!(repr.ends_with(&format!(":{}", authority_form.port)));
    }
}
