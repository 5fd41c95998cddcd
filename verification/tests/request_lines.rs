use proptest::test_runner::{RngAlgorithm, TestRng};
use proptest_http_message::request_line::target::absolute_form::{
    absolute, absolute_from, AbsoluteForm,
};
use proptest_http_message::request_line::target::asterisk_form::asterisk;
use proptest_http_message::request_line::target::authority_form::authority_from;
use proptest_http_message::request_line::target::components::authority::{
    authority_from as url_authority_from,
};
use proptest_http_message::request_line::target::components::host::Host;
use proptest_http_message::request_line::target::components::path::{
    normalize, path_absolute_from, path_rootless_from, Path,
};
use proptest_http_message::request_line::target::components::query::{
    query_from, query_param_from, QueryParam,
};
use proptest_http_message::request_line::target::components::user_info::user_info_from;
use proptest_http_message::request_line::target::components::CharacterClasses;
use proptest_http_message::request_line::target::origin_form::{origin, origin_from, OriginForm};
use proptest_http_message::request_line::target::{target, RequestTarget};
use proptest_http_message::request_line::verb::{
    is_valid_verb, marks_from, request_verb, request_verb_from, request_verb_wrong,
    request_verb_wrong_case, request_verb_wrong_case_from, request_verb_wrong_from, verb_at,
};
use proptest_http_message::request_line::version::{version, version_from, HttpVersion};
use proptest_http_message::request_line::{
    request_line, request_line_from, try_request_line, BoundsError, HttpRequestLine,
};
use url::Url;

const VERBS: [&str; 9] =
    ["GET", "HEAD", "POST", "PUT", "DELETE", "CONNECT", "OPTIONS", "TRACE", "PATCH"];

fn rng() -> TestRng {
    TestRng::deterministic_rng(RngAlgorithm::ChaCha)
}

fn strings(items: &[&str]) -> Vec<String> {
    items.iter().map(|s| s.to_string()).collect()
}

fn request_verb_asserts(verb: &str) {
    assert!(matches!(
        verb,
        "GET" | "HEAD" | "POST" | "PUT" | "DELETE" | "CONNECT" | "OPTIONS" | "TRACE" | "PATCH"
    ));
}

fn version_asserts(version: &HttpVersion, repr: &str) {
    match version {
        HttpVersion::Http10 => {
            assert_eq!(repr, "HTTP/1.0", "expected HTTP version 1.0 but got {repr}")
        }
        HttpVersion::Http11 => {
            assert_eq!(repr, "HTTP/1.1", "expected HTTP version 1.1 but got {repr}")
        }
        HttpVersion::Http2 => assert_eq!(repr, "HTTP/2", "expected HTTP version 2 but got {repr}"),
        HttpVersion::Http3 => assert_eq!(repr, "HTTP/3", "expected HTTP version 3 but got {repr}"),
    }
}

fn query_text(params: &[QueryParam]) -> String {
    params
        .iter()
        .map(|param| format!("{}={}", param.key, param.value.as_deref().unwrap_or_default()))
        .collect::<Vec<_>>()
        .join("&")
}

fn host_asserts(host: &Host, parsed: Option<url::Host<&str>>) {
    match (host, parsed) {
        (Host::Domain(domain), Some(url::Host::Domain(domain2))) => {
            assert_eq!(domain.to_lowercase(), domain2.to_lowercase());
        }
        (Host::Ipv6(ip, _), Some(url::Host::Ipv6(ip2))) => assert_eq!(ip.segments, ip2.segments()),
        (Host::Ipv4(ip, _), Some(url::Host::Ipv4(ip2))) => assert_eq!(ip.octets, ip2.octets()),
        (host, parsed) => panic!("expected host {host:?} but parsed {parsed:?}"),
    }
}

/// The text as the parser hands user information back: it escapes `;` and
/// `=` there.
fn parsed_user_info(text: &str) -> String {
    text.replace(';', "%3B").replace('=', "%3D")
}

/// The text as the parser hands a query back: it escapes `'` there.
fn parsed_query(text: &str) -> String {
    text.replace('\'', "%27")
}

/// The normalized path is the path that the parser finds. Where no segment is
/// left of the rootless path, the normalized form has a second slash, which
/// the parser does not have.
fn path_asserts(path: &Path, parsed: &str) {
    if path.normalized == "//" {
        assert!(parsed == "/" || parsed == "//", "expected path {path:?} but parsed {parsed}");
    } else {
        assert_eq!(path.normalized, parsed, "expected path {path:?} but parsed {parsed}");
    }
}

fn absolute_asserts(absolute_form: &AbsoluteForm, repr: &str) {
    let url = Url::parse(repr).unwrap_or_else(|_| panic!("should be good URL but got {repr}"));
    assert_eq!(absolute_form.scheme.to_ascii_lowercase(), url.scheme().to_ascii_lowercase());
    let after_scheme = &repr[absolute_form.scheme.len()..];
    assert!(after_scheme.starts_with("://"));
    let authority_repr = after_scheme[3..].split(['/', '?', '#']).next().unwrap();
    assert_eq!(absolute_form.authority.user_info.is_some(), authority_repr.contains('@'));
    if let Some(user_info) = absolute_form.authority.user_info.as_ref() {
        assert_eq!(parsed_user_info(&user_info.username), url.username());
        match (user_info.password.as_deref(), url.password()) {
            (None | Some(""), None) => {}
            (Some(password), Some(password2)) => {
                assert_eq!(parsed_user_info(password), password2);
            }
            (password, password2) => {
                panic!("expected password {password:?} but parsed {password2:?}")
            }
        }
    } else {
        assert!(url.username().is_empty(), "username should be empty if user info is absent");
        assert_eq!(url.password(), None, "password should not exist if user info is absent");
    }
    host_asserts(&absolute_form.authority.host, url.host());
    match (absolute_form.authority.port, url.port_or_known_default()) {
        (None, Some(80 | 443)) => {}
        (Some(port), Some(port2)) => {
            assert_eq!(port, port2, "expected port {port} but parsed {port2}");
        }
        (port, port2) => panic!("expected port {port:?} but parsed {port2:?}"),
    }
    match (&absolute_form.path, url.path()) {
        (Some(path), path2) => path_asserts(path, path2),
        (None, path) => {
            assert!(path.is_empty() || path == "/", "expected path to be empty but parsed {path}");
        }
    }
    match (absolute_form.query.as_deref(), url.query()) {
        (None, None) => {}
        (Some(query), Some(query2)) => assert_eq!(parsed_query(&query_text(query)), query2),
        (query, query2) => panic!("expected query {query:?} but got {query2:?}"),
    }
    match (absolute_form.fragment.as_deref(), url.fragment()) {
        (None, None) => {}
        (Some(fragment), Some(fragment2)) => assert_eq!(fragment, fragment2),
        (fragment, fragment2) => panic!("expected fragment {fragment:?} but parsed {fragment2:?}"),
    }
}

fn origin_asserts(origin: &OriginForm, repr: &str) {
    let url = Url::parse("https://example.com").unwrap().join(repr).unwrap();
    path_asserts(&origin.path, url.path());
    match (origin.query.as_deref(), url.query()) {
        (None, None) => {}
        (Some(query), Some(query2)) => {
            assert!(!query.is_empty());
            assert_eq!(parsed_query(&query_text(query)), query2);
        }
        (query, query2) => panic!("expected query {query:?} but got {query2:?}"),
    }
    let path_repr = repr.split('?').next().unwrap();
    assert!(path_repr.starts_with('/'));
    let expected = if path_repr == "/" {
        "/".to_string()
    } else {
        let raw: Vec<String> = path_repr[1..].split('/').map(|s| s.to_string()).collect();
        format!("/{}", normalize(&raw))
    };
    assert_eq!(origin.path.normalized, expected);
}

fn authority_asserts(host: &Host, port: u16, repr: &str) {
    let url = Url::parse(&format!("http://{repr}")).unwrap();
    host_asserts(host, url.host());
    if let Some(parsed) = url.port() {
        assert_eq!(port, parsed);
    } else {
        assert_eq!(80, port);
    }
}

fn target_asserts(target: &RequestTarget, repr: &str) {
    match target {
        RequestTarget::Absolute(absolute_form) => absolute_asserts(absolute_form, repr),
        RequestTarget::Origin(origin_form) => origin_asserts(origin_form, repr),
        RequestTarget::Authority(authority_form) => {
            authority_asserts(&authority_form.host, authority_form.port, repr);
        }
        RequestTarget::Asterisk => assert_eq!("*", repr),
    }
}

#[test]
fn the_verbs_by_number() {
    for (index, verb) in VERBS.iter().enumerate() {
        assert_eq!(request_verb_from(index), *verb);
        assert_eq!(verb_at(index), *verb);
    }
}

#[test]
fn request_verb_ok() {
    let mut rng = rng();
    let mut seen: Vec<String> = Vec::new();
    for _ in 0..500 {
        let verb = request_verb(&mut rng);
        request_verb_asserts(&verb);
        if !seen.contains(&verb) {
            seen.push(verb);
        }
    }
    assert_eq!(seen.len(), 9);
}

#[test]
fn letters_are_made_small_where_marked() {
    assert_eq!(request_verb_wrong_case_from("GET", &vec![true, false, false]), "gET");
    assert_eq!(request_verb_wrong_case_from("GET", &vec![false, true, true]), "Get");
    assert_eq!(request_verb_wrong_case_from("GET", &vec![false, false, false]), "GET");
    assert_eq!(request_verb_wrong_case_from("DELETE", &vec![true; 6]), "delete");
    assert_eq!(request_verb_wrong_case_from("a-B", &vec![true; 3]), "a-b");
}

#[test]
fn the_marks_of_a_mask() {
    assert_eq!(marks_from(1, 3), vec![true, false, false]);
    assert_eq!(marks_from(6, 3), vec![false, true, true]);
    assert_eq!(marks_from(0, 2), vec![false, false]);
    assert_eq!(marks_from(127, 7), vec![true; 7]);
    assert_eq!(marks_from(5, 0), Vec::<bool>::new());
}

#[test]
fn request_verb_wrong_case_ok() {
    let mut rng = rng();
    for _ in 0..1000 {
        let verb = request_verb_wrong_case(&mut rng);
        assert!(!VERBS.contains(&verb.as_str()), "should have the wrong case but got {verb}");
        let upper_case_verb = verb.to_uppercase();
        assert!(
            VERBS.contains(&upper_case_verb.as_str()),
            "upper case version of {verb:?} should be correct but got {upper_case_verb:?}"
        );
    }
}

#[test]
fn every_wrong_case_of_a_short_verb_is_drawn() {
    let mut rng = rng();
    let mut seen: Vec<String> = Vec::new();
    for _ in 0..5000 {
        let verb = request_verb_wrong_case(&mut rng);
        if verb.len() == 3 && verb.to_uppercase() == "GET" && !seen.contains(&verb) {
            seen.push(verb);
        }
    }
    seen.sort();
    assert_eq!(seen, strings(&["GEt", "GeT", "Get", "gET", "gEt", "geT", "get"]));
}

#[test]
fn request_verb_wrong_ok() {
    let mut rng = rng();
    for _ in 0..500 {
        let input = request_verb_wrong(&mut rng);
        assert!(!VERBS.contains(&input.as_str()), "expected a non-HTTP verb but got {input}");
        assert!(!input.contains('\n'));
        assert!(input.chars().count() <= 32);
    }
}

#[test]
fn a_verb_is_no_invalid_verb() {
    for verb in VERBS {
        assert!(is_valid_verb(verb));
        assert_eq!(request_verb_wrong_from(verb.to_string()), None);
    }
    for other in ["", "get", "Get", "GET ", " GET", "GETS", "GE", "PATCHES", "TRACE\n", "HEAD/"] {
        assert!(!is_valid_verb(other));
        assert_eq!(request_verb_wrong_from(other.to_string()), Some(other.to_string()));
    }
}

#[test]
fn the_versions_by_number() {
    assert_eq!(version_from(0), (HttpVersion::Http10, "HTTP/1.0".to_string()));
    assert_eq!(version_from(1), (HttpVersion::Http11, "HTTP/1.1".to_string()));
    assert_eq!(version_from(2), (HttpVersion::Http2, "HTTP/2".to_string()));
    assert_eq!(version_from(3), (HttpVersion::Http3, "HTTP/3".to_string()));
    assert_eq!(HttpVersion::Http10.to_string(), "HTTP/1.0");
    assert_eq!(HttpVersion::Http11.to_string(), "HTTP/1.1");
    assert_eq!(HttpVersion::Http2.to_string(), "HTTP/2");
    assert_eq!(HttpVersion::Http3.to_string(), "HTTP/3");
}

#[test]
fn version_works() {
    let mut rng = rng();
    let mut seen = [false; 4];
    for _ in 0..200 {
        let (version, repr) = version(&mut rng);
        version_asserts(&version, &repr);
        seen[match version {
            HttpVersion::Http10 => 0,
            HttpVersion::Http11 => 1,
            HttpVersion::Http2 => 2,
            HttpVersion::Http3 => 3,
        }] = true;
    }
    assert_eq!(seen, [true; 4]);
}

#[test]
fn asterisk_works() {
    assert_eq!(asterisk(), "*");
}

#[test]
fn the_origin_form_of_a_path_and_a_query() {
    let path = path_absolute_from(Some(path_rootless_from("a".to_string(), strings(&["b"]))));
    let query = query_from(vec![
        query_param_from("k".to_string(), "v".to_string()),
        query_param_from("e".to_string(), String::new()),
    ]);
    let (origin_form, repr) = origin_from(path, query);
    assert_eq!(repr, "/a/b?k=v&e=");
    assert_eq!(
        origin_form,
        OriginForm {
            path: Path { normalized: "/a/b".to_string() },
            query: Some(vec![
                QueryParam { key: "k".to_string(), value: Some("v".to_string()) },
                QueryParam { key: "e".to_string(), value: None },
            ]),
        }
    );
}

#[test]
fn a_query_without_parameters_leaves_no_question_mark() {
    let path = path_absolute_from(Some(path_rootless_from("a".to_string(), Vec::new())));
    let (origin_form, repr) = origin_from(path, query_from(Vec::new()));
    assert_eq!(repr, "/a");
    assert_eq!(origin_form, OriginForm { path: Path { normalized: "/a".to_string() }, query: None });
    let (origin_form, repr) = origin_from(path_absolute_from(None), query_from(Vec::new()));
    assert_eq!(repr, "/");
    assert_eq!(origin_form.query, None);
}

#[test]
fn origin_works() {
    let classes = CharacterClasses::new();
    let mut rng = rng();
    let mut with_query = false;
    let mut without_query = false;
    for _ in 0..2000 {
        let (origin, repr) = origin(&mut rng, &classes, 50, 0, 20);
        origin_asserts(&origin, &repr);
        with_query |= origin.query.is_some();
        without_query |= origin.query.is_none();
    }
    assert!(with_query && without_query);
}

#[test]
fn the_absolute_form_of_its_parts() {
    let authority = url_authority_from(
        Some(user_info_from("u".to_string(), Some("p".to_string()))),
        Host::Domain("example.com".to_string()),
        Some(8080),
    );
    let path = path_absolute_from(Some(path_rootless_from("a".to_string(), strings(&["..", "b"]))));
    let query = query_from(vec![query_param_from("k".to_string(), "v".to_string())]);
    let (form, repr) = absolute_from(
        "HTTP".to_string(),
        authority,
        Some(path),
        Some(query),
        Some("top".to_string()),
    );
    assert_eq!(repr, "HTTP://u:p@example.com:8080/a/../b?k=v#top");
    assert_eq!(form.scheme, "HTTP");
    assert_eq!(form.authority.port, Some(8080));
    assert_eq!(form.path, Some(Path { normalized: "/b".to_string() }));
    assert_eq!(
        form.query,
        Some(vec![QueryParam { key: "k".to_string(), value: Some("v".to_string()) }])
    );
    assert_eq!(form.fragment, Some("top".to_string()));
}

#[test]
fn the_absolute_form_without_what_may_be_left_out() {
    let authority = url_authority_from(None, Host::Domain("example.com".to_string()), None);
    let (form, repr) = absolute_from("https".to_string(), authority, None, None, None);
    assert_eq!(repr, "https://example.com");
    assert_eq!(form.path, None);
    assert_eq!(form.query, None);
    assert_eq!(form.fragment, None);
    let authority = url_authority_from(None, Host::Domain("example.com".to_string()), None);
    let (form, repr) = absolute_from(
        "http".to_string(),
        authority,
        None,
        Some(query_from(Vec::new())),
        Some(String::new()),
    );
    assert_eq!(repr, "http://example.com?#");
    assert_eq!(form.query, Some(Vec::new()));
    assert_eq!(form.fragment, Some(String::new()));
}

#[test]
fn absolute_works() {
    let classes = CharacterClasses::new();
    let mut rng = rng();
    for _ in 0..2000 {
        let (absolute_form, repr) = absolute(&mut rng, &classes, 20, 50, 0, 20);
        absolute_asserts(&absolute_form, &repr);
    }
}

#[test]
fn target_works() {
    let classes = CharacterClasses::new();
    let mut rng = rng();
    let mut forms = [false; 4];
    for _ in 0..800 {
        let (target, repr) = target(&mut rng, &classes, 20, 50, 0, 20);
        target_asserts(&target, &repr);
        forms[match target {
            RequestTarget::Absolute(_) => 0,
            RequestTarget::Origin(_) => 1,
            RequestTarget::Authority(_) => 2,
            RequestTarget::Asterisk => 3,
        }] = true;
    }
    assert_eq!(forms, [true; 4]);
}

#[test]
fn the_request_line_of_its_parts() {
    let (line, repr) = request_line_from(
        "GET".to_string(),
        (RequestTarget::Asterisk, "*".to_string()),
        version_from(1),
    );
    assert_eq!(repr, "GET * HTTP/1.1");
    assert_eq!(
        line,
        HttpRequestLine {
            verb: "GET".to_string(),
            target: RequestTarget::Asterisk,
            version: HttpVersion::Http11,
        }
    );
    let (form, form_repr) = authority_from(Host::Domain("example.com".to_string()), 443);
    let (_, repr) = request_line_from(
        "CONNECT".to_string(),
        (RequestTarget::Authority(form), form_repr),
        version_from(3),
    );
    assert_eq!(repr, "CONNECT example.com:443 HTTP/3");
}

#[test]
fn request_line_works() {
    let classes = CharacterClasses::new();
    let mut rng = rng();
    for _ in 0..500 {
        let (request_line, repr) = request_line(&mut rng, &classes, 20, 50, 0, 20);
        let mut request_line_components = repr.split_ascii_whitespace();

        let verb = request_line_components.next().unwrap();
        assert_eq!(verb, request_line.verb);
        request_verb_asserts(verb);

        let target = request_line_components.next().unwrap();
        target_asserts(&request_line.target, target);

        let version = request_line_components.next().unwrap();
        version_asserts(&request_line.version, version);

        assert_eq!(request_line_components.next(), None);
        assert_eq!(repr.matches(' ').count(), 2);
    }
}

#[test]
fn bounds_that_allow_nothing_are_refused() {
    let classes = CharacterClasses::new();
    let mut rng = rng();
    assert_eq!(try_request_line(&mut rng, &classes, 0, 5, 0, 5), Err(BoundsError::NoLabel));
    assert_eq!(try_request_line(&mut rng, &classes, 5, 0, 0, 5), Err(BoundsError::NoSegment));
    assert_eq!(try_request_line(&mut rng, &classes, 5, 5, 6, 5), Err(BoundsError::NoQueryCount));
    assert_eq!(try_request_line(&mut rng, &classes, 0, 0, 6, 5), Err(BoundsError::NoLabel));
    assert_eq!(try_request_line(&mut rng, &classes, 5, 0, 6, 5), Err(BoundsError::NoSegment));
    let mut untouched = TestRng::deterministic_rng(RngAlgorithm::ChaCha);
    assert_eq!(
        try_request_line(&mut rng, &classes, 1, 1, 0, 0).unwrap(),
        request_line(&mut untouched, &classes, 1, 1, 0, 0)
    );
}
