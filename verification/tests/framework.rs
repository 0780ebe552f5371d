use actix_web::http::header::{self, HeaderMap, HeaderName, HeaderValue};
use cors_policy::framework::{read_headers, write_back};
use cors_policy::headers::Headers;
use cors_policy::middleware::CorsMiddleware;
use cors_policy::policy::{AllowancePolicy, CorsPolicy, OriginPolicy, RequestHead};

type Predicate = fn(&Vec<u8>, &RequestHead) -> bool;

fn bytes(s: &str) -> Vec<u8> {
    s.as_bytes().to_vec()
}

#[test]
fn read_headers_takes_each_name_with_its_first_value() {
    let mut map = HeaderMap::new();
    map.append(header::SET_COOKIE, HeaderValue::from_static("one=1"));
    map.append(header::SET_COOKIE, HeaderValue::from_static("two=2"));
    map.append(header::ORIGIN, HeaderValue::from_static("http://example.com"));
    map.append(HeaderName::from_static("x-custom"), HeaderValue::from_bytes(b"caf\xe9").unwrap());
    let h = read_headers(&map);
    assert_eq!(h.get(&bytes("Set-Cookie")), Some(&bytes("one=1")));
    assert_eq!(h.get(&bytes("origin")), Some(&bytes("http://example.com")));
    assert_eq!(h.get(&bytes("X-Custom")), Some(&b"caf\xe9".to_vec()));
    assert_eq!(h.get(&bytes("Vary")), None);
    let mut names = h.names();
    names.sort();
    assert_eq!(names, vec![bytes("origin"), bytes("set-cookie"), bytes("x-custom")]);
}

#[test]
fn read_headers_of_an_empty_map_is_empty() {
    let h = read_headers(&HeaderMap::new());
    assert!(h.is_empty());
}

#[test]
fn write_back_puts_what_changed_and_keeps_the_rest() {
    let mut map = HeaderMap::new();
    map.append(header::SET_COOKIE, HeaderValue::from_static("one=1"));
    map.append(header::SET_COOKIE, HeaderValue::from_static("two=2"));
    map.append(header::VARY, HeaderValue::from_static("Accept"));
    map.append(header::VARY, HeaderValue::from_static("Accept-Language"));
    let before = read_headers(&map);
    let mut after = read_headers(&map);
    after.insert(&bytes("Vary"), bytes("Accept, Origin"));
    after.insert(&bytes("Access-Control-Allow-Origin"), bytes("*"));
    let refused = write_back(&before, &after, &mut map);
    assert!(refused.is_empty());
    let cookies: Vec<&[u8]> = map.get_all(header::SET_COOKIE).map(|v| v.as_bytes()).collect();
    assert_eq!(cookies, vec![&b"one=1"[..], &b"two=2"[..]]);
    let vary: Vec<&[u8]> = map.get_all(header::VARY).map(|v| v.as_bytes()).collect();
    assert_eq!(vary, vec![&b"Accept, Origin"[..]]);
    assert_eq!(
        map.get(header::ACCESS_CONTROL_ALLOW_ORIGIN).map(|v| v.as_bytes()),
        Some(&b"*"[..])
    );
    assert_eq!(map.len_keys(), 3);
}

#[test]
fn write_back_returns_the_names_that_cannot_be_sent() {
    let mut map = HeaderMap::new();
    map.insert(header::VARY, HeaderValue::from_static("Accept"));
    let before = read_headers(&map);
    let mut after = read_headers(&map);
    after.insert(&bytes("Vary"), bytes("Accept\nOrigin"));
    after.insert(&bytes("bad name"), bytes("1"));
    after.insert(&bytes("X-Fine"), bytes("1"));
    let mut refused = write_back(&before, &after, &mut map);
    refused.sort();
    assert_eq!(refused, vec![bytes("bad name"), bytes("vary")]);
    assert_eq!(map.get(header::VARY).map(|v| v.as_bytes()), Some(&b"Accept"[..]));
    assert_eq!(map.get("x-fine").map(|v| v.as_bytes()), Some(&b"1"[..]));
    assert_eq!(map.len_keys(), 2);
}

#[test]
fn write_back_of_nothing_changes_nothing() {
    let mut map = HeaderMap::new();
    map.insert(header::VARY, HeaderValue::from_static("Accept"));
    let before = read_headers(&map);
    let after = read_headers(&map);
    assert!(write_back(&before, &after, &mut map).is_empty());
    assert_eq!(map.get(header::VARY).map(|v| v.as_bytes()), Some(&b"Accept"[..]));
    assert_eq!(map.len(), 1);
    let mut fresh = HeaderMap::new();
    assert!(write_back(&Headers::new(), &after, &mut fresh).is_empty());
    assert_eq!(fresh.get(header::VARY).map(|v| v.as_bytes()), Some(&b"Accept"[..]));
}

#[test]
fn augment_map_adds_the_cors_headers_to_a_framework_map() {
    let policy: CorsPolicy<Predicate> = CorsPolicy::new(
        OriginPolicy::AllowList(vec![bytes("http://example.com")]),
        vec![bytes("GET")],
        AllowancePolicy::AllowAll,
        AllowancePolicy::AllowList(vec![bytes("X-Trace")]),
        true,
        None,
        true,
        true,
    )
    .unwrap();
    let mut request = HeaderMap::new();
    request.insert(header::ORIGIN, HeaderValue::from_static("http://example.com"));
    let head = RequestHead { method: bytes("GET"), headers: read_headers(&request) };
    let mut map = HeaderMap::new();
    map.append(header::VARY, HeaderValue::from_static("Accept"));
    map.append(header::SET_COOKIE, HeaderValue::from_static("one=1"));
    map.append(header::SET_COOKIE, HeaderValue::from_static("two=2"));
    let refused = CorsMiddleware::<(), Predicate>::augment_map(&policy, &head, &mut map);
    assert!(refused.is_empty());
    let get = |name: &str| map.get(name).map(|v| v.as_bytes().to_vec());
    assert_eq!(get("access-control-allow-origin"), Some(bytes("http://example.com")));
    assert_eq!(get("access-control-allow-credentials"), Some(bytes("true")));
    assert_eq!(get("access-control-expose-headers"), Some(bytes("X-Trace")));
    assert_eq!(get("vary"), Some(bytes("Accept, Origin")));
    assert_eq!(map.get_all(header::SET_COOKIE).count(), 2);
    assert_eq!(map.len_keys(), 5);
}

#[test]
fn write_back_refuses_exactly_the_values_that_cannot_be_sent() {
    let cases: [(&[u8], bool); 7] = [
        (b"", true),
        (b"a\tb", true),
        (b" spaced ", true),
        (b"caf\xe9\xff", true),
        (b"a\x7fb", false),
        (b"a\x1fb", false),
        (b"a\r\nb", false),
    ];
    for (value, accepted) in cases {
        let mut map = HeaderMap::new();
        let mut after = Headers::new();
        after.insert(&bytes("X-Probe"), value.to_vec());
        let refused = write_back(&Headers::new(), &after, &mut map);
        if accepted {
            assert!(refused.is_empty());
            assert_eq!(map.get("x-probe").map(|v| v.as_bytes()), Some(value));
        } else {
            assert_eq!(refused, vec![bytes("x-probe")]);
            assert!(map.is_empty());
        }
    }
}

#[test]
fn write_back_refuses_names_that_are_no_header_names() {
    for name in ["", "two words", "caf\u{e9}", "a:b"] {
        let mut map = HeaderMap::new();
        let mut after = Headers::new();
        after.insert(&bytes(name), bytes("1"));
        let refused = write_back(&Headers::new(), &after, &mut map);
        assert_eq!(refused, vec![bytes(name)]);
        assert!(map.is_empty());
    }
}
