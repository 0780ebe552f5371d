use cors_policy::ascii::{bytes_eq, copy, copy_range, to_lower, trimmed_range};
use cors_policy::codec::{encode, join_tokens, lex_order, sorted_distinct, Order};
use cors_policy::headers::Headers;
use cors_policy::middleware::decimal_bytes;

fn tokens(items: &[&str]) -> Vec<Vec<u8>> {
    items.iter().map(|s| s.as_bytes().to_vec()).collect()
}

fn text(bytes: &[u8]) -> String {
    String::from_utf8(bytes.to_vec()).unwrap()
}

#[test]
fn encode_sorts_and_joins() {
    assert_eq!(text(&encode(&tokens(&["X", "A", "B"]))), "A, B, X");
    assert_eq!(text(&encode(&tokens(&["B", "X", "A"]))), "A, B, X");
}

#[test]
fn encode_is_independent_of_order_and_repetition() {
    let a = encode(&tokens(&["GET", "POST", "DELETE", "GET"]));
    let b = encode(&tokens(&["POST", "DELETE", "GET"]));
    assert_eq!(a, b);
    assert_eq!(text(&a), "DELETE, GET, POST");
}

#[test]
fn encode_of_nothing_is_empty() {
    assert_eq!(encode(&tokens(&[])), Vec::<u8>::new());
}

#[test]
fn encode_of_one_token_is_the_token() {
    assert_eq!(text(&encode(&tokens(&["GET"]))), "GET");
}

#[test]
fn encode_orders_by_bytes() {
    assert_eq!(text(&encode(&tokens(&["b", "B", "a", "ab", ""]))), ", B, a, ab, b");
}

#[test]
fn sorted_distinct_keeps_one_of_each() {
    let out = sorted_distinct(&tokens(&["b", "a", "b", "c", "a"]));
    assert_eq!(out, tokens(&["a", "b", "c"]));
}

#[test]
fn join_keeps_the_given_order() {
    assert_eq!(text(&join_tokens(&tokens(&["z", "a"]))), "z, a");
}

#[test]
fn lex_order_compares_bytewise() {
    let a = b"abc".to_vec();
    let b = b"abd".to_vec();
    let p = b"ab".to_vec();
    assert_eq!(lex_order(&a, &b), Order::Before);
    assert_eq!(lex_order(&b, &a), Order::After);
    assert_eq!(lex_order(&a, &a), Order::Same);
    assert_eq!(lex_order(&p, &a), Order::Before);
    assert_eq!(lex_order(&a, &p), Order::After);
    assert_eq!(lex_order(&Vec::new(), &Vec::new()), Order::Same);
}

#[test]
fn to_lower_folds_only_ascii_letters() {
    assert_eq!(text(&to_lower(&b"Content-TYPE_9@[`{".to_vec())), "content-type_9@[`{");
}

#[test]
fn trimmed_range_strips_surrounding_whitespace() {
    let s = b",  X-Custom \t,".to_vec();
    let (lo, hi) = trimmed_range(&s, 1, 13);
    assert_eq!(text(&copy_range(&s, lo, hi)), "X-Custom");
    let blank = b"   ".to_vec();
    let (lo, hi) = trimmed_range(&blank, 0, 3);
    assert_eq!(lo, hi);
}

#[test]
fn copies_are_equal_to_their_source() {
    let s = b"http://example.com".to_vec();
    assert!(bytes_eq(&copy(&s), &s));
    assert!(!bytes_eq(&s, &b"http://example.org".to_vec()));
    assert!(!bytes_eq(&s, &b"http".to_vec()));
}

#[test]
fn decimal_bytes_writes_digits() {
    assert_eq!(text(&decimal_bytes(0)), "0");
    assert_eq!(text(&decimal_bytes(9)), "9");
    assert_eq!(text(&decimal_bytes(10)), "10");
    assert_eq!(text(&decimal_bytes(3600)), "3600");
    assert_eq!(text(&decimal_bytes(usize::MAX)), format!("{}", usize::MAX));
}

#[test]
fn headers_are_found_whatever_the_case() {
    let mut h = Headers::new();
    assert!(h.is_empty());
    h.insert(&b"Content-Type".to_vec(), b"text/plain".to_vec());
    assert!(!h.is_empty());
    assert_eq!(h.get(&b"content-type".to_vec()), Some(&b"text/plain".to_vec()));
    assert_eq!(h.get(&b"CONTENT-TYPE".to_vec()), Some(&b"text/plain".to_vec()));
    assert_eq!(h.get(&b"Accept".to_vec()), None);
    assert!(h.contains_key(&b"Content-type".to_vec()));
    assert!(!h.contains_key(&b"Vary".to_vec()));
}

#[test]
fn headers_insert_replaces_the_value() {
    let mut h = Headers::new();
    h.insert(&b"Vary".to_vec(), b"Accept".to_vec());
    h.insert(&b"X-Id".to_vec(), b"1".to_vec());
    h.insert(&b"vary".to_vec(), b"Origin".to_vec());
    assert_eq!(h.get(&b"Vary".to_vec()), Some(&b"Origin".to_vec()));
    assert_eq!(h.get(&b"X-Id".to_vec()), Some(&b"1".to_vec()));
    let mut names = h.names();
    names.sort();
    assert_eq!(names, tokens(&["vary", "x-id"]));
}
