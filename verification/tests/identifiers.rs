use pds_client::identifiers::{parse_did, parse_handle, str_lt, UserDid};
use std::collections::BTreeSet;

#[test]
fn did_plc_is_accepted() {
    assert_eq!(parse_did("did:plc:ewvi7nxzyoun6zhxrhs64oiz"), Ok("did:plc:ewvi7nxzyoun6zhxrhs64oiz".to_string()));
}

#[test]
fn did_web_with_port_is_accepted() {
    assert_eq!(parse_did("did:web:example.com%3A8080"), Ok("did:web:example.com%3A8080".to_string()));
}

#[test]
fn did_with_upper_case_method_is_refused() {
    assert_eq!(parse_did("did:PLC:abc"), Err("Invalid DID".to_string()));
}

#[test]
fn did_ending_in_colon_is_refused() {
    assert_eq!(parse_did("did:web:example.com:"), Err("Invalid DID".to_string()));
}

#[test]
fn did_without_method_is_refused() {
    assert_eq!(parse_did("did::abc"), Err("Invalid DID".to_string()));
    assert_eq!(parse_did("plc:abc"), Err("Invalid DID".to_string()));
}

#[test]
fn did_over_2048_bytes_is_too_long() {
    let long = format!("did:plc:{}", "a".repeat(2041));
    assert_eq!(parse_did(&long), Err("DID too long".to_string()));
    let limit = format!("did:plc:{}", "a".repeat(2040));
    assert_eq!(parse_did(&limit), Ok(limit.clone()));
}

#[test]
fn handle_with_two_labels_is_accepted() {
    assert_eq!(parse_handle("alice.bsky.social"), Ok("alice.bsky.social".to_string()));
    assert_eq!(parse_handle("a-b.example.com"), Ok("a-b.example.com".to_string()));
}

#[test]
fn handle_with_one_label_is_refused() {
    assert_eq!(parse_handle("alice"), Err("Invalid handle".to_string()));
}

#[test]
fn handle_with_bad_hyphen_or_tld_is_refused() {
    assert_eq!(parse_handle("-alice.com"), Err("Invalid handle".to_string()));
    assert_eq!(parse_handle("alice-.com"), Err("Invalid handle".to_string()));
    assert_eq!(parse_handle("alice.1com"), Err("Invalid handle".to_string()));
    assert_eq!(parse_handle("alice..com"), Err("Invalid handle".to_string()));
    assert_eq!(parse_handle("alice.com."), Err("Invalid handle".to_string()));
}

#[test]
fn handle_label_of_64_characters_is_refused() {
    let ok = format!("{}.com", "a".repeat(63));
    assert_eq!(parse_handle(&ok), Ok(ok.clone()));
    let bad = format!("{}.com", "a".repeat(64));
    assert_eq!(parse_handle(&bad), Err("Invalid handle".to_string()));
}

#[test]
fn handle_over_253_bytes_is_too_long() {
    let long = format!("{}.{}.{}.{}.com", "a".repeat(63), "b".repeat(63), "c".repeat(63), "d".repeat(63));
    assert!(long.len() > 253);
    assert_eq!(parse_handle(&long), Err("Handle too long".to_string()));
}

#[test]
fn user_did_parses_and_displays() {
    let d = UserDid::from_str("did:plc:abc").unwrap();
    assert_eq!(d.as_str(), "did:plc:abc");
    assert_eq!(d.to_string(), "did:plc:abc");
    assert_eq!(UserDid::from_str("nope").err(), Some("Invalid DID".to_string()));
}

#[test]
fn user_dids_order_as_their_text() {
    let a = UserDid("did:plc:aaa".to_string());
    let b = UserDid("did:plc:aab".to_string());
    let c = UserDid("did:plc:aa".to_string());
    assert!(a.precedes(&b));
    assert!(!b.precedes(&a));
    assert!(c.precedes(&a));
    assert!(!a.precedes(&a));
    assert!(a.same(&UserDid("did:plc:aaa".to_string())));
    assert!(!a.same(&b));
}

#[test]
fn text_order_matches_std() {
    let words = ["", "a", "ab", "b", "B", "did:web:x", "did:plc:y", "é", "z"];
    for x in words.iter() {
        for y in words.iter() {
            assert_eq!(str_lt(x, y), x < y, "{x} < {y}");
        }
    }
}

#[test]
fn user_dids_compare_by_text() {
    let a = UserDid::from_str("did:plc:aaa").unwrap();
    let b = UserDid::from_str("did:plc:bbb").unwrap();
    let a2 = UserDid("did:plc:aaa".to_string());
    assert!(a == a2);
    assert!(a != b);
    assert!(a < b);
    assert!(b > a);
    assert_eq!(a.partial_cmp(&b), Some(std::cmp::Ordering::Less));
    assert_eq!(a.cmp(&a2), std::cmp::Ordering::Equal);
    let set: BTreeSet<UserDid> = [b.clone(), a.clone(), a2.clone()].into_iter().collect();
    let order: Vec<&str> = set.iter().map(|d| d.as_str()).collect();
    assert_eq!(order, vec!["did:plc:aaa", "did:plc:bbb"]);
}

#[test]
fn user_did_parses_with_from_str() {
    let d: UserDid = "did:plc:abc".parse().unwrap();
    assert_eq!(d.as_str(), "did:plc:abc");
    assert_eq!("not a did".parse::<UserDid>(), Err("Invalid DID".to_string()));
}
