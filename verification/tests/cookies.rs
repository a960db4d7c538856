use dnsd::net::IpAddr;
use dnsd::recursor::cookies::{build_option, parse_option_value, CookieState, CLIENT_COOKIE_LEN};

#[test]
fn client_cookie_is_stable_per_state() {
    let s = CookieState::new();
    let a = s.client_cookie();
    let b = s.client_cookie();
    assert_eq!(a, b, "client cookie must be stable within a process");
}

#[test]
fn server_cookie_roundtrip() {
    let mut s = CookieState::new();
    let srv: IpAddr = IpAddr::parse("10.0.0.1").unwrap();
    assert!(s.server_cookie_for(srv).is_none());
    s.remember(srv, vec![1, 2, 3, 4]);
    assert_eq!(s.server_cookie_for(srv), Some(vec![1, 2, 3, 4]));
    s.forget(srv);
    assert!(s.server_cookie_for(srv).is_none());
}

#[test]
fn build_and_parse_round_trip() {
    let client = [0xaa; CLIENT_COOKIE_LEN];
    let server = b"\x01\x02\x03\x04\x05\x06\x07\x08";
    let opt = build_option(&client, server);
    assert_eq!(&opt[..CLIENT_COOKIE_LEN], &client);
    assert_eq!(parse_option_value(&opt), Some(&server[..]));
}

#[test]
fn short_payload_rejected() {
    assert!(parse_option_value(&[0; 4]).is_none());
}

#[test]
fn servers_keep_their_own_cookies() {
    let mut s = CookieState::with_client_cookie([7; 8]);
    let a = IpAddr::parse("10.0.0.1").unwrap();
    let b = IpAddr::parse("2001:db8::1").unwrap();
    s.remember(a, vec![1]);
    s.remember(b, vec![2]);
    s.remember(a, vec![3]);
    assert_eq!(s.server_cookie_for(a), Some(vec![3]));
    assert_eq!(s.server_cookie_for(b), Some(vec![2]));
    s.forget(a);
    assert_eq!(s.server_cookie_for(b), Some(vec![2]));
    assert_eq!(s.client_cookie(), [7; 8]);
}

#[test]
fn random_client_cookies_differ() {
    let first = CookieState::new().client_cookie();
    assert!((0..16).any(|_| CookieState::new().client_cookie() != first));
}
