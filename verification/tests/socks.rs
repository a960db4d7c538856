use dnsd::net::{IpAddr, SocketAddr};
use dnsd::recursor::socks::{
    advance, reply_error, start, SocksError, SocksNext, SocksState, ATYP_DOMAIN, ATYP_V4, ATYP_V6,
    CMD_CONNECT, M_NOAUTH, M_NONE, M_USERPASS, VER,
};

fn target() -> SocketAddr {
    SocketAddr { ip: IpAddr::parse("9.9.9.9").unwrap(), port: 853 }
}

fn go(state: SocksState, user: Option<&str>, reply: &[u8]) -> (SocksState, Vec<u8>) {
    assert_eq!(reply.len(), state.expected());
    match advance(state, user, target(), reply).unwrap() {
        SocksNext::Go(s, b) => (s, b),
        SocksNext::Connected => panic!("connected too early"),
    }
}

#[test]
fn noauth_connect_ok() {
    assert_eq!(start(None), [VER, 1, M_NOAUTH]);
    let (state, req) = go(SocksState::Method, None, &[VER, M_NOAUTH]);
    assert_eq!(req.len(), 10);
    assert_eq!(&req[..4], &[VER, CMD_CONNECT, 0x00, ATYP_V4]);
    assert_eq!(&req[4..8], &[9, 9, 9, 9]);
    assert_eq!(&req[8..], &[0x03, 0x55]);
    let (state, none) = go(state, None, &[VER, 0x00, 0x00, ATYP_V4]);
    assert!(none.is_empty());
    assert_eq!(state.expected(), 6);
    assert!(matches!(
        advance(state, None, target(), &[0, 0, 0, 0, 0, 0]),
        Ok(SocksNext::Connected)
    ));
}

#[test]
fn userpass_connect_ok() {
    let user = Some("cust-a");
    assert_eq!(start(user), [VER, 2, M_NOAUTH, M_USERPASS]);
    let (state, auth) = go(SocksState::Method, user, &[VER, M_USERPASS]);
    assert_eq!(auth[0], 0x01);
    assert_eq!(auth[1], 6);
    assert_eq!(&auth[2..8], b"cust-a");
    assert_eq!(auth[8], 0);
    assert_eq!(auth.len(), 9);
    let (state, req) = go(state, user, &[0x01, 0x00]);
    assert_eq!(req.len(), 10);
    let (state, _) = go(state, user, &[VER, 0x00, 0x00, ATYP_V4]);
    assert!(matches!(
        advance(state, user, target(), &[0, 0, 0, 0, 0, 0]),
        Ok(SocksNext::Connected)
    ));
}

#[test]
fn connect_failure_is_an_error() {
    let (state, _) = go(SocksState::Method, None, &[VER, M_NOAUTH]);
    match advance(state, None, target(), &[VER, 0x05, 0x00, ATYP_V4]) {
        Err(SocksError::ConnectFailed(rep)) => {
            assert!(reply_error(rep).contains("connection refused"), "got: {rep}")
        }
        other => panic!("expected a failure, got {other:?}"),
    }
}

#[test]
fn each_failure_is_named() {
    let t = target();
    let cases: Vec<(SocksState, Option<&str>, Vec<u8>, SocksError)> = vec![
        (SocksState::Method, Some("u"), vec![4, 0], SocksError::BadVersion(4)),
        (SocksState::Connect, None, vec![4, 0, 0, 1], SocksError::BadVersion(4)),
        (SocksState::Method, Some("u"), vec![VER, M_NONE], SocksError::AllMethodsRejected),
        (SocksState::Method, Some("u"), vec![VER, 7], SocksError::UnknownMethod(7)),
        (SocksState::Auth, Some("u"), vec![2, 0], SocksError::BadAuthVersion(2)),
        (SocksState::Auth, Some("u"), vec![1, 1], SocksError::AuthRejected),
        (SocksState::Connect, None, vec![VER, 0, 0, 9], SocksError::UnknownAddressType(9)),
    ];
    for (state, user, reply, want) in cases {
        assert_eq!(advance(state, user, t, &reply).unwrap_err(), want);
    }
    let long = "u".repeat(256);
    assert_eq!(
        advance(SocksState::Method, Some(&long), t, &[VER, M_USERPASS]).unwrap_err(),
        SocksError::UsernameTooLong
    );
    assert!(matches!(
        advance(SocksState::Method, None, t, &[VER, M_USERPASS]),
        Err(SocksError::NoAuthRefused(_, _))
    ));
}

#[test]
fn bound_addresses_are_drained() {
    let t = target();
    let (s, _) = go(SocksState::Connect, None, &[VER, 0, 0, ATYP_V6]);
    assert_eq!(s.expected(), 18);
    let (s, _) = go(SocksState::Connect, None, &[VER, 0, 0, ATYP_DOMAIN]);
    assert_eq!(s.expected(), 1);
    let (s, _) = go(s, None, &[11]);
    assert_eq!(s.expected(), 13);
    assert!(matches!(advance(s, None, t, &[0; 13]), Ok(SocksNext::Connected)));
}
