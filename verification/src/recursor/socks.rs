//! SOCKS5 (RFC 1928, RFC 1929) as spoken to a Tor proxy: what to send and what to expect
//! next, after each reply.

use crate::bytes::{be16_bytes, push_all, push_be16};
use crate::net::{be_bytes, write_be, IpAddr, SocketAddr};
use vstd::prelude::*;

verus! {

/// Protocol version.
pub const VER: u8 = 0x05;

/// Authentication methods.
pub const M_NOAUTH: u8 = 0x00;

pub const M_USERPASS: u8 = 0x02;

pub const M_NONE: u8 = 0xff;

/// The CONNECT command.
pub const CMD_CONNECT: u8 = 0x01;

/// Address types.
pub const ATYP_V4: u8 = 0x01;

pub const ATYP_DOMAIN: u8 = 0x03;

pub const ATYP_V6: u8 = 0x04;

/// Why the proxy did not connect.
#[derive(Debug, Clone, Copy, PartialEq, Eq, Structural)]
pub enum SocksError {
    BadVersion(u8),
    NoAuthRefused(u8, u8),
    AllMethodsRejected,
    UnknownMethod(u8),
    UsernameTooLong,
    BadAuthVersion(u8),
    AuthRejected,
    ConnectFailed(u8),
    UnknownAddressType(u8),
}

/// Which reply is being waited for.
#[derive(Debug, Clone, Copy, PartialEq, Eq, Structural)]
pub enum SocksState {
    /// The choice of a method.
    Method,
    /// The verdict on user name and password.
    Auth,
    /// The start of the answer to CONNECT.
    Connect,
    /// The length of the name that the proxy bound.
    DomainLength,
    /// The rest of the answer to CONNECT, so many bytes.
    Drain(u16),
}

/// How many bytes the reply has.
pub open spec fn reply_len(s: SocksState) -> nat {
    match s {
        SocksState::Method => 2,
        SocksState::Auth => 2,
        SocksState::Connect => 4,
        SocksState::DomainLength => 1,
        SocksState::Drain(n) => n as nat,
    }
}

/// What to do next: go on in a state, after sending bytes; or nothing, the tunnel stands.
pub enum SocksNextV {
    Go(SocksState, Seq<u8>),
    Connected,
}

/// The greeting: user names are offered only where there is one.
pub open spec fn greeting(user: Option<Seq<u8>>) -> Seq<u8> {
    match user {
        Some(_) => seq![VER, 2, M_NOAUTH, M_USERPASS],
        None => seq![VER, 1, M_NOAUTH],
    }
}

/// The CONNECT request.
pub open spec fn connect_request(target: SocketAddr) -> Seq<u8> {
    seq![VER, CMD_CONNECT, 0] + (match target.ip {
        IpAddr::V4(a) => seq![ATYP_V4] + be_bytes(a as nat, 4),
        IpAddr::V6(a) => seq![ATYP_V6] + be_bytes(a as nat, 16),
    }) + be16_bytes(target.port)
}

/// User name and empty password.
pub open spec fn auth_request(user: Seq<u8>) -> Seq<u8> {
    seq![1u8, user.len() as u8] + user + seq![0u8]
}

/// What to do after a reply.
pub open spec fn socks_next(
    state: SocksState,
    user: Option<Seq<u8>>,
    target: SocketAddr,
    reply: Seq<u8>,
) -> Result<SocksNextV, SocksError> {
    match state {
        SocksState::Method => match user {
            None => if reply[0] != VER || reply[1] != M_NOAUTH {
                Err(SocksError::NoAuthRefused(reply[0], reply[1]))
            } else {
                Ok(SocksNextV::Go(SocksState::Connect, connect_request(target)))
            },
            Some(u) => if reply[0] != VER {
                Err(SocksError::BadVersion(reply[0]))
            } else if reply[1] == M_NOAUTH {
                Ok(SocksNextV::Go(SocksState::Connect, connect_request(target)))
            } else if reply[1] == M_USERPASS {
                if u.len() > 255 {
                    Err(SocksError::UsernameTooLong)
                } else {
                    Ok(SocksNextV::Go(SocksState::Auth, auth_request(u)))
                }
            } else if reply[1] == M_NONE {
                Err(SocksError::AllMethodsRejected)
            } else {
                Err(SocksError::UnknownMethod(reply[1]))
            },
        },
        SocksState::Auth => if reply[0] != 1 {
            Err(SocksError::BadAuthVersion(reply[0]))
        } else if reply[1] != 0 {
            Err(SocksError::AuthRejected)
        } else {
            Ok(SocksNextV::Go(SocksState::Connect, connect_request(target)))
        },
        SocksState::Connect => if reply[0] != VER {
            Err(SocksError::BadVersion(reply[0]))
        } else if reply[1] != 0 {
            Err(SocksError::ConnectFailed(reply[1]))
        } else if reply[3] == ATYP_V4 {
            Ok(SocksNextV::Go(SocksState::Drain(6), Seq::empty()))
        } else if reply[3] == ATYP_V6 {
            Ok(SocksNextV::Go(SocksState::Drain(18), Seq::empty()))
        } else if reply[3] == ATYP_DOMAIN {
            Ok(SocksNextV::Go(SocksState::DomainLength, Seq::empty()))
        } else {
            Err(SocksError::UnknownAddressType(reply[3]))
        },
        SocksState::DomainLength => Ok(
            SocksNextV::Go(SocksState::Drain((reply[0] + 2) as u16), Seq::empty()),
        ),
        SocksState::Drain(_) => Ok(SocksNextV::Connected),
    }
}

/// What to do next.
#[derive(Debug)]
pub enum SocksNext {
    /// Send the bytes, then wait for a reply in this state.
    Go(SocksState, Vec<u8>),
    /// The tunnel stands.
    Connected,
}

impl View for SocksNext {
    type V = SocksNextV;

    open spec fn view(&self) -> SocksNextV {
        match self {
            SocksNext::Go(s, b) => SocksNextV::Go(*s, b@),
            SocksNext::Connected => SocksNextV::Connected,
        }
    }
}

impl SocksState {
    /// How many bytes to read before going on.
    pub fn expected(&self) -> (r: usize)
        ensures
            r == reply_len(*self),
    {
        match self {
            SocksState::Method => 2,
            SocksState::Auth => 2,
            SocksState::Connect => 4,
            SocksState::DomainLength => 1,
            SocksState::Drain(n) => *n as usize,
        }
    }
}

/// The greeting, after which the choice of a method is waited for.
pub fn start(username: Option<&str>) -> (r: Vec<u8>)
    ensures
        r@ == greeting(
            match username {
                Some(u) => Some(vstd::utf8::encode_utf8(u@)),
                None => None,
            },
        ),
{
    let mut out: Vec<u8> = Vec::new();
    out.push(VER);
    if username.is_some() {
        out.push(2);
        out.push(M_NOAUTH);
        out.push(M_USERPASS);
        assert(out@ =~= seq![VER, 2, M_NOAUTH, M_USERPASS]);
    } else {
        out.push(1);
        out.push(M_NOAUTH);
        assert(out@ =~= seq![VER, 1, M_NOAUTH]);
    }
    out
}

fn make_connect_request(target: SocketAddr) -> (r: Vec<u8>)
    ensures
        r@ == connect_request(target),
{
    let mut out: Vec<u8> = Vec::new();
    out.push(VER);
    out.push(CMD_CONNECT);
    out.push(0);
    match target.ip {
        IpAddr::V4(a) => {
            out.push(ATYP_V4);
            push_all(&mut out, write_be(a as u128, 4).as_slice());
        },
        IpAddr::V6(a) => {
            out.push(ATYP_V6);
            push_all(&mut out, write_be(a, 16).as_slice());
        },
    }
    push_be16(&mut out, target.port);
    assert(out@ =~= connect_request(target));
    out
}

/// What to do after a reply of the length that the state expects.
pub fn advance(
    state: SocksState,
    username: Option<&str>,
    target: SocketAddr,
    reply: &[u8],
) -> (r: Result<SocksNext, SocksError>)
    requires
        reply@.len() == reply_len(state),
    ensures
        socks_next(
            state,
            match username {
                Some(u) => Some(vstd::utf8::encode_utf8(u@)),
                None => None,
            },
            target,
            reply@,
        ) == (match r {
            Ok(n) => Ok(n@),
            Err(e) => Err(e),
        }),
{
    match state {
        SocksState::Method => {
            match username {
                None => {
                    if reply[0] != VER || reply[1] != M_NOAUTH {
                        return Err(SocksError::NoAuthRefused(reply[0], reply[1]));
                    }
                },
                Some(u) => {
                    if reply[0] != VER {
                        return Err(SocksError::BadVersion(reply[0]));
                    }
                    if reply[1] == M_USERPASS {
                        let user: &[u8] = u.as_bytes();
                        if user.len() > 255 {
                            return Err(SocksError::UsernameTooLong);
                        }
                        let mut out: Vec<u8> = Vec::new();
                        out.push(1);
                        out.push(user.len() as u8);
                        push_all(&mut out, user);
                        out.push(0);
                        assert(out@ =~= auth_request(vstd::utf8::encode_utf8(u@)));
                        return Ok(SocksNext::Go(SocksState::Auth, out));
                    }
                    if reply[1] == M_NONE {
                        return Err(SocksError::AllMethodsRejected);
                    }
                    if reply[1] != M_NOAUTH {
                        return Err(SocksError::UnknownMethod(reply[1]));
                    }
                },
            }
            Ok(SocksNext::Go(SocksState::Connect, make_connect_request(target)))
        },
        SocksState::Auth => {
            if reply[0] != 1 {
                return Err(SocksError::BadAuthVersion(reply[0]));
            }
            if reply[1] != 0 {
                return Err(SocksError::AuthRejected);
            }
            Ok(SocksNext::Go(SocksState::Connect, make_connect_request(target)))
        },
        SocksState::Connect => {
            if reply[0] != VER {
                return Err(SocksError::BadVersion(reply[0]));
            }
            if reply[1] != 0 {
                return Err(SocksError::ConnectFailed(reply[1]));
            }
            let nothing: Vec<u8> = Vec::new();
            assert(nothing@ =~= Seq::empty());
            if reply[3] == ATYP_V4 {
                Ok(SocksNext::Go(SocksState::Drain(6), nothing))
            } else if reply[3] == ATYP_V6 {
                Ok(SocksNext::Go(SocksState::Drain(18), nothing))
            } else if reply[3] == ATYP_DOMAIN {
                Ok(SocksNext::Go(SocksState::DomainLength, nothing))
            } else {
                Err(SocksError::UnknownAddressType(reply[3]))
            }
        },
        SocksState::DomainLength => {
            let nothing: Vec<u8> = Vec::new();
            assert(nothing@ =~= Seq::empty());
            Ok(SocksNext::Go(SocksState::Drain(reply[0] as u16 + 2), nothing))
        },
        SocksState::Drain(_) => Ok(SocksNext::Connected),
    }
}

/// What a CONNECT reply code means.
pub open spec fn reply_text(rep: u8) -> Seq<char> {
    if rep == 1 {
        "general SOCKS server failure"@
    } else if rep == 2 {
        "connection not allowed by ruleset"@
    } else if rep == 3 {
        "network unreachable"@
    } else if rep == 4 {
        "host unreachable"@
    } else if rep == 5 {
        "connection refused"@
    } else if rep == 6 {
        "TTL expired"@
    } else if rep == 7 {
        "command not supported"@
    } else if rep == 8 {
        "address type not supported"@
    } else {
        "unknown SOCKS error code"@
    }
}

/// What a CONNECT reply code means.
pub fn reply_error(rep: u8) -> (r: &'static str)
    ensures
        r@ == reply_text(rep),
{
    match rep {
        1 => "general SOCKS server failure",
        2 => "connection not allowed by ruleset",
        3 => "network unreachable",
        4 => "host unreachable",
        5 => "connection refused",
        6 => "TTL expired",
        7 => "command not supported",
        8 => "address type not supported",
        _ => "unknown SOCKS error code",
    }
}

/// Nothing is sent through the tunnel before the proxy has said that it connected: the
/// last part of its answer is waited for only after a CONNECT reply of success.
pub proof fn law_tunnel_needs_success(
    state: SocksState,
    user: Option<Seq<u8>>,
    target: SocketAddr,
    reply: Seq<u8>,
)
    requires
        state == SocksState::Connect,
        reply.len() == reply_len(state),
        socks_next(state, user, target, reply) is Ok,
    ensures
        reply[0] == VER && reply[1] == 0,
        !(socks_next(state, user, target, reply)->Ok_0 is Connected),
{
}

/// The way to a tunnel: a greeting is offered; where no authentication is asked for, or after
/// it was accepted, the target is asked for; and once the proxy agrees, and has named its own
/// address, the tunnel stands.
pub proof fn law_way_to_the_tunnel(user: Option<Seq<u8>>, target: SocketAddr, reply: Seq<u8>)
    ensures
        reply.len() == 2 && reply[0] == 5 && reply[1] == 0 ==> socks_next(
            SocksState::Method,
            user,
            target,
            reply,
        ) == Ok::<SocksNextV, SocksError>(
            SocksNextV::Go(SocksState::Connect, connect_request(target)),
        ),
        user is Some && user->0.len() <= 255 && reply.len() == 2 && reply[0] == 5 && reply[1] == 2
            ==> socks_next(SocksState::Method, user, target, reply) == Ok::<SocksNextV, SocksError>(
            SocksNextV::Go(
                SocksState::Auth,
                seq![1u8, user->0.len() as u8] + user->0 + seq![0u8],
            ),
        ),
        reply.len() == 2 && reply[0] == 1 && reply[1] == 0 ==> socks_next(
            SocksState::Auth,
            user,
            target,
            reply,
        ) == Ok::<SocksNextV, SocksError>(
            SocksNextV::Go(SocksState::Connect, connect_request(target)),
        ),
        reply.len() == 4 && reply[0] == 5 && reply[1] == 0 && reply[3] == 1 ==> socks_next(
            SocksState::Connect,
            user,
            target,
            reply,
        ) == Ok::<SocksNextV, SocksError>(SocksNextV::Go(SocksState::Drain(6), Seq::empty())),
        reply.len() == 4 && reply[0] == 5 && reply[1] == 0 && reply[3] == 4 ==> socks_next(
            SocksState::Connect,
            user,
            target,
            reply,
        ) == Ok::<SocksNextV, SocksError>(SocksNextV::Go(SocksState::Drain(18), Seq::empty())),
        reply.len() == 4 && reply[0] == 5 && reply[1] == 0 && reply[3] == 3 ==> socks_next(
            SocksState::Connect,
            user,
            target,
            reply,
        ) == Ok::<SocksNextV, SocksError>(SocksNextV::Go(SocksState::DomainLength, Seq::empty())),
        reply.len() == 1 ==> socks_next(SocksState::DomainLength, user, target, reply) == Ok::<
            SocksNextV,
            SocksError,
        >(SocksNextV::Go(SocksState::Drain((reply[0] + 2) as u16), Seq::empty())),
{
}

/// A refusal at any point ends the way: another version, a method that was not offered, a
/// rejected user, a failed connection.
pub proof fn law_refusals_end_the_way(user: Option<Seq<u8>>, target: SocketAddr, reply: Seq<u8>)
    ensures
        reply.len() == 2 && reply[0] != 5 ==> socks_next(SocksState::Method, user, target, reply) is Err,
        user is None && reply.len() == 2 && reply[1] != 0 ==> socks_next(
            SocksState::Method,
            user,
            target,
            reply,
        ) is Err,
        reply.len() == 2 && reply[1] != 0 && reply[1] != 2 ==> socks_next(
            SocksState::Method,
            user,
            target,
            reply,
        ) is Err,
        reply.len() == 2 && (reply[0] != 1 || reply[1] != 0) ==> socks_next(
            SocksState::Auth,
            user,
            target,
            reply,
        ) is Err,
        reply.len() == 4 && (reply[0] != 5 || reply[1] != 0) ==> socks_next(
            SocksState::Connect,
            user,
            target,
            reply,
        ) is Err,
{
}

/// The target is asked for by its address, of either family, and its port, the higher octet
/// first; a user is offered exactly where there is one.
pub proof fn law_requests_name_the_target(port: u16, a: u32, b: u128, user: Seq<u8>)
    ensures
        connect_request(SocketAddr { ip: IpAddr::V4(a), port }) == seq![5u8, 1, 0, 1] + be_bytes(
            a as nat,
            4,
        ) + be16_bytes(port),
        connect_request(SocketAddr { ip: IpAddr::V6(b), port }) == seq![5u8, 1, 0, 4] + be_bytes(
            b as nat,
            16,
        ) + be16_bytes(port),
        greeting(None) == seq![5u8, 1, 0],
        greeting(Some(user)) == seq![5u8, 2, 0, 2],
{
    assert(connect_request(SocketAddr { ip: IpAddr::V4(a), port }) =~= seq![5u8, 1, 0, 1]
        + be_bytes(a as nat, 4) + be16_bytes(port));
    assert(connect_request(SocketAddr { ip: IpAddr::V6(b), port }) =~= seq![5u8, 1, 0, 4]
        + be_bytes(b as nat, 16) + be16_bytes(port));
}

} // verus!
