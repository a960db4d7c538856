//! DNS cookies (RFC 7873).

use crate::bytes::{copy_bytes, push_all};
use crate::net::IpAddr;
use vstd::prelude::*;

verus! {

/// EDNS option code of a cookie.
pub const OPT_COOKIE: u16 = 10;

/// Length of a client cookie.
pub const CLIENT_COOKIE_LEN: usize = 8;

/// A server's cookie.
#[derive(Debug)]
pub struct ServerCookie {
    pub server: IpAddr,
    pub cookie: Vec<u8>,
}

/// This process's client cookie, and the cookies that servers have given.
#[derive(Debug)]
pub struct CookieState {
    pub client_cookie: [u8; 8],
    pub servers: Vec<ServerCookie>,
}

/// `rand::random` gives any eight bytes; nothing is claimed of them.
#[verifier::external_body]
fn random_cookie() -> [u8; 8] {
    rand::random()
}

/// The cookies by server; for a server that occurs twice, the first entry counts.
pub open spec fn cookie_map(s: Seq<ServerCookie>, from: int, server: IpAddr) -> Option<Seq<u8>>
    decreases s.len() - from,
{
    if from < 0 || from >= s.len() {
        None
    } else if s[from].server == server {
        Some(s[from].cookie@)
    } else {
        cookie_map(s, from + 1, server)
    }
}

impl CookieState {
    /// The cookie last given by a server.
    pub open spec fn cookie_of(&self, server: IpAddr) -> Option<Seq<u8>> {
        cookie_map(self.servers@, 0, server)
    }

    /// A state with the given client cookie and no server cookies.
    pub fn with_client_cookie(client_cookie: [u8; 8]) -> (r: CookieState)
        ensures
            r.client_cookie == client_cookie,
            forall|s: IpAddr| r.cookie_of(s) is None,
    {
        CookieState { client_cookie, servers: Vec::new() }
    }

    /// A state with a random client cookie and no server cookies.
    pub fn new() -> (r: CookieState)
        ensures
            forall|s: IpAddr| r.cookie_of(s) is None,
    {
        CookieState::with_client_cookie(random_cookie())
    }

    /// The client cookie, the same for as long as the state lives.
    pub fn client_cookie(&self) -> (r: [u8; 8])
        ensures
            r == self.client_cookie,
    {
        self.client_cookie
    }

    /// The cookie last given by a server.
    pub fn server_cookie_for(&self, server: IpAddr) -> (r: Option<Vec<u8>>)
        ensures
            self.cookie_of(server) == (match r {
                Some(c) => Some(c@),
                None => None,
            }),
    {
        let mut i: usize = 0;
        while i < self.servers.len()
            invariant
                i <= self.servers@.len(),
                cookie_map(self.servers@, 0, server) == cookie_map(
                    self.servers@,
                    i as int,
                    server,
                ),
            decreases self.servers@.len() - i,
        {
            if self.servers[i].server == server {
                return Some(copy_bytes(self.servers[i].cookie.as_slice()));
            }
            i += 1;
        }
        None
    }

    /// Forget the cookie of a server.
    pub fn forget(&mut self, server: IpAddr)
        ensures
            final(self).client_cookie == old(self).client_cookie,
            forall|s: IpAddr|
                final(self).cookie_of(s) == (if s == server {
                    None
                } else {
                    old(self).cookie_of(s)
                }),
    {
        let ghost start = self.servers@;
        let mut kept: Vec<ServerCookie> = Vec::new();
        let mut i: usize = 0;
        while i < self.servers.len()
            invariant
                i <= self.servers@.len(),
                self.servers@ == start,
                self.client_cookie == old(self).client_cookie,
                forall|j: int| 0 <= j < kept@.len() ==> (#[trigger] kept@[j]).server != server,
                forall|s: IpAddr|
                    s != server ==> #[trigger] cookie_map(kept@, 0, s) == cookie_map(
                        start.subrange(0, i as int),
                        0,
                        s,
                    ),
            decreases self.servers@.len() - i,
        {
            let e: &ServerCookie = &self.servers[i];
            let ghost had = kept@;
            let ghost prefix = start.subrange(0, i as int);
            if e.server != server {
                kept.push(
                    ServerCookie { server: e.server, cookie: copy_bytes(e.cookie.as_slice()) },
                );
            }
            proof {
                assert(start.subrange(0, i + 1) =~= prefix.push(start[i as int]));
                assert forall|s: IpAddr| s != server implies #[trigger] cookie_map(kept@, 0, s)
                    == cookie_map(start.subrange(0, i + 1), 0, s) by {
                    lemma_map_push(prefix, start[i as int], 0, s);
                    assert(cookie_map(had, 0, s) == cookie_map(prefix, 0, s));
                    if start[i as int].server != server {
                        lemma_map_push(had, kept@.last(), 0, s);
                        assert(kept@ =~= had.push(kept@.last()));
                    }
                }
            }
            i += 1;
        }
        assert(start.subrange(0, start.len() as int) =~= start);
        let ghost end = kept@;
        self.servers = kept;
        proof {
            lemma_map_absent(end, 0, server);
            assert forall|s: IpAddr| self.cookie_of(s) == (if s == server {
                None
            } else {
                old(self).cookie_of(s)
            }) by {
                if s != server {
                    assert(cookie_map(end, 0, s) == cookie_map(start, 0, s));
                }
            }
        }
    }

    /// Remember a cookie that a server has given.
    pub fn remember(&mut self, server: IpAddr, server_cookie: Vec<u8>)
        ensures
            final(self).client_cookie == old(self).client_cookie,
            forall|s: IpAddr|
                final(self).cookie_of(s) == (if s == server {
                    Some(server_cookie@)
                } else {
                    old(self).cookie_of(s)
                }),
    {
        self.forget(server);
        let ghost mid = self.servers@;
        let ghost now = *self;
        let entry = ServerCookie { server, cookie: server_cookie };
        self.servers.push(entry);
        proof {
            assert forall|s: IpAddr| self.cookie_of(s) == (if s == server {
                Some(server_cookie@)
            } else {
                old(self).cookie_of(s)
            }) by {
                lemma_map_push(mid, entry, 0, s);
                assert(self.servers@ =~= mid.push(entry));
                assert(now.cookie_of(s) == cookie_map(mid, 0, s));
            }
        }
    }
}

proof fn lemma_map_push(s: Seq<ServerCookie>, e: ServerCookie, from: int, server: IpAddr)
    requires
        0 <= from <= s.len(),
    ensures
        cookie_map(s.push(e), from, server) == (match cookie_map(s, from, server) {
            Some(c) => Some(c),
            None => if e.server == server {
                Some(e.cookie@)
            } else {
                None
            },
        }),
    decreases s.len() - from,
{
    if from < s.len() {
        assert(s.push(e)[from] == s[from]);
        lemma_map_push(s, e, from + 1, server);
    } else {
        assert(s.push(e)[from] == e);
        assert(cookie_map(s.push(e), from + 1, server) is None);
    }
}

proof fn lemma_map_absent(s: Seq<ServerCookie>, from: int, server: IpAddr)
    requires
        0 <= from <= s.len(),
        forall|j: int| 0 <= j < s.len() ==> (#[trigger] s[j]).server != server,
    ensures
        cookie_map(s, from, server) is None,
    decreases s.len() - from,
{
    if from < s.len() {
        assert(s[from].server != server);
        lemma_map_absent(s, from + 1, server);
    }
}

/// The payload of the cookie option: the client cookie, then the server's. The latter is
/// empty at the first contact.
pub fn build_option(client_cookie: &[u8; 8], server_cookie: &[u8]) -> (r: Vec<u8>)
    ensures
        r@ == client_cookie@ + server_cookie@,
{
    let mut v: Vec<u8> = copy_bytes(client_cookie.as_slice());
    push_all(&mut v, server_cookie);
    v
}

/// The server's part of a cookie option; none where the payload is too short.
pub open spec fn server_part(payload: Seq<u8>) -> Option<Seq<u8>> {
    if payload.len() < CLIENT_COOKIE_LEN {
        None
    } else {
        Some(payload.subrange(CLIENT_COOKIE_LEN as int, payload.len() as int))
    }
}

/// The server's part of a cookie option; none where the payload is too short.
pub fn parse_option_value(payload: &[u8]) -> (r: Option<&[u8]>)
    ensures
        server_part(payload@) == (match r {
            Some(s) => Some(s@),
            None => None,
        }),
{
    if payload.len() < CLIENT_COOKIE_LEN {
        return None;
    }
    let (_, rest) = payload.split_at(CLIENT_COOKIE_LEN);
    Some(rest)
}

/// What was put into a cookie option is read back.
pub proof fn law_cookie_option_roundtrip(client: Seq<u8>, server: Seq<u8>)
    requires
        client.len() == CLIENT_COOKIE_LEN,
    ensures
        server_part(client + server) == Some(server),
{
    assert((client + server).subrange(8, (client + server).len() as int) =~= server);
}

/// The cookie of a server is the one kept for its address.
pub proof fn law_cookie_by_server(s: Seq<ServerCookie>, from: int, server: IpAddr)
    requires
        0 <= from <= s.len(),
    ensures
        match cookie_map(s, from, server) {
            Some(v) => exists|i: int|
                {
                    &&& from <= i < s.len()
                    &&& (#[trigger] s[i]).server == server
                    &&& v == s[i].cookie@
                    &&& forall|j: int| from <= j < i ==> !((#[trigger] s[j]).server == server)
                },
            None => forall|j: int| from <= j < s.len() ==> !((#[trigger] s[j]).server == server),
        },
    decreases s.len() - from,
{
    if from < s.len() {
        if s[from].server == server {
            assert(cookie_map(s, from, server) == Some(s[from].cookie@));
        } else {
            law_cookie_by_server(s, from + 1, server);
        }
    }
}

} // verus!
