//! The control socket: requests of operators, and what they are told.

use crate::bytes::{be16_at, copy_bytes, read_be16};
use crate::config::text_v;
use crate::listeners::ListenerInfo;
use crate::metrics::MetricsSnapshot;
use crate::name::Name;
use crate::names::name_text;
use crate::net_text::ip_text;
use crate::recursor::cache::{CacheDumpEntry, CacheLine};
use crate::recursor::dns64::strings_v;
use crate::recursor::forwarder::{addresses_of, Forwarders};
use crate::text::{chars_of, dec, join2, join3, lower_text, push_dec, str_eq, str_same};
use crate::tls::TlsInfo;
use crate::wire::byte_strings;
use vstd::prelude::*;

verus! {

/// A request.
#[allow(inconsistent_fields)]
#[derive(Debug)]
pub enum ControlRequest {
    Stats,
    Cache { op: Option<String>, name: Option<String>, rrtype: Option<String> },
    Forwarders,
    Listeners,
    Tls,
    Reload,
    Upstream { name: String },
}

/// A reply.
#[allow(inconsistent_fields)]
#[derive(Debug)]
pub enum ControlResponse {
    Stats(MetricsSnapshot),
    CacheStats { entries: u64 },
    CacheDump { entries: Vec<CacheDumpEntry> },
    Forwarders { forwarders: Vec<ForwarderInfo> },
    Listeners { listeners: Vec<ListenerInfo> },
    Tls(TlsInfo),
    Done { message: String },
    Trace { steps: Vec<String> },
    Error { error: String },
}

/// A forwarder as shown to operators.
#[derive(Debug)]
pub struct ForwarderInfo {
    pub domain: String,
    pub servers: Vec<String>,
}

/// What is asked of the cache.
#[derive(Debug, Clone, Copy, PartialEq, Eq, Structural)]
pub enum CacheOp {
    Stats,
    Flush,
    Dump,
    Unknown,
}

/// What is asked of the cache; statistics where nothing is said.
pub open spec fn cache_op(op: Option<Seq<char>>) -> CacheOp {
    match op {
        None => CacheOp::Stats,
        Some(s) => if s == "stats"@ {
            CacheOp::Stats
        } else if s == "flush"@ {
            CacheOp::Flush
        } else if s == "dump"@ {
            CacheOp::Dump
        } else {
            CacheOp::Unknown
        },
    }
}

/// What is asked of the cache.
pub fn parse_cache_op(op: &Option<String>) -> (r: CacheOp)
    ensures
        r == cache_op(text_v(*op)),
{
    match op {
        None => CacheOp::Stats,
        Some(s) => if str_eq(s.as_str(), "stats") {
            CacheOp::Stats
        } else if str_eq(s.as_str(), "flush") {
            CacheOp::Flush
        } else if str_eq(s.as_str(), "dump") {
            CacheOp::Dump
        } else {
            CacheOp::Unknown
        },
    }
}

/// A text in lower case, by Unicode's rules.
pub uninterp spec fn unicode_lower(s: Seq<char>) -> Seq<char>;

/// A text in upper case, by Unicode's rules.
pub uninterp spec fn unicode_upper(s: Seq<char>) -> Seq<char>;

/// std's `str::to_lowercase`. The result depends on the text alone.
#[verifier::external_body]
fn to_lower(s: &str) -> (r: String)
    ensures
        r@ == unicode_lower(s@),
{
    s.to_lowercase()
}

/// std's `str::to_uppercase`. The result depends on the text alone.
#[verifier::external_body]
fn to_upper(s: &str) -> (r: String)
    ensures
        r@ == unicode_upper(s@),
{
    s.to_uppercase()
}

/// The text holds the other somewhere.
pub open spec fn contains_text(s: Seq<char>, part: Seq<char>) -> bool {
    exists|i: int|
        0 <= i <= s.len() - part.len() && #[trigger] s.subrange(i, i + part.len()) == part
}

fn has_text(s: &[char], part: &[char]) -> (r: bool)
    ensures
        r == contains_text(s@, part@),
{
    let n: usize = s.len();
    let k: usize = part.len();
    if k > n {
        return false;
    }
    let mut i: usize = 0;
    while i <= n - k
        invariant
            i <= n - k + 1,
            k <= n,
            n == s@.len(),
            k == part@.len(),
            forall|a: int| 0 <= a < i ==> #[trigger] s@.subrange(a, a + k) != part@,
        decreases n - k + 1 - i,
    {
        let mut j: usize = 0;
        while j < k && s[i + j] == part[j]
            invariant
                j <= k,
                i <= n - k,
                k <= n,
                n == s@.len(),
                k == part@.len(),
                forall|a: int| 0 <= a < j ==> s@[i + a] == part@[a],
            decreases k - j,
        {
            j += 1;
        }
        if j == k {
            assert(s@.subrange(i as int, i + k) =~= part@);
            return true;
        }
        assert(s@.subrange(i as int, i + k)[j as int] != part@[j as int]);
        if i == n - k {
            return false;
        }
        i += 1;
    }
    false
}

/// The line is asked for: its name holds the given text and its type is the given one, in
/// any case.
pub open spec fn line_wanted(
    line_name: Seq<char>,
    line_type: Seq<char>,
    name: Option<Seq<char>>,
    rrtype: Option<Seq<char>>,
) -> bool {
    &&& name is Some ==> contains_text(unicode_lower(line_name), unicode_lower(name->0))
    &&& rrtype is Some ==> lower_text(line_type) == lower_text(unicode_upper(rrtype->0))
}

/// Whether a line of a cache listing is asked for.
pub fn wants_line(
    entry: &CacheDumpEntry,
    name: &Option<String>,
    rrtype: &Option<String>,
) -> (r: bool)
    ensures
        r == line_wanted(entry.name@, entry.rtype@, text_v(*name), text_v(*rrtype)),
{
    if let Some(n) = name {
        let hay = chars_of(to_lower(entry.name.as_str()).as_str());
        let needle = chars_of(to_lower(n.as_str()).as_str());
        if !has_text(hay.as_slice(), needle.as_slice()) {
            return false;
        }
    }
    if let Some(t) = rrtype {
        if !str_same(entry.rtype.as_str(), to_upper(t.as_str()).as_str()) {
            return false;
        }
    }
    true
}

/// The lines of a listing that are asked for, in order.
pub open spec fn wanted_lines(
    s: Seq<CacheDumpEntry>,
    name: Option<Seq<char>>,
    rrtype: Option<Seq<char>>,
) -> Seq<CacheDumpEntry>
    decreases s.len(),
{
    if s.len() == 0 {
        s
    } else {
        let rest = wanted_lines(s.drop_last(), name, rrtype);
        if line_wanted(s.last().name@, s.last().rtype@, name, rrtype) {
            rest.push(s.last())
        } else {
            rest
        }
    }
}

/// The lines of a listing that are asked for.
pub fn filter_dump(
    entries: Vec<CacheDumpEntry>,
    name: &Option<String>,
    rrtype: &Option<String>,
) -> (r: Vec<CacheDumpEntry>)
    ensures
        r@ == wanted_lines(entries@, text_v(*name), text_v(*rrtype)),
{
    let ghost start = entries@;
    let mut rest = entries;
    let mut out: Vec<CacheDumpEntry> = Vec::new();
    let ghost mut k: int = 0;
    assert(start.subrange(0, 0) =~= Seq::empty());
    assert(start.subrange(0, start.len() as int) =~= start);
    while rest.len() > 0
        invariant
            0 <= k <= start.len(),
            rest@ == start.subrange(k, start.len() as int),
            out@ == wanted_lines(start.subrange(0, k), text_v(*name), text_v(*rrtype)),
        decreases rest@.len(),
    {
        let e = rest.remove(0);
        proof {
            assert(e == start[k]);
            assert(start.subrange(0, k + 1).drop_last() =~= start.subrange(0, k));
            assert(rest@ =~= start.subrange(k + 1, start.len() as int));
            k = k + 1;
        }
        if wants_line(&e, name, rrtype) {
            out.push(e);
        }
    }
    assert(start.subrange(0, k) =~= start);
    out
}

/// The forwarders as shown to operators.
pub fn show_forwarders(f: &Forwarders) -> (r: Vec<ForwarderInfo>)
    ensures
        r@.len() == f@.len(),
        forall|i: int|
            0 <= i < r@.len() ==> (#[trigger] r@[i]).domain@ == name_text(
                f@[i].domain,
            ) && strings_v(r@[i].servers@) == Seq::new(
                f@[i].servers.len(),
                |j: int| ip_text(f@[i].servers[j].address),
            ),
{
    let rows = f.snapshot();
    let mut out: Vec<ForwarderInfo> = Vec::new();
    let mut i: usize = 0;
    while i < rows.len()
        invariant
            i <= rows@.len(),
            rows@.len() == f@.len(),
            out@.len() == i,
            forall|j: int|
                0 <= j < rows@.len() ==> (#[trigger] rows@[j]).0@ == name_text(
                    f@[j].domain,
                ) && rows@[j].1@ == addresses_of(f@[j].servers),
            forall|q: int|
                0 <= q < i ==> (#[trigger] out@[q]).domain@ == name_text(
                    f@[q].domain,
                ) && strings_v(out@[q].servers@) == Seq::new(
                    f@[q].servers.len(),
                    |j: int| ip_text(f@[q].servers[j].address),
                ),
        decreases rows@.len() - i,
    {
        let row: &(String, Vec<crate::net::IpAddr>) = &rows[i];
        let mut servers: Vec<String> = Vec::new();
        let mut j: usize = 0;
        while j < row.1.len()
            invariant
                j <= row.1@.len(),
                servers@.len() == j,
                forall|q: int| 0 <= q < j ==> (#[trigger] servers@[q])@ == ip_text(row.1@[q]),
            decreases row.1@.len() - j,
        {
            servers.push(row.1[j].text());
            j += 1;
        }
        assert(strings_v(servers@) =~= Seq::new(
            f@[i as int].servers.len(),
            |j: int| ip_text(f@[i as int].servers[j].address),
        ));
        out.push(ForwarderInfo { domain: row.0.clone(), servers });
        i += 1;
    }
    out
}

/// How std's `Debug` writes a string.
pub uninterp spec fn quoted_text(s: Seq<char>) -> Seq<char>;

/// How `hickory_proto` displays a record type.
pub uninterp spec fn rtype_text(t: u16) -> Seq<char>;

/// How `hickory_proto` displays a class.
pub uninterp spec fn class_text(c: u16) -> Seq<char>;

/// std's `Debug` form of a string. The result depends on the text alone.
#[verifier::external_body]
fn quote(s: &str) -> (r: String)
    ensures
        r@ == quoted_text(s@),
{
    format!("{s:?}")
}

/// The `Display` form of `hickory_proto::rr::RecordType`. The result depends on the type
/// number alone.
#[verifier::external_body]
fn show_rtype(t: u16) -> (r: String)
    ensures
        r@ == rtype_text(t),
{
    hickory_proto::rr::RecordType::from(t).to_string()
}

/// The `Display` form of `hickory_proto::rr::DNSClass`. The result depends on the class
/// number alone.
#[verifier::external_body]
fn show_class(c: u16) -> (r: String)
    ensures
        r@ == class_text(c),
{
    hickory_proto::rr::DNSClass::from(c).to_string()
}

/// What to do about a request.
#[derive(Debug)]
pub enum ControlPlan {
    ShowStats,
    ShowCacheStats,
    FlushCache,
    ShowCache { name: Option<String>, rrtype: Option<String> },
    ShowForwarders,
    ShowListeners,
    ShowTls,
    SendReload,
    /// Answer with this.
    Answer(ControlResponse),
}

/// The reply to a cache operation that is not known.
pub open spec fn unknown_op_text(op: Seq<char>) -> Seq<char> {
    "unknown cache op "@ + quoted_text(op) + " (want stats|flush|dump)"@
}

/// The reply to a request for the trace of a name.
pub open spec fn trace_text(name: Seq<char>) -> Seq<char> {
    "per-query resolution tracing for "@ + quoted_text(name)
        + " is a follow-up — it requires instrumenting the forwarder/recursor path to capture timings + server choices without affecting the hot path"@
}

/// The plan is what the request asks for.
pub open spec fn is_plan_for(req: ControlRequest, p: ControlPlan) -> bool {
    match req {
        ControlRequest::Stats => p is ShowStats,
        ControlRequest::Cache { op, name, rrtype } => match cache_op(text_v(op)) {
            CacheOp::Stats => p is ShowCacheStats,
            CacheOp::Flush => p is FlushCache,
            CacheOp::Dump => p == (ControlPlan::ShowCache { name, rrtype }),
            CacheOp::Unknown => match p {
                ControlPlan::Answer(ControlResponse::Error { error }) => error@ == unknown_op_text(
                    op->0@,
                ),
                _ => false,
            },
        },
        ControlRequest::Forwarders => p is ShowForwarders,
        ControlRequest::Listeners => p is ShowListeners,
        ControlRequest::Tls => p is ShowTls,
        ControlRequest::Reload => p is SendReload,
        ControlRequest::Upstream { name } => match p {
            ControlPlan::Answer(ControlResponse::Trace { steps }) => steps@.len() == 1
                && steps@[0]@ == trace_text(name@),
            _ => false,
        },
    }
}

/// What to do about a request.
pub fn dispatch(req: ControlRequest) -> (r: ControlPlan)
    ensures
        is_plan_for(req, r),
{
    match req {
        ControlRequest::Stats => ControlPlan::ShowStats,
        ControlRequest::Cache { op, name, rrtype } => match parse_cache_op(&op) {
            CacheOp::Stats => ControlPlan::ShowCacheStats,
            CacheOp::Flush => ControlPlan::FlushCache,
            CacheOp::Dump => ControlPlan::ShowCache { name, rrtype },
            CacheOp::Unknown => {
                let text = match &op {
                    Some(s) => quote(s.as_str()),
                    None => String::new(),
                };
                let error = join3(
                    "unknown cache op ",
                    text.as_str(),
                    " (want stats|flush|dump)",
                );
                ControlPlan::Answer(ControlResponse::Error { error })
            },
        },
        ControlRequest::Forwarders => ControlPlan::ShowForwarders,
        ControlRequest::Listeners => ControlPlan::ShowListeners,
        ControlRequest::Tls => ControlPlan::ShowTls,
        ControlRequest::Reload => ControlPlan::SendReload,
        ControlRequest::Upstream { name } => {
            let mut steps: Vec<String> = Vec::new();
            steps.push(
                join3(
                    "per-query resolution tracing for ",
                    quote(name.as_str()).as_str(),
                    " is a follow-up — it requires instrumenting the forwarder/recursor path to capture timings + server choices without affecting the hot path",
                ),
            );
            ControlPlan::Answer(ControlResponse::Trace { steps })
        },
    }
}

/// The reply after the cache was flushed.
pub fn flushed() -> (r: ControlResponse)
    ensures
        match r {
            ControlResponse::Done { message } => message@ == "cache flushed"@,
            _ => false,
        },
{
    ControlResponse::Done { message: "cache flushed".to_owned() }
}

/// The reply after the reload signal was sent; `rc` is what sending it returned.
pub fn reload_sent(rc: i32) -> (r: ControlResponse)
    ensures
        match r {
            ControlResponse::Done { message } => rc == 0 && message@
                == "reload signal sent (SIGHUP to self)"@,
            ControlResponse::Error { error } => rc != 0 && error@ == "kill(SIGHUP) failed: rc="@ + (
            if rc < 0 {
                "-"@
            } else {
                ""@
            }) + dec((if rc < 0 {
                -(rc as int)
            } else {
                rc as int
            }) as nat),
            _ => false,
        },
{
    if rc == 0 {
        return ControlResponse::Done {
            message: "reload signal sent (SIGHUP to self)".to_owned(),
        };
    }
    let wide: i64 = rc as i64;
    let mut error = join2("kill(SIGHUP) failed: rc=", if rc < 0 {
        "-"
    } else {
        ""
    });
    let n: u64 = if wide < 0 {
        (-wide) as u64
    } else {
        wide as u64
    };
    push_dec(&mut error, n);
    ControlResponse::Error { error }
}

/// A line of the cache listing in words.
pub fn describe_line(line: &CacheLine) -> (r: CacheDumpEntry)
    requires
        line.key@.len() >= 2,
        line.key@[line.key@.len() - 2]@.len() == 2,
        line.key@[line.key@.len() - 1]@.len() == 2,
    ensures
        ({
            let k = byte_strings(line.key@);
            let n = k.len();
            &&& r.name@ == name_text(k.subrange(0, n - 2))
            &&& r.rtype@ == rtype_text(be16_at(k[n - 2], 0))
            &&& r.class@ == class_text(be16_at(k[n - 1], 0))
            &&& r.ttl_remaining_secs == line.ttl_remaining_secs
            &&& r.size_bytes == line.size_bytes
        }),
{
    let n: usize = line.key.len();
    let mut labels: Vec<Vec<u8>> = Vec::new();
    let mut i: usize = 0;
    while i < n - 2
        invariant
            i <= n - 2,
            n == line.key@.len(),
            n >= 2,
            labels@.len() == i,
            forall|j: int| 0 <= j < i ==> (#[trigger] labels@[j])@ == line.key@[j]@,
        decreases n - i,
    {
        labels.push(copy_bytes(line.key[i].as_slice()));
        i += 1;
    }
    let name = Name { labels };
    assert(name@ =~= byte_strings(line.key@).subrange(0, n - 2));
    CacheDumpEntry {
        name: name.text(),
        rtype: show_rtype(read_be16(line.key[n - 2].as_slice(), 0)),
        class: show_class(read_be16(line.key[n - 1].as_slice(), 0)),
        ttl_remaining_secs: line.ttl_remaining_secs,
        size_bytes: line.size_bytes,
    }
}

/// A listing of the cache shows all the entries that are asked for, in order.
pub proof fn law_every_wanted_line_is_shown(s: Seq<CacheDumpEntry>, name: Option<Seq<char>>, rrtype: Option<Seq<char>>)
    ensures
        wanted_lines(s, name, rrtype) == s.filter(|x: CacheDumpEntry| (name is Some ==> contains_text(unicode_lower(x.name@), unicode_lower(name->0))) && (rrtype is Some ==> lower_text(x.rtype@) == lower_text(unicode_upper(rrtype->0)))),
    decreases s.len(),
{
    let p = |x: CacheDumpEntry| (name is Some ==> contains_text(unicode_lower(x.name@), unicode_lower(name->0))) && (rrtype is Some ==> lower_text(x.rtype@) == lower_text(unicode_upper(rrtype->0)));
    crate::lists::lemma_filter_last(s, p);
    if s.len() > 0 {
        law_every_wanted_line_is_shown(s.drop_last(), name, rrtype);
    }
}

/// A text contains another exactly where it is that, with something before and behind.
pub proof fn law_contained_texts(a: Seq<char>, part: Seq<char>, b: Seq<char>)
    ensures
        contains_text(a + part + b, part),
        part.len() > a.len() ==> !contains_text(a, part),
{
    let s = a + part + b;
    let at = a.len() as int;
    assert(s.subrange(at, at + part.len()) =~= part);
}

/// Each command has its plan: counters, the cache with its operations, forwarders, sockets,
/// the certificate, and a reload. An operation on the cache that is not known is refused.
pub proof fn law_commands_have_their_plans(p: ControlPlan, op: String, name: Option<String>, rrtype: Option<String>)
    ensures
        is_plan_for(ControlRequest::Stats, p) ==> p is ShowStats,
        is_plan_for(ControlRequest::Forwarders, p) ==> p is ShowForwarders,
        is_plan_for(ControlRequest::Listeners, p) ==> p is ShowListeners,
        is_plan_for(ControlRequest::Tls, p) ==> p is ShowTls,
        is_plan_for(ControlRequest::Reload, p) ==> p is SendReload,
        is_plan_for(ControlRequest::Cache { op: None, name, rrtype }, p) ==> p is ShowCacheStats,
        op@ == "stats"@ && is_plan_for(ControlRequest::Cache { op: Some(op), name, rrtype }, p)
            ==> p is ShowCacheStats,
        op@ == "flush"@ && is_plan_for(ControlRequest::Cache { op: Some(op), name, rrtype }, p)
            ==> p is FlushCache,
        op@ == "dump"@ && is_plan_for(ControlRequest::Cache { op: Some(op), name, rrtype }, p)
            ==> p == (ControlPlan::ShowCache { name, rrtype }),
        op@ != "stats"@ && op@ != "flush"@ && op@ != "dump"@ && is_plan_for(
            ControlRequest::Cache { op: Some(op), name, rrtype },
            p,
        ) ==> p is Answer && p->Answer_0 is Error,
{
    reveal_strlit("stats");
    reveal_strlit("flush");
    reveal_strlit("dump");
    assert("stats"@[0] == 's' && "flush"@[0] == 'f' && "dump"@[0] == 'd');
}

} // verus!
