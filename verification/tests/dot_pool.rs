use dnsd::config::Via;
use dnsd::net::{IpAddr, SocketAddr};
use dnsd::recursor::dot_pool::{
    after_exchange, Bucket, DotConn, DotConnKey, DotPool, ExchangeNext, IDLE_CAP_MS, MAX_LIFETIME_MS,
    MAX_PER_KEY,
};

const NOW: u64 = 10_000_000;

// A stream that answers, or one whose far end is gone.
#[derive(Debug, PartialEq)]
struct Link {
    alive: bool,
}

fn live() -> Link {
    Link { alive: true }
}

fn key(via: Via) -> DotConnKey {
    DotConnKey {
        resolver: SocketAddr { ip: IpAddr::parse("9.9.9.9").unwrap(), port: 853 },
        tls_name: "dns.quad9.net".into(),
        via,
        tor_socks: match via {
            Via::Tor => Some(SocketAddr { ip: IpAddr::parse("127.0.0.1").unwrap(), port: 9050 }),
            Via::Direct => None,
        },
        iso_user: match via {
            Via::Tor => Some("example.com".into()),
            Via::Direct => None,
        },
    }
}

fn aged_conn(age: u64) -> DotConn<Link> {
    let mut c = DotConn::new(live(), NOW);
    c.created_at = NOW - age;
    c.last_used = NOW - age;
    c
}

// Put a connection straight into a key's bucket, without the stamp that `release` gives.
fn seed(pool: &mut DotPool<Link>, k: &DotConnKey, conn: DotConn<Link>) {
    if pool.buckets.is_empty() {
        pool.buckets.push(Bucket { key: k.clone(), conns: vec![] });
    }
    pool.buckets[0].conns.push(conn);
}

#[test]
fn release_then_take_reuses_same_connection() {
    let mut pool: DotPool<Link> = DotPool::new();
    let k = key(Via::Direct);
    assert!(pool.take(&k, NOW).is_none(), "empty pool has nothing");
    pool.release(&k, DotConn::new(live(), NOW), NOW);
    assert_eq!(pool.idle_count(), Some(1));
    let got = pool.take(&k, NOW);
    assert!(got.is_some(), "released connection is taken back");
    assert_eq!(pool.idle_count(), Some(0), "take removes it from the pool");
}

#[test]
fn release_refreshes_last_used() {
    let mut pool: DotPool<Link> = DotPool::new();
    let k = key(Via::Direct);
    pool.release(&k, aged_conn(IDLE_CAP_MS + 1_000), NOW);
    assert_eq!(pool.idle_count(), Some(1), "release re-stamps last_used");
    assert!(pool.take(&k, NOW).is_some());
}

#[test]
fn take_evicts_idle_expired_connection() {
    let mut pool: DotPool<Link> = DotPool::new();
    let k = key(Via::Direct);
    seed(&mut pool, &k, aged_conn(IDLE_CAP_MS + 1_000));
    assert_eq!(pool.idle_count(), Some(1), "seeded directly, no re-stamp");
    assert!(pool.take(&k, NOW).is_none(), "stale conn is not handed out");
    assert_eq!(pool.idle_count(), Some(0), "and it was evicted");
}

#[test]
fn take_evicts_lifetime_expired_connection() {
    let mut pool: DotPool<Link> = DotPool::new();
    let k = key(Via::Direct);
    let mut c = DotConn::new(live(), NOW);
    c.created_at = NOW - (MAX_LIFETIME_MS + 1_000);
    seed(&mut pool, &k, c);
    assert!(pool.take(&k, NOW).is_none(), "past the lifetime cap");
}

#[test]
fn take_pops_past_stale_to_reach_fresh() {
    let mut pool: DotPool<Link> = DotPool::new();
    let k = key(Via::Direct);
    seed(&mut pool, &k, DotConn::new(live(), NOW));
    seed(&mut pool, &k, aged_conn(IDLE_CAP_MS + 5_000));
    assert!(
        pool.take(&k, NOW).is_some(),
        "take pops past the stale top conn and returns the fresh one",
    );
    assert_eq!(pool.idle_count(), Some(0), "the stale conn it walked past was evicted");
}

#[test]
fn release_drops_when_bucket_full() {
    let mut pool: DotPool<Link> = DotPool::new();
    let k = key(Via::Direct);
    for _ in 0..MAX_PER_KEY + 3 {
        pool.release(&k, DotConn::new(live(), NOW), NOW);
    }
    assert_eq!(pool.idle_count(), Some(MAX_PER_KEY), "bucket is capped");
}

#[test]
fn sweep_drops_stale_keeps_fresh() {
    let mut pool: DotPool<Link> = DotPool::new();
    let k = key(Via::Direct);
    seed(&mut pool, &k, DotConn::new(live(), NOW));
    seed(&mut pool, &k, aged_conn(IDLE_CAP_MS * 2));
    pool.sweep(NOW);
    assert_eq!(pool.idle_count(), Some(1), "sweep keeps the fresh conn only");
}

#[test]
fn tor_and_direct_keys_are_distinct() {
    let mut pool: DotPool<Link> = DotPool::new();
    pool.release(&key(Via::Direct), DotConn::new(live(), NOW), NOW);
    assert!(
        pool.take(&key(Via::Tor), NOW).is_none(),
        "a direct connection must never satisfy a tor acquire",
    );
    assert!(
        pool.take(&key(Via::Direct), NOW).is_some(),
        "the direct connection is still there for a direct acquire",
    );
}

fn ask(conn: &mut DotConn<Link>) -> Result<Vec<u8>, String> {
    if conn.stream_mut().alive {
        Ok(b"pong".to_vec())
    } else {
        Err("broken pipe".to_string())
    }
}

// One exchange: a pooled connection where there is one, else a new one, with the decisions
// taken by `after_exchange`.
fn exchange_pooled(
    pool: &mut DotPool<Link>,
    k: &DotConnKey,
    builds: &mut usize,
    alive: bool,
) -> Result<Vec<u8>, String> {
    let taken = pool.take(k, NOW);
    let reused = taken.is_some();
    let mut conn = match taken {
        Some(c) => c,
        None => {
            *builds += 1;
            DotConn::new(Link { alive }, NOW)
        }
    };
    let first = ask(&mut conn);
    match after_exchange(reused, first.is_ok()) {
        ExchangeNext::Release => {
            pool.release(k, conn, NOW);
            first
        }
        ExchangeNext::Fail => first,
        ExchangeNext::Rebuild => {
            *builds += 1;
            let mut conn = DotConn::new(Link { alive }, NOW);
            let second = ask(&mut conn);
            match after_exchange(false, second.is_ok()) {
                ExchangeNext::Release => {
                    pool.release(k, conn, NOW);
                    second
                }
                ExchangeNext::Rebuild => unreachable!(),
                ExchangeNext::Fail => second.map_err(|e| format!("rebuilt connection also failed: {e}")),
            }
        }
    }
}

#[test]
fn exchange_pooled_miss_builds_and_pools() {
    let mut pool: DotPool<Link> = DotPool::new();
    let mut builds = 0;
    let resp = exchange_pooled(&mut pool, &key(Via::Direct), &mut builds, true).unwrap();
    assert_eq!(resp, b"pong");
    assert_eq!(builds, 1, "one build on a miss");
    assert_eq!(pool.idle_count(), Some(1), "connection returned to pool");
}

#[test]
fn exchange_pooled_reuses_without_building() {
    let mut pool: DotPool<Link> = DotPool::new();
    let k = key(Via::Direct);
    let mut builds = 0;
    exchange_pooled(&mut pool, &k, &mut builds, true).unwrap();
    assert_eq!(builds, 1);
    let resp = exchange_pooled(&mut pool, &k, &mut builds, true).unwrap();
    assert_eq!(resp, b"pong");
    assert_eq!(builds, 1, "second call reused the pooled connection");
}

#[test]
fn exchange_pooled_rebuilds_once_on_stale_connection() {
    let mut pool: DotPool<Link> = DotPool::new();
    let k = key(Via::Direct);
    pool.release(&k, DotConn::new(Link { alive: false }, NOW), NOW);
    let mut builds = 0;
    let resp = exchange_pooled(&mut pool, &k, &mut builds, true).unwrap();
    assert_eq!(resp, b"pong", "rebuilt connection answered");
    assert_eq!(builds, 1, "exactly one rebuild after the stale connection");
    assert_eq!(pool.idle_count(), Some(1), "rebuilt connection pooled");
}

#[test]
fn exchange_pooled_propagates_second_failure() {
    let mut pool: DotPool<Link> = DotPool::new();
    let k = key(Via::Direct);
    pool.release(&k, DotConn::new(Link { alive: false }, NOW), NOW);
    let mut builds = 0;
    let err = exchange_pooled(&mut pool, &k, &mut builds, false).unwrap_err();
    assert!(err.contains("rebuilt connection also failed"), "got: {err}");
    assert_eq!(builds, 1, "only one rebuild attempt");
}

#[test]
fn exchange_pooled_miss_failure_is_not_retried() {
    let mut pool: DotPool<Link> = DotPool::new();
    let mut builds = 0;
    let err = exchange_pooled(&mut pool, &key(Via::Direct), &mut builds, false).unwrap_err();
    assert!(!err.contains("rebuilt connection"), "not a rebuild: {err}");
    assert_eq!(builds, 1, "miss builds exactly once");
}
