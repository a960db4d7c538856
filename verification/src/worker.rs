//! How many threads serve connections.

use crate::text::{chars_of, number, parse_number};
use vstd::prelude::*;

verus! {

/// The number of workers that is asked for: by the environment, else by the
/// configuration.
pub open spec fn requested(env: Option<Seq<char>>, cfg: Option<u32>) -> Option<u32> {
    match env {
        Some(s) => match number(s, u32::MAX as nat) {
            Some(n) => Some(n as u32),
            None => cfg,
        },
        None => cfg,
    }
}

/// The number of workers: zero stands for all processors, nothing for one; never more
/// than there are processors.
pub open spec fn worker_count(raw: Option<u32>, cap: nat) -> nat {
    let n = match raw {
        Some(n) => if n == 0 {
            cap
        } else {
            n as nat
        },
        None => 1,
    };
    if n < 1 {
        1
    } else if n > cap {
        cap
    } else {
        n
    }
}

/// The number of workers; `env` is the value of the environment variable and `cap` the
/// number of processors.
pub fn effective_worker_count(cfg_value: Option<u32>, env: Option<&str>, cap: usize) -> (r: usize)
    requires
        cap >= 1,
    ensures
        r == worker_count(
            requested(
                match env {
                    Some(s) => Some(s@),
                    None => None,
                },
                cfg_value,
            ),
            cap as nat,
        ),
{
    let raw: Option<u32> = match env {
        Some(s) => match parse_number(chars_of(s).as_slice(), u32::MAX as u64) {
            Some(n) => Some(n as u32),
            None => cfg_value,
        },
        None => cfg_value,
    };
    let n: usize = match raw {
        Some(n) => if n == 0 {
            cap
        } else {
            n as usize
        },
        None => 1,
    };
    if n < 1 {
        1
    } else if n > cap {
        cap
    } else {
        n
    }
}

/// There is at least one worker and at most as many as are allowed: as many as asked for
/// where that lies between, all where none are asked for by number, and one by default. The
/// environment goes before the configuration, where it holds a number.
pub proof fn law_worker_counts(raw: Option<u32>, cap: nat, env: Seq<char>, cfg: Option<u32>)
    requires
        cap >= 1,
    ensures
        1 <= worker_count(raw, cap) <= cap,
        raw is Some && 1 <= raw->0 <= cap ==> worker_count(raw, cap) == raw->0,
        raw == Some(0u32) ==> worker_count(raw, cap) == cap,
        raw is None ==> worker_count(raw, cap) == 1,
        requested(None, cfg) == cfg,
        number(env, u32::MAX as nat) is None ==> requested(Some(env), cfg) == cfg,
        number(env, u32::MAX as nat) is Some ==> requested(Some(env), cfg) is Some && requested(
            Some(env),
            cfg,
        )->0 == number(env, u32::MAX as nat)->0,
{
}

} // verus!
