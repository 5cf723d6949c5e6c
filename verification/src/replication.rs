//! Leader-side replication decisions for one peer: which entries the next
//! `AppendEntries` covers, how the next-index backs off after a rejection,
//! and how long to wait after a transport error. The surrounding loop —
//! sending, awaiting, sleeping — lives outside and asks these functions what
//! to do.

use vstd::prelude::*;

use crate::config::Config;
use crate::vote::LogId;

verus! {

/// The upper end of the next batch: at most `batch_max` entries starting at
/// `next`, never beyond `last_index`.
pub open spec fn window_hi_spec(next: u64, last_index: u64, batch_max: u64) -> u64 {
    if last_index - next < batch_max - 1 {
        last_index
    } else {
        (next + (batch_max - 1)) as u64
    }
}

/// Decides the range of log indexes the next `AppendEntries` to a peer
/// covers: `None` when the peer is up to date (heartbeats only), otherwise
/// the inclusive range from its next index, capped by the batch bound.
pub fn replication_window(next: u64, last_index: u64, batch_max: u64) -> (win: Option<(u64, u64)>)
    requires
        batch_max >= 1,
    ensures
        next > last_index ==> win is None,
        next <= last_index ==> win == Option::Some(
            (next, window_hi_spec(next, last_index, batch_max)),
        ),
{
    if next > last_index {
        Option::None
    } else {
        let span = last_index - next;
        let hi = if span < batch_max - 1 {
            last_index
        } else {
            next + (batch_max - 1)
        };
        Option::Some((next, hi))
    }
}

/// The next index to try after a rejected `AppendEntries`: jump right after
/// the follower's reported last log id when that is lower, otherwise step
/// back by one, never below zero.
pub open spec fn backoff_next_spec(next: u64, conflict: Option<LogId>) -> u64 {
    match conflict {
        Option::Some(c) => if c.index + 1 < next {
            (c.index + 1) as u64
        } else if next > 0 {
            (next - 1) as u64
        } else {
            0
        },
        Option::None => if next > 0 {
            (next - 1) as u64
        } else {
            0
        },
    }
}

pub fn backoff_next(next: u64, conflict: Option<LogId>) -> (r: u64)
    ensures
        r == backoff_next_spec(next, conflict),
{
    match conflict {
        Option::Some(c) => {
            if c.index < next && c.index + 1 < next {
                c.index + 1
            } else if next > 0 {
                next - 1
            } else {
                0
            }
        },
        Option::None => {
            if next > 0 {
                next - 1
            } else {
                0
            }
        },
    }
}

/// Doubles the wait after a transport error, from at least one unit, capped
/// by the heartbeat interval.
pub fn backoff_delay(cur: u64, heartbeat_interval: u64) -> (r: u64)
    ensures
        r == if 2 * cur < 1 {
            if 1 < heartbeat_interval {
                1u64
            } else {
                heartbeat_interval
            }
        } else {
            if 2 * cur < heartbeat_interval {
                (2 * cur) as u64
            } else {
                heartbeat_interval
            }
        },
{
    if cur == 0 {
        if 1 < heartbeat_interval {
            1
        } else {
            heartbeat_interval
        }
    } else if cur < heartbeat_interval && cur < heartbeat_interval - cur {
        2 * cur
    } else {
        heartbeat_interval
    }
}

/// The deadline of a fresh election timer: `rand` is mapped uniformly onto
/// the configured window, so distinct nodes fall out of lockstep.
pub fn election_deadline(cfg: &Config, now: u64, rand: u64) -> (r: u64)
    requires
        cfg.valid_spec(),
        cfg.election_timeout_max < u64::MAX,
        now <= u64::MAX - cfg.election_timeout_max,
    ensures
        r == now + cfg.election_timeout_min + (rand as int) % (cfg.election_timeout_max as int
            - cfg.election_timeout_min + 1),
        now + cfg.election_timeout_min <= r <= now + cfg.election_timeout_max,
{
    let span = cfg.election_timeout_max - cfg.election_timeout_min;
    let jitter = rand % (span + 1);
    now + cfg.election_timeout_min + jitter
}

/// Whether the heartbeat timer has fired.
pub fn heartbeat_due(last_sent: u64, now: u64, heartbeat_interval: u64) -> (r: bool)
    ensures
        r == (now - last_sent >= heartbeat_interval || now < last_sent),
{
    if now < last_sent {
        true
    } else {
        now - last_sent >= heartbeat_interval
    }
}

} // verus!
