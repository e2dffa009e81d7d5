//! Core of a desktop file-browsing tool: directory-scan snapshots, a
//! duplicate/sort/filter view over them, and a single-flight thumbnail
//! pipeline with a timeout and a path-keyed cache.

pub mod app_core;
pub mod csvio;
pub mod docparse;
pub mod numfmt;
pub mod preview;
pub mod record;
pub mod sorting;
pub mod text;
pub mod view;
pub mod walk;

use vstd::prelude::*;

verus! {

/// Number of seconds in one day, used by the today-only filter.
pub const SECONDS_PER_DAY: u64 = 86400;

/// A local-time offset east of UTC, in seconds, is valid when it is
/// strictly smaller than one day in magnitude.
pub open spec fn valid_offset(offset: int) -> bool {
    -(SECONDS_PER_DAY as int) < offset < SECONDS_PER_DAY as int
}

/// The UTC instant (seconds since the epoch) of the local midnight that
/// begins the local day containing the instant `now`, in a zone `offset`
/// seconds east of UTC.
pub open spec fn day_start(now: u64, offset: int) -> int {
    let local = now + offset;
    local - local % (SECONDS_PER_DAY as int) - offset
}

/// A timestamp is "today" when it falls in the local day containing `now`:
/// the boundary is the local midnight, not the UTC one.
pub open spec fn is_today_spec(timestamp: i64, now: u64, offset: int) -> bool {
    &&& timestamp >= 0
    &&& day_start(now, offset) <= timestamp < day_start(now, offset) + SECONDS_PER_DAY
}

/// Whether `timestamp` (seconds since the epoch) falls inside the local
/// day that contains `now` (also seconds since the epoch), the local zone
/// lying `offset` seconds east of UTC.
pub fn is_today_at(timestamp: i64, now: u64, offset: i32) -> (r: bool)
    requires
        valid_offset(offset as int),
    ensures
        r == is_today_spec(timestamp, now, offset as int),
{
    let local: i128 = now as i128 + offset as i128;
    let shifted: u128 = (local + 86400) as u128;
    let m: u128 = shifted % 86400;
    let ds: i128 = local - m as i128 - offset as i128;
    proof {
        vstd::arithmetic::div_mod::lemma_mod_add_multiples_vanish(local as int, 86400);
        assert(m == (local as int) % 86400);
        assert(ds == day_start(now, offset as int));
    }
    if timestamp < 0 {
        false
    } else {
        let t: i128 = timestamp as i128;
        t >= ds && t - ds < 86400
    }
}

/// Relies on std::time::SystemTime::now: a clock reading promises nothing;
/// a clock before the epoch reads as zero.
#[verifier::external_body]
pub fn now_unix_secs() -> u64 {
    match std::time::SystemTime::now().duration_since(std::time::UNIX_EPOCH) {
        Ok(d) => d.as_secs(),
        Err(_) => 0,
    }
}

/// Relies on chrono::Local and chrono::FixedOffset: the local zone's
/// offset east of UTC at the current instant, in seconds. `FixedOffset`
/// keeps its value strictly inside one day, so the offset is valid; which
/// value it is depends on the environment, so nothing more is promised.
#[verifier::external_body]
pub fn local_offset_secs() -> (r: i32)
    ensures
        valid_offset(r as int),
{
    chrono::Local::now().offset().local_minus_utc()
}

/// Whether the timestamp falls inside the local day containing the current
/// wall clock. The clock and the zone offset are outside values, so the
/// result is only pinned relative to what they reported: it follows
/// `is_today_spec` at some instant and some valid offset — in particular a
/// negative timestamp is never "today". `is_today_at` carries the exact
/// window contract for a given instant and offset.
pub fn is_today(timestamp: i64) -> (r: bool)
    ensures
        exists|n: u64, off: int| valid_offset(off) && r == is_today_spec(timestamp, n, off),
{
    let now = now_unix_secs();
    let off = local_offset_secs();
    let r = is_today_at(timestamp, now, off);
    proof {
        assert(valid_offset(off as int) && r == is_today_spec(timestamp, now, off as int));
    }
    r
}

} // verus!
