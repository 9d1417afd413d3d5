//! Settings of the scheduling solver: how long one solve may take and how many threads it may use.
//!
//! A setting comes from an environment variable where that holds a number, and else from a
//! default.

use crate::config_laws::detection_stays_within_hardware_bounds;
use crate::text::{chars_of, parse_integer, parsed_integer};
use vstd::prelude::*;

verus! {

/// The name of the variable with the time limit of a solve, in milliseconds.
pub const MIP_TIME_LIMIT_VARIABLE: &'static str = "HQ_SCHEDULER_MIP_TIME_LIMIT_MS";

/// The name of the variable with the number of threads of a solve.
pub const MIP_THREADS_VARIABLE: &'static str = "HQ_SCHEDULER_MIP_THREADS";

/// The time limit of a solve where none is set, in milliseconds.
pub const DEFAULT_MIP_TIME_LIMIT_MS: u64 = 5000;

/// How many threads under the limit of the user are left for everything else.
pub const SAFETY_MARGIN: i64 = 16;

/// The number that the value of a variable denotes, if the variable is set and denotes one.
pub open spec fn parsed_setting(value: Option<&str>, min: int, max: int) -> Option<int> {
    match value {
        Some(text) => parsed_integer(text@, min, max),
        None => None,
    }
}

/// The signed number that a variable holds.
pub fn get_i32_from_env(value: Option<&str>) -> (r: Option<i32>)
    ensures
        r is Some <==> parsed_setting(value, i32::MIN as int, i32::MAX as int) is Some,
        r matches Some(n) ==> parsed_setting(value, i32::MIN as int, i32::MAX as int) == Some(
            n as int,
        ),
{
    match value {
        Some(text) => {
            let text = chars_of(text);
            match parse_integer(text.as_slice(), -0x8000_0000, 0x7fff_ffff) {
                Some(n) => Some(n as i32),
                None => None,
            }
        },
        None => None,
    }
}

/// The number of milliseconds that a variable holds.
pub fn get_duration_from_env(value: Option<&str>) -> (r: Option<u64>)
    ensures
        r is Some <==> parsed_setting(value, 0, u64::MAX as int) is Some,
        r matches Some(n) ==> parsed_setting(value, 0, u64::MAX as int) == Some(n as int),
{
    match value {
        Some(text) => {
            let text = chars_of(text);
            match parse_integer(text.as_slice(), 0, 0xffff_ffff_ffff_ffff) {
                Some(n) => Some(n as u64),
                None => None,
            }
        },
        None => None,
    }
}

/// Hard wall-clock cap on a single scheduling solve, in milliseconds: what the variable holds, or
/// five seconds.
///
/// The solver is otherwise unbounded and can run for minutes to hours on workloads with many
/// distinct resource shapes, which blocks the single-threaded server for the entire duration.
pub fn mip_time_limit(value: Option<&str>) -> (r: u64)
    ensures
        r == match parsed_setting(value, 0, u64::MAX as int) {
            Some(n) => n,
            None => DEFAULT_MIP_TIME_LIMIT_MS as int,
        },
{
    match get_duration_from_env(value) {
        Some(n) => n,
        None => DEFAULT_MIP_TIME_LIMIT_MS,
    }
}

/// Whether `r` is the number of threads to use where the variable holds `setting` and the default
/// that was kept so far is `before`, and `after` is the default that is kept from then on. What is
/// set is used and leaves the default alone; else the default is used, and kept if it was not yet.
pub open spec fn thread_choice(
    setting: Option<int>,
    before: Option<i32>,
    r: i32,
    after: Option<i32>,
) -> bool {
    match setting {
        Some(n) => r == n && after == before,
        None => after == Some(r) && (before matches Some(n) ==> r == n),
    }
}

/// The default that is kept in `kept`. Where none is kept yet it is what `detect` finds, which is
/// asked only then.
pub fn kept_thread_count<F: FnOnce() -> i32>(kept: &mut Option<i32>, detect: F) -> (r: i32)
    requires
        *old(kept) is None ==> detect.requires(()),
    ensures
        *final(kept) == Some(r),
        match *old(kept) {
            Some(n) => r == n,
            None => detect.ensures((), r),
        },
{
    match *kept {
        Some(n) => n,
        None => {
            let n: i32 = detect();
            *kept = Some(n);
            n
        },
    }
}

/// Number of threads that the solver may use internally for one solve: what the variable holds,
/// or else the default that is kept in `kept`. Where none is kept yet it is what `detect` finds,
/// which is asked only then.
pub fn mip_threads<F: FnOnce() -> i32>(value: Option<&str>, kept: &mut Option<i32>, detect: F) -> (r:
    i32)
    requires
        parsed_setting(value, i32::MIN as int, i32::MAX as int) is None && *old(kept) is None
            ==> detect.requires(()),
    ensures
        thread_choice(
            parsed_setting(value, i32::MIN as int, i32::MAX as int),
            *old(kept),
            r,
            *final(kept),
        ),
        parsed_setting(value, i32::MIN as int, i32::MAX as int) is None && *old(kept) is None
            ==> detect.ensures((), r),
{
    match get_i32_from_env(value) {
        Some(n) => n,
        None => kept_thread_count(kept, detect),
    }
}

/// The number of cores to reckon with: one where it is not known.
pub open spec fn core_count(cores: Option<usize>) -> i64 {
    match cores {
        Some(n) => n as i64,
        None => 1,
    }
}

/// The number of threads of the user to reckon with: none where it is not known.
pub open spec fn thread_usage(threads: Option<i64>) -> i64 {
    match threads {
        Some(n) => n,
        None => 0,
    }
}

/// Whether a limit on the threads of the user is known and is one.
pub open spec fn is_limited(limit: Option<u64>, infinity: u64) -> bool {
    limit matches Some(n) && n != infinity
}

/// How many more threads the limit of the user leaves room for, with a margin.
pub open spec fn headroom(limit: u64, threads: Option<i64>) -> int {
    limit as i64 - thread_usage(threads) - SAFETY_MARGIN
}

/// `n`, brought into the range from `low` to `high`.
pub open spec fn clamped(n: int, low: int, high: int) -> int {
    if n < low {
        low
    } else if n > high {
        high
    } else {
        n
    }
}

/// The number of threads that is safe to use: every core, but no more than the limit of the user
/// leaves room for, and at least one.
pub open spec fn safe_threads(
    cores: Option<usize>,
    limit: Option<u64>,
    infinity: u64,
    threads: Option<i64>,
) -> i32 {
    let cores = core_count(cores);
    if is_limited(limit, infinity) {
        clamped(headroom(limit->0, threads), 1, cores as int) as i32
    } else if cores < 1 {
        1
    } else {
        cores as i32
    }
}

/// What detection comes to: the safe number of threads, or nothing where there is a limit but no
/// core to give.
pub open spec fn detected_threads(
    cores: Option<usize>,
    limit: Option<u64>,
    infinity: u64,
    threads: Option<i64>,
) -> Option<i32> {
    if is_limited(limit, infinity) && core_count(cores) < 1 {
        None
    } else {
        Some(safe_threads(cores, limit, infinity, threads))
    }
}

/// The number of threads that is safe to use, with the hardware threads `cores`, the limit `limit`
/// on the threads of the user, where `infinity` stands for none, and the threads `threads` that
/// the user has already. Nothing comes back where there is a limit but no core to give.
pub fn detected_thread_count(
    cores: Option<usize>,
    limit: Option<u64>,
    infinity: u64,
    threads: Option<i64>,
) -> (r: Option<i32>)
    ensures
        r == detected_threads(cores, limit, infinity, threads),
{
    let cores: i64 = match cores {
        Some(n) => n as i64,
        None => 1,
    };
    if let Some(limit) = limit {
        if limit != infinity {
            if cores < 1 {
                return None;
            }
            let used: i64 = match threads {
                Some(n) => n,
                None => 0,
            };
            // Wide enough that no limit and no count overflow.
            let room: i128 = limit as i64 as i128 - used as i128 - SAFETY_MARGIN as i128;
            let safe: i64 = if room < 1 {
                1
            } else if room > cores as i128 {
                cores
            } else {
                room as i64
            };
            return Some(safe as i32);
        }
    }
    if cores < 1 {
        Some(1)
    } else {
        Some(cores as i32)
    }
}

/// The limit in force, of a soft and a hard one: the soft one.
pub open spec fn limit_in_force(limits: Option<(u64, u64)>) -> Option<u64> {
    match limits {
        Some((soft, _)) => Some(soft),
        None => None,
    }
}

/// The limit in force, of a soft and a hard one: the soft one.
pub fn soft_limit(limits: Option<(u64, u64)>) -> (r: Option<u64>)
    ensures
        r == limit_in_force(limits),
{
    match limits {
        Some((soft, _hard)) => Some(soft),
        None => None,
    }
}

/// Whether the soft limit, of a soft and a hard one, is known and is one.
pub fn has_limit(limits: Option<(u64, u64)>, infinity: u64) -> (r: bool)
    ensures
        r == is_limited(limit_in_force(limits), infinity),
{
    match soft_limit(limits) {
        Some(limit) => limit != infinity,
        None => false,
    }
}

/// The number of threads that is safe to use under the soft limit, of a soft and a hard one, on the
/// threads of the user.
pub fn detected_under_limits(
    cores: Option<usize>,
    limits: Option<(u64, u64)>,
    infinity: u64,
    threads: Option<i64>,
) -> (r: Option<i32>)
    ensures
        r == detected_threads(cores, limit_in_force(limits), infinity, threads),
{
    detected_thread_count(cores, soft_limit(limits), infinity, threads)
}

/// `nix::sys::resource::getrlimit` tells the soft and the hard limit on the threads of the user.
/// Of what they are, and of when it fails, nothing is claimed.
#[verifier::external_body]
pub fn user_thread_limits() -> (r: Option<(u64, u64)>)
{
    nix::sys::resource::getrlimit(nix::sys::resource::Resource::RLIMIT_NPROC).ok()
}

/// `nix::sys::resource::RLIM_INFINITY` is the limit that stands for none. Its value is the
/// system's, and nothing is claimed of it.
#[verifier::external_body]
pub fn no_limit() -> (r: u64)
{
    nix::sys::resource::RLIM_INFINITY
}

/// Picks a thread count that scales with the hardware threads `cores` while staying under the
/// soft limit on the threads of the user, as `user_thread_limits` and `no_limit` tell it. How many
/// threads there are is asked of `count`, and only where there is a limit.
///
/// With a core to give there is always a number, from one to the number of cores, whatever the
/// limit and the count are.
pub fn detect_safe_thread_count<F: FnOnce() -> Option<i64>>(cores: Option<usize>, count: F) -> (r:
    Option<i32>)
    requires
        count.requires(()),
    ensures
        core_count(cores) >= 1 ==> r is Some,
        1 <= core_count(cores) <= i32::MAX ==> (r matches Some(n) && 1 <= n <= core_count(cores)),
        exists|limits: Option<(u64, u64)>, infinity: u64, threads: Option<i64>|
            {
                &&& call_ensures(user_thread_limits, (), limits)
                &&& call_ensures(no_limit, (), infinity)
                &&& #[trigger] detected_threads(cores, limit_in_force(limits), infinity, threads)
                    == r
                &&& is_limited(limit_in_force(limits), infinity) ==> count.ensures((), threads)
            },
{
    let limits = user_thread_limits();
    let infinity = no_limit();
    let threads: Option<i64> = if has_limit(limits, infinity) {
        count()
    } else {
        None
    };
    proof {
        if 1 <= core_count(cores) <= i32::MAX {
            detection_stays_within_hardware_bounds(
                cores,
                limit_in_force(limits),
                infinity,
                threads,
            );
        }
    }
    detected_under_limits(cores, limits, infinity, threads)
}

} // verus!
