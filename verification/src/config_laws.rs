//! What holds of the solver settings as a whole.

use crate::config::{
    core_count, detect_safe_thread_count, detected_thread_count, detected_threads,
    detected_under_limits, get_duration_from_env, get_i32_from_env, has_limit, headroom,
    is_limited, kept_thread_count, limit_in_force, mip_threads, mip_time_limit, no_limit,
    parsed_setting, safe_threads, soft_limit, thread_choice, user_thread_limits,
    MIP_THREADS_VARIABLE, MIP_TIME_LIMIT_VARIABLE,
};
use crate::processes::{entry_threads, total_threads, ProcEntry};
use crate::text_laws::{
    is_sign, lemma_numeral_is_parsed, lemma_parsed_is_numeral, numeral, signed,
};
use vstd::prelude::*;

verus! {

/// The safe number of threads is at least one and at most the number of cores, and where the user
/// has a limit it takes no more than the limit leaves room for, if that is anything.
pub proof fn safe_threads_stay_within_bounds(
    cores: Option<usize>,
    limit: Option<u64>,
    infinity: u64,
    threads: Option<i64>,
)
    requires
        1 <= core_count(cores) <= i32::MAX,
    ensures
        1 <= safe_threads(cores, limit, infinity, threads) <= core_count(cores),
        is_limited(limit, infinity) && headroom(limit->0, threads) >= 1 ==> safe_threads(
            cores,
            limit,
            infinity,
            threads,
        ) <= headroom(limit->0, threads),
        !is_limited(limit, infinity) ==> safe_threads(cores, limit, infinity, threads)
            == core_count(cores),
{
}

/// Detection gives a number whenever there is a core to give, whatever the limit and the count are:
/// from one to the number of cores.
pub proof fn detection_stays_within_hardware_bounds(
    cores: Option<usize>,
    limit: Option<u64>,
    infinity: u64,
    threads: Option<i64>,
)
    requires
        1 <= core_count(cores) <= i32::MAX,
    ensures
        detected_threads(cores, limit, infinity, threads) matches Some(n) && 1 <= n <= core_count(
            cores,
        ),
{
    safe_threads_stay_within_bounds(cores, limit, infinity, threads);
}

/// The default is detected once and kept: of any number of calls, those that find no number in the
/// variable all use the same.
///
/// `kept` are the defaults that are kept, before each of the calls and after the last.
pub proof fn default_threads_are_kept(
    settings: Seq<Option<int>>,
    results: Seq<i32>,
    kept: Seq<Option<i32>>,
    i: int,
    j: int,
)
    requires
        results.len() == settings.len(),
        kept.len() == settings.len() + 1,
        forall|k: int|
            0 <= k < settings.len() ==> thread_choice(
                #[trigger] settings[k],
                kept[k],
                results[k],
                kept[k + 1],
            ),
        0 <= i < j < settings.len(),
        settings[i] is None,
        settings[j] is None,
    ensures
        results[j] == results[i],
        kept[j] == Some(results[i]),
{
    lemma_default_stays(settings, results, kept, i, j);
    assert(thread_choice(settings[j], kept[j], results[j], kept[j + 1]));
}

/// A default that was used in a call is still kept at any later one.
proof fn lemma_default_stays(
    settings: Seq<Option<int>>,
    results: Seq<i32>,
    kept: Seq<Option<i32>>,
    i: int,
    j: int,
)
    requires
        forall|k: int|
            0 <= k < settings.len() ==> thread_choice(
                #[trigger] settings[k],
                kept[k],
                results[k],
                kept[k + 1],
            ),
        0 <= i < j < settings.len(),
        settings[i] is None,
    ensures
        kept[j] == Some(results[i]),
    decreases j,
{
    assert(thread_choice(settings[j - 1], kept[j - 1], results[j - 1], kept[j]));
    if i < j - 1 {
        lemma_default_stays(settings, results, kept, i, j - 1);
    }
}

/// As long as no status file tells a negative number, the count covers each of the processes of the
/// user: it is no less than what any of them has.
pub proof fn count_covers_every_process(entries: Seq<ProcEntry>, uid: u32, i: int)
    requires
        0 <= i < entries.len(),
        forall|k: int| 0 <= k < entries.len() ==> entry_threads(#[trigger] entries[k], uid) >= 0,
    ensures
        total_threads(entries, uid) >= entry_threads(entries[i], uid) >= 0,
    decreases entries.len(),
{
    let rest = entries.drop_last();
    assert(entry_threads(entries.last(), uid) >= 0);
    if i < rest.len() {
        assert forall|k: int| 0 <= k < rest.len() implies entry_threads(#[trigger] rest[k], uid)
            >= 0 by {
            assert(rest[k] == entries[k]);
        }
        count_covers_every_process(rest, uid, i);
        assert(rest[i] == entries[i]);
    } else {
        lemma_total_not_negative(rest, uid);
    }
}

/// A sum of numbers that are not negative is not negative.
proof fn lemma_total_not_negative(entries: Seq<ProcEntry>, uid: u32)
    requires
        forall|k: int| 0 <= k < entries.len() ==> entry_threads(#[trigger] entries[k], uid) >= 0,
    ensures
        total_threads(entries, uid) >= 0,
    decreases entries.len(),
{
    if entries.len() > 0 {
        let rest = entries.drop_last();
        assert(entry_threads(entries.last(), uid) >= 0);
        assert forall|k: int| 0 <= k < rest.len() implies entry_threads(#[trigger] rest[k], uid)
            >= 0 by {
            assert(rest[k] == entries[k]);
        }
        lemma_total_not_negative(rest, uid);
    }
}

/// Whether a text is a numeral of a number from `min` to `max`.
pub open spec fn is_number(text: Seq<char>, min: int, max: int) -> bool {
    exists|sign: Seq<char>, zeros: nat, n: nat|
        {
            &&& text == #[trigger] numeral(sign, zeros, n)
            &&& is_sign(sign, min < 0)
            &&& min <= signed(sign, n) <= max
        }
}

/// A setting is a number exactly where its text is one.
proof fn lemma_setting_is_number(text: &str, min: int, max: int)
    ensures
        parsed_setting(Some(text), min, max) is Some <==> is_number(text@, min, max),
{
    if is_number(text@, min, max) {
        let (sign, zeros, n) = choose|sign: Seq<char>, zeros: nat, n: nat|
            {
                &&& text@ == #[trigger] numeral(sign, zeros, n)
                &&& is_sign(sign, min < 0)
                &&& min <= signed(sign, n) <= max
            };
        lemma_numeral_is_parsed(sign, zeros, n, min, max);
    }
    if parsed_setting(Some(text), min, max) is Some {
        lemma_parsed_is_numeral(text@, min, max);
    }
}

/// Reading a signed setting undoes writing it: a number of 32 bits in decimal, after zeros and a
/// sign or without, is that number.
pub proof fn signed_setting_is_read_back(
    text: &str,
    sign: Seq<char>,
    zeros: nat,
    n: nat,
    r: Option<i32>,
)
    requires
        call_ensures(get_i32_from_env, (Some(text),), r),
        text@ == numeral(sign, zeros, n),
        is_sign(sign, true),
        -0x8000_0000 <= signed(sign, n) <= 0x7fff_ffff,
    ensures
        r matches Some(k) && k == signed(sign, n),
{
    lemma_numeral_is_parsed(sign, zeros, n, i32::MIN as int, i32::MAX as int);
}

/// A variable that is not set, or does not hold a number of 32 bits, is no signed setting.
pub proof fn other_text_is_no_signed_setting(value: Option<&str>, r: Option<i32>)
    requires
        call_ensures(get_i32_from_env, (value,), r),
        value matches Some(text) ==> !is_number(text@, -0x8000_0000, 0x7fff_ffff),
    ensures
        r is None,
{
    if let Some(text) = value {
        lemma_setting_is_number(text, i32::MIN as int, i32::MAX as int);
    }
}

/// Reading a number of milliseconds undoes writing it: a number of 64 bits in decimal, after zeros
/// and a plus or without, is that number.
pub proof fn duration_is_read_back(
    text: &str,
    sign: Seq<char>,
    zeros: nat,
    n: nat,
    r: Option<u64>,
)
    requires
        call_ensures(get_duration_from_env, (Some(text),), r),
        text@ == numeral(sign, zeros, n),
        is_sign(sign, false),
        n <= 0xffff_ffff_ffff_ffff,
    ensures
        r matches Some(k) && k == n,
{
    assert(seq!['+'][0] == '+' && seq!['-'][0] == '-');
    lemma_numeral_is_parsed(sign, zeros, n, 0, u64::MAX as int);
}

/// A variable that is not set, or does not hold a number of 64 bits without a minus, is no number
/// of milliseconds.
pub proof fn other_text_is_no_duration(value: Option<&str>, r: Option<u64>)
    requires
        call_ensures(get_duration_from_env, (value,), r),
        value matches Some(text) ==> !is_number(text@, 0, 0xffff_ffff_ffff_ffff),
    ensures
        r is None,
{
    if let Some(text) = value {
        lemma_setting_is_number(text, 0, u64::MAX as int);
    }
}

/// The time limit for the decimal text of a number is that number of milliseconds, for every number
/// of 64 bits, after zeros and a plus or without.
pub proof fn time_limit_is_the_number_set(
    text: &str,
    sign: Seq<char>,
    zeros: nat,
    n: nat,
    r: u64,
)
    requires
        call_ensures(mip_time_limit, (Some(text),), r),
        text@ == numeral(sign, zeros, n),
        is_sign(sign, false),
        n <= 0xffff_ffff_ffff_ffff,
    ensures
        r == n,
{
    assert(seq!['+'][0] == '+' && seq!['-'][0] == '-');
    lemma_numeral_is_parsed(sign, zeros, n, 0, u64::MAX as int);
}

/// Where no number is set, the time limit is five seconds.
pub proof fn time_limit_is_five_seconds_by_default(value: Option<&str>, r: u64)
    requires
        call_ensures(mip_time_limit, (value,), r),
        value matches Some(text) ==> !is_number(text@, 0, 0xffff_ffff_ffff_ffff),
    ensures
        r == 5 * 1000,
{
    if let Some(text) = value {
        lemma_setting_is_number(text, 0, u64::MAX as int);
    }
}

/// A number of threads that is set is used as it is, whatever it is, and the default is left alone.
pub proof fn threads_are_the_number_set<F: FnOnce() -> i32>(
    text: &str,
    sign: Seq<char>,
    zeros: nat,
    n: nat,
    before: Option<i32>,
    after: Option<i32>,
    detect: F,
    r: i32,
)
    requires
        exists|kept: &mut Option<i32>|
            {
                &&& #[trigger] call_ensures(mip_threads::<F>, (Some(text), kept, detect), r)
                &&& *kept == before
                &&& *final(kept) == after
            },
        text@ == numeral(sign, zeros, n),
        is_sign(sign, true),
        -0x8000_0000 <= signed(sign, n) <= 0x7fff_ffff,
    ensures
        r == signed(sign, n),
        after == before,
{
    lemma_numeral_is_parsed(sign, zeros, n, i32::MIN as int, i32::MAX as int);
}

/// Where no number of threads is set, the default is used: the one that is kept, or else the one
/// that is found and kept from then on.
pub proof fn threads_are_the_default_where_none_is_set<F: FnOnce() -> i32>(
    value: Option<&str>,
    before: Option<i32>,
    after: Option<i32>,
    detect: F,
    r: i32,
)
    requires
        exists|kept: &mut Option<i32>|
            {
                &&& #[trigger] call_ensures(mip_threads::<F>, (value, kept, detect), r)
                &&& *kept == before
                &&& *final(kept) == after
            },
        value matches Some(text) ==> !is_number(text@, -0x8000_0000, 0x7fff_ffff),
    ensures
        before matches Some(k) ==> r == k,
        before is None ==> call_ensures(detect, (), r),
        after == Some(r),
{
    if let Some(text) = value {
        lemma_setting_is_number(text, i32::MIN as int, i32::MAX as int);
    }
}

/// A default that is kept is never replaced, and one that is not is kept as it was found.
pub proof fn default_is_found_once<F: FnOnce() -> i32>(
    before: Option<i32>,
    after: Option<i32>,
    detect: F,
    r: i32,
)
    requires
        exists|kept: &mut Option<i32>|
            {
                &&& #[trigger] call_ensures(kept_thread_count::<F>, (kept, detect), r)
                &&& *kept == before
                &&& *final(kept) == after
            },
    ensures
        after == Some(r),
        before is Some ==> after == before,
        before is None ==> call_ensures(detect, (), r),
{
}

/// Whether `n` threads on `cores` cores are what a limit leaves to a user with `used` threads: they
/// fit under it with sixteen to spare, unless it is a single one, and one more would not fit or
/// would have no core.
pub open spec fn uses_what_is_left(n: int, cores: int, limit: int, used: int) -> bool {
    &&& 1 <= n <= cores
    &&& n > 1 ==> n + used + 16 <= limit
    &&& n < cores ==> n + used + 16 >= limit
}

/// A count of threads; nought where it is not known.
pub open spec fn counted(threads: Option<i64>) -> int {
    match threads {
        Some(n) => n as int,
        None => 0,
    }
}

/// The limit as the count of threads is compared with it: a number of 64 bits with a sign.
pub open spec fn as_signed(limit: u64) -> int {
    if limit <= 0x7fff_ffff_ffff_ffff {
        limit as int
    } else {
        limit - 0x1_0000_0000_0000_0000
    }
}

/// What detection comes to where the number of cores is one that a result can hold.
proof fn lemma_detected(
    cores: Option<usize>,
    limit: Option<u64>,
    infinity: u64,
    threads: Option<i64>,
)
    requires
        cores matches Some(n) ==> 1 <= n <= 0x7fff_ffff,
    ensures
        detected_threads(cores, limit, infinity, threads) matches Some(n) && {
            let cores = match cores {
                Some(n) => n as int,
                None => 1,
            };
            if limit is Some && limit != Some(infinity) {
                uses_what_is_left(n as int, cores, as_signed(limit->0), counted(threads))
            } else {
                n == cores
            }
        },
{
    if let Some(limit) = limit {
        assert(limit > 0x7fff_ffff_ffff_ffff ==> limit as i64 == limit - 0x1_0000_0000_0000_0000)
            by (bit_vector);
    }
}

/// The number of threads is as large as the cores and the limit allow: under a limit it fits with
/// the threads that are there and sixteen more, unless there is room for none, where it is one. It
/// is every core where there is no limit. A limit or a count that is not known counts as none.
pub proof fn detection_uses_what_the_limit_leaves(
    cores: Option<usize>,
    limit: Option<u64>,
    infinity: u64,
    threads: Option<i64>,
    r: Option<i32>,
)
    requires
        call_ensures(detected_thread_count, (cores, limit, infinity, threads), r),
        cores matches Some(n) ==> 1 <= n <= 0x7fff_ffff,
    ensures
        r matches Some(n) && {
            let cores = match cores {
                Some(n) => n as int,
                None => 1,
            };
            if limit is Some && limit != Some(infinity) {
                uses_what_is_left(n as int, cores, as_signed(limit->0), counted(threads))
            } else {
                n == cores
            }
        },
{
    lemma_detected(cores, limit, infinity, threads);
}

/// Under a limit of 63 bits the number of threads is the number of cores or what the limit leaves
/// over the threads that are there and sixteen, whichever is less, and no less than one.
pub proof fn detected_threads_fit_under_the_limit(
    cores: usize,
    limit: u64,
    infinity: u64,
    threads: i64,
    r: Option<i32>,
)
    requires
        call_ensures(detected_thread_count, (Some(cores), Some(limit), infinity, Some(threads)), r),
        1 <= cores <= 0x7fff_ffff,
        limit != infinity,
        limit <= 0x7fff_ffff_ffff_ffff,
    ensures
        r matches Some(n) && {
            let room = limit - threads - 16;
            let most = if room < cores {
                room
            } else {
                cores as int
            };
            &&& n == (if most < 1 {
                1
            } else {
                most
            })
            &&& room >= 1 ==> n + threads + 16 <= limit
        },
{
    lemma_detected(Some(cores), Some(limit), infinity, Some(threads));
}

/// Without a core to give there is one thread where there is no limit, and no number where there is
/// one. With more cores than 31 bits can number, the result is the low 32 bits of the number.
pub proof fn detection_on_other_numbers_of_cores(
    cores: usize,
    limit: Option<u64>,
    infinity: u64,
    threads: Option<i64>,
    r: Option<i32>,
)
    requires
        call_ensures(detected_thread_count, (Some(cores), limit, infinity, threads), r),
        cores == 0 || cores > 0x7fff_ffff,
    ensures
        ({
            let limited = limit is Some && limit != Some(infinity);
            if cores == 0 || cores > 0x7fff_ffff_ffff_ffff {
                r == if limited {
                    None
                } else {
                    Some(1i32)
                }
            } else if limited {
                r matches Some(n) && exists|m: int|
                    {
                        &&& #[trigger] uses_what_is_left(
                            m,
                            cores as int,
                            as_signed(limit->0),
                            counted(threads),
                        )
                        &&& (n - m) % 0x1_0000_0000 == 0
                    }
            } else {
                r matches Some(n) && (n - cores) % 0x1_0000_0000 == 0
            }
        }),
{
    let n = cores as u64;
    assert(n > 0x7fff_ffff_ffff_ffff ==> (n as i64) < 1) by (bit_vector);
    assert(core_count(Some(cores)) == n as i64);
    let limited = limit is Some && limit != Some(infinity);
    if 0x7fff_ffff < cores <= 0x7fff_ffff_ffff_ffff {
        let m: i64 = if !limited || headroom(limit->0, threads) > cores {
            cores as i64
        } else if headroom(limit->0, threads) < 1 {
            1
        } else {
            headroom(limit->0, threads) as i64
        };
        assert((m as i32 - m) % 0x1_0000_0000 == 0) by (bit_vector);
        if limited {
            let limit = limit->0;
            assert(limit > 0x7fff_ffff_ffff_ffff ==> limit as i64 == limit
                - 0x1_0000_0000_0000_0000) by (bit_vector);
            assert(uses_what_is_left(
                m as int,
                cores as int,
                as_signed(limit),
                counted(threads),
            ));
        }
        assert(r == Some(m as i32));
    }
}

/// Of a soft and a hard limit the soft one is in force.
pub proof fn soft_limit_is_in_force(
    soft: u64,
    hard: u64,
    infinity: u64,
    limit: Option<u64>,
    limited: bool,
    none: Option<u64>,
    unknown: bool,
)
    requires
        call_ensures(soft_limit, (Some((soft, hard)),), limit),
        call_ensures(soft_limit, (None::<(u64, u64)>,), none),
        call_ensures(has_limit, (Some((soft, hard)), infinity), limited),
        call_ensures(has_limit, (None::<(u64, u64)>, infinity), unknown),
    ensures
        limit == Some(soft),
        none is None,
        limited <==> soft != infinity,
        !unknown,
{
}

/// Detection under a soft and a hard limit is detection under the soft one.
pub proof fn detection_goes_by_the_soft_limit(
    cores: Option<usize>,
    limits: Option<(u64, u64)>,
    infinity: u64,
    threads: Option<i64>,
    r: Option<i32>,
    under_soft: Option<i32>,
)
    requires
        call_ensures(detected_under_limits, (cores, limits, infinity, threads), r),
        call_ensures(
            detected_thread_count,
            (
                cores,
                match limits {
                    Some((soft, _)) => Some(soft),
                    None => None,
                },
                infinity,
                threads,
            ),
            under_soft,
        ),
    ensures
        r == under_soft,
{
}

/// Whether `r` is a number of threads for `cores` cores under the limits `limits`, of which the
/// first is in force: it fits under that limit, over the threads that are there and sixteen, unless
/// there is room for none. Where there is no limit, it is every core.
pub open spec fn fits_limits(
    cores: Option<usize>,
    limits: Option<(u64, u64)>,
    infinity: u64,
    threads: Option<i64>,
    r: Option<i32>,
) -> bool {
    r matches Some(n) && {
        let cores = match cores {
            Some(n) => n as int,
            None => 1,
        };
        match limits {
            Some((soft, _)) => if soft != infinity {
                uses_what_is_left(n as int, cores, as_signed(soft), counted(threads))
            } else {
                n == cores
            },
            None => n == cores,
        }
    }
}

/// What is detected on this machine fits under the soft limit that the system tells, over the
/// threads that `count` finds and sixteen, unless there is room for none; where the system tells no
/// limit, it is every core.
pub proof fn detection_follows_the_system<F: FnOnce() -> Option<i64>>(
    cores: Option<usize>,
    count: F,
    r: Option<i32>,
)
    requires
        call_ensures(detect_safe_thread_count::<F>, (cores, count), r),
        cores matches Some(n) ==> 1 <= n <= 0x7fff_ffff,
    ensures
        exists|limits: Option<(u64, u64)>, infinity: u64, threads: Option<i64>|
            {
                &&& #[trigger] fits_limits(cores, limits, infinity, threads, r)
                &&& call_ensures(user_thread_limits, (), limits)
                &&& call_ensures(no_limit, (), infinity)
                &&& limits matches Some((soft, _)) ==> {
                    soft != infinity ==> call_ensures(count, (), threads)
                }
            },
{
    let (limits, infinity, threads) = choose|
        limits: Option<(u64, u64)>,
        infinity: u64,
        threads: Option<i64>,
    |
        {
            &&& call_ensures(user_thread_limits, (), limits)
            &&& call_ensures(no_limit, (), infinity)
            &&& #[trigger] detected_threads(cores, limit_in_force(limits), infinity, threads) == r
            &&& is_limited(limit_in_force(limits), infinity) ==> count.ensures((), threads)
        };
    lemma_detected(cores, limit_in_force(limits), infinity, threads);
    assert(fits_limits(cores, limits, infinity, threads, r));
}

/// The settings come from these variables.
pub proof fn settings_have_these_names()
    ensures
        MIP_TIME_LIMIT_VARIABLE@ == "HQ_SCHEDULER_MIP_TIME_LIMIT_MS"@,
        MIP_THREADS_VARIABLE@ == "HQ_SCHEDULER_MIP_THREADS"@,
{
}

} // verus!
