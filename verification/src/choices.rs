//! What each choice on the command line comes to.

use vstd::prelude::*;
use vstd::string::*;

use crate::arith::Nanos;
use crate::cli::{
    bitrate_named, ceiling_below_floor, configured, depths, millis_at, option_at, policy_named,
    stalling, Options,
};
use crate::config::{
    Bitrate, Clocking, Config, Latency, PcrMode, PcrPositionPolicy, Refusal, Stall, StallPolicy,
};
use crate::text::{decimal, law_numbers_read_back, lemma_decimal_digits};

verus! {

/// No two flags are the same.
proof fn lemma_flags_differ()
    ensures
        "--rtp"@.len() == 5,
        "--ssrc"@.len() == 6,
        "--preserve"@.len() == 10 && "--preserve"@[2] == 'p',
        "--stall-ms"@.len() == 10 && "--stall-ms"@[2] == 's',
        "--on-stall"@.len() == 10 && "--on-stall"@[2] == 'o',
        "--segment-ms"@.len() == 12 && "--segment-ms"@[2] == 's',
        "--latency-ms"@.len() == 12 && "--latency-ms"@[2] == 'l',
        "--stream-clock"@.len() == 14,
        "--sequence-seed"@.len() == 15,
        "--max-latency-ms"@.len() == 16 && "--max-latency-ms"@[2] == 'm',
        "--stall-grace-ms"@.len() == 16 && "--stall-grace-ms"@[2] == 's',
        "--stats-interval-ms"@.len() == 19,
        "--latency-ceiling-ms"@.len() == 20,
        "--require-pcr-position"@.len() == 22,
{
    reveal_strlit("--rtp");
    reveal_strlit("--ssrc");
    reveal_strlit("--preserve");
    reveal_strlit("--stall-ms");
    reveal_strlit("--on-stall");
    reveal_strlit("--segment-ms");
    reveal_strlit("--latency-ms");
    reveal_strlit("--stream-clock");
    reveal_strlit("--sequence-seed");
    reveal_strlit("--max-latency-ms");
    reveal_strlit("--stall-grace-ms");
    reveal_strlit("--stats-interval-ms");
    reveal_strlit("--latency-ceiling-ms");
    reveal_strlit("--require-pcr-position");
}

/// A number of milliseconds is that many, a million nanoseconds each.
pub proof fn law_a_time_is_given_in_milliseconds(
    args: Seq<Seq<char>>,
    at: int,
    flag: Seq<char>,
    ms: u64,
)
    requires
        0 <= at < args.len(),
        args[at] == decimal(ms as nat),
    ensures
        millis_at(args, at, flag) == Ok::<Nanos, crate::cli::Complaint>((ms * 1_000_000) as Nanos),
{
    law_numbers_read_back(ms, u64::MAX);
}

/// An option that gives a time sets that time and nothing else, and takes the argument
/// behind it. A zero switches off what it times.
#[verifier::spinoff_prover]
pub proof fn law_a_time_sets_what_its_flag_names(ms: u64, o: Options)
    ensures
        ({
            let number = decimal(ms as nat);
            let time = (ms * 1_000_000) as Nanos;
            let timed = if ms == 0 {
                None
            } else {
                Some(time)
            };
            &&& option_at(seq!["--segment-ms"@, number], 0, o) == Ok::<
                (Options, int),
                crate::cli::Complaint,
            >((Options { segment: Some(time), ..o }, 2))
            &&& option_at(seq!["--latency-ms"@, number], 0, o) == Ok::<
                (Options, int),
                crate::cli::Complaint,
            >((Options { latency: Some(time), ..o }, 2))
            &&& option_at(seq!["--max-latency-ms"@, number], 0, o) == Ok::<
                (Options, int),
                crate::cli::Complaint,
            >((Options { max_latency: Some(time), ..o }, 2))
            &&& option_at(seq!["--latency-ceiling-ms"@, number], 0, o) == Ok::<
                (Options, int),
                crate::cli::Complaint,
            >((Options { ceiling: Some(time), ..o }, 2))
            &&& option_at(seq!["--stall-ms"@, number], 0, o) == Ok::<
                (Options, int),
                crate::cli::Complaint,
            >((Options { stall_timeout: Some(timed), ..o }, 2))
            &&& option_at(seq!["--stall-grace-ms"@, number], 0, o) == Ok::<
                (Options, int),
                crate::cli::Complaint,
            >((Options { stall_grace: Some(time), ..o }, 2))
            &&& option_at(seq!["--stats-interval-ms"@, number], 0, o) == Ok::<
                (Options, int),
                crate::cli::Complaint,
            >((Options { stats_interval: timed, ..o }, 2))
        }),
{
    let number = decimal(ms as nat);
    lemma_flags_differ();
    law_numbers_read_back(ms, u64::MAX);
    assert(seq!["--segment-ms"@, number][1] == number);
    assert(seq!["--latency-ms"@, number][1] == number);
    assert(seq!["--max-latency-ms"@, number][1] == number);
    assert(seq!["--latency-ceiling-ms"@, number][1] == number);
    assert(seq!["--stall-ms"@, number][1] == number);
    assert(seq!["--stall-grace-ms"@, number][1] == number);
    assert(seq!["--stats-interval-ms"@, number][1] == number);
}

/// A flag that stands alone sets what it names and nothing else, and a number sets what
/// its flag names.
#[verifier::spinoff_prover]
pub proof fn law_a_flag_sets_what_it_names(o: Options, ssrc: u32, seed: u16)
    ensures
        option_at(seq!["--rtp"@], 0, o) == Ok::<(Options, int), crate::cli::Complaint>(
            (Options { rtp: true, ..o }, 1),
        ),
        option_at(seq!["--preserve"@], 0, o) == Ok::<(Options, int), crate::cli::Complaint>(
            (Options { pcr: PcrMode::Preserve, ..o }, 1),
        ),
        option_at(seq!["--stream-clock"@], 0, o) == Ok::<(Options, int), crate::cli::Complaint>(
            (Options { clocking: Clocking::Stream, ..o }, 1),
        ),
        option_at(seq!["--require-pcr-position"@], 0, o) == Ok::<
            (Options, int),
            crate::cli::Complaint,
        >((Options { position_policy: PcrPositionPolicy::Fail, ..o }, 1)),
        option_at(seq!["--ssrc"@, decimal(ssrc as nat)], 0, o) == Ok::<
            (Options, int),
            crate::cli::Complaint,
        >((Options { ssrc: Some(ssrc), ..o }, 2)),
        option_at(seq!["--sequence-seed"@, decimal(seed as nat)], 0, o) == Ok::<
            (Options, int),
            crate::cli::Complaint,
        >((Options { sequence_seed: seed, ..o }, 2)),
{
    lemma_flags_differ();
    law_numbers_read_back(ssrc as u64, u32::MAX as u64);
    law_numbers_read_back(seed as u64, u16::MAX as u64);
    assert(seq!["--ssrc"@, decimal(ssrc as nat)][1] == decimal(ssrc as nat));
    assert(seq!["--sequence-seed"@, decimal(seed as nat)][1] == decimal(seed as nat));
}

/// The stall policies by name.
pub proof fn law_stall_policies_by_name(o: Options)
    ensures
        policy_named("mute"@) == Some(StallPolicy::Mute),
        policy_named("continue"@) == Some(StallPolicy::Continue),
        policy_named("fail"@) == Some(StallPolicy::Fail),
        option_at(seq!["--on-stall"@, "fail"@], 0, o) == Ok::<(Options, int), crate::cli::Complaint>(
            (Options { stall_policy: Some(StallPolicy::Fail), ..o }, 2),
        ),
{
    lemma_flags_differ();
    reveal_strlit("mute");
    reveal_strlit("continue");
    reveal_strlit("fail");
    assert("mute"@[0] == 'm' && "fail"@[0] == 'f' && "continue"@.len() == 8);
    assert("mute"@.len() == 4 && "fail"@.len() == 4);
    assert(seq!["--on-stall"@, "fail"@][1] == "fail"@);
}

/// A rate is its number of bits a second, and `auto` is measured, with fifteen hundredths
/// on top.
pub proof fn law_a_rate_by_name(bps: u64)
    ensures
        bitrate_named(decimal(bps as nat)) == Some(Bitrate::Constant(bps)),
        bitrate_named("auto"@) matches Some(Bitrate::Auto { headroom }) && 20 * headroom.numerator
            == 3 * headroom.denominator,
{
    law_numbers_read_back(bps, u64::MAX);
    reveal_strlit("auto");
    assert("auto"@[0] == 'a' && "auto"@.len() == 4);
    if decimal(bps as nat) == "auto"@ {
        assert(crate::text::digits("auto"@) is None) by {
            lemma_auto_is_no_number();
        }
        lemma_decimal_digits(bps as nat);
    }
}

/// `auto` is not a number.
proof fn lemma_auto_is_no_number()
    ensures
        crate::text::digits("auto"@) is None,
{
    reveal_strlit("auto");
    assert("auto"@.last() == 'o');
    assert(crate::text::digit('o') is None);
}

/// The depths that the options come to. With nothing said the cushion follows the lead,
/// from 200 ms to 8 s, and a ceiling moves the 8 s. A segment's duration pins it at two
/// and a half segments. An explicit cushion is taken as it is, with the cap that would
/// have held for it: twice itself or two seconds, or the segments' own. An explicit cap
/// pins whatever cushion there is.
pub proof fn law_what_the_depths_come_to(o: Options)
    requires
        o.latency matches Some(latency) ==> 2 * latency <= 18_446_744_073_709_551_615_999_999_999,
        o.ceiling matches Some(ceiling) ==> ceiling >= 200_000_000,
    ensures
        ({
            let d = depths(o);
            &&& o.latency is None && o.max_latency is None && o.segment is None ==> {
                &&& d matches Latency::Adaptive { floor, ceiling, factor }
                &&& floor == 200_000_000
                &&& ceiling == (match o.ceiling {
                    Some(ceiling) => ceiling,
                    None => 8_000_000_000,
                })
                &&& 2 * factor.numerator == 5 * factor.denominator
            }
            &&& o.latency is None && o.max_latency is None && o.segment is Some && o.ceiling is None
                ==> d == Latency::for_segments(o.segment->Some_0)
            &&& o.latency matches Some(latency) ==> {
                &&& d is Fixed
                &&& d->target == latency
                &&& o.max_latency is None && (o.segment is None || o.ceiling is Some) ==> {
                    &&& d->max >= 2 * latency
                    &&& d->max >= 2_000_000_000
                    &&& d->max == 2 * latency || d->max == 2_000_000_000
                }
                &&& o.max_latency is None && o.segment is Some && o.ceiling is None ==> d->max
                    == Latency::for_segments(o.segment->Some_0)->max
            }
            &&& o.max_latency matches Some(max) ==> {
                &&& d is Fixed
                &&& d->max == max
                &&& o.latency is None && (o.segment is None || o.ceiling is Some) ==> d->target
                    == 200_000_000
                &&& o.latency is None && o.segment is Some && o.ceiling is None ==> d->target
                    == Latency::for_segments(o.segment->Some_0)->target
            }
        }),
{
}

/// What ends a source's life, as the options have it: a grace on top of the cushion if
/// one is given, and a second of it if nothing is said; otherwise the timeout given,
/// or none where it was zero.
pub proof fn law_what_the_stall_options_come_to(o: Options)
    ensures
        o.stall_grace matches Some(grace) ==> stalling(o) == (Stall::Adaptive { grace }),
        o.stall_grace is None && o.stall_timeout is None ==> stalling(o) == (Stall::Adaptive {
            grace: 1_000_000_000,
        }),
        o.stall_grace is None && o.stall_timeout == Some(None::<Nanos>) ==> stalling(o)
            == Stall::Off,
        o.stall_grace is None ==> (o.stall_timeout matches Some(Some(timeout)) ==> stalling(o)
            == Stall::After(timeout)),
{
}

/// Everything else the options say is taken over as it is.
pub proof fn law_what_else_is_taken_over(bitrate: Bitrate, o: Options)
    ensures
        ({
            let config = configured(bitrate, o);
            &&& config.bitrate == bitrate
            &&& config.latency == depths(o)
            &&& config.stall == stalling(o)
            &&& config.pcr == o.pcr
            &&& config.clocking == o.clocking
            &&& config.sequence_seed == o.sequence_seed
            &&& config.pcr_position_policy == o.position_policy
            &&& config.stall_policy == (match o.stall_policy {
                Some(policy) => policy,
                None => StallPolicy::Mute,
            })
            &&& config.packets_per_datagram == 7
            &&& config.pcr_max_interval == 40_000_000
        }),
        ceiling_below_floor(o) <==> o.latency is None && o.max_latency is Some && o.ceiling is Some
            && o.ceiling->Some_0 < 200_000_000,
{
}

/// A configuration is refused where its cushion is deeper than its cap, or where it is
/// clocked by the stream without a constant rate, regenerated PCRs and pinned depths;
/// and nothing else is.
pub proof fn law_what_is_refused(config: Config)
    ensures
        ({
            let deep = config.latency is Fixed && config.latency->target > config.latency->max;
            let stream = config.clocking == Clocking::Stream;
            &&& config.refusal() is None <==> !deep && (!stream || (config.bitrate is Constant
                && config.pcr == PcrMode::Regenerate && config.latency is Fixed))
            &&& deep ==> config.refusal() == Some(Refusal::CushionPastBound)
            &&& !deep && stream && config.bitrate is Auto ==> config.refusal() == Some(
                Refusal::StreamNeedsConstantRate,
            )
            &&& !deep && stream && config.bitrate is Constant && config.pcr == PcrMode::Preserve
                ==> config.refusal() == Some(Refusal::StreamNeedsRegeneratedPcr)
            &&& !deep && stream && config.bitrate is Constant && config.pcr
                == PcrMode::Regenerate && config.latency is Adaptive ==> config.refusal() == Some(
                Refusal::StreamNeedsPinnedLatency,
            )
        }),
{
}

} // verus!
