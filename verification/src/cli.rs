//! What the command line asks for.
//!
//! `<dest> <bitrate> [options]`: a destination, an output rate or `auto`, and options
//! that refine the [`Config`] a run is given.

use vstd::prelude::*;
use vstd::string::*;

use crate::arith::{lasting, millis, together, Nanos, Ratio, LONGEST, NANOS_PER_MILLI};
use crate::config::{
    Bitrate, Clocking, Config, Latency, PcrMode, PcrPositionPolicy, Stall, StallPolicy,
    DEFAULT_AUTO_HEADROOM, DEFAULT_LATENCY, DEFAULT_LATENCY_FACTOR,
};
use crate::observe::SourceState;
use crate::text::{parse_whole_number, put, whole_number};

verus! {

/// The text of each argument.
pub open spec fn texts(args: Seq<String>) -> Seq<Seq<char>> {
    args.map_values(|a: String| a@)
}

// --- what is wrong ----------------------------------------------------------------------

/// What is wrong with a command line.
pub enum Complaint {
    /// No destination.
    MissingDestination,
    /// No bitrate.
    MissingBitrate,
    /// An option came last that needs a value.
    NeedsValue(Seq<char>),
    /// An option was given something that is no whole number in its range.
    NeedsNumber(Seq<char>, Seq<char>),
    /// A stall policy that is none.
    UnknownPolicy(Seq<char>),
    /// An option that is none.
    UnknownArgument(Seq<char>),
    /// The bitrate is neither a whole number nor `auto`.
    BadBitrate,
    /// A cap on the buffer, over a cushion whose ceiling lies below its floor.
    CeilingBelowFloor,
}

/// What is wrong with a command line.
#[derive(Debug)]
pub enum UsageError {
    /// No destination.
    MissingDestination,
    /// No bitrate.
    MissingBitrate,
    /// An option came last that needs a value.
    NeedsValue(String),
    /// An option was given something that is no whole number in its range.
    NeedsNumber(String, String),
    /// A stall policy that is none.
    UnknownPolicy(String),
    /// An option that is none.
    UnknownArgument(String),
    /// The bitrate is neither a whole number nor `auto`.
    BadBitrate,
    /// A cap on the buffer, over a cushion whose ceiling lies below its floor: there
    /// is no depth to pin the cushion at.
    CeilingBelowFloor,
}

impl View for UsageError {
    type V = Complaint;

    open spec fn view(&self) -> Complaint {
        match *self {
            UsageError::MissingDestination => Complaint::MissingDestination,
            UsageError::MissingBitrate => Complaint::MissingBitrate,
            UsageError::NeedsValue(flag) => Complaint::NeedsValue(flag@),
            UsageError::NeedsNumber(flag, got) => Complaint::NeedsNumber(flag@, got@),
            UsageError::UnknownPolicy(got) => Complaint::UnknownPolicy(got@),
            UsageError::UnknownArgument(got) => Complaint::UnknownArgument(got@),
            UsageError::BadBitrate => Complaint::BadBitrate,
            UsageError::CeilingBelowFloor => Complaint::CeilingBelowFloor,
        }
    }
}

/// What is said of a usage error.
#[derive(Debug)]
pub struct Wording {
    /// The text.
    pub text: String,
    /// What was typed instead, shown in quotes behind the text.
    pub quoted: Option<String>,
}

impl Complaint {
    /// What is said of it.
    pub open spec fn text(self) -> Seq<char> {
        match self {
            Complaint::MissingDestination => "missing destination"@,
            Complaint::MissingBitrate => "missing bitrate"@,
            Complaint::NeedsValue(flag) => flag + " needs a value"@,
            Complaint::NeedsNumber(flag, _) => flag + " needs a whole number, got "@,
            Complaint::UnknownPolicy(_) => "unknown stall policy "@,
            Complaint::UnknownArgument(_) => "unknown argument "@,
            Complaint::BadBitrate =>
            "bitrate must be a whole number of bits per second, or \"auto\""@,
            Complaint::CeilingBelowFloor =>
            "--latency-ceiling-ms must not be below the 200 ms floor"@,
        }
    }

    /// What was typed instead.
    pub open spec fn quoted(self) -> Option<Seq<char>> {
        match self {
            Complaint::NeedsNumber(_, got) => Some(got),
            Complaint::UnknownPolicy(got) => Some(got),
            Complaint::UnknownArgument(got) => Some(got),
            _ => None,
        }
    }
}

impl UsageError {
    /// What to say of it.
    pub fn wording(self) -> (r: Wording)
        ensures
            r.text@ == self@.text(),
            match self@.quoted() {
                Some(got) => r.quoted matches Some(q) && q@ == got,
                None => r.quoted is None,
            },
    {
        match self {
            UsageError::MissingDestination => plainly("missing destination"),
            UsageError::MissingBitrate => plainly("missing bitrate"),
            UsageError::NeedsValue(flag) => {
                let mut text: String = flag;
                put(&mut text, " needs a value");
                Wording { text, quoted: None }
            },
            UsageError::NeedsNumber(flag, got) => {
                let mut text: String = flag;
                put(&mut text, " needs a whole number, got ");
                Wording { text, quoted: Some(got) }
            },
            UsageError::UnknownPolicy(got) => Wording {
                text: "unknown stall policy ".to_owned(),
                quoted: Some(got),
            },
            UsageError::UnknownArgument(got) => Wording {
                text: "unknown argument ".to_owned(),
                quoted: Some(got),
            },
            UsageError::BadBitrate => plainly(
                "bitrate must be a whole number of bits per second, or \"auto\"",
            ),
            UsageError::CeilingBelowFloor => plainly(
                "--latency-ceiling-ms must not be below the 200 ms floor",
            ),
        }
    }
}

/// A wording that quotes nothing.
fn plainly(text: &str) -> (r: Wording)
    ensures
        r.text@ == text@,
        r.quoted is None,
{
    Wording { text: text.to_owned(), quoted: None }
}

// --- options ----------------------------------------------------------------------------

/// What the options say, each as last given.
#[derive(Clone, Copy, Debug)]
pub struct Options {
    /// Wrap datagrams in RTP.
    pub rtp: bool,
    /// RTP SSRC.
    pub ssrc: Option<u32>,
    /// How PCR is handled.
    pub pcr: PcrMode,
    /// A known segment duration.
    pub segment: Option<Nanos>,
    /// A pinned cushion.
    pub latency: Option<Nanos>,
    /// A pinned cap.
    pub max_latency: Option<Nanos>,
    /// A ceiling on an adaptive cushion.
    pub ceiling: Option<Nanos>,
    /// A pinned stall timeout, or detection switched off.
    pub stall_timeout: Option<Option<Nanos>>,
    /// Grace on top of the cushion.
    pub stall_grace: Option<Nanos>,
    /// What to do once stalled.
    pub stall_policy: Option<StallPolicy>,
    /// What decides each slot.
    pub clocking: Clocking,
    /// RTP sequence seed.
    pub sequence_seed: u16,
    /// What to do about stray PCR positions.
    pub position_policy: PcrPositionPolicy,
    /// How often to emit a counter line.
    pub stats_interval: Option<Nanos>,
}

impl Options {
    /// Nothing said.
    pub open spec fn none() -> Options {
        Options {
            rtp: false,
            ssrc: None,
            pcr: PcrMode::Regenerate,
            segment: None,
            latency: None,
            max_latency: None,
            ceiling: None,
            stall_timeout: None,
            stall_grace: None,
            stall_policy: None,
            clocking: Clocking::Arrival,
            sequence_seed: 0,
            position_policy: PcrPositionPolicy::Report,
            stats_interval: None,
        }
    }

    fn new() -> (r: Self)
        ensures
            r == Options::none(),
    {
        Options {
            rtp: false,
            ssrc: None,
            pcr: PcrMode::Regenerate,
            segment: None,
            latency: None,
            max_latency: None,
            ceiling: None,
            stall_timeout: None,
            stall_grace: None,
            stall_policy: None,
            clocking: Clocking::Arrival,
            sequence_seed: 0,
            position_policy: PcrPositionPolicy::default(),
            stats_interval: None,
        }
    }
}

/// The value at `at` for `flag`.
pub open spec fn value_at(
    args: Seq<Seq<char>>,
    at: int,
    flag: Seq<char>,
) -> std::result::Result<Seq<char>, Complaint> {
    if at < args.len() {
        Ok(args[at])
    } else {
        Err(Complaint::NeedsValue(flag))
    }
}

/// The whole number at `at` for `flag`, no more than `max`.
pub open spec fn number_at(
    args: Seq<Seq<char>>,
    at: int,
    flag: Seq<char>,
    max: u64,
) -> std::result::Result<u64, Complaint> {
    match value_at(args, at, flag) {
        Ok(raw) => match whole_number(raw, max) {
            Some(value) => Ok(value),
            None => Err(Complaint::NeedsNumber(flag, raw)),
        },
        Err(complaint) => Err(complaint),
    }
}

/// The count of milliseconds at `at` for `flag`.
pub open spec fn millis_at(
    args: Seq<Seq<char>>,
    at: int,
    flag: Seq<char>,
) -> std::result::Result<Nanos, Complaint> {
    match number_at(args, at, flag, u64::MAX) {
        Ok(ms) => Ok((ms * NANOS_PER_MILLI) as Nanos),
        Err(complaint) => Err(complaint),
    }
}

/// A duration that zero switches off.
pub open spec fn unless_zero(d: Nanos) -> Option<Nanos> {
    if d == 0 {
        None
    } else {
        Some(d)
    }
}

/// The stall policy that `word` names.
pub open spec fn policy_named(word: Seq<char>) -> Option<StallPolicy> {
    if word == "mute"@ {
        Some(StallPolicy::Mute)
    } else if word == "continue"@ {
        Some(StallPolicy::Continue)
    } else if word == "fail"@ {
        Some(StallPolicy::Fail)
    } else {
        None
    }
}

/// What one option says.
pub enum Setting {
    /// `--rtp`
    Rtp,
    /// `--preserve`
    Preserve,
    /// `--ssrc`
    Ssrc(u32),
    /// `--segment-ms`
    Segment(Nanos),
    /// `--latency-ms`
    Latency(Nanos),
    /// `--max-latency-ms`
    MaxLatency(Nanos),
    /// `--latency-ceiling-ms`
    Ceiling(Nanos),
    /// `--stall-ms`
    StallTimeout(Option<Nanos>),
    /// `--stall-grace-ms`
    StallGrace(Nanos),
    /// `--on-stall`
    OnStall(StallPolicy),
    /// `--stream-clock`
    StreamClock,
    /// `--sequence-seed`
    SequenceSeed(u16),
    /// `--require-pcr-position`
    RequirePosition,
    /// `--stats-interval-ms`
    StatsInterval(Option<Nanos>),
}

impl Setting {
    /// The flag that says it.
    pub open spec fn flag(self) -> Seq<char> {
        match self {
            Setting::Rtp => "--rtp"@,
            Setting::Preserve => "--preserve"@,
            Setting::Ssrc(_) => "--ssrc"@,
            Setting::Segment(_) => "--segment-ms"@,
            Setting::Latency(_) => "--latency-ms"@,
            Setting::MaxLatency(_) => "--max-latency-ms"@,
            Setting::Ceiling(_) => "--latency-ceiling-ms"@,
            Setting::StallTimeout(_) => "--stall-ms"@,
            Setting::StallGrace(_) => "--stall-grace-ms"@,
            Setting::OnStall(_) => "--on-stall"@,
            Setting::StreamClock => "--stream-clock"@,
            Setting::SequenceSeed(_) => "--sequence-seed"@,
            Setting::RequirePosition => "--require-pcr-position"@,
            Setting::StatsInterval(_) => "--stats-interval-ms"@,
        }
    }

    /// How many arguments it takes, the flag among them.
    pub open spec fn arguments(self) -> int {
        match self {
            Setting::Rtp | Setting::Preserve | Setting::StreamClock | Setting::RequirePosition => 1,
            _ => 2,
        }
    }
}

impl Options {
    /// These options with one more thing said.
    pub open spec fn with(self, setting: Setting) -> Options {
        match setting {
            Setting::Rtp => Options { rtp: true, ..self },
            Setting::Preserve => Options { pcr: PcrMode::Preserve, ..self },
            Setting::Ssrc(id) => Options { ssrc: Some(id), ..self },
            Setting::Segment(d) => Options { segment: Some(d), ..self },
            Setting::Latency(d) => Options { latency: Some(d), ..self },
            Setting::MaxLatency(d) => Options { max_latency: Some(d), ..self },
            Setting::Ceiling(d) => Options { ceiling: Some(d), ..self },
            Setting::StallTimeout(d) => Options { stall_timeout: Some(d), ..self },
            Setting::StallGrace(d) => Options { stall_grace: Some(d), ..self },
            Setting::OnStall(policy) => Options { stall_policy: Some(policy), ..self },
            Setting::StreamClock => Options { clocking: Clocking::Stream, ..self },
            Setting::SequenceSeed(seed) => Options { sequence_seed: seed, ..self },
            Setting::RequirePosition => Options { position_policy: PcrPositionPolicy::Fail, ..self },
            Setting::StatsInterval(d) => Options { stats_interval: d, ..self },
        }
    }
}

/// What the option at `at` says.
pub open spec fn setting_at(args: Seq<Seq<char>>, at: int) -> std::result::Result<
    Setting,
    Complaint,
> {
    let arg = args[at];
    if arg == "--rtp"@ {
        Ok(Setting::Rtp)
    } else if arg == "--preserve"@ {
        Ok(Setting::Preserve)
    } else if arg == "--ssrc"@ {
        match number_at(args, at + 1, arg, u32::MAX as u64) {
            Ok(id) => Ok(Setting::Ssrc(id as u32)),
            Err(c) => Err(c),
        }
    } else if arg == "--segment-ms"@ {
        match millis_at(args, at + 1, arg) {
            Ok(d) => Ok(Setting::Segment(d)),
            Err(c) => Err(c),
        }
    } else if arg == "--latency-ms"@ {
        match millis_at(args, at + 1, arg) {
            Ok(d) => Ok(Setting::Latency(d)),
            Err(c) => Err(c),
        }
    } else if arg == "--max-latency-ms"@ {
        match millis_at(args, at + 1, arg) {
            Ok(d) => Ok(Setting::MaxLatency(d)),
            Err(c) => Err(c),
        }
    } else if arg == "--latency-ceiling-ms"@ {
        match millis_at(args, at + 1, arg) {
            Ok(d) => Ok(Setting::Ceiling(d)),
            Err(c) => Err(c),
        }
    } else if arg == "--stall-ms"@ {
        match millis_at(args, at + 1, arg) {
            Ok(d) => Ok(Setting::StallTimeout(unless_zero(d))),
            Err(c) => Err(c),
        }
    } else if arg == "--stall-grace-ms"@ {
        match millis_at(args, at + 1, arg) {
            Ok(d) => Ok(Setting::StallGrace(d)),
            Err(c) => Err(c),
        }
    } else if arg == "--on-stall"@ {
        match value_at(args, at + 1, arg) {
            Ok(word) => match policy_named(word) {
                Some(policy) => Ok(Setting::OnStall(policy)),
                None => Err(Complaint::UnknownPolicy(word)),
            },
            Err(c) => Err(c),
        }
    } else if arg == "--stream-clock"@ {
        Ok(Setting::StreamClock)
    } else if arg == "--sequence-seed"@ {
        match number_at(args, at + 1, arg, u16::MAX as u64) {
            Ok(seed) => Ok(Setting::SequenceSeed(seed as u16)),
            Err(c) => Err(c),
        }
    } else if arg == "--require-pcr-position"@ {
        Ok(Setting::RequirePosition)
    } else if arg == "--stats-interval-ms"@ {
        match millis_at(args, at + 1, arg) {
            Ok(d) => Ok(Setting::StatsInterval(unless_zero(d))),
            Err(c) => Err(c),
        }
    } else {
        Err(Complaint::UnknownArgument(arg))
    }
}

/// The options once the one at `at` has been taken in, and how many arguments it
/// took.
pub open spec fn option_at(
    args: Seq<Seq<char>>,
    at: int,
    o: Options,
) -> std::result::Result<(Options, int), Complaint> {
    match setting_at(args, at) {
        Ok(setting) => Ok((o.with(setting), setting.arguments())),
        Err(c) => Err(c),
    }
}

/// The options once everything from `at` on has been taken in, left to right.
pub open spec fn options_from(
    args: Seq<Seq<char>>,
    at: int,
    o: Options,
) -> std::result::Result<Options, Complaint>
    decreases args.len() - at,
{
    if at >= args.len() {
        Ok(o)
    } else {
        match option_at(args, at, o) {
            Ok((next, used)) => if used >= 1 {
                options_from(args, at + used, next)
            } else {
                Ok(next)
            },
            Err(c) => Err(c),
        }
    }
}

// --- the invocation ---------------------------------------------------------------------

/// The output rate that `rate` names.
pub open spec fn bitrate_named(rate: Seq<char>) -> Option<Bitrate> {
    if rate == "auto"@ {
        Some(
            Bitrate::Auto {
                headroom: Ratio { numerator: DEFAULT_AUTO_HEADROOM, denominator: 100 },
            },
        )
    } else {
        match whole_number(rate, u64::MAX) {
            Some(bps) => Some(Bitrate::Constant(bps)),
            None => None,
        }
    }
}

/// The depths that the options leave. The segment duration sets both, so a ceiling,
/// an explicit latency or a cap after it refines what it chose rather than being
/// overwritten.
pub open spec fn depths(o: Options) -> Latency {
    let segmented = match o.segment {
        Some(segment) => Latency::for_segments(segment),
        None => Latency::standard(),
    };
    let bounded = match o.ceiling {
        Some(ceiling) => Latency::Adaptive {
            floor: DEFAULT_LATENCY,
            ceiling,
            factor: Ratio { numerator: DEFAULT_LATENCY_FACTOR, denominator: 100 },
        },
        None => segmented,
    };
    let pinned = match o.latency {
        Some(latency) => Latency::Fixed { target: latency, max: bounded.bound(latency) },
        None => bounded,
    };
    match o.max_latency {
        Some(max) => Latency::Fixed { target: pinned.cushion(0), max },
        None => pinned,
    }
}

/// Whether the options ask for a cap over a cushion with no range to be pinned in. Such
/// a cushion on its own is a configuration like any other, and one that cannot be run.
pub open spec fn ceiling_below_floor(o: Options) -> bool {
    &&& o.latency is None
    &&& o.max_latency is Some
    &&& o.ceiling matches Some(ceiling)
    &&& ceiling < DEFAULT_LATENCY
}

/// The stall detection that the options leave.
pub open spec fn stalling(o: Options) -> Stall {
    match (o.stall_grace, o.stall_timeout) {
        (Some(grace), _) => Stall::Adaptive { grace },
        (None, Some(Some(timeout))) => Stall::After(timeout),
        (None, Some(None)) => Stall::Off,
        (None, None) => Stall::Adaptive { grace: crate::config::DEFAULT_STALL_GRACE },
    }
}

/// The configuration that a rate and the options come to.
pub open spec fn configured(bitrate: Bitrate, o: Options) -> Config {
    Config {
        latency: depths(o),
        pcr: o.pcr,
        clocking: o.clocking,
        sequence_seed: o.sequence_seed,
        pcr_position_policy: o.position_policy,
        stall: stalling(o),
        stall_policy: match o.stall_policy {
            Some(policy) => policy,
            None => StallPolicy::Mute,
        },
        ..Config::around(bitrate)
    }
}

/// Everything the command line says, parsed once.
#[derive(Debug)]
pub struct Invocation {
    /// The run's configuration.
    pub config: Config,
    /// `-`, `stdout`, or an `ip:port` to send to.
    pub dest: String,
    /// As typed, so the announcement can echo `auto` rather than a resolved rate.
    pub rate: String,
    /// Whether to wrap datagrams in RTP.
    pub rtp: bool,
    /// RTP SSRC, if one was given.
    pub ssrc: Option<u32>,
    /// How often to emit a counter line, if at all.
    pub stats_interval: Option<Nanos>,
}

/// Where the output goes, and in what form.
#[derive(Clone, Copy, Debug, PartialEq, Eq, Structural)]
pub enum Route {
    /// Raw transport stream on standard output.
    Stdout,
    /// RTP over UDP.
    Rtp,
    /// Raw transport stream over UDP.
    Udp,
}

/// What a command line asks the program to do.
#[derive(Clone, Copy, Debug, PartialEq, Eq, Structural)]
pub enum Request {
    /// Print the usage.
    Help,
    /// Print the version.
    Version,
    /// Pace.
    Run,
}

/// What parsing `args` comes to.
pub open spec fn parses_to(
    args: Seq<Seq<char>>,
    r: std::result::Result<Invocation, UsageError>,
) -> bool {
    if args.len() == 0 {
        r matches Err(e) && e@ == Complaint::MissingDestination
    } else if args.len() == 1 {
        r matches Err(e) && e@ == Complaint::MissingBitrate
    } else {
        match options_from(args, 2, Options::none()) {
            Err(c) => r matches Err(e) && e@ == c,
            Ok(o) => match bitrate_named(args[1]) {
                None => r matches Err(e) && e@ == Complaint::BadBitrate,
                Some(bitrate) => if ceiling_below_floor(o) {
                    r matches Err(e) && e@ == Complaint::CeilingBelowFloor
                } else {
                    &&& r matches Ok(i)
                    &&& i.config == configured(bitrate, o)
                    &&& i.dest@ == args[0]
                    &&& i.rate@ == args[1]
                    &&& i.rtp == o.rtp
                    &&& i.ssrc == o.ssrc
                    &&& i.stats_interval == o.stats_interval
                },
            },
        }
    }
}

/// Whether `arg` reads `word`.
fn reads(arg: &String, word: &str) -> (r: bool)
    ensures
        r == (arg@ == word@),
{
    let word: String = word.to_owned();
    *arg == word
}

/// What the command line asks for: the usage or the version wherever it is
/// mentioned, the usage first, otherwise a run.
pub fn request(args: &Vec<String>) -> (r: Request)
    ensures
        r == (if texts(args@).contains("-h"@) || texts(args@).contains("--help"@) {
            Request::Help
        } else if texts(args@).contains("-V"@) || texts(args@).contains("--version"@) {
            Request::Version
        } else {
            Request::Run
        }),
{
    if mentions(args, "-h") || mentions(args, "--help") {
        Request::Help
    } else if mentions(args, "-V") || mentions(args, "--version") {
        Request::Version
    } else {
        Request::Run
    }
}

/// Whether any argument reads `word`.
fn mentions(args: &Vec<String>, word: &str) -> (r: bool)
    ensures
        r == texts(args@).contains(word@),
{
    let n: usize = args.len();
    for at in 0..n
        invariant
            n == args@.len(),
            forall|i: int| 0 <= i < at ==> #[trigger] texts(args@)[i] != word@,
    {
        if reads(&args[at], word) {
            assert(texts(args@)[at as int] == word@);
            return true;
        }
    }
    false
}

/// Parse a command line.
pub fn parse(args: &Vec<String>) -> (r: std::result::Result<Invocation, UsageError>)
    ensures
        parses_to(texts(args@), r),
{
    if args.len() == 0 {
        return Err(UsageError::MissingDestination);
    }
    if args.len() == 1 {
        return Err(UsageError::MissingBitrate);
    }
    let options: Options = match parse_options(args) {
        Ok(options) => options,
        Err(error) => {
            return Err(error);
        },
    };
    let base: Config = if reads(&args[1], "auto") {
        Config::auto()
    } else {
        match parse_whole_number(args[1].as_str(), u64::MAX) {
            Some(bitrate) => Config::new(bitrate),
            None => {
                return Err(UsageError::BadBitrate);
            },
        }
    };
    let config: Config = match configure(base, &options) {
        Some(config) => config,
        None => {
            return Err(UsageError::CeilingBelowFloor);
        },
    };
    Ok(
        Invocation {
            config,
            dest: args[0].clone(),
            rate: args[1].clone(),
            rtp: options.rtp,
            ssrc: options.ssrc,
            stats_interval: options.stats_interval,
        },
    )
}

/// Apply the options to a configuration at its defaults. Order matters: the segment
/// duration sets both depths, so an explicit latency or cap after it refines what it
/// chose rather than being overwritten.
fn configure(base: Config, o: &Options) -> (r: Option<Config>)
    requires
        base == Config::around(base.bitrate),
    ensures
        r is None <==> ceiling_below_floor(*o),
        r matches Some(config) ==> config == configured(base.bitrate, *o),
{
    let mut config: Config = base.with_pcr_mode(o.pcr).with_clocking(
        o.clocking,
    ).with_sequence_seed(o.sequence_seed).with_pcr_position_policy(o.position_policy);
    if let Some(segment) = o.segment {
        config = config.with_segment_duration(segment);
    }
    if let Some(ceiling) = o.ceiling {
        if o.latency.is_none() && o.max_latency.is_some() && ceiling < DEFAULT_LATENCY {
            return None;
        }
        config = config.with_adaptive_latency(
            DEFAULT_LATENCY,
            ceiling,
            Ratio::percent(DEFAULT_LATENCY_FACTOR),
        );
    }
    if let Some(latency) = o.latency {
        config = config.with_latency(latency);
    }
    if let Some(max) = o.max_latency {
        config = config.with_max_latency(max);
    }
    if let Some(timeout) = o.stall_timeout {
        config = config.with_stall_timeout(timeout);
    }
    if let Some(grace) = o.stall_grace {
        config = config.with_stall_grace(grace);
    }
    if let Some(policy) = o.stall_policy {
        config = config.with_stall_policy(policy);
    }
    Some(config)
}

/// Take in every option after the destination and the rate.
fn parse_options(args: &Vec<String>) -> (r: std::result::Result<Options, UsageError>)
    requires
        args@.len() >= 2,
    ensures
        match options_from(texts(args@), 2, Options::none()) {
            Ok(o) => r matches Ok(got) && got == o,
            Err(c) => r matches Err(e) && e@ == c,
        },
{
    let ghost words = texts(args@);
    let mut options: Options = Options::new();
    let mut at: usize = 2;
    while at < args.len()
        invariant
            words == texts(args@),
            2 <= at,
            options_from(words, 2, Options::none()) == options_from(words, at as int, options),
        decreases args@.len() - at,
    {
        match parse_option(args, at, options) {
            Ok((next, used)) => {
                options = next;
                at = at + used;
            },
            Err(error) => {
                return Err(error);
            },
        }
    }
    Ok(options)
}

/// Take in the option at `at`. Returns how many arguments it took.
fn parse_option(args: &Vec<String>, at: usize, o: Options) -> (r: std::result::Result<
    (Options, usize),
    UsageError,
>)
    requires
        at < args@.len(),
    ensures
        match option_at(texts(args@), at as int, o) {
            Ok((next, used)) => r matches Ok(got) && got.0 == next && got.1 == used && 1 <= used
                <= 2 && at + used <= args@.len(),
            Err(c) => r matches Err(e) && e@ == c,
        },
{
    let n: usize = args.len();
    let arg: &String = &args[at];
    assert(texts(args@)[at as int] == arg@);
    let mut next: Options = o;
    if reads(arg, "--rtp") {
        next.rtp = true;
        return Ok((next, 1));
    }
    if reads(arg, "--preserve") {
        next.pcr = PcrMode::Preserve;
        return Ok((next, 1));
    }
    if reads(arg, "--ssrc") {
        return match number(args, at + 1, "--ssrc", u32::MAX as u64) {
            Ok(id) => {
                next.ssrc = Some(id as u32);
                Ok((next, 2))
            },
            Err(error) => Err(error),
        };
    }
    // The escape hatch for a segmented input whose segment duration is known: it pins
    // the depths adaptive sizing would converge on, without spending two deliveries
    // working them out.
    if reads(arg, "--segment-ms") {
        return match milliseconds(args, at + 1, "--segment-ms") {
            Ok(d) => {
                next.segment = Some(d);
                Ok((next, 2))
            },
            Err(error) => Err(error),
        };
    }
    if reads(arg, "--latency-ms") {
        return match milliseconds(args, at + 1, "--latency-ms") {
            Ok(d) => {
                next.latency = Some(d);
                Ok((next, 2))
            },
            Err(error) => Err(error),
        };
    }
    if reads(arg, "--max-latency-ms") {
        return match milliseconds(args, at + 1, "--max-latency-ms") {
            Ok(d) => {
                next.max_latency = Some(d);
                Ok((next, 2))
            },
            Err(error) => Err(error),
        };
    }
    if reads(arg, "--latency-ceiling-ms") {
        return match milliseconds(args, at + 1, "--latency-ceiling-ms") {
            Ok(d) => {
                next.ceiling = Some(d);
                Ok((next, 2))
            },
            Err(error) => Err(error),
        };
    }
    // 0 disables stall detection: hold the carrier however long the source is gone.
    if reads(arg, "--stall-ms") {
        return match milliseconds(args, at + 1, "--stall-ms") {
            Ok(d) => {
                next.stall_timeout = Some(
                    if d == 0 {
                        None
                    } else {
                        Some(d)
                    },
                );
                Ok((next, 2))
            },
            Err(error) => Err(error),
        };
    }
    if reads(arg, "--stall-grace-ms") {
        return match milliseconds(args, at + 1, "--stall-grace-ms") {
            Ok(d) => {
                next.stall_grace = Some(d);
                Ok((next, 2))
            },
            Err(error) => Err(error),
        };
    }
    if reads(arg, "--on-stall") {
        return match value(args, at + 1, "--on-stall") {
            Ok(word) => match parse_policy(word) {
                Some(policy) => {
                    next.stall_policy = Some(policy);
                    Ok((next, 2))
                },
                None => Err(UsageError::UnknownPolicy(word.clone())),
            },
            Err(error) => Err(error),
        };
    }
    // Place packets by stream position rather than by arrival, so two instances fed
    // the same objects emit the same bytes in the same slots and an ST 2022-7 receiver
    // can merge them. Needs an explicit bitrate and an explicit latency.
    if reads(arg, "--stream-clock") {
        next.clocking = Clocking::Stream;
        return Ok((next, 1));
    }
    if reads(arg, "--sequence-seed") {
        return match number(args, at + 1, "--sequence-seed", u16::MAX as u64) {
            Ok(seed) => {
                next.sequence_seed = seed as u16;
                Ok((next, 2))
            },
            Err(error) => Err(error),
        };
    }
    // Refuse a source whose PCR positions do not track its PCR values, rather than
    // emitting a byte-locked clock over a stream the grid has silently started
    // dropping. Off by default: the same behaviour absorbs a genuine rate peak, and a
    // peak is legitimate.
    if reads(arg, "--require-pcr-position") {
        next.position_policy = PcrPositionPolicy::Fail;
        return Ok((next, 1));
    }
    // A permanent feed outlives any closing report, and the counters that matter over
    // hours are the ones that are supposed to be *stationary*. Emitting them on a
    // timer is what makes those a time series rather than one reading.
    if reads(arg, "--stats-interval-ms") {
        return match milliseconds(args, at + 1, "--stats-interval-ms") {
            Ok(d) => {
                next.stats_interval = if d == 0 {
                    None
                } else {
                    Some(d)
                };
                Ok((next, 2))
            },
            Err(error) => Err(error),
        };
    }
    Err(UsageError::UnknownArgument(arg.clone()))
}

/// The stall policy that a word names.
fn parse_policy(word: &String) -> (r: Option<StallPolicy>)
    ensures
        r == policy_named(word@),
{
    if reads(word, "mute") {
        Some(StallPolicy::Mute)
    } else if reads(word, "continue") {
        Some(StallPolicy::Continue)
    } else if reads(word, "fail") {
        Some(StallPolicy::Fail)
    } else {
        None
    }
}

/// The argument at `at`, for `flag`.
fn value<'a>(args: &'a Vec<String>, at: usize, flag: &str) -> (r: std::result::Result<
    &'a String,
    UsageError,
>)
    ensures
        match value_at(texts(args@), at as int, flag@) {
            Ok(word) => r matches Ok(got) && got@ == word && at < args@.len(),
            Err(c) => r matches Err(e) && e@ == c,
        },
{
    if at < args.len() {
        assert(texts(args@)[at as int] == args@[at as int]@);
        Ok(&args[at])
    } else {
        Err(UsageError::NeedsValue(flag.to_owned()))
    }
}

/// The argument at `at`, for `flag`, as a whole number.
fn number(args: &Vec<String>, at: usize, flag: &str, max: u64) -> (r: std::result::Result<
    u64,
    UsageError,
>)
    ensures
        match number_at(texts(args@), at as int, flag@, max) {
            Ok(n) => r matches Ok(got) && got == n && at < args@.len() && n <= max,
            Err(c) => r matches Err(e) && e@ == c,
        },
{
    match value(args, at, flag) {
        Ok(raw) => match parse_whole_number(raw.as_str(), max) {
            Some(n) => Ok(n),
            None => Err(UsageError::NeedsNumber(flag.to_owned(), raw.clone())),
        },
        Err(error) => Err(error),
    }
}

/// The argument at `at`, for `flag`, as a count of milliseconds.
fn milliseconds(args: &Vec<String>, at: usize, flag: &str) -> (r: std::result::Result<
    Nanos,
    UsageError,
>)
    ensures
        match millis_at(texts(args@), at as int, flag@) {
            Ok(d) => r matches Ok(got) && got == d && at < args@.len(),
            Err(c) => r matches Err(e) && e@ == c,
        },
{
    match number(args, at, flag, u64::MAX) {
        Ok(ms) => Ok(millis(ms)),
        Err(error) => Err(error),
    }
}

impl Invocation {
    /// Where the output goes, and in what form.
    pub open spec fn destined(self) -> Route {
        if self.dest@ == "-"@ || self.dest@ == "stdout"@ {
            Route::Stdout
        } else if self.rtp {
            Route::Rtp
        } else {
            Route::Udp
        }
    }

    /// Where the output goes, and in what form.
    pub fn route(&self) -> (r: Route)
        ensures
            r == self.destined(),
    {
        if reads(&self.dest, "-") || reads(&self.dest, "stdout") {
            Route::Stdout
        } else if self.rtp {
            Route::Rtp
        } else {
            Route::Udp
        }
    }
}

// --- what is logged while it runs -------------------------------------------------------

/// Decides what a running program logs: liveness transitions, and a counter line on a
/// timer.
#[derive(Clone, Copy, Debug)]
pub struct Monitor {
    /// The state last logged.
    pub last: Option<SourceState>,
    /// When the next counter line is due, and how far apart they are.
    pub next: Option<(Nanos, Nanos)>,
}

/// What to log of one health report.
#[derive(Clone, Copy, Debug, PartialEq, Eq, Structural)]
pub struct Notice {
    /// A counter line is due.
    pub sample: bool,
    /// The state has changed.
    pub changed: bool,
}

impl Monitor {
    /// Start monitoring at `now`, with a counter line every `interval` if there is
    /// one.
    pub fn new(interval: Option<Nanos>, now: Nanos) -> (r: Self)
        ensures
            r.last is None,
            r.next == (match interval {
                Some(every) => Some((lasting(now + every), every)),
                None => None,
            }),
    {
        let next: Option<(Nanos, Nanos)> = match interval {
            Some(every) => Some((together(now, every), every)),
            None => None,
        };
        Monitor { last: None, next }
    }

    /// A report of `source` at `now`. Whole periods are skipped rather than caught
    /// up, so a stalled emitter does not produce a burst of backdated lines.
    pub fn note(&mut self, source: SourceState, now: Nanos) -> (notice: Notice)
        ensures
            final(self).last == Some(source),
            notice.changed == (old(self).last != Some(source)),
            notice.sample == (old(self).next matches Some((due, _)) && now >= due),
            final(self).next == (match old(self).next {
                Some((due, every)) if now >= due => Some((lasting(now + every), every)),
                other => other,
            }),
    {
        let mut sample: bool = false;
        if let Some((due, every)) = self.next {
            if now >= due {
                self.next = Some((together(now, every), every));
                sample = true;
            }
        }
        let changed: bool = match self.last {
            Some(last) => last != source,
            None => true,
        };
        self.last = Some(source);
        Notice { sample, changed }
    }
}

/// A run without options is the default configuration around its rate.
pub proof fn law_no_options_is_the_default(bitrate: Bitrate)
    ensures
        configured(bitrate, Options::none()) == Config::around(bitrate),
{
}

/// Stream clocking with what it needs - a constant rate and a pinned latency that the
/// cap allows - is a configuration that can be honoured.
pub proof fn law_stream_clocking_is_honoured(rate: u64, latency: Nanos)
    requires
        latency <= LONGEST,
    ensures
        configured(
            Bitrate::Constant(rate),
            (Options { clocking: Clocking::Stream, latency: Some(latency), ..Options::none() }),
        ).refusal() is None,
{
}

// --- the order of the options -----------------------------------------------------------

/// An option as it is typed: a flag, and its value if it has one.
pub struct Typed {
    /// The flag.
    pub flag: Seq<char>,
    /// The value behind it.
    pub value: Option<Seq<char>>,
}

impl Typed {
    /// The arguments it is.
    pub open spec fn words(self) -> Seq<Seq<char>> {
        match self.value {
            Some(value) => seq![self.flag, value],
            None => seq![self.flag],
        }
    }

    /// Whether it is complete: it has a value if and only if its flag takes one.
    pub open spec fn complete(self) -> bool {
        self.value is None <==> takes_no_value(self.flag)
    }
}

/// Whether `flag` stands alone. One that is not known at all is as good as alone.
pub open spec fn takes_no_value(flag: Seq<char>) -> bool {
    !({
        ||| flag == "--ssrc"@
        ||| flag == "--segment-ms"@
        ||| flag == "--latency-ms"@
        ||| flag == "--max-latency-ms"@
        ||| flag == "--latency-ceiling-ms"@
        ||| flag == "--stall-ms"@
        ||| flag == "--stall-grace-ms"@
        ||| flag == "--on-stall"@
        ||| flag == "--sequence-seed"@
        ||| flag == "--stats-interval-ms"@
    })
}

/// The arguments that `typed` are, one behind the other.
pub open spec fn words_of(typed: Seq<Typed>) -> Seq<Seq<char>>
    decreases typed.len(),
{
    if typed.len() == 0 {
        Seq::empty()
    } else {
        typed[0].words() + words_of(typed.drop_first())
    }
}

/// Whether no flag of `typed` occurs twice.
pub open spec fn distinct(typed: Seq<Typed>) -> bool {
    forall|i: int, j: int|
        0 <= i < j < typed.len() ==> (#[trigger] typed[i]).flag != (#[trigger] typed[j]).flag
}

/// Whether every option of `typed` is complete.
pub open spec fn all_complete(typed: Seq<Typed>) -> bool {
    forall|i: int| 0 <= i < typed.len() ==> (#[trigger] typed[i]).complete()
}

/// What one option says by itself.
spec fn said(typed: Typed) -> std::result::Result<Setting, Complaint> {
    setting_at(typed.words(), 0)
}

/// The options once all of `typed` have been taken in, nothing if one is wrong.
spec fn said_by_all(typed: Seq<Typed>, o: Options) -> Option<Options>
    decreases typed.len(),
{
    if typed.len() == 0 {
        Some(o)
    } else {
        match said(typed[0]) {
            Ok(setting) => said_by_all(typed.drop_first(), o.with(setting)),
            Err(_) => None,
        }
    }
}

/// The flags that stand alone are none of those that take a value.
proof fn lemma_flags_that_stand_alone()
    ensures
        takes_no_value("--rtp"@),
        takes_no_value("--preserve"@),
        takes_no_value("--stream-clock"@),
        takes_no_value("--require-pcr-position"@),
{
    reveal_strlit("--rtp");
    reveal_strlit("--preserve");
    reveal_strlit("--stream-clock");
    reveal_strlit("--require-pcr-position");
    reveal_strlit("--ssrc");
    reveal_strlit("--segment-ms");
    reveal_strlit("--latency-ms");
    reveal_strlit("--max-latency-ms");
    reveal_strlit("--latency-ceiling-ms");
    reveal_strlit("--stall-ms");
    reveal_strlit("--stall-grace-ms");
    reveal_strlit("--on-stall");
    reveal_strlit("--sequence-seed");
    reveal_strlit("--stats-interval-ms");
    assert("--rtp"@.len() == 5);
    assert("--preserve"@.len() == 10);
    assert("--stream-clock"@.len() == 14);
    assert("--require-pcr-position"@.len() == 22);
    assert("--ssrc"@.len() == 6);
    assert("--segment-ms"@.len() == 12);
    assert("--latency-ms"@.len() == 12);
    assert("--max-latency-ms"@.len() == 16);
    assert("--latency-ceiling-ms"@.len() == 20);
    assert("--stall-ms"@.len() == 10);
    assert("--stall-grace-ms"@.len() == 16);
    assert("--on-stall"@.len() == 10);
    assert("--sequence-seed"@.len() == 15);
    assert("--stats-interval-ms"@.len() == 19);
    assert("--preserve"@[2] == 'p' && "--stall-ms"@[2] == 's' && "--on-stall"@[2] == 'o');
}

/// What an option says does not depend on what stands around it.
#[verifier::spinoff_prover]
proof fn lemma_said_in_place(args: Seq<Seq<char>>, at: int, typed: Typed)
    requires
        typed.complete(),
        0 <= at,
        at + typed.words().len() <= args.len(),
        args.subrange(at, at + typed.words().len()) == typed.words(),
    ensures
        setting_at(args, at) == said(typed),
        said(typed) matches Ok(setting) ==> {
            &&& setting.arguments() == typed.words().len()
            &&& setting.flag() == typed.flag
        },
{
    let words = typed.words();
    lemma_flags_that_stand_alone();
    assert(args[at] == args.subrange(at, at + words.len())[0]);
    assert(words[0] == typed.flag);
    if typed.value is Some {
        assert(args[at + 1] == args.subrange(at, at + words.len())[1]);
        assert(value_at(args, at + 1, typed.flag) == value_at(words, 1, typed.flag));
    }
}

/// Taking in a row of complete options is taking in what each says.
proof fn lemma_taken_in(args: Seq<Seq<char>>, at: int, typed: Seq<Typed>, o: Options)
    requires
        all_complete(typed),
        0 <= at <= args.len(),
        args.skip(at) == words_of(typed),
    ensures
        match said_by_all(typed, o) {
            Some(all) => options_from(args, at, o) == Ok::<Options, Complaint>(all),
            None => options_from(args, at, o) is Err,
        },
    decreases typed.len(),
{
    if typed.len() > 0 {
        let first = typed[0];
        let words = first.words();
        let rest = words_of(typed.drop_first());
        assert(args.skip(at).len() == words.len() + rest.len());
        assert(args.subrange(at, at + words.len()) =~= words) by {
            assert forall|i: int| 0 <= i < words.len() implies args.subrange(
                at,
                at + words.len(),
            )[i] == words[i] by {
                assert(args.skip(at)[i] == words[i]);
            }
        }
        lemma_said_in_place(args, at, first);
        if let Ok(setting) = said(first) {
            assert(args.skip(at + words.len()) =~= rest) by {
                assert forall|i: int| 0 <= i < rest.len() implies args.skip(at + words.len())[i]
                    == rest[i] by {
                    assert(args.skip(at)[i + words.len()] == rest[i]);
                }
            }
            lemma_taken_in(args, at + words.len(), typed.drop_first(), o.with(setting));
        }
    }
}

/// Two different things said, in either order, come to the same.
proof fn lemma_settings_commute(o: Options, one: Setting, other: Setting)
    requires
        one.flag() != other.flag(),
    ensures
        o.with(one).with(other) == o.with(other).with(one),
{
}

/// An option may as well be said first.
proof fn lemma_said_first(typed: Seq<Typed>, k: int, o: Options)
    requires
        all_complete(typed),
        distinct(typed),
        0 <= k < typed.len(),
    ensures
        said_by_all(typed, o) == said_by_all(seq![typed[k]] + typed.remove(k), o),
    decreases k,
{
    let moved = seq![typed[k]] + typed.remove(k);
    if k == 0 {
        assert(moved =~= typed);
    } else {
        let first = typed[0];
        let rest = typed.drop_first();
        let swapped = seq![typed[k]] + rest.remove(k - 1);
        assert(moved.drop_first() =~= typed.remove(k));
        assert(typed.remove(k)[0] == first);
        assert(typed.remove(k).drop_first() =~= rest.remove(k - 1));
        assert(swapped.drop_first() =~= rest.remove(k - 1));
        assert(rest[k - 1] == typed[k]);
        assert(first.words().subrange(0, first.words().len() as int) =~= first.words());
        assert(typed[k].words().subrange(0, typed[k].words().len() as int) =~= typed[k].words());
        lemma_said_in_place(first.words(), 0, first);
        lemma_said_in_place(typed[k].words(), 0, typed[k]);
        assert(first.flag != typed[k].flag);
        match (said(first), said(typed[k])) {
            (Ok(a), Ok(b)) => {
                lemma_said_first(rest, k - 1, o.with(a));
                lemma_settings_commute(o, a, b);
                assert(said_by_all(moved, o) == said_by_all(typed.remove(k), o.with(b)));
                assert(said_by_all(typed.remove(k), o.with(b)) == said_by_all(
                    rest.remove(k - 1),
                    o.with(b).with(a),
                ));
                assert(said_by_all(swapped, o.with(a)) == said_by_all(
                    rest.remove(k - 1),
                    o.with(a).with(b),
                ));
            },
            (Ok(a), Err(_)) => {
                lemma_said_first(rest, k - 1, o.with(a));
                assert(said_by_all(swapped, o.with(a)) is None);
            },
            (Err(_), Ok(b)) => {
                assert(said_by_all(typed.remove(k), o.with(b)) is None);
            },
            _ => {},
        }
    }
}

/// Options in another order come to the same.
proof fn lemma_any_order(typed: Seq<Typed>, others: Seq<Typed>, o: Options)
    requires
        all_complete(typed),
        distinct(typed),
        typed.to_multiset() == others.to_multiset(),
    ensures
        said_by_all(typed, o) == said_by_all(others, o),
        all_complete(others),
    decreases others.len(),
{
    typed.to_multiset_ensures();
    others.to_multiset_ensures();
    assert(typed.to_multiset().len() == others.to_multiset().len());
    if others.len() > 0 {
        let x = others[0];
        assert(others.contains(x));
        assert(others.to_multiset().count(x) > 0);
        assert(typed.to_multiset().count(x) > 0);
        let k = choose|k: int| 0 <= k < typed.len() && typed[k] == x;
        let rest = typed.remove(k);
        lemma_said_first(typed, k, o);
        assert((seq![x] + rest).drop_first() =~= rest);
        assert(others.remove(0) =~= others.drop_first());
        assert(rest.to_multiset() == typed.to_multiset().remove(x));
        assert(others.remove(0).to_multiset() == others.to_multiset().remove(x));
        let o2 = match said(x) {
            Ok(setting) => o.with(setting),
            Err(_) => o,
        };
        lemma_any_order(rest, others.drop_first(), o2);
        assert forall|i: int| 0 <= i < others.len() implies (#[trigger] others[i]).complete() by {
            if i > 0 {
                assert(others[i] == others.drop_first()[i - 1]);
            }
        }
    }
}

/// The order of the options makes no difference: two command lines with the same
/// destination and rate, and the same complete options in any order, none of them
/// twice, parse to the same invocation, or neither parses.
pub proof fn law_the_order_of_options_does_not_matter(
    dest: Seq<char>,
    rate: Seq<char>,
    typed: Seq<Typed>,
    others: Seq<Typed>,
    one: std::result::Result<Invocation, UsageError>,
    other: std::result::Result<Invocation, UsageError>,
)
    requires
        all_complete(typed),
        distinct(typed),
        typed.to_multiset() == others.to_multiset(),
        parses_to(seq![dest, rate] + words_of(typed), one),
        parses_to(seq![dest, rate] + words_of(others), other),
    ensures
        one is Ok <==> other is Ok,
        one matches Ok(a) ==> other matches Ok(b) ==> {
            &&& a.config == b.config
            &&& a.dest@ == b.dest@
            &&& a.rate@ == b.rate@
            &&& a.rtp == b.rtp
            &&& a.ssrc == b.ssrc
            &&& a.stats_interval == b.stats_interval
        },
{
    let (a, b) = (seq![dest, rate] + words_of(typed), seq![dest, rate] + words_of(others));
    assert(a.skip(2) =~= words_of(typed));
    assert(b.skip(2) =~= words_of(others));
    lemma_any_order(typed, others, Options::none());
    lemma_taken_in(a, 2, typed, Options::none());
    lemma_taken_in(b, 2, others, Options::none());
    assert(a[0] == dest && a[1] == rate && b[0] == dest && b[1] == rate);
}

} // verus!
