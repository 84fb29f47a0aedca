//! The command line, and the [`SessionConfig`] each subcommand turns into.
//!
//! Four subcommands: `run` is a live pass, `replay` is a recording played back at a rate,
//! `export` is a file turned into a table, and `probe` is a stream nobody has a definition for
//! yet.

use vstd::prelude::*;
use vstd::string::*;

use crate::cli::{CliError, CliErrorView};
use crate::config::{
    session_refusal, SessionConfig, TimeFormat, TimeSource, DEFAULT_EVENT_CAPACITY,
};
use crate::link::{CspVersion, Framing, PipelineConfig, RsConfig, SourceSpec};
use crate::record::EXPORT_CHUNK_BYTES;
use crate::text::{join_words, joined_words, word_views};
use crate::time::{Utc, CCSDS_EPOCH_NANOS, GPS_EPOCH_NANOS};

verus! {

/// Where a `run` session listens when the operator names no source.
pub const DEFAULT_SOURCE: &'static str = "udp://0.0.0.0:10015";

/// Transfer frame length assumed when the operator does not say.
pub const DEFAULT_FRAME_LENGTH: usize = 1115;

/// Replay rate when `replay` is given none, in bytes per second.
pub const DEFAULT_REPLAY_RATE: u64 = 125_000;

/// Codewords interleaved across one frame when `--rs` is given and `--interleave` is not.
pub const DEFAULT_INTERLEAVE: usize = 1;

/// Points of history an `export` keeps: the smallest that a session accepts.
pub const EXPORT_HISTORY_DEPTH: usize = 1;

/// A command line.
#[derive(Debug)]
pub struct Cli {
    /// Say more: every event the link and the decoder raise, not only the ones that matter.
    pub verbose: bool,
    /// What to do.
    pub command: Command,
}

/// The four things this program does.
#[derive(Debug)]
pub enum Command {
    /// Open a live session on a socket or a file and watch it.
    Run(RunArgs),
    /// Replay a recording at a rate, as if it were a pass.
    Replay(ReplayArgs),
    /// Decode a stream into CSV and exit.
    Export(ExportArgs),
    /// Count frames and packets in a file, with no definition.
    Probe(ProbeArgs),
}

/// `xtce-gs run`
#[derive(Debug)]
pub struct RunArgs {
    /// XTCE definition to decode against.
    pub definition: String,
    /// Where the bytes come from, as it was typed.
    pub source: String,
    /// Framing and channel coding.
    pub pipeline: PipelineArgs,
    /// Which parameter carries spacecraft time.
    pub time: TimeArgs,
    /// Points of history kept per watched parameter.
    pub history: usize,
    /// JSON limits file, keyed by qualified parameter name.
    pub limits: Option<String>,
    /// Append every received byte to this file.
    pub record: Option<String>,
    /// Container to start decoding at. Defaults to the definition's only root.
    pub root: Option<String>,
    /// Run without a window, printing counters once a second.
    pub headless: bool,
}

/// `xtce-gs replay`
#[derive(Debug)]
pub struct ReplayArgs {
    /// XTCE definition to decode against.
    pub definition: String,
    /// The recording to replay.
    pub recording: String,
    /// Replay speed in bytes per second. 0 reads as fast as the disk allows.
    pub rate: u64,
    /// Bytes per read.
    pub chunk: usize,
    /// Start over at the end instead of ending the session.
    pub repeat: bool,
    /// Framing and channel coding.
    pub pipeline: PipelineArgs,
    /// Which parameter carries spacecraft time.
    pub time: TimeArgs,
    /// Points of history kept per watched parameter.
    pub history: usize,
    /// JSON limits file, keyed by qualified parameter name.
    pub limits: Option<String>,
    /// Container to start decoding at. Defaults to the definition's only root.
    pub root: Option<String>,
    /// Run without a window, printing counters once a second.
    pub headless: bool,
}

/// `xtce-gs export`
#[derive(Debug)]
pub struct ExportArgs {
    /// XTCE definition to decode against.
    pub definition: String,
    /// The stream to decode: a recording, or a file of packets.
    pub stream: String,
    /// Write here instead of standard output.
    pub output: Option<String>,
    /// Framing and channel coding.
    pub pipeline: PipelineArgs,
    /// Which parameter carries spacecraft time.
    pub time: TimeArgs,
    /// Container to start decoding at. Defaults to the definition's only root.
    pub root: Option<String>,
    /// Stop after this many packets.
    pub limit: Option<usize>,
}

/// `xtce-gs probe`
#[derive(Debug)]
pub struct ProbeArgs {
    /// The file to characterise.
    pub stream: String,
    /// Framing and channel coding to try.
    pub pipeline: PipelineArgs,
    /// Stop after this many bytes.
    pub limit: Option<u64>,
    /// Print the first n packets' APID, sequence count and length.
    pub sample: usize,
}

/// How the bytes are taken apart, shared by every subcommand.
#[derive(Clone, Copy, PartialEq, Eq, Debug, Structural)]
pub struct PipelineArgs {
    /// What the bytes are: back-to-back CCSDS space packets, or TM transfer frames.
    pub framing: FramingKind,
    /// Length of the transfer frame, ASM and Reed-Solomon parity excluded.
    pub frame_length: usize,
    /// Reed-Solomon parity symbols per codeword. `None` for no coding.
    pub rs: Option<usize>,
    /// Codewords interleaved across one frame.
    pub interleave: Option<usize>,
    /// Undo the CCSDS pseudo-randomiser.
    pub derandomize: bool,
    /// The frame ends with a frame error control field.
    pub fecf: bool,
    /// The frame carries an operational control field.
    pub ocf: bool,
    /// Bytes of insert zone after the primary header.
    pub insert_zone: Option<usize>,
    /// The frames are not preceded by an attached sync marker.
    pub no_asm: bool,
    /// Search the seven intermediate bit offsets as well as the byte ones.
    pub bit_slip: bool,
    /// Consecutive missed sync markers tolerated before lock is given up.
    pub flywheel: u32,
    /// A CSP header is wrapped around each packet.
    pub csp: Option<CspKind>,
    /// A packet longer than this is a desync, not a packet.
    pub max_packet_length: usize,
}

/// Which parameter carries spacecraft time, and how it is laid out.
#[derive(Debug)]
pub struct TimeArgs {
    /// Qualified or leaf name of the parameter carrying spacecraft time.
    pub parameter: Option<String>,
    /// How that parameter's bits are laid out.
    pub format: TimeFormatKind,
    /// Octets of whole seconds in a CUC field.
    pub coarse_bytes: u8,
    /// Octets of binary fraction below the second in a CUC field.
    pub fine_bytes: u8,
    /// Octets of the day count in a CDS field.
    pub day_bytes: u8,
    /// Octets below the millisecond in a CDS field: 0, 2 for microseconds, 4 for picoseconds.
    pub submillisecond_bytes: u8,
    /// What the count is measured from.
    pub epoch: EpochKind,
}

/// What the bytes coming off the source are.
#[derive(Clone, Copy, PartialEq, Eq, Debug, Structural)]
pub enum FramingKind {
    /// CCSDS space packets, back to back in a stream or one per datagram.
    Packets,
    /// CCSDS 132.0-B TM transfer frames.
    Tm,
}

/// Which CSP header is wrapped around each packet.
#[derive(Clone, Copy, PartialEq, Eq, Debug, Structural)]
pub enum CspKind {
    /// CSP 1.x: a four-byte header.
    V1,
    /// CSP 2.x: a six-byte header.
    V2,
}

/// How a spacecraft time parameter is laid out.
#[derive(Clone, Copy, PartialEq, Eq, Debug, Structural)]
pub enum TimeFormatKind {
    /// CCSDS unsegmented time code.
    Cuc,
    /// CCSDS day segmented time code.
    Cds,
    /// A count of seconds.
    Seconds,
}

/// What a spacecraft clock counts from.
#[derive(Clone, Copy, PartialEq, Eq, Debug, Structural)]
pub enum EpochKind {
    /// 1958-01-01, the CCSDS epoch.
    Ccsds,
    /// 1970-01-01, the Unix epoch.
    Unix,
    /// 1980-01-06, the GPS epoch.
    Gps,
}

impl From<CspKind> for CspVersion {
    /// The link's name for the same header.
    fn from(kind: CspKind) -> (r: Self) {
        match kind {
            CspKind::V1 => CspVersion::V1,
            CspKind::V2 => CspVersion::V2,
        }
    }
}

impl vstd::std_specs::convert::FromSpecImpl<CspKind> for CspVersion {
    open spec fn obeys_from_spec() -> bool {
        true
    }

    open spec fn from_spec(kind: CspKind) -> Self {
        match kind {
            CspKind::V1 => CspVersion::V1,
            CspKind::V2 => CspVersion::V2,
        }
    }
}

impl From<EpochKind> for Utc {
    /// The instant an epoch names.
    fn from(epoch: EpochKind) -> (r: Self) {
        match epoch {
            EpochKind::Ccsds => Utc(CCSDS_EPOCH_NANOS),
            EpochKind::Unix => Utc(0),
            EpochKind::Gps => Utc(GPS_EPOCH_NANOS),
        }
    }
}

impl vstd::std_specs::convert::FromSpecImpl<EpochKind> for Utc {
    open spec fn obeys_from_spec() -> bool {
        true
    }

    open spec fn from_spec(epoch: EpochKind) -> Self {
        match epoch {
            EpochKind::Ccsds => Utc(CCSDS_EPOCH_NANOS),
            EpochKind::Unix => Utc(0),
            EpochKind::Gps => Utc(GPS_EPOCH_NANOS),
        }
    }
}

/// A list with one more word, where it is given.
pub open spec fn with_flag(flags: Seq<Seq<char>>, flag: Seq<char>, given: bool) -> Seq<Seq<char>> {
    if given {
        flags.push(flag)
    } else {
        flags
    }
}

/// The flags that describe a transfer frame and nothing else, those of them that were typed, in
/// the order they are reported.
pub open spec fn frame_flags(args: PipelineArgs) -> Seq<Seq<char>> {
    let none = Seq::<Seq<char>>::empty();
    let rs = with_flag(none, "--rs"@, args.rs is Some);
    let interleave = with_flag(rs, "--interleave"@, args.interleave is Some);
    let derandomize = with_flag(interleave, "--derandomize"@, args.derandomize);
    let fecf = with_flag(derandomize, "--fecf"@, args.fecf);
    let ocf = with_flag(fecf, "--ocf"@, args.ocf);
    with_flag(ocf, "--insert-zone"@, args.insert_zone is Some)
}

/// Why frame flags under packet framing are refused.
pub open spec fn frame_flags_text(flags: Seq<Seq<char>>) -> Seq<char> {
    joined_words(flags, ", "@)
        + " set with --framing packets, which has no transfer frames to apply "@ + (if flags.len()
        == 1 {
        "it"@
    } else {
        "them"@
    })
        + " to. Reed-Solomon parity and the pseudo-randomiser are the channel coding around a transfer frame (CCSDS 131.0-B-5 sections 4 and 10); the frame error control field and the operational control field are fields of one (CCSDS 132.0-B-3 section 4.1.1.1); the insert zone is a field of an AOS frame (CCSDS 732.0-B-4 section 4.1.3). A stream of back-to-back space packets carries none of them. Give --framing tm, or drop "@
        + joined_words(flags, " and "@)
}

/// Why an interleave with nothing to interleave is refused.
pub const INTERLEAVE_WITHOUT_CODING: &'static str =
    "--interleave given without --rs: interleaving is a property of the Reed-Solomon code (CCSDS 131.0-B-5 section 4) and an uncoded frame has nothing to interleave. Give --rs 32 or --rs 16, or drop --interleave";

/// Why CSP on a probe is refused.
pub const CSP_ON_A_PROBE: &'static str =
    "--csp given to probe, which reads a file: a CSP header has no length field, so a CSP stream can only be read where the message boundaries come from the transport — a UDP source, which probe is not";

/// Why the framing flags are refused, if they are.
pub open spec fn flags_refusal(args: PipelineArgs) -> Option<Seq<char>> {
    match args.framing {
        FramingKind::Packets => if frame_flags(args).len() > 0 {
            Some(frame_flags_text(frame_flags(args)))
        } else {
            None
        },
        FramingKind::Tm => if args.interleave is Some && args.rs is None {
            Some(INTERLEAVE_WITHOUT_CODING@)
        } else {
            None
        },
    }
}

/// The value of an optional number, or what stands for none.
pub open spec fn or_else(value: Option<usize>, otherwise: usize) -> usize {
    match value {
        Some(value) => value,
        None => otherwise,
    }
}

/// The pipeline that framing flags describe.
pub open spec fn pipeline_of(args: PipelineArgs) -> PipelineConfig {
    PipelineConfig {
        framing: match args.framing {
            FramingKind::Packets => Framing::Packets,
            FramingKind::Tm => Framing::TmFrames {
                frame_length: args.frame_length,
                attached_sync_marker: !args.no_asm,
                bit_slip: args.bit_slip,
                flywheel: args.flywheel,
                reed_solomon: match args.rs {
                    Some(parity_symbols) => Some(
                        RsConfig { interleave: or_else(args.interleave, 1), parity_symbols },
                    ),
                    None => None,
                },
                derandomize: args.derandomize,
                has_fecf: args.fecf,
                has_ocf: args.ocf,
                insert_zone: or_else(args.insert_zone, 0),
            },
        },
        csp: match args.csp {
            Some(CspKind::V1) => Some(CspVersion::V1),
            Some(CspKind::V2) => Some(CspVersion::V2),
            None => None,
        },
        max_packet_length: args.max_packet_length,
    }
}

/// Why a pipeline from the command line is refused, if it is: the flags, then what the link says
/// of the framing.
pub open spec fn pipeline_refusal(args: PipelineArgs, framing: Result<(), String>) -> Option<
    Seq<char>,
> {
    if flags_refusal(args) is Some {
        flags_refusal(args)
    } else {
        match framing {
            Err(reason) => Some(reason@),
            Ok(_) => None,
        }
    }
}

impl PipelineArgs {
    /// The pipeline that the arguments describe, whether or not it can be used.
    pub fn described(&self) -> (r: PipelineConfig)
        ensures
            r == pipeline_of(*self),
    {
        let framing = match self.framing {
            FramingKind::Packets => Framing::Packets,
            FramingKind::Tm => Framing::TmFrames {
                frame_length: self.frame_length,
                attached_sync_marker: !self.no_asm,
                bit_slip: self.bit_slip,
                flywheel: self.flywheel,
                reed_solomon: match self.rs {
                    Some(parity_symbols) => Some(
                        RsConfig {
                            interleave: self.interleave.unwrap_or(DEFAULT_INTERLEAVE),
                            parity_symbols,
                        },
                    ),
                    None => None,
                },
                derandomize: self.derandomize,
                has_fecf: self.fecf,
                has_ocf: self.ocf,
                insert_zone: self.insert_zone.unwrap_or(0),
            },
        };
        let csp = match self.csp {
            Some(kind) => Some(CspVersion::from(kind)),
            None => None,
        };
        PipelineConfig { framing, csp, max_packet_length: self.max_packet_length }
    }

    /// Turns the arguments into a pipeline configuration, given what the link says of the
    /// pipeline they describe.
    ///
    /// A flag that describes a transfer frame is refused under packet framing rather than
    /// dropped: each is a claim about the link that packet framing cannot honour. An interleave
    /// without a code has nothing to interleave and is refused too.
    pub fn to_pipeline_config(&self, framing: Result<(), String>) -> (r: Result<
        PipelineConfig,
        CliError,
    >)
        ensures
            match pipeline_refusal(*self, framing) {
                Some(reason) => r matches Err(error) && error@ == CliErrorView::Link(reason),
                None => r == Ok::<PipelineConfig, CliError>(pipeline_of(*self)),
            },
    {
        match self.framing {
            FramingKind::Packets => match self.refuse_frame_flags() {
                Ok(_) => {},
                Err(error) => return Err(error),
            },
            FramingKind::Tm => match self.refuse_interleave_without_coding() {
                Ok(_) => {},
                Err(error) => return Err(error),
            },
        }
        match framing {
            Ok(_) => Ok(self.described()),
            Err(reason) => Err(CliError::Link(reason)),
        }
    }

    /// Which of the flags that describe a transfer frame the operator typed, first one first.
    pub fn frame_only_flags_given(&self) -> (r: Vec<&'static str>)
        ensures
            word_views(r@) == frame_flags(*self),
    {
        let mut given: Vec<&'static str> = Vec::new();
        if self.rs.is_some() {
            given.push("--rs");
        }
        if self.interleave.is_some() {
            given.push("--interleave");
        }
        if self.derandomize {
            given.push("--derandomize");
        }
        if self.fecf {
            given.push("--fecf");
        }
        if self.ocf {
            given.push("--ocf");
        }
        if self.insert_zone.is_some() {
            given.push("--insert-zone");
        }
        assert(word_views(given@) =~= frame_flags(*self));
        given
    }

    /// Refuses a frame flag under packet framing.
    fn refuse_frame_flags(&self) -> (r: Result<(), CliError>)
        ensures
            if frame_flags(*self).len() > 0 {
                r matches Err(error) && error@ == CliErrorView::Link(
                    frame_flags_text(frame_flags(*self)),
                )
            } else {
                r is Ok
            },
    {
        let given = self.frame_only_flags_given();
        if given.len() == 0 {
            return Ok(());
        }
        let mut message: String = join_words(&given, ", ");
        message.append(" set with --framing packets, which has no transfer frames to apply ");
        message.append(
            if given.len() == 1 {
                "it"
            } else {
                "them"
            },
        );
        message.append(
            " to. Reed-Solomon parity and the pseudo-randomiser are the channel coding around a transfer frame (CCSDS 131.0-B-5 sections 4 and 10); the frame error control field and the operational control field are fields of one (CCSDS 132.0-B-3 section 4.1.1.1); the insert zone is a field of an AOS frame (CCSDS 732.0-B-4 section 4.1.3). A stream of back-to-back space packets carries none of them. Give --framing tm, or drop ",
        );
        message.append(join_words(&given, " and ").as_str());
        Err(CliError::Link(message))
    }

    /// Refuses an interleave with nothing to interleave.
    fn refuse_interleave_without_coding(&self) -> (r: Result<(), CliError>)
        ensures
            if self.interleave is Some && self.rs is None {
                r matches Err(error) && error@ == CliErrorView::Link(INTERLEAVE_WITHOUT_CODING@)
            } else {
                r is Ok
            },
    {
        if self.interleave.is_some() && self.rs.is_none() {
            return Err(CliError::Link(INTERLEAVE_WITHOUT_CODING.to_owned()));
        }
        Ok(())
    }
}

/// The layout that clock flags describe.
pub open spec fn clock_format(args: TimeArgs) -> TimeFormat {
    let epoch = match args.epoch {
        EpochKind::Ccsds => Utc(CCSDS_EPOCH_NANOS),
        EpochKind::Unix => Utc(0),
        EpochKind::Gps => Utc(GPS_EPOCH_NANOS),
    };
    match args.format {
        TimeFormatKind::Cuc => TimeFormat::Cuc {
            coarse_bytes: args.coarse_bytes,
            fine_bytes: args.fine_bytes,
            epoch,
        },
        TimeFormatKind::Cds => TimeFormat::Cds {
            day_bytes: args.day_bytes,
            submillisecond_bytes: args.submillisecond_bytes,
            epoch,
        },
        TimeFormatKind::Seconds => TimeFormat::Seconds { epoch },
    }
}

/// The clock that flags describe: none where no parameter was named.
pub open spec fn clock_of(args: TimeArgs) -> Option<TimeSource> {
    match args.parameter {
        Some(parameter) => Some(TimeSource { parameter, format: clock_format(args) }),
        None => None,
    }
}

impl TimeArgs {
    /// The clock these flags describe, or `None` when no parameter was named.
    ///
    /// The layout is not checked here: [`SessionConfig::validate`] owns that message.
    pub fn to_time_source(&self) -> (r: Option<TimeSource>)
        ensures
            r == clock_of(*self),
    {
        match &self.parameter {
            None => None,
            Some(parameter) => {
                let epoch: Utc = Utc::from(self.epoch);
                let format = match self.format {
                    TimeFormatKind::Cuc => TimeFormat::Cuc {
                        coarse_bytes: self.coarse_bytes,
                        fine_bytes: self.fine_bytes,
                        epoch,
                    },
                    TimeFormatKind::Cds => TimeFormat::Cds {
                        day_bytes: self.day_bytes,
                        submillisecond_bytes: self.submillisecond_bytes,
                        epoch,
                    },
                    TimeFormatKind::Seconds => TimeFormat::Seconds { epoch },
                };
                Some(TimeSource { parameter: parameter.clone(), format })
            },
        }
    }
}

fn copy_text(text: &Option<String>) -> (r: Option<String>)
    ensures
        r == *text,
{
    match text {
        Some(text) => Some(text.clone()),
        None => None,
    }
}

/// Why a session from the command line is refused, if it is: the flags, then what the link says
/// of the framing, then what the engine says of the session.
pub open spec fn command_refusal(
    pipeline: PipelineArgs,
    framing: Result<(), String>,
    config: SessionConfig,
) -> Option<CliErrorView> {
    match pipeline_refusal(pipeline, framing) {
        Some(reason) => Some(CliErrorView::Link(reason)),
        None => match session_refusal(config, Ok(())) {
            Some(error) => Some(CliErrorView::Engine(error)),
            None => None,
        },
    }
}

/// Checks a session, once its pipeline has been.
fn checked(config: SessionConfig) -> (r: Result<SessionConfig, CliError>)
    ensures
        match session_refusal(config, Ok(())) {
            Some(refusal) => r matches Err(error) && error@ == CliErrorView::Engine(refusal),
            None => r == Ok::<SessionConfig, CliError>(config),
        },
{
    match config.validate(Ok(())) {
        Ok(_) => Ok(config),
        Err(error) => Err(CliError::Engine(error)),
    }
}

/// The session that `run` arguments describe, reading a source.
pub open spec fn run_config(args: RunArgs, source: SourceSpec) -> SessionConfig {
    SessionConfig {
        definition: args.definition,
        root_container: args.root,
        source,
        pipeline: pipeline_of(args.pipeline),
        history_depth: args.history,
        event_capacity: 2048,
        limits: args.limits,
        record: args.record,
        spacecraft_time: clock_of(args.time),
    }
}

impl RunArgs {
    /// Turns the arguments into a session, given what the link made of the source that was
    /// typed and what it says of the framing.
    ///
    /// A configuration the engine will refuse is refused while the operator is still looking at
    /// the terminal they typed into.
    pub fn to_session_config(
        &self,
        source: Result<SourceSpec, String>,
        framing: Result<(), String>,
    ) -> (r: Result<SessionConfig, CliError>)
        ensures
            match source {
                Err(reason) => r matches Err(error) && error@ == CliErrorView::Link(reason@),
                Ok(spec) => match command_refusal(
                    self.pipeline,
                    framing,
                    run_config(*self, spec),
                ) {
                    Some(refusal) => r matches Err(error) && error@ == refusal,
                    None => r == Ok::<SessionConfig, CliError>(run_config(*self, spec)),
                },
            },
    {
        let spec = match source {
            Ok(spec) => spec,
            Err(reason) => return Err(CliError::Link(reason)),
        };
        let pipeline = match self.pipeline.to_pipeline_config(framing) {
            Ok(pipeline) => pipeline,
            Err(error) => return Err(error),
        };
        let config = SessionConfig {
            definition: self.definition.clone(),
            root_container: copy_text(&self.root),
            source: spec,
            pipeline,
            history_depth: self.history,
            event_capacity: DEFAULT_EVENT_CAPACITY,
            limits: copy_text(&self.limits),
            record: copy_text(&self.record),
            spacecraft_time: self.time.to_time_source(),
        };
        checked(config)
    }
}

/// The session that `replay` arguments describe. A rate of nothing is no rate limit, and a
/// replay is not recorded again.
pub open spec fn replay_config(args: ReplayArgs) -> SessionConfig {
    SessionConfig {
        definition: args.definition,
        root_container: args.root,
        source: SourceSpec::File {
            path: args.recording,
            bytes_per_second: if args.rate > 0 {
                Some(args.rate)
            } else {
                None
            },
            chunk: args.chunk,
            repeat: args.repeat,
        },
        pipeline: pipeline_of(args.pipeline),
        history_depth: args.history,
        event_capacity: 2048,
        limits: args.limits,
        record: None,
        spacecraft_time: clock_of(args.time),
    }
}

impl ReplayArgs {
    /// Turns the arguments into a session, given what the link says of the framing.
    ///
    /// The operator gave a path and a rate as separate arguments, and re-encoding them into a
    /// URL only to parse it back is two places to get the escaping wrong.
    pub fn to_session_config(&self, framing: Result<(), String>) -> (r: Result<
        SessionConfig,
        CliError,
    >)
        ensures
            match command_refusal(self.pipeline, framing, replay_config(*self)) {
                Some(refusal) => r matches Err(error) && error@ == refusal,
                None => r == Ok::<SessionConfig, CliError>(replay_config(*self)),
            },
    {
        let pipeline = match self.pipeline.to_pipeline_config(framing) {
            Ok(pipeline) => pipeline,
            Err(error) => return Err(error),
        };
        let config = SessionConfig {
            definition: self.definition.clone(),
            root_container: copy_text(&self.root),
            source: SourceSpec::File {
                path: self.recording.clone(),
                bytes_per_second: if self.rate > 0 {
                    Some(self.rate)
                } else {
                    None
                },
                chunk: self.chunk,
                repeat: self.repeat,
            },
            pipeline,
            history_depth: self.history,
            event_capacity: DEFAULT_EVENT_CAPACITY,
            limits: copy_text(&self.limits),
            record: None,
            spacecraft_time: self.time.to_time_source(),
        };
        checked(config)
    }
}

/// The session that `export` arguments describe: the stream at no rate limit, and no more
/// history than a session has to keep.
pub open spec fn export_config(args: ExportArgs) -> SessionConfig {
    SessionConfig {
        definition: args.definition,
        root_container: args.root,
        source: SourceSpec::File {
            path: args.stream,
            bytes_per_second: None,
            chunk: 65_536,
            repeat: false,
        },
        pipeline: pipeline_of(args.pipeline),
        history_depth: 1,
        event_capacity: 2048,
        limits: None,
        record: None,
        spacecraft_time: clock_of(args.time),
    }
}

impl ExportArgs {
    /// Turns the arguments into a session, given what the link says of the framing.
    pub fn to_session_config(&self, framing: Result<(), String>) -> (r: Result<
        SessionConfig,
        CliError,
    >)
        ensures
            match command_refusal(self.pipeline, framing, export_config(*self)) {
                Some(refusal) => r matches Err(error) && error@ == refusal,
                None => r == Ok::<SessionConfig, CliError>(export_config(*self)),
            },
    {
        let pipeline = match self.pipeline.to_pipeline_config(framing) {
            Ok(pipeline) => pipeline,
            Err(error) => return Err(error),
        };
        let config = SessionConfig {
            definition: self.definition.clone(),
            root_container: copy_text(&self.root),
            source: SourceSpec::File {
                path: self.stream.clone(),
                bytes_per_second: None,
                chunk: EXPORT_CHUNK_BYTES,
                repeat: false,
            },
            pipeline,
            history_depth: EXPORT_HISTORY_DEPTH,
            event_capacity: DEFAULT_EVENT_CAPACITY,
            limits: None,
            record: None,
            spacecraft_time: self.time.to_time_source(),
        };
        checked(config)
    }
}

impl ProbeArgs {
    /// The framing this probe tries.
    ///
    /// [`PipelineArgs::to_pipeline_config`] plus the refusal that a session would have made: a
    /// CSP stream can only be read where the message boundaries come from the transport, and a
    /// probe always reads a file.
    pub fn to_pipeline_config(&self, framing: Result<(), String>) -> (r: Result<
        PipelineConfig,
        CliError,
    >)
        ensures
            if self.pipeline.csp is Some {
                r matches Err(error) && error@ == CliErrorView::Link(CSP_ON_A_PROBE@)
            } else {
                match pipeline_refusal(self.pipeline, framing) {
                    Some(reason) => r matches Err(error) && error@ == CliErrorView::Link(reason),
                    None => r == Ok::<PipelineConfig, CliError>(pipeline_of(self.pipeline)),
                }
            },
    {
        if self.pipeline.csp.is_some() {
            return Err(CliError::Link(CSP_ON_A_PROBE.to_owned()));
        }
        self.pipeline.to_pipeline_config(framing)
    }

    /// The source this probe reads: the file once, at full speed, `chunk` bytes at a time.
    ///
    /// No path is refused.
    pub fn to_source_spec(&self, chunk: usize) -> (r: Result<SourceSpec, CliError>)
        ensures
            r == Ok::<SourceSpec, CliError>(
                SourceSpec::File {
                    path: self.stream,
                    bytes_per_second: None,
                    chunk,
                    repeat: false,
                },
            ),
    {
        Ok(
            SourceSpec::File {
                path: self.stream.clone(),
                bytes_per_second: None,
                chunk,
                repeat: false,
            },
        )
    }
}

/// No claim about a transfer frame is dropped in silence: packet framing is accepted only where
/// none was made.
pub proof fn no_frame_flag_is_dropped(args: PipelineArgs)
    requires
        args.framing == FramingKind::Packets,
        flags_refusal(args) is None,
    ensures
        args.rs is None,
        args.interleave is None,
        !args.derandomize,
        !args.fecf,
        !args.ocf,
        args.insert_zone is None,
{
}

} // verus!
