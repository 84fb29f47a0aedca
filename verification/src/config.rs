//! Everything a session is told before it starts.

use vstd::prelude::*;
use vstd::string::*;

use crate::error::{EngineError, EngineErrorView};
use crate::link::{source_kind, source_kind_text, Framing, PipelineConfig, SourceSpec};
use crate::sctime::{cuc_readable, MAX_TIME_BYTES};
use crate::text::{blank, decimal, is_blank, push_decimal};
use crate::time::Utc;

verus! {

/// How a spacecraft stamps its packets, and which parameter carries the stamp.
#[derive(Clone, PartialEq, Eq, Debug)]
pub struct TimeSource {
    /// Qualified or leaf parameter name.
    pub parameter: String,
    /// The byte layout the parameter's value is in.
    pub format: TimeFormat,
}

/// The three time codes a mission in reach actually sends.
#[derive(Clone, Copy, PartialEq, Eq, Debug, Structural)]
pub enum TimeFormat {
    /// CCSDS unsegmented, `coarse` seconds and `fine` sub-second bytes from `epoch`.
    Cuc {
        /// Octets of whole seconds, most significant first.
        coarse_bytes: u8,
        /// Octets of binary fraction below the second.
        fine_bytes: u8,
        /// What the count is measured from.
        epoch: Utc,
    },
    /// CCSDS day segmented.
    Cds {
        /// Octets of the day count: two for the 1958 epoch, three for a longer mission.
        day_bytes: u8,
        /// Octets below the millisecond: zero, two for microseconds, four for picoseconds.
        submillisecond_bytes: u8,
        /// What the day count is measured from.
        epoch: Utc,
    },
    /// The parameter is already seconds since an epoch.
    Seconds {
        /// What the count is measured from.
        epoch: Utc,
    },
}

/// How many bytes a field of a format takes, when that is fixed.
pub open spec fn field_width(format: TimeFormat) -> Option<int> {
    match format {
        TimeFormat::Cuc { coarse_bytes, fine_bytes, .. } => Some(coarse_bytes + fine_bytes),
        TimeFormat::Cds { day_bytes, submillisecond_bytes, .. } => Some(
            day_bytes + 4 + submillisecond_bytes,
        ),
        TimeFormat::Seconds { .. } => None,
    }
}

impl TimeFormat {
    /// What the count in this format is measured from.
    pub fn epoch(self) -> (r: Utc)
        ensures
            r == (match self {
                TimeFormat::Cuc { epoch, .. } => epoch,
                TimeFormat::Cds { epoch, .. } => epoch,
                TimeFormat::Seconds { epoch } => epoch,
            }),
    {
        match self {
            TimeFormat::Cuc { epoch, .. } => epoch,
            TimeFormat::Cds { epoch, .. } => epoch,
            TimeFormat::Seconds { epoch } => epoch,
        }
    }

    /// How many bytes a field in this format occupies, when that is fixed.
    ///
    /// `None` for [`TimeFormat::Seconds`], which is a number and not a byte layout.
    pub fn field_bytes(self) -> (r: Option<usize>)
        ensures
            r is Some <==> field_width(self) is Some,
            r matches Some(width) ==> field_width(self) == Some(width as int),
    {
        match self {
            TimeFormat::Cuc { coarse_bytes, fine_bytes, .. } => Some(
                coarse_bytes as usize + fine_bytes as usize,
            ),
            TimeFormat::Cds { day_bytes, submillisecond_bytes, .. } => Some(
                day_bytes as usize + 4 + submillisecond_bytes as usize,
            ),
            TimeFormat::Seconds { .. } => None,
        }
    }
}

/// Points of history kept per watched parameter when the caller does not say.
pub const DEFAULT_HISTORY_DEPTH: usize = 4096;

/// Lines the event log holds when the caller does not say.
pub const DEFAULT_EVENT_CAPACITY: usize = 2048;

/// The UDP port a session binds when the caller does not name a source.
pub const DEFAULT_UDP_PORT: u16 = 10015;

/// Where a session listens when the caller does not name a source.
pub const DEFAULT_UDP_ADDRESS: &'static str = "0.0.0.0:10015";

/// Everything one session needs.
#[derive(Clone, PartialEq, Eq, Debug)]
pub struct SessionConfig {
    /// The XTCE document to decode against.
    pub definition: String,
    /// Which container to start decoding at. `None` takes the definition's only root.
    pub root_container: Option<String>,
    /// Where the bytes come from.
    pub source: SourceSpec,
    /// How those bytes are taken apart.
    pub pipeline: PipelineConfig,
    /// Points of history per watched parameter.
    pub history_depth: usize,
    /// Lines the event log holds.
    pub event_capacity: usize,
    /// A JSON limits file, keyed by qualified parameter name.
    pub limits: Option<String>,
    /// Append every received byte to this file.
    pub record: Option<String>,
    /// Which parameter carries spacecraft time, and in what layout.
    pub spacecraft_time: Option<TimeSource>,
}

/// Why a session with no definition is refused.
pub const NO_DEFINITION: &'static str =
    "definition: no XTCE document named; a session has nothing to decode against";

/// Why a history of nothing is refused.
pub const NO_HISTORY: &'static str =
    "history_depth: 0; a ring of no points drops every sample it is given, and the operator would watch an empty plot with nothing on the log";

/// Why a log of nothing is refused.
pub const NO_EVENTS: &'static str =
    "event_capacity: 0; the log would throw away the line saying why";

/// Why a clock with no name is refused.
pub const NO_CLOCK_PARAMETER: &'static str =
    "spacecraft_time.parameter: empty; name the parameter that carries the clock";

/// Why a CUC with no seconds is refused.
pub const NO_COARSE_BYTES: &'static str =
    "spacecraft_time.format: a CUC with 0 coarse bytes counts no seconds; CCSDS 301.0-B-4 section 3.2 names one to four";

/// Why a CUC wider than the reader is refused.
pub open spec fn wide_cuc_text(coarse_bytes: u8, fine_bytes: u8) -> Seq<char> {
    "spacecraft_time.format: a CUC of "@ + decimal(coarse_bytes as nat) + " coarse and "@
        + decimal(fine_bytes as nat) + " fine bytes is "@ + decimal(
        (coarse_bytes + fine_bytes) as nat,
    ) + " bytes wide, and this reads at most 8"@
}

/// Why a CDS day segment is refused.
pub open spec fn day_segment_text(day_bytes: u8) -> Seq<char> {
    "spacecraft_time.format: a CDS day segment of "@ + decimal(day_bytes as nat)
        + " bytes; CCSDS 301.0-B-4 section 3.3 defines 16 or 24 bits, and a fourth octet is the most a longer mission count can be"@
}

/// Why a CDS submillisecond field is refused.
pub open spec fn submillisecond_text(submillisecond_bytes: u8) -> Seq<char> {
    "spacecraft_time.format: a CDS submillisecond field of "@ + decimal(
        submillisecond_bytes as nat,
    )
        + " bytes; CCSDS 301.0-B-4 section 3.3 defines 0, 2 (microseconds) or 4 (picoseconds)"@
}

/// Why CSP on a byte stream is refused.
pub open spec fn csp_text(source: SourceSpec) -> Seq<char> {
    "pipeline.csp: set on a "@ + source_kind_text(source)
        + " source; a CSP header has no length field, so a CSP stream can only be read where the message boundaries come from the transport — a UDP source"@
}

/// Why a clock's layout is refused, if it is.
pub open spec fn clock_refusal(source: TimeSource) -> Option<Seq<char>> {
    if blank(source.parameter@) {
        Some(NO_CLOCK_PARAMETER@)
    } else {
        match source.format {
            TimeFormat::Cuc { coarse_bytes, fine_bytes, .. } => if coarse_bytes == 0 {
                Some(NO_COARSE_BYTES@)
            } else if coarse_bytes + fine_bytes > 8 {
                Some(wide_cuc_text(coarse_bytes, fine_bytes))
            } else {
                None
            },
            TimeFormat::Cds { day_bytes, submillisecond_bytes, .. } => if !(2 <= day_bytes <= 4) {
                Some(day_segment_text(day_bytes))
            } else if submillisecond_bytes != 0 && submillisecond_bytes != 2
                && submillisecond_bytes != 4 {
                Some(submillisecond_text(submillisecond_bytes))
            } else {
                None
            },
            TimeFormat::Seconds { .. } => None,
        }
    }
}

/// Checks a spacecraft clock's layout, which the byte readers can only report on one packet at
/// a time.
///
/// Stricter than those readers on purpose: a layout this accepts and the reader refuses would
/// be a session that starts and then stamps every packet with ground receipt.
pub fn validate_time_source(source: &TimeSource) -> (r: Result<(), EngineError>)
    ensures
        match clock_refusal(*source) {
            Some(reason) => r matches Err(error) && error@ == EngineErrorView::Config(reason),
            None => r is Ok,
        },
{
    if is_blank(source.parameter.as_str()) {
        return Err(EngineError::config(NO_CLOCK_PARAMETER.to_owned()));
    }
    match source.format {
        TimeFormat::Cuc { coarse_bytes, fine_bytes, .. } => {
            if coarse_bytes == 0 {
                return Err(EngineError::config(NO_COARSE_BYTES.to_owned()));
            }
            let width: usize = coarse_bytes as usize + fine_bytes as usize;
            if width > MAX_TIME_BYTES {
                let mut message: String = "spacecraft_time.format: a CUC of ".to_owned();
                push_decimal(&mut message, coarse_bytes as u64);
                message.append(" coarse and ");
                push_decimal(&mut message, fine_bytes as u64);
                message.append(" fine bytes is ");
                push_decimal(&mut message, width as u64);
                message.append(" bytes wide, and this reads at most 8");
                return Err(EngineError::config(message));
            }
        },
        TimeFormat::Cds { day_bytes, submillisecond_bytes, .. } => {
            if day_bytes < 2 || day_bytes > 4 {
                let mut message: String =
                    "spacecraft_time.format: a CDS day segment of ".to_owned();
                push_decimal(&mut message, day_bytes as u64);
                message.append(
                    " bytes; CCSDS 301.0-B-4 section 3.3 defines 16 or 24 bits, and a fourth octet is the most a longer mission count can be",
                );
                return Err(EngineError::config(message));
            }
            if submillisecond_bytes != 0 && submillisecond_bytes != 2 && submillisecond_bytes
                != 4 {
                let mut message: String =
                    "spacecraft_time.format: a CDS submillisecond field of ".to_owned();
                push_decimal(&mut message, submillisecond_bytes as u64);
                message.append(
                    " bytes; CCSDS 301.0-B-4 section 3.3 defines 0, 2 (microseconds) or 4 (picoseconds)",
                );
                return Err(EngineError::config(message));
            }
        },
        TimeFormat::Seconds { .. } => {},
    }
    Ok(())
}

/// Why a session is refused, if it is, given what the link said of its framing.
pub open spec fn session_refusal(config: SessionConfig, framing: Result<(), String>) -> Option<
    EngineErrorView,
> {
    if config.definition@.len() == 0 {
        Some(EngineErrorView::Config(NO_DEFINITION@))
    } else if config.history_depth == 0 {
        Some(EngineErrorView::Config(NO_HISTORY@))
    } else if config.event_capacity == 0 {
        Some(EngineErrorView::Config(NO_EVENTS@))
    } else if config.spacecraft_time matches Some(time) && clock_refusal(time) is Some {
        Some(EngineErrorView::Config(clock_refusal(config.spacecraft_time->0)->0))
    } else if config.pipeline.csp is Some && !(config.source is Udp) {
        Some(EngineErrorView::Config(csp_text(config.source)))
    } else {
        match framing {
            Ok(_) => None,
            Err(reason) => Some(EngineErrorView::Link(reason@)),
        }
    }
}

impl SessionConfig {
    /// A station listening on UDP for space packets, with no definition named.
    ///
    /// `definition` is left empty rather than guessed, so [`SessionConfig::validate`] refuses a
    /// config nobody finished filling in.
    pub fn unfinished(max_packet_length: usize) -> (r: Self)
        ensures
            r.definition@.len() == 0,
            r.root_container is None,
            r.source matches SourceSpec::Udp(address) && address@ == DEFAULT_UDP_ADDRESS@,
            r.pipeline == (PipelineConfig {
                framing: Framing::Packets,
                csp: None,
                max_packet_length,
            }),
            r.history_depth == 4096,
            r.event_capacity == 2048,
            r.limits is None,
            r.record is None,
            r.spacecraft_time is None,
    {
        SessionConfig {
            definition: String::new(),
            root_container: None,
            source: SourceSpec::Udp(DEFAULT_UDP_ADDRESS.to_owned()),
            pipeline: PipelineConfig { framing: Framing::Packets, csp: None, max_packet_length },
            history_depth: DEFAULT_HISTORY_DEPTH,
            event_capacity: DEFAULT_EVENT_CAPACITY,
            limits: None,
            record: None,
            spacecraft_time: None,
        }
    }

    /// Checks the configuration before anything is opened, given what the link says of its
    /// framing.
    ///
    /// A mistake is a refused session the operator can read rather than a task that dies in the
    /// background. The paths are not checked for existence here.
    pub fn validate(&self, framing: Result<(), String>) -> (r: Result<(), EngineError>)
        ensures
            match session_refusal(*self, framing) {
                Some(error) => r matches Err(refusal) && refusal@ == error,
                None => r is Ok,
            },
    {
        if self.definition.as_str().is_empty() {
            return Err(EngineError::config(NO_DEFINITION.to_owned()));
        }
        if self.history_depth == 0 {
            return Err(EngineError::config(NO_HISTORY.to_owned()));
        }
        if self.event_capacity == 0 {
            return Err(EngineError::config(NO_EVENTS.to_owned()));
        }
        if let Some(time) = &self.spacecraft_time {
            match validate_time_source(time) {
                Ok(_) => {},
                Err(error) => return Err(error),
            }
        }
        let datagrams = match &self.source {
            SourceSpec::Udp(_) => true,
            _ => false,
        };
        if self.pipeline.csp.is_some() && !datagrams {
            let mut message: String = "pipeline.csp: set on a ".to_owned();
            message.append(source_kind(&self.source));
            message.append(
                " source; a CSP header has no length field, so a CSP stream can only be read where the message boundaries come from the transport — a UDP source",
            );
            return Err(EngineError::config(message));
        }
        match framing {
            Ok(_) => Ok(()),
            Err(reason) => Err(EngineError::Link(reason)),
        }
    }
}

/// A layout that is accepted is one the reader reads: no session starts whose clock could stamp
/// no packet at all.
pub proof fn accepted_clocks_can_be_read(source: TimeSource)
    requires
        clock_refusal(source) is None,
    ensures
        match source.format {
            TimeFormat::Cuc { coarse_bytes, fine_bytes, .. } => cuc_readable(
                coarse_bytes,
                fine_bytes,
            ),
            TimeFormat::Cds { day_bytes, submillisecond_bytes, .. } => 1 <= day_bytes <= 8 && (
            submillisecond_bytes == 0 || submillisecond_bytes == 2 || submillisecond_bytes == 4),
            TimeFormat::Seconds { .. } => true,
        },
{
}

/// A CSP stream is accepted only where the transport gives the message boundaries.
pub proof fn csp_needs_datagrams(config: SessionConfig, framing: Result<(), String>)
    requires
        session_refusal(config, framing) is None,
        config.pipeline.csp is Some,
    ensures
        config.source is Udp,
{
}

} // verus!
