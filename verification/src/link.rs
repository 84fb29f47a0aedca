//! What the link is told: where the bytes come from, and how they are taken apart.

use vstd::prelude::*;

verus! {

/// Where the bytes come from.
#[derive(Clone, PartialEq, Eq, Debug)]
pub enum SourceSpec {
    /// Datagrams to an address.
    Udp(String),
    /// A byte stream from an address that is connected to.
    TcpConnect(String),
    /// A byte stream from whoever connects to an address.
    TcpListen(String),
    /// A recording.
    File {
        /// Where it is.
        path: String,
        /// How fast it is read, when it is paced at all.
        bytes_per_second: Option<u64>,
        /// Bytes per read.
        chunk: usize,
        /// Whether it starts over at the end.
        repeat: bool,
    },
}

/// The Reed-Solomon code around a transfer frame.
#[derive(Clone, Copy, PartialEq, Eq, Debug, Structural)]
pub struct RsConfig {
    /// Codewords interleaved across one frame.
    pub interleave: usize,
    /// Parity symbols per codeword.
    pub parity_symbols: usize,
}

/// What the bytes are.
#[derive(Clone, Copy, PartialEq, Eq, Debug, Structural)]
pub enum Framing {
    /// CCSDS space packets, back to back or one per datagram.
    Packets,
    /// CCSDS TM transfer frames.
    TmFrames {
        /// Length of the frame, marker and parity excluded.
        frame_length: usize,
        /// Whether each frame is preceded by a sync marker.
        attached_sync_marker: bool,
        /// Whether the bit offsets between the byte ones are searched too.
        bit_slip: bool,
        /// Consecutive missed markers tolerated.
        flywheel: u32,
        /// The code, if the frames are coded.
        reed_solomon: Option<RsConfig>,
        /// Whether the pseudo-randomiser is undone.
        derandomize: bool,
        /// Whether the frame ends with an error control field.
        has_fecf: bool,
        /// Whether the frame carries an operational control field.
        has_ocf: bool,
        /// Bytes of insert zone after the primary header.
        insert_zone: usize,
    },
}

/// Which CSP header is wrapped around each packet.
#[derive(Clone, Copy, PartialEq, Eq, Debug, Structural)]
pub enum CspVersion {
    /// CSP 1.x: a four-byte header.
    V1,
    /// CSP 2.x: a six-byte header.
    V2,
}

/// How the bytes are taken apart.
#[derive(Clone, Copy, PartialEq, Eq, Debug, Structural)]
pub struct PipelineConfig {
    /// What the bytes are.
    pub framing: Framing,
    /// The CSP header around each packet, if there is one.
    pub csp: Option<CspVersion>,
    /// A packet longer than this is a desync, not a packet.
    pub max_packet_length: usize,
}

/// Why a read failed.
#[derive(Clone, Copy, PartialEq, Eq, Debug, Structural)]
pub enum ReadFailure {
    /// The peer vanished.
    ConnectionReset,
    /// A signal landed in the read.
    Interrupted,
    /// There is nothing to read yet.
    WouldBlock,
    /// Nothing came in time.
    TimedOut,
    /// The operating system said no for another reason.
    Other,
    /// The source refuses its configuration.
    Config,
    /// The stream had already ended.
    Ended,
}

impl ReadFailure {
    /// Whether a read failure is worth another read.
    pub open spec fn worth_another_read(self) -> bool {
        self is ConnectionReset || self is Interrupted || self is WouldBlock || self is TimedOut
    }
}

/// Whether a read failure is worth another read.
///
/// Everything not listed is fatal: a source that refuses its own configuration will refuse it
/// again.
pub fn is_transient(failure: ReadFailure) -> (r: bool)
    ensures
        r == failure.worth_another_read(),
{
    match failure {
        ReadFailure::ConnectionReset
        | ReadFailure::Interrupted
        | ReadFailure::WouldBlock
        | ReadFailure::TimedOut => true,
        ReadFailure::Other | ReadFailure::Config | ReadFailure::Ended => false,
    }
}

/// What a source is, for a message about the framing it can carry.
pub open spec fn source_kind_text(source: SourceSpec) -> Seq<char> {
    match source {
        SourceSpec::Udp(_) => "UDP"@,
        SourceSpec::TcpConnect(_) => "TCP"@,
        SourceSpec::TcpListen(_) => "TCP"@,
        SourceSpec::File { .. } => "file"@,
    }
}

/// What a source is, for a message about the framing it can carry.
pub fn source_kind(source: &SourceSpec) -> (r: &'static str)
    ensures
        r@ == source_kind_text(*source),
{
    match source {
        SourceSpec::Udp(_) => "UDP",
        SourceSpec::TcpConnect(_) => "TCP",
        SourceSpec::TcpListen(_) => "TCP",
        SourceSpec::File { .. } => "file",
    }
}

} // verus!
