//! What the definition made of a packet.

use vstd::prelude::*;

use crate::ids::{ContainerId, ParamId};
use crate::value::{EngValue, RawValue};

verus! {

/// One parameter of a decoded packet.
#[derive(Debug)]
pub struct DecodedValue {
    /// Which parameter.
    pub parameter: ParamId,
    /// The bits as they appeared in the packet.
    pub raw: RawValue,
    /// The value after calibration, enumeration lookup or text decoding.
    pub eng: EngValue,
}

/// A packet the definition describes.
#[derive(Debug)]
pub struct DecodedPacket {
    /// The container that matched.
    pub container: ContainerId,
    /// Its qualified name, where the definition has one.
    pub container_name: Option<String>,
    /// How many containers the definition declares.
    pub container_count: usize,
    /// The values, in the order the container lists them.
    pub values: Vec<DecodedValue>,
    /// Where among the values the clock parameter is, if the packet carried it. A place that holds
    /// another parameter is as good as none.
    pub clock: Option<usize>,
    /// Bits of the packet that the definition does not describe; below zero where it describes
    /// more than there is.
    pub trailing_bits: i64,
}

/// Why the definition refused a packet.
#[derive(Clone, Copy, PartialEq, Eq, Debug, Structural)]
pub enum DecodeErrorKind {
    /// A field runs past the end of the packet.
    Bits,
    /// The named root container does not exist.
    NoSuchContainer,
    /// More than one container could be the root.
    AmbiguousRoot,
    /// No container describes the packet.
    UnrecognizedPacket,
    /// More than one container describes the packet.
    AmbiguousPacket,
    /// A condition looks at a parameter that comes later.
    ParameterNotYetDecoded,
    /// A condition compares a value with a literal of another kind.
    IncomparableValue,
    /// Bytes that are not text in the declared encoding.
    InvalidText,
    /// Text without its terminator.
    UnterminatedString,
    /// A value that its enumeration does not list.
    UnknownEnumeration,
    /// A calibrator that does not cover its input.
    Calibration,
    /// A dynamic size that cannot be used.
    BadFieldSize,
    /// A lookup with no entry for the value.
    NoDiscreteLookupMatch,
    /// A construct that is not supported.
    Unsupported,
    /// A definition that contradicts itself.
    DanglingIndex,
    /// Anything else.
    Other,
}

/// A packet the definition refused, and what it said.
#[derive(Debug)]
pub struct DecodeError {
    /// Why.
    pub kind: DecodeErrorKind,
    /// The full sentence.
    pub message: String,
}

impl DecodedPacket {
    /// The value of the clock parameter, if the packet carried it: the one at the place that is
    /// given for it, where that is a value of this parameter.
    pub open spec fn clock_views(&self, parameter: ParamId) -> Option<(RawValue, EngValue)> {
        match self.clock {
            Some(index) => if index < self.values@.len() && self.values@[index as int].parameter
                == parameter {
                Some((self.values@[index as int].raw, self.values@[index as int].eng))
            } else {
                None
            },
            None => None,
        }
    }
}

/// The name of a kind of failure.
pub open spec fn kind_text(kind: DecodeErrorKind) -> Seq<char> {
    match kind {
        DecodeErrorKind::Bits => "field past the end of the packet"@,
        DecodeErrorKind::NoSuchContainer => "no such container"@,
        DecodeErrorKind::AmbiguousRoot => "ambiguous root container"@,
        DecodeErrorKind::UnrecognizedPacket => "packet type not described"@,
        DecodeErrorKind::AmbiguousPacket => "ambiguous packet type"@,
        DecodeErrorKind::ParameterNotYetDecoded => "forward parameter reference"@,
        DecodeErrorKind::IncomparableValue => "incomparable comparison literal"@,
        DecodeErrorKind::InvalidText => "invalid text"@,
        DecodeErrorKind::UnterminatedString => "unterminated string"@,
        DecodeErrorKind::UnknownEnumeration => "value outside its enumeration"@,
        DecodeErrorKind::Calibration => "calibration refused its input"@,
        DecodeErrorKind::BadFieldSize => "unusable dynamic field size"@,
        DecodeErrorKind::NoDiscreteLookupMatch => "no discrete lookup matched"@,
        DecodeErrorKind::Unsupported => "unsupported XTCE construct"@,
        DecodeErrorKind::DanglingIndex => "inconsistent definition"@,
        DecodeErrorKind::Other => "other"@,
    }
}

/// A short, stable name for the kind of a decode failure.
///
/// "Refused 7 200 packets" with no reason is useless to an operator, and 7 200 sentences are
/// not a summary either. This is the label that keeps faults apart in a tally.
pub fn error_kind(error: &DecodeError) -> (r: &'static str)
    ensures
        r@ == kind_text(error.kind),
{
    match error.kind {
        DecodeErrorKind::Bits => "field past the end of the packet",
        DecodeErrorKind::NoSuchContainer => "no such container",
        DecodeErrorKind::AmbiguousRoot => "ambiguous root container",
        DecodeErrorKind::UnrecognizedPacket => "packet type not described",
        DecodeErrorKind::AmbiguousPacket => "ambiguous packet type",
        DecodeErrorKind::ParameterNotYetDecoded => "forward parameter reference",
        DecodeErrorKind::IncomparableValue => "incomparable comparison literal",
        DecodeErrorKind::InvalidText => "invalid text",
        DecodeErrorKind::UnterminatedString => "unterminated string",
        DecodeErrorKind::UnknownEnumeration => "value outside its enumeration",
        DecodeErrorKind::Calibration => "calibration refused its input",
        DecodeErrorKind::BadFieldSize => "unusable dynamic field size",
        DecodeErrorKind::NoDiscreteLookupMatch => "no discrete lookup matched",
        DecodeErrorKind::Unsupported => "unsupported XTCE construct",
        DecodeErrorKind::DanglingIndex => "inconsistent definition",
        DecodeErrorKind::Other => "other",
    }
}

} // verus!
