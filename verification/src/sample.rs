//! What one decoded packet becomes once it has stopped borrowing.

use vstd::prelude::*;

use crate::ids::{ContainerId, ParamId};
use crate::time::Utc;
use crate::value::{Value, ValueView};

verus! {

/// One parameter's value at one instant.
#[derive(Debug)]
pub struct Sample {
    /// Which parameter, as an index into the definition's arena.
    pub parameter: ParamId,
    /// The time this sample is placed at, see [`Batch::time`].
    pub time: Utc,
    /// The bits as they appeared in the packet.
    pub raw: Value,
    /// The value after calibration, enumeration lookup or text decoding.
    pub eng: Value,
}

/// What a sample says.
#[verifier::ext_equal]
pub struct SampleView {
    pub parameter: ParamId,
    pub time: Utc,
    pub raw: ValueView,
    pub eng: ValueView,
}

impl View for Sample {
    type V = SampleView;

    open spec fn view(&self) -> SampleView {
        SampleView {
            parameter: self.parameter,
            time: self.time,
            raw: self.raw@,
            eng: self.eng@,
        }
    }
}

impl Clone for Sample {
    fn clone(&self) -> (r: Self)
        ensures
            r@ == self@,
    {
        Sample {
            parameter: self.parameter,
            time: self.time,
            raw: self.raw.clone(),
            eng: self.eng.clone(),
        }
    }
}

/// One decoded packet: every parameter it carried, and where it came from.
#[derive(Clone, Debug)]
pub struct Batch {
    /// The container the decoder matched.
    pub container: ContainerId,
    /// When the ground received the packet.
    pub received: Utc,
    /// When the spacecraft says the packet was made, if a time parameter was found.
    pub spacecraft: Option<Utc>,
    /// Application process identifier from the primary header.
    pub apid: u16,
    /// Sequence count from the primary header.
    pub sequence: u16,
    /// Whether the sequence count skipped one or more packets for this APID.
    pub sequence_gap: bool,
    /// The values, in the order the container lists them.
    pub samples: Vec<Sample>,
}

/// What the samples of a sequence say.
pub open spec fn sample_views(samples: Seq<Sample>) -> Seq<SampleView> {
    samples.map_values(|sample: Sample| sample@)
}

impl Batch {
    /// The time this batch's samples are placed at.
    pub open spec fn placed_at(&self) -> Utc {
        match self.spacecraft {
            Some(time) => time,
            None => self.received,
        }
    }

    /// The time this batch's samples are plotted at: spacecraft time when there is one, ground
    /// receipt otherwise.
    pub fn time(&self) -> (r: Utc)
        ensures
            r == self.placed_at(),
    {
        match self.spacecraft {
            Some(time) => time,
            None => self.received,
        }
    }
}

} // verus!
