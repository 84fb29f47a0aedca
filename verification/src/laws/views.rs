//! What lists are to a caller: item by item, what their items are.

use serde_json::Value as Json;
use vstd::prelude::*;

use crate::acquire::{is_outcome, says, AcquisitionView, Line, Outcome, Todo};
use crate::cli::text_views;
use crate::csv::encoded;
use crate::decode::event_views;
use crate::decoded::{kind_text, DecodeErrorKind};
use crate::event::Event;
use crate::export::kinds_of;
use crate::limit_file::member_views;
use crate::record::utf8;
use crate::sample::{sample_views, Sample};
use crate::stats::{Counter, StatsSnapshot};
use crate::text::word_views;

verus! {

/// Events that say what lines say, say it one by one: as seriously, from the same source, in the
/// same words.
pub proof fn what_is_said_is_said_line_by_line(events: Seq<Event>, lines: Seq<Line>, place: int)
    requires
        says(events, lines),
    ensures
        events.len() == lines.len(),
        0 <= place < events.len() ==> events[place].severity == lines[place].severity
            && events[place].source@ == lines[place].source && events[place].message@
            == lines[place].message,
{
}

/// What is to be done is what the outcome says, in the state it says, with the lines it says.
pub proof fn what_is_to_be_done_is_the_outcome(outcome: Outcome, state: AcquisitionView, todo: Todo)
    requires
        is_outcome(outcome, state, todo),
    ensures
        state == outcome.state,
        todo.act == outcome.act,
        todo.log@.len() == outcome.lines.len(),
        says(todo.log@, outcome.lines),
{
}

/// A list of samples, events, texts, words, kinds or members is that of its items, in their order.
pub proof fn lists_are_their_items(
    samples: Seq<Sample>,
    events: Seq<Event>,
    texts: Seq<String>,
    words: Seq<&'static str>,
    kinds: Seq<(&'static str, u64)>,
    members: Seq<(String, Json)>,
    place: int,
)
    ensures
        sample_views(samples).len() == samples.len(),
        event_views(events).len() == events.len(),
        text_views(texts).len() == texts.len(),
        encoded(texts).len() == texts.len(),
        word_views(words).len() == words.len(),
        kinds_of(kinds).len() == kinds.len(),
        member_views(members).len() == members.len(),
        0 <= place < samples.len() ==> sample_views(samples)[place].parameter
            == samples[place].parameter && sample_views(samples)[place].time == samples[place].time
            && sample_views(samples)[place].raw == samples[place].raw@ && sample_views(
            samples,
        )[place].eng == samples[place].eng@,
        0 <= place < events.len() ==> event_views(events)[place].time == events[place].time
            && event_views(events)[place].severity == events[place].severity && event_views(
            events,
        )[place].source == events[place].source@ && event_views(events)[place].message
            == events[place].message@,
        0 <= place < texts.len() ==> text_views(texts)[place] == texts[place]@ && encoded(
            texts,
        )[place] == utf8(texts[place]@),
        0 <= place < words.len() ==> word_views(words)[place] == words[place]@,
        0 <= place < kinds.len() ==> kinds_of(kinds)[place] == (kinds[place].0@, kinds[place].1),
        0 <= place < members.len() ==> member_views(members)[place] == (
            members[place].0@,
            members[place].1,
        ),
{
}

/// Each counter of a snapshot is a field of its own.
pub proof fn each_counter_of_a_snapshot_is_its_own_field(snapshot: StatsSnapshot)
    ensures
        snapshot.count(Counter::BytesIn) == snapshot.bytes_in,
        snapshot.count(Counter::SyncFound) == snapshot.sync_found,
        snapshot.count(Counter::SyncLost) == snapshot.sync_lost,
        snapshot.count(Counter::FramesSeen) == snapshot.frames_seen,
        snapshot.count(Counter::FramesOk) == snapshot.frames_ok,
        snapshot.count(Counter::FramesDropped) == snapshot.frames_dropped,
        snapshot.count(Counter::RsCorrected) == snapshot.rs_corrected,
        snapshot.count(Counter::RsSymbols) == snapshot.rs_symbols,
        snapshot.count(Counter::RsUncorrectable) == snapshot.rs_uncorrectable,
        snapshot.count(Counter::CrcFailures) == snapshot.crc_failures,
        snapshot.count(Counter::IdleFrames) == snapshot.idle_frames,
        snapshot.count(Counter::IdlePackets) == snapshot.idle_packets,
        snapshot.count(Counter::PacketsIn) == snapshot.packets_in,
        snapshot.count(Counter::PacketsDecoded) == snapshot.packets_decoded,
        snapshot.count(Counter::PacketsRejected) == snapshot.packets_rejected,
        snapshot.count(Counter::PacketsLost) == snapshot.packets_lost,
        snapshot.count(Counter::SequenceGaps) == snapshot.sequence_gaps,
        snapshot.count(Counter::SequenceMissing) == snapshot.sequence_missing,
{
}

/// How long the name of a kind of refusal is, and how it begins.
spec fn name_shape(kind: DecodeErrorKind) -> (nat, char) {
    match kind {
        DecodeErrorKind::Bits => (32, 'f'),
        DecodeErrorKind::NoSuchContainer => (17, 'n'),
        DecodeErrorKind::AmbiguousRoot => (24, 'a'),
        DecodeErrorKind::UnrecognizedPacket => (25, 'p'),
        DecodeErrorKind::AmbiguousPacket => (21, 'a'),
        DecodeErrorKind::ParameterNotYetDecoded => (27, 'f'),
        DecodeErrorKind::IncomparableValue => (31, 'i'),
        DecodeErrorKind::InvalidText => (12, 'i'),
        DecodeErrorKind::UnterminatedString => (19, 'u'),
        DecodeErrorKind::UnknownEnumeration => (29, 'v'),
        DecodeErrorKind::Calibration => (29, 'c'),
        DecodeErrorKind::BadFieldSize => (27, 'u'),
        DecodeErrorKind::NoDiscreteLookupMatch => (26, 'n'),
        DecodeErrorKind::Unsupported => (26, 'u'),
        DecodeErrorKind::DanglingIndex => (23, 'i'),
        DecodeErrorKind::Other => (5, 'o'),
    }
}

proof fn lemma_name_shape(kind: DecodeErrorKind)
    ensures
        kind_text(kind).len() == name_shape(kind).0,
        kind_text(kind)[0] == name_shape(kind).1,
{
    match kind {
        DecodeErrorKind::Bits => {
            reveal_strlit("field past the end of the packet");
            assert("field past the end of the packet"@[0] == 'f');
        },
        DecodeErrorKind::NoSuchContainer => {
            reveal_strlit("no such container");
            assert("no such container"@[0] == 'n');
        },
        DecodeErrorKind::AmbiguousRoot => {
            reveal_strlit("ambiguous root container");
            assert("ambiguous root container"@[0] == 'a');
        },
        DecodeErrorKind::UnrecognizedPacket => {
            reveal_strlit("packet type not described");
            assert("packet type not described"@[0] == 'p');
        },
        DecodeErrorKind::AmbiguousPacket => {
            reveal_strlit("ambiguous packet type");
            assert("ambiguous packet type"@[0] == 'a');
        },
        DecodeErrorKind::ParameterNotYetDecoded => {
            reveal_strlit("forward parameter reference");
            assert("forward parameter reference"@[0] == 'f');
        },
        DecodeErrorKind::IncomparableValue => {
            reveal_strlit("incomparable comparison literal");
            assert("incomparable comparison literal"@[0] == 'i');
        },
        DecodeErrorKind::InvalidText => {
            reveal_strlit("invalid text");
            assert("invalid text"@[0] == 'i');
        },
        DecodeErrorKind::UnterminatedString => {
            reveal_strlit("unterminated string");
            assert("unterminated string"@[0] == 'u');
        },
        DecodeErrorKind::UnknownEnumeration => {
            reveal_strlit("value outside its enumeration");
            assert("value outside its enumeration"@[0] == 'v');
        },
        DecodeErrorKind::Calibration => {
            reveal_strlit("calibration refused its input");
            assert("calibration refused its input"@[0] == 'c');
        },
        DecodeErrorKind::BadFieldSize => {
            reveal_strlit("unusable dynamic field size");
            assert("unusable dynamic field size"@[0] == 'u');
        },
        DecodeErrorKind::NoDiscreteLookupMatch => {
            reveal_strlit("no discrete lookup matched");
            assert("no discrete lookup matched"@[0] == 'n');
        },
        DecodeErrorKind::Unsupported => {
            reveal_strlit("unsupported XTCE construct");
            assert("unsupported XTCE construct"@[0] == 'u');
        },
        DecodeErrorKind::DanglingIndex => {
            reveal_strlit("inconsistent definition");
            assert("inconsistent definition"@[0] == 'i');
        },
        DecodeErrorKind::Other => {
            reveal_strlit("other");
            assert("other"@[0] == 'o');
        },
    }
}

/// The name of a kind of refusal tells it from every other.
pub proof fn refusals_are_told_apart(a: DecodeErrorKind, b: DecodeErrorKind)
    requires
        kind_text(a) == kind_text(b),
    ensures
        a == b,
{
    lemma_name_shape(a);
    lemma_name_shape(b);
}

} // verus!
