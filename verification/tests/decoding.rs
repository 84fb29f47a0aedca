//! From packets to batches, and what the sequence counts say on the way.

use std::collections::{BTreeMap, VecDeque};

use xtce_gs::decode::{empty_batch, project, PacketDecoder};
use xtce_gs::decoded::{error_kind, DecodeError, DecodeErrorKind, DecodedPacket, DecodedValue};
use xtce_gs::event::Severity;
use xtce_gs::float::Float64;
use xtce_gs::ids::{ContainerId, ParamId};
use xtce_gs::packet::{read_header, RawPacket};
use xtce_gs::sample::{Batch, Sample};
use xtce_gs::sequence::{GapReport, SequenceTracker};
use xtce_gs::session::{decode_lines, decode_queued, ingest_all, Work};
use xtce_gs::stats::LinkStats;
use xtce_gs::store::ParameterStore;
use xtce_gs::time::Utc;
use xtce_gs::value::{EngValue, RawValue, Value, ValueKind};

fn double(value: f64) -> Float64 {
    Float64::from_bits(value.to_bits())
}

/// A 71-byte packet of APID 11, as the attitude and ephemeris packets of a pass are.
fn pass_packet(index: usize) -> RawPacket {
    let start = Utc::from_unix_secs(1_617_926_400); // 2021-04-09T00:00:00Z
    let count = 2606 + index as u16;
    let mut bytes = vec![0x08, 0x0B];
    bytes.extend_from_slice(&(0xC000 | count).to_be_bytes());
    bytes.extend_from_slice(&64u16.to_be_bytes());
    bytes.resize(71, 0);
    RawPacket {
        received: start.offset_nanos(index as i64 * 1_000_000),
        bytes,
        vcid: None,
    }
}

/// What the definition makes of such a packet: 27 values, the first a day of year and the second
/// a position. Refused where the packet ends first.
fn described(packet: &RawPacket) -> Result<DecodedPacket, DecodeError> {
    if packet.bytes.len() < 71 {
        return Err(DecodeError {
            kind: DecodeErrorKind::Bits,
            message: "a field runs past the end of the packet".to_string(),
        });
    }
    let values = (0..27u32)
        .map(|number| match number {
            1 => DecodedValue {
                parameter: ParamId::new(1),
                raw: RawValue::Float(double(6_389_695.5)),
                eng: EngValue::Float(double(6_389_695.5)),
            },
            _ => DecodedValue {
                parameter: ParamId::new(number),
                raw: RawValue::Unsigned(23_109),
                eng: EngValue::Unsigned(23_109),
            },
        })
        .collect();
    Ok(DecodedPacket {
        container: ContainerId::new(1),
        container_name: Some("JPSS_ATT_EPHEM".to_string()),
        container_count: 3,
        values,
        clock: None,
        trailing_bits: (packet.bytes.len() as i64 - 71) * 8,
    })
}

/// One parameter's sample out of a batch.
fn sample_of(batch: &Batch, parameter: ParamId) -> &Sample {
    batch
        .samples
        .iter()
        .find(|sample| sample.parameter == parameter)
        .expect("the parameter is in the packet")
}

fn expected_from_removals(apids: &[u16], removed: &[usize]) -> (u64, u64) {
    let mut kept_by_apid: BTreeMap<u16, Vec<bool>> = BTreeMap::new();
    for (index, apid) in apids.iter().enumerate() {
        kept_by_apid
            .entry(*apid)
            .or_default()
            .push(!removed.contains(&index));
    }

    let (mut gaps, mut missing) = (0u64, 0u64);
    for kept in kept_by_apid.values() {
        let (Some(first), Some(last)) = (
            kept.iter().position(|keep| *keep),
            kept.iter().rposition(|keep| *keep),
        ) else {
            continue; // Every packet of this APID was removed: nothing arrived to notice.
        };
        let mut run = 0u64;
        for keep in &kept[first..=last] {
            if *keep {
                if run > 0 {
                    gaps += 1;
                    missing += run;
                    run = 0;
                }
            } else {
                run += 1;
            }
        }
    }
    (gaps, missing)
}

/// A stream of `(apid, sequence count)` pairs, round-robin over `apids`.
fn round_robin_counts(starts: &[(u16, u16)], per_apid: usize) -> Vec<(u16, u16)> {
    let mut stream = Vec::with_capacity(starts.len() * per_apid);
    for step in 0..per_apid {
        for (apid, start) in starts {
            let count = (u32::from(*start) + step as u32) % 16_384;
            stream.push((*apid, count as u16));
        }
    }
    stream
}

#[test]
fn the_whole_jpss_pass_decodes_and_says_nothing_about_it() {
    let mut engine = PacketDecoder::new(None, LinkStats::new());
    let mut batch = empty_batch();
    let mut ok = 0usize;
    for index in 0..7200 {
        let packet = pass_packet(index);
        let decoded = described(&packet).expect("71 bytes");
        match engine.decode_into(Ok(&decoded), &packet, &mut batch) {
            Ok(()) => ok += 1,
            Err(error) => panic!("packet {ok} refused: {}", error_kind(&error)),
        }
    }

    assert_eq!(ok, 7200);
    let snapshot = engine.stats().snapshot();
    assert_eq!(snapshot.packets_decoded, 7200);
    assert_eq!(snapshot.packets_rejected, 0);
    assert_eq!(snapshot.last_packet, Some(pass_packet(7199).received));
    assert!(engine.take_events().is_empty());
}

#[test]
fn the_owned_path_and_the_reusing_path_agree_packet_for_packet() {
    let mut owned = PacketDecoder::new(None, LinkStats::new());
    let mut reusing = PacketDecoder::new(None, LinkStats::new());
    let mut left = empty_batch();
    let mut right = empty_batch();

    for index in 0..64 {
        let packet = pass_packet(index);
        owned
            .decode_owned(described(&packet), &packet, &mut left)
            .expect("decodes");
        let decoded = described(&packet).expect("71 bytes");
        reusing
            .decode_into(Ok(&decoded), &packet, &mut right)
            .expect("decodes");
        assert_eq!(left.container, right.container);
        assert_eq!(left.apid, right.apid);
        assert_eq!(left.sequence, right.sequence);
        assert_eq!(left.samples.len(), right.samples.len());
        for (a, b) in left.samples.iter().zip(&right.samples) {
            assert_eq!(a.parameter, b.parameter);
            assert_eq!(a.raw, b.raw);
            assert_eq!(a.eng, b.eng);
            assert_eq!(a.time, b.time);
        }
    }
}

#[test]
fn a_batch_carries_both_the_bits_and_what_they_mean() {
    let mut engine = PacketDecoder::new(None, LinkStats::new());
    let mut batch = empty_batch();
    let packet = pass_packet(0);
    engine
        .decode_owned(described(&packet), &packet, &mut batch)
        .expect("the first packet decodes");

    assert_eq!(batch.samples.len(), 27);
    assert_eq!(batch.apid, 11);
    assert_eq!(batch.sequence, 2606);
    assert!(!batch.sequence_gap);
    assert_eq!(batch.spacecraft, None); // no clock configured
    assert_eq!(batch.time(), packet.received);
    assert!(batch.samples.iter().all(|s| s.time == batch.time()));

    let sample = sample_of(&batch, ParamId::new(0));
    assert_eq!(sample.raw.kind(), ValueKind::Unsigned);
    assert_eq!(sample.eng, sample.raw);

    // A float encoded as one, to show the raw side is not always an integer.
    let sample = sample_of(&batch, ParamId::new(1));
    assert_eq!(sample.raw, Value::Float(double(6_389_695.5)));
    assert_eq!(sample.eng, Value::Float(double(6_389_695.5)));
}

#[test]
fn the_engineering_value_is_not_a_copy_of_the_raw_one() {
    let mut engine = PacketDecoder::new(None, LinkStats::new());
    let mut batch = empty_batch();
    let packets = [pass_packet(0), pass_packet(1)];

    // The first packet is of a type the definition does not describe.
    let refused = Err(DecodeError {
        kind: DecodeErrorKind::UnrecognizedPacket,
        message: "no container describes this packet".to_string(),
    });
    let error = engine
        .decode_owned(refused, &packets[0], &mut batch)
        .expect_err("the first packet is not described");
    assert_eq!(error_kind(&error), "packet type not described");
    assert_eq!(engine.stats().snapshot().packets_rejected, 1);
    // Counted, not said: the caller holds the error and says more than this could.
    assert!(engine.take_events().is_empty());

    let payload = Ok(DecodedPacket {
        container: ContainerId::new(0),
        container_name: Some("Payload".to_string()),
        container_count: 1,
        values: vec![
            DecodedValue {
                parameter: ParamId::new(0),
                raw: RawValue::Unsigned(0),
                eng: EngValue::Label("IDLE".to_string()),
            },
            DecodedValue {
                parameter: ParamId::new(1),
                raw: RawValue::Unsigned(8160),
                eng: EngValue::Float(double(8260.0)),
            },
        ],
        clock: None,
        trailing_bits: 0,
    });
    engine
        .decode_owned(payload, &packets[1], &mut batch)
        .expect("the second packet is a Payload");

    let sample = sample_of(&batch, ParamId::new(0));
    assert_eq!(sample.raw, Value::Unsigned(0));
    assert_eq!(sample.eng.kind(), ValueKind::Label);
    assert_eq!(sample.eng.as_str(), Some("IDLE"));
    let sample = sample_of(&batch, ParamId::new(1));
    assert_eq!(sample.raw, Value::Unsigned(8160));
    assert_eq!(sample.eng, Value::Float(double(8260.0)));
}

#[test]
fn the_real_pass_has_no_sequence_gaps_and_the_tracker_agrees() {
    let mut engine = PacketDecoder::new(None, LinkStats::new());
    let mut batch = empty_batch();
    for index in 0..7200 {
        let packet = pass_packet(index);
        assert_eq!(packet.apid(), Some(11));
        assert_eq!(packet.sequence_count(), Some(2606 + index as u16));
        engine
            .decode_owned(described(&packet), &packet, &mut batch)
            .expect("decodes");
    }

    assert_eq!(engine.sequence().gaps(), 0);
    assert_eq!(engine.sequence().missing(), 0);
    assert_eq!(engine.stats().snapshot().sequence_gaps, 0);
    assert_eq!(engine.stats().snapshot().sequence_missing, 0);
    assert_eq!(engine.sequence().last_seen(11), Some(9805));
    assert_eq!(engine.sequence().last_seen(12), None);
}

#[test]
fn packets_taken_out_of_the_pass_are_reported_as_exactly_that_many() {
    // A dropout of three, and a single loss much later: one counter cannot tell the two
    // apart, which is why there are two.
    let dropped = [1000usize, 1001, 1002, 4000];
    let kept: Vec<RawPacket> = (0..7200)
        .filter(|index| !dropped.contains(index))
        .map(pass_packet)
        .collect();
    assert_eq!(kept.len(), 7196);

    let (gaps, missing) = expected_from_removals(&vec![11u16; 7200], &dropped);
    assert_eq!((gaps, missing), (2, 4));

    let mut engine = PacketDecoder::new(None, LinkStats::new());
    let mut batch = empty_batch();
    let mut flagged = 0usize;
    for packet in &kept {
        engine
            .decode_owned(described(packet), packet, &mut batch)
            .expect("decodes");
        if batch.sequence_gap {
            flagged += 1;
        }
    }

    assert_eq!(engine.sequence().gaps(), gaps);
    assert_eq!(engine.sequence().missing(), missing);
    assert_eq!(engine.stats().snapshot().sequence_gaps, gaps);
    assert_eq!(engine.stats().snapshot().sequence_missing, missing);
    assert_eq!(flagged, 2);
    // Four lines for two dropouts: each is named when it starts, with the sequence count
    // that says where, and again when the link has been contiguous long enough to call it
    // over.
    let events = engine.take_events();
    assert_eq!(events.len(), 4, "{events:?}");
    assert!(events[0].message.contains("APID 11: 3 packet(s) missing"));
    assert_eq!(events[0].severity, Severity::Warning);
    assert!(events[1]
        .message
        .contains("contiguous again after 1 gap(s)"));
    assert_eq!(events[1].severity, Severity::Info);
    assert!(events[2].message.contains("APID 11: 1 packet(s) missing"));
    assert!(events[3]
        .message
        .contains("contiguous again after 1 gap(s)"));
}

#[test]
fn a_link_losing_a_third_of_its_packets_does_not_fill_the_log() {
    let mut tracker = SequenceTracker::new();
    let mut lines = 0usize;
    let mut first = 0usize;
    for step in 0..600u32 {
        // Every third packet, so two of every three counts are a gap of one.
        let sequence = (step * 3) as u16;
        let missed = tracker.observe(11, sequence);
        match tracker.note(11, missed) {
            GapReport::Quiet => {}
            GapReport::First => {
                first += 1;
                lines += 1;
            }
            GapReport::Running { .. } => lines += 1,
        }
    }

    assert_eq!(first, 1, "the dropout is named once, not once per gap");
    assert!(
        lines <= 600 / 64 + 2,
        "{lines} lines for 599 gaps is not a rate limit"
    );
    assert_eq!(tracker.gaps(), 599, "and every gap is still counted");
}

#[test]
fn sixteen_thousand_three_hundred_and_eighty_three_is_followed_by_zero() {
    let mut tracker = SequenceTracker::new();
    assert_eq!(tracker.observe(11, 16_383), 0); // first of this APID
    assert_eq!(tracker.observe(11, 0), 0); // the wrap, not a gap
    assert_eq!(tracker.observe(11, 1), 0);
    assert_eq!(tracker.gaps(), 0);
    assert_eq!(tracker.missing(), 0);
    // And the wrap still sees a gap across it when there is one.
    assert_eq!(tracker.observe(11, 3), 1);
    assert_eq!(tracker.observe(11, 16_383), 16_379);
    assert_eq!(tracker.observe(11, 2), 2);
    assert_eq!(tracker.gaps(), 3);
    assert_eq!(tracker.missing(), 16_382);
}

#[test]
fn the_first_packet_of_an_apid_is_not_a_gap() {
    let mut tracker = SequenceTracker::new();
    assert_eq!(tracker.observe(1, 9000), 0);
    assert_eq!(tracker.observe(2, 3), 0);
    assert_eq!(tracker.observe(2047, 16_383), 0);
    assert_eq!(tracker.gaps(), 0);
    assert_eq!(tracker.last_seen(1), Some(9000));
    assert_eq!(tracker.last_seen(2047), Some(16_383));
}

#[test]
fn a_repeated_count_is_not_sixteen_thousand_lost_packets() {
    let mut tracker = SequenceTracker::new();
    tracker.observe(11, 100);
    assert_eq!(tracker.observe(11, 100), 0);
    assert_eq!(tracker.gaps(), 0);
    assert_eq!(tracker.missing(), 0);
}

#[test]
fn a_reset_forgets_the_counts_and_keeps_the_totals() {
    let mut tracker = SequenceTracker::new();
    tracker.observe(11, 10);
    assert_eq!(tracker.observe(11, 20), 9);
    tracker.reset();
    assert_eq!(tracker.last_seen(11), None);
    // The lap after a restart starts from nothing, so no gap of some thousands.
    assert_eq!(tracker.observe(11, 9000), 0);
    assert_eq!(tracker.gaps(), 1);
    assert_eq!(tracker.missing(), 9);
}

#[test]
fn an_apid_is_tracked_on_its_own() {
    let mut tracker = SequenceTracker::new();
    tracker.observe(11, 1);
    tracker.observe(12, 500);
    assert_eq!(tracker.observe(11, 2), 0);
    assert_eq!(tracker.observe(12, 501), 0);
    assert_eq!(tracker.gaps(), 0);
}

#[test]
fn three_interleaved_apids_report_only_their_own_removals() {
    let starts = [(11u16, 16_380u16), (12, 0), (700, 9_000)];
    let stream = round_robin_counts(&starts, 10);
    assert_eq!(stream.len(), 30);
    assert_eq!(stream[9], (11, 16_383));
    assert_eq!(stream[12], (11, 0)); // the wrap, one APID-11 packet later

    // Positions 9 and 12 straddle APID 11's wrap; 19 is one packet of APID 12; 2 and 29
    // are the first and the last packet of APID 700, where there is no surviving
    // neighbour on one side and so nothing a station could have noticed.
    let removed = [2usize, 9, 12, 19, 29];
    let apids: Vec<u16> = stream.iter().map(|(apid, _)| *apid).collect();
    let (gaps, missing) = expected_from_removals(&apids, &removed);
    assert_eq!((gaps, missing), (2, 3));

    let mut tracker = SequenceTracker::new();
    let mut reported = Vec::new();
    for (index, (apid, sequence)) in stream.iter().enumerate() {
        if removed.contains(&index) {
            continue;
        }
        let missed = tracker.observe(*apid, *sequence);
        if missed > 0 {
            reported.push((*apid, *sequence, missed));
        }
    }

    assert_eq!(tracker.gaps(), gaps);
    assert_eq!(tracker.missing(), missing);
    // And the gaps are reported against the right APID, at the right count, of the right
    // size: two across APID 11's wrap, one on APID 12, nothing on APID 700.
    assert_eq!(reported, vec![(11, 1, 2), (12, 7, 1)]);
    assert_eq!(tracker.last_seen(11), Some(5));
    assert_eq!(tracker.last_seen(12), Some(9));
    assert_eq!(tracker.last_seen(700), Some(9_008));
    // No slot but its own was touched — an APID folded onto another would show here.
    assert_eq!(tracker.last_seen(0), None);
    assert_eq!(tracker.last_seen(10), None);
    assert_eq!(tracker.last_seen(699), None);
}

#[test]
fn an_apid_wider_than_eleven_bits_is_not_tracked_and_is_not_folded() {
    // 2 048 is the first APID eleven bits cannot name; it files nothing, and in particular it
    // does not file itself in APID 0's slot, which is what masking with `& 0x7FF` would do.
    let mut tracker = SequenceTracker::new();
    tracker.observe(0, 100);
    assert_eq!(tracker.observe(2_048, 9_000), 0);
    assert_eq!(tracker.observe(u16::MAX, 9_000), 0);
    assert_eq!(tracker.last_seen(2_048), None);
    // APID 0 still reads its own last count, and its next packet is continuous.
    assert_eq!(tracker.last_seen(0), Some(100));
    assert_eq!(tracker.observe(0, 101), 0);
    assert_eq!(tracker.gaps(), 0);
    assert_eq!(tracker.missing(), 0);
}

#[test]
fn a_count_wider_than_fourteen_bits_is_reduced_not_wrapped_into_a_gap() {
    // `observe` is public and a caller could hand it anything; the count is fourteen bits
    // by definition, so 16 384 is 0 and the step from 16 383 to it is still continuous.
    let mut tracker = SequenceTracker::new();
    tracker.observe(11, 16_383);
    assert_eq!(tracker.observe(11, 16_384), 0);
    assert_eq!(tracker.last_seen(11), Some(0));
}

#[test]
fn a_dropout_is_named_once_and_ended_once() {
    let mut tracker = SequenceTracker::default();
    let mut reports = Vec::new();
    for count in (0..10u16).chain(12..100).chain(101..110) {
        let missed = tracker.observe(5, count);
        let report = tracker.note(5, missed);
        if report != GapReport::Quiet {
            reports.push((count, report));
        }
    }
    assert_eq!(
        reports,
        vec![
            (12, GapReport::First),
            (
                76,
                GapReport::Running {
                    gaps: 1,
                    missing: 2,
                    recovered: true
                }
            ),
            (101, GapReport::First),
        ]
    );
}

#[test]
fn a_packet_too_short_to_have_a_header_files_nothing() {
    let mut engine = PacketDecoder::new(None, LinkStats::new());
    let mut batch = empty_batch();

    let stump = RawPacket::now(vec![0x08, 0x0B, 0xCA, 0x2E, 0x00]);
    let error = engine
        .decode_owned(described(&stump), &stump, &mut batch)
        .expect_err("five bytes are not a packet");

    // Nothing was filed: a fabricated APID 0 would put a false gap on a real channel the
    // first time a real APID 0 packet arrived.
    assert_eq!(engine.sequence().last_seen(0), None);
    assert_eq!(engine.sequence().gaps(), 0);
    assert!(engine.take_events().is_empty());
    let snapshot = engine.stats().snapshot();
    assert_eq!(snapshot.packets_rejected, 1);
    assert_eq!(snapshot.packets_decoded, 0);
    // Still an arrival: the status bar's question is whether anything is coming in.
    assert_eq!(snapshot.last_packet, Some(stump.received));
    assert_eq!(error_kind(&error), "field past the end of the packet");
}

#[test]
fn an_empty_packet_is_refused_rather_than_indexed() {
    let mut engine = PacketDecoder::new(None, LinkStats::new());
    let mut batch = empty_batch();
    let empty = RawPacket::now(Vec::new());
    assert!(empty.header().is_none());
    assert!(empty.is_empty());
    assert!(engine
        .decode_owned(described(&empty), &empty, &mut batch)
        .is_err());
}

#[test]
fn a_header_that_claims_more_bytes_than_it_has_does_not_read_past_them() {
    // The header of a real packet, the declared length of a much larger one, and only
    // twenty bytes behind it.
    let mut hostile = pass_packet(0);
    hostile.bytes.truncate(20);
    hostile.bytes[4] = 0xFF;
    hostile.bytes[5] = 0xFF;

    let mut engine = PacketDecoder::new(None, LinkStats::new());
    let mut batch = empty_batch();
    let error = engine
        .decode_owned(described(&hostile), &hostile, &mut batch)
        .expect_err("the packet ends before the definition does");
    assert_eq!(error.kind, DecodeErrorKind::Bits);
    // The truncated packet still carried a readable APID and count, and those were filed:
    // it arrived, whatever the definition then made of it.
    assert_eq!(engine.sequence().last_seen(11), Some(2606));
}

#[test]
fn a_definition_that_describes_only_part_of_a_packet_says_so_once_per_container() {
    let mut engine = PacketDecoder::new(None, LinkStats::new());
    let mut batch = empty_batch();
    let mut packets: Vec<RawPacket> = (0..9).map(pass_packet).collect();

    // Four packets against a container that claims three fields of them: one warning.
    let mut containers = Vec::new();
    for packet in &packets[..4] {
        let partial = Ok(DecodedPacket {
            container: ContainerId::new(2),
            container_name: Some("UNUSED".to_string()),
            container_count: 3,
            values: Vec::new(),
            clock: None,
            trailing_bits: 504,
        });
        engine
            .decode_owned(partial, packet, &mut batch)
            .expect("three fields fit in 71 bytes");
        containers.push(batch.container);
    }
    // Padding past the declared length: the bits are in the buffer and no entry claims them.
    for packet in &mut packets[4..] {
        packet.bytes.extend_from_slice(&[0u8; 4]);
    }
    // Four more against the real container: one more warning, not four.
    for packet in &packets[4..8] {
        engine
            .decode_owned(described(packet), packet, &mut batch)
            .expect("decodes");
        containers.push(batch.container);
    }

    assert_eq!(containers[0], containers[3]);
    assert_ne!(containers[0], containers[4]);
    assert_eq!(containers[4], containers[7]);
    let events = engine.take_events();
    assert_eq!(events.len(), 2, "{events:?}");
    assert!(
        events[0].message.contains("UNUSED: 504 bit(s)"),
        "{events:?}"
    );
    assert!(
        events[1].message.contains("JPSS_ATT_EPHEM: 32 bit(s)"),
        "{events:?}"
    );
    assert!(events.iter().all(|e| e.severity == Severity::Warning));

    // And a ninth packet of a container already warned about adds nothing, not even behind a
    // restart.
    engine.reset();
    engine
        .decode_owned(described(&packets[8]), &packets[8], &mut batch)
        .expect("decodes");
    assert!(engine.take_events().is_empty());
}

#[test]
fn projecting_into_a_used_vector_leaves_nothing_of_the_last_packet() {
    let decoded = described(&pass_packet(0)).expect("decodes");
    let mut out: Vec<Sample> = (0..200)
        .map(|_| Sample {
            parameter: decoded.values[0].parameter,
            time: Utc::epoch(),
            raw: Value::Unsigned(0),
            eng: Value::Unsigned(0),
        })
        .collect();
    let capacity = out.capacity();
    let time = Utc::from_unix_secs(1_617_926_400);
    project(&decoded, time, &mut out);

    assert_eq!(out.len(), decoded.values.len());
    assert!(out.iter().all(|sample| sample.time == time));
    assert_eq!(out.capacity(), capacity, "the allocation is reused");
}

#[test]
fn an_empty_decode_projects_to_nothing() {
    let decoded = described(&pass_packet(0)).expect("decodes");
    let mut out = Vec::new();
    project(&decoded, Utc::epoch(), &mut out);
    assert_eq!(out.len(), 27);
    let nothing = DecodedPacket {
        container: ContainerId::new(0),
        container_name: None,
        container_count: 0,
        values: Vec::new(),
        clock: None,
        trailing_bits: 0,
    };
    project(&nothing, Utc::epoch(), &mut out);
    assert!(out.is_empty());
}

#[test]
fn every_decode_error_has_a_name_that_is_not_other() {
    let cases = [
        DecodeErrorKind::Bits,
        DecodeErrorKind::NoSuchContainer,
        DecodeErrorKind::AmbiguousRoot,
        DecodeErrorKind::UnrecognizedPacket,
        DecodeErrorKind::AmbiguousPacket,
        DecodeErrorKind::ParameterNotYetDecoded,
        DecodeErrorKind::IncomparableValue,
        DecodeErrorKind::InvalidText,
        DecodeErrorKind::UnterminatedString,
        DecodeErrorKind::UnknownEnumeration,
        DecodeErrorKind::Calibration,
        DecodeErrorKind::BadFieldSize,
        DecodeErrorKind::NoDiscreteLookupMatch,
        DecodeErrorKind::Unsupported,
        DecodeErrorKind::DanglingIndex,
    ];
    let mut names = Vec::new();
    for kind in cases {
        let error = DecodeError {
            kind,
            message: "x".to_string(),
        };
        assert_ne!(error_kind(&error), "other", "{kind:?}");
        assert!(!names.contains(&error_kind(&error)));
        names.push(error_kind(&error));
    }
}

#[test]
fn a_primary_header_is_read_bit_by_bit() {
    let header = read_header(&[0x1F, 0xFF, 0xFF, 0xFE, 0x01, 0x02]).expect("six bytes");
    assert_eq!(header.apid, 2047);
    assert_eq!(header.sequence_count, 16_382);
    assert_eq!(header.data_length, 0x0102);
    assert!(read_header(&[0; 5]).is_none());
    let packet = RawPacket::now(vec![0; 7]);
    assert_eq!(packet.len(), 7);
    assert_eq!((packet.apid(), packet.sequence_count()), (Some(0), Some(0)));
}

#[test]
fn one_wake_up_decodes_everything_that_was_queued() {
    let mut engine = PacketDecoder::new(None, LinkStats::new());
    let mut queued = VecDeque::new();
    for index in [0usize, 1, 5] {
        let packet = pass_packet(index);
        let decoded = described(&packet);
        queued.push_back(Work::Packet(packet, decoded));
    }
    queued.push_back(Work::Restart);
    // Behind a restart a count that is far off is no gap.
    let packet = pass_packet(900);
    let decoded = described(&packet);
    queued.push_back(Work::Packet(packet, decoded));
    for message in ["first", "second"] {
        let packet = pass_packet(901);
        queued.push_back(Work::Packet(
            packet,
            Err(DecodeError {
                kind: DecodeErrorKind::Other,
                message: message.to_string(),
            }),
        ));
    }

    let (batches, reason) = decode_queued(&mut engine, queued);
    assert_eq!(batches.len(), 4);
    assert_eq!(batches.iter().map(|b| b.sequence).collect::<Vec<_>>(), vec![2606, 2607, 2611, 3506]);
    assert_eq!(
        batches.iter().map(|b| b.sequence_gap).collect::<Vec<_>>(),
        vec![false, false, true, false]
    );
    assert_eq!(reason.as_deref(), Some("first"));
    assert_eq!(engine.stats().snapshot().packets_decoded, 4);
    assert_eq!(engine.stats().snapshot().packets_rejected, 2);

    let lines = decode_lines(&mut engine, reason);
    assert_eq!(lines.len(), 2);
    assert_eq!(lines[0].message, "APID 11: 3 packet(s) missing before sequence count 2611");
    assert_eq!((lines[1].source, lines[1].message.as_str()), ("decode", "first"));

    let mut store = ParameterStore::new(27, 8);
    ingest_all(&mut store, &batches);
    assert_eq!(store.ingested(), 4);
    assert_eq!(store.seen_count(), 27);

    let (batches, reason) = decode_queued(&mut engine, VecDeque::from(vec![Work::Restart]));
    assert!(batches.is_empty() && reason.is_none());
    assert!(decode_lines(&mut engine, None).is_empty());
}

#[test]
fn the_totals_are_the_sum_of_what_was_missed() {
    let mut tracker = SequenceTracker::new();
    let stream = [(1u16, 0u16), (2, 7), (1, 3), (2, 8), (1, 4), (1, 16_383), (1, 1), (2, 8)];
    let mut missed = Vec::new();
    for (apid, count) in stream {
        missed.push(tracker.observe(apid, count));
    }
    assert_eq!(missed, vec![0, 0, 2, 0, 0, 16_378, 1, 0]);
    assert_eq!(tracker.missing(), missed.iter().map(|lost| u64::from(*lost)).sum::<u64>());
    assert_eq!(tracker.gaps(), 3);
    tracker.reset();
    assert_eq!((tracker.gaps(), tracker.missing()), (3, 16_381));
}

#[test]
fn gaps_are_numbered_within_a_dropout_and_by_apid() {
    let mut tracker = SequenceTracker::new();
    assert_eq!(tracker.note(5, 4), GapReport::First);
    assert_eq!(tracker.note(6, 1), GapReport::First, "another stream is another dropout");
    let mut said = Vec::new();
    for number in 2..=256u32 {
        let report = tracker.note(5, 1);
        if report != GapReport::Quiet {
            said.push((number, report));
        }
    }
    for (number, report) in &said {
        let expected = GapReport::Running {
            gaps: *number,
            missing: 4 + number - 1,
            recovered: false,
        };
        assert_eq!(report, &expected);
    }
    assert_eq!(
        said.iter().map(|(number, _)| *number).collect::<Vec<_>>(),
        vec![64, 128, 192, 256]
    );
}

#[test]
fn a_cloned_tracker_goes_its_own_way() {
    let mut tracker = SequenceTracker::new();
    tracker.observe(3, 10);
    let mut other = tracker.clone();
    assert_eq!(other.observe(3, 12), 1);
    assert_eq!((other.gaps(), tracker.gaps()), (1, 0));
    assert_eq!(tracker.last_seen(3), Some(10));
}
