//! What a probe, an export and a session without a window have to say.

use xtce_gs::cli::CliError;
use xtce_gs::decode::{empty_batch, PacketDecoder};
use xtce_gs::decoded::{DecodeError, DecodeErrorKind, DecodedPacket, DecodedValue};
use xtce_gs::definition::{Definition, ParameterText};
use xtce_gs::event::{Event, EventLog, Severity};
use xtce_gs::export::{plan_read, ExportRun, Filed, ReadPlan, WriteOutcome, PROGRESS_PACKETS};
use xtce_gs::float::Float64;
use xtce_gs::ids::{ContainerId, ParamId};
use xtce_gs::packet::RawPacket;
use xtce_gs::probe::{
    advise, report_counters, report_frame_trial, report_packets, ApidTally, MarkerScan, Probe,
};
use xtce_gs::record::{FloatText, PacketSplitter};
use xtce_gs::report::{event_line, report_events, status_line, unprinted_events};
use xtce_gs::stats::{LinkStats, StatsSnapshot};
use xtce_gs::time::Utc;
use xtce_gs::value::{EngValue, RawValue};

const CCSDS_ASM: [u8; 4] = [0x1A, 0xCF, 0xFC, 0x1D];

fn number(value: Float64) -> f64 {
    f64::from_bits(value.to_bits())
}

#[test]
fn a_sequence_count_that_wraps_is_not_a_gap() {
    let mut tally = ApidTally::empty();
    tally.observe(71, 16_382);
    tally.observe(71, 16_383);
    tally.observe(71, 0);
    tally.observe(71, 1);
    assert_eq!(tally.count, 4);
    assert_eq!(tally.gaps, 0);
    assert_eq!(tally.missing, 0);
}

#[test]
fn a_gap_counts_the_packets_it_implies_and_not_only_itself() {
    let mut tally = ApidTally::empty();
    tally.observe(71, 10);
    tally.observe(71, 14);
    assert_eq!(tally.gaps, 1);
    assert_eq!(tally.missing, 3, "11, 12 and 13 never arrived");
}

#[test]
fn a_gap_across_the_wrap_counts_forwards() {
    let mut tally = ApidTally::empty();
    tally.observe(71, 16_380);
    tally.observe(71, 2);
    assert_eq!(tally.gaps, 1);
    // 16 381, 16 382, 16 383, 0, 1 — five, not a negative number and not 16 378.
    assert_eq!(tally.missing, 5);
}

#[test]
fn the_first_packet_of_an_apid_is_never_a_gap() {
    let mut tally = ApidTally::empty();
    tally.observe(71, 9_000);
    assert_eq!(tally.gaps, 0);
    assert_eq!(tally.shortest, 71);
    assert_eq!(tally.longest, 71);
}

#[test]
fn a_marker_split_across_two_chunks_is_still_found() {
    let mut scan = MarkerScan::new();
    scan.push(&[0x00, 0x00, 0x1A, 0xCF]);
    scan.push(&[0xFC, 0x1D, 0x00]);
    assert_eq!(scan.count(), 1);
    assert_eq!(scan.first(), Some(2));
}

#[test]
fn a_marker_is_not_counted_twice_at_a_seam() {
    let mut scan = MarkerScan::new();
    scan.push(&[0x1A, 0xCF, 0xFC, 0x1D]);
    scan.push(&[0x00, 0x00, 0x00, 0x00]);
    assert_eq!(scan.count(), 1);
    assert_eq!(scan.stride_count(), 0, "one marker has no stride");
    assert_eq!(scan.modal_stride(), None);
}

#[test]
fn strides_are_measured_marker_to_marker() {
    let mut scan = MarkerScan::new();
    let mut stream = Vec::new();
    for _ in 0..3 {
        stream.extend_from_slice(&CCSDS_ASM);
        stream.extend_from_slice(&[0x00; 10]);
    }
    // Dribbled in one byte at a time: the seam handling must not depend on where the
    // reads happen to fall, and a 4 096-byte chunk hides a carry bug on a 14-byte stride.
    for byte in &stream {
        scan.push(&[*byte]);
    }
    assert_eq!(scan.count(), 3);
    assert_eq!(scan.modal_stride(), Some((14, 2)));
}

#[test]
fn an_empty_stream_has_nothing_to_say_and_does_not_panic() {
    let mut scan = MarkerScan::new();
    scan.push(&[]);
    scan.push(&[0x1A, 0xCF]);
    scan.push(&[]);
    assert_eq!(scan.count(), 0);
    assert_eq!(scan.modal_stride(), None);
    assert_eq!(scan.position(), 2);
}

#[test]
fn a_stream_shorter_than_a_marker_is_not_a_marker() {
    let mut scan = MarkerScan::new();
    scan.push(&[0x1A, 0xCF, 0xFC]);
    assert_eq!(scan.count(), 0);
}

#[test]
fn of_two_strides_as_common_the_shorter_is_the_modal_one() {
    let mut scan = MarkerScan::new();
    for gap in [20usize, 8, 20, 8] {
        scan.push(&CCSDS_ASM);
        scan.push(&vec![0; gap]);
    }
    scan.push(&CCSDS_ASM);
    assert_eq!(scan.stride_count(), 4);
    assert_eq!(scan.modal_stride(), Some((12, 2)));
    assert_eq!((scan.times(12), scan.times(24), scan.times(5)), (2, 2, 0));
}

#[test]
fn a_coded_stride_is_advised_as_a_frame_length_and_not_as_itself() {
    let advice = advise(1279).join("\n");
    assert!(advice.contains("--rs 32"), "{advice}");
    assert!(advice.contains("--interleave 5"), "{advice}");
    assert!(advice.contains("--frame-length 1115"), "{advice}");
    assert!(
        !advice.contains("--frame-length 1279"),
        "the stride was handed back as a frame length: {advice}"
    );
    // E=8 over the same block is a 1195-octet frame, and the stride cannot tell them
    // apart, so both are offered.
    assert!(advice.contains("--frame-length 1195"), "{advice}");
}

#[test]
fn an_uncoded_stride_is_the_frame_plus_the_marker() {
    let advice = advise(1119).join("\n");
    assert!(advice.contains("--frame-length 1115"), "{advice}");
    assert!(
        !advice.contains("--rs"),
        "1115 is not 255 x anything: {advice}"
    );
}

#[test]
fn a_block_that_divides_by_255_into_a_depth_ccsds_does_not_define_is_not_a_code() {
    let advice = advise(4 + 255 * 6).join("\n");
    assert!(!advice.contains("--rs"), "{advice}");
    assert!(advice.contains("--frame-length 1530"), "{advice}");
}

#[test]
fn a_stride_shorter_than_the_marker_is_not_a_frame() {
    let advice = advise(3).join("\n");
    assert!(advice.contains("not frames"), "{advice}");
    assert!(!advice.contains("--frame-length"), "{advice}");
    // And the boundary itself: a stride of exactly the marker leaves no frame.
    assert!(advise(4).join("\n").contains("not frames"));
}

#[test]
fn a_probe_says_every_counter_and_every_apid() {
    let mut probe = Probe::new(Some(60), 2);
    let mut chunk = vec![7u8; 50];
    assert!(probe.take(&mut chunk));
    assert_eq!(chunk.len(), 50);
    let mut chunk = [CCSDS_ASM.to_vec(), vec![0; 20]].concat();
    assert!(probe.take(&mut chunk));
    assert_eq!(chunk.len(), 10, "cut to the limit");
    assert!(!probe.take(&mut vec![1]), "nothing is taken behind the limit");
    assert!(!Probe::new(None, 2).take(&mut Vec::new()), "the stream ended");
    for sequence in [5u8, 7, 8] {
        probe.file(&RawPacket::now(vec![0, 9, 0xC0, sequence, 0, 0, 0]));
    }
    probe.file(&RawPacket::now(vec![1, 2]));

    let mut stats = LinkStats::new();
    stats.bytes_in = 60;
    let text = probe.report("file://x", &stats.snapshot());
    assert!(text.starts_with("stream: file://x\nread:   60 bytes\n\nlink counters\n"));
    assert!(text.contains("\n  bytes in           60\n  sync found         0\n"), "{text}");
    assert!(text.contains("\n  packets lost       0\n"), "{text}");
    assert!(text.contains("\napids: 2\n   apid    packets     min     max    gaps   missing\n"));
    assert!(text.contains("\n      0          1       2       2       0         0\n"), "{text}");
    assert!(text.contains("\n      9          3       7       7       1         1\n"), "{text}");
    assert!(
        text.contains("\nfirst 2 packets\n   apid   sequence  length\n      9          5       7\n"),
        "{text}"
    );
    assert!(text.contains("\ntransfer frames\n  sync markers found: 1\n  first marker at: 50\n"));
    assert!(text.contains("  only one marker: no stride to measure\n"), "{text}");
    assert!(
        text.ends_with("    892: 0 intervals at 892, 0 at 896 (marker included)\n"),
        "{text}"
    );
}

#[test]
fn a_frame_trial_advises_from_the_measured_stride() {
    let mut scan = MarkerScan::new();
    for _ in 0..4 {
        scan.push(&CCSDS_ASM);
        scan.push(&vec![0; 1275]);
    }
    let text = report_frame_trial(&scan, 5116);
    assert!(text.contains("  most common stride: 1279 bytes, 3 of 3 intervals\n"), "{text}");
    assert!(
        text.contains("   1279: 3 intervals at 1279, 0 at 1283 (marker included)\n"),
        "{text}"
    );
    assert!(text.contains("  try --framing tm --rs 32 --interleave 5 --frame-length 1115\n"));
    assert!(!text.contains("not consistent"), "{text}");

    let text = report_frame_trial(&MarkerScan::new(), 42);
    assert_eq!(
        text,
        "\ntransfer frames\n  sync markers found: 0\n  no 0x1ACFFC1D in 42 bytes. Either this is \
         not a transfer frame stream, or\n  the markers were stripped by the receiver — try \
         --framing tm --no-asm with a\n  --frame-length the mission gave you.\n"
    );

    let mut scan = MarkerScan::new();
    for gap in [10usize, 11, 12, 13, 10] {
        scan.push(&CCSDS_ASM);
        scan.push(&vec![0; gap]);
    }
    scan.push(&CCSDS_ASM);
    let text = report_frame_trial(&scan, 80);
    assert!(text.contains("  the stride is not consistent: 2 of 5 intervals."), "{text}");
}

#[test]
fn a_report_of_nothing_has_no_columns() {
    assert_eq!(report_packets(&vec![ApidTally::empty(); 3], &Vec::new()), "\napids: 0\n");
    let text = report_counters(&StatsSnapshot::default());
    assert_eq!(text.lines().count(), 16);
}

/// The status line, with its two numbers as the terminal shows them.
fn status(line: &mut String, snapshot: &StatsSnapshot, framed: bool, now: Utc) {
    let loss = format!("{:.2}", number(snapshot.frame_loss()) * 100.0);
    let age = match snapshot.last_packet {
        Some(last) => format!("{:.1}", number(now.secs_since(last))),
        None => String::new(),
    };
    status_line(line, snapshot, framed, now, &loss, &age);
}

#[test]
fn the_status_line_hides_the_frame_counters_on_an_unframed_link() {
    let mut line = String::new();
    let snapshot = StatsSnapshot {
        bytes_in: 511_200,
        packets_in: 7200,
        packets_decoded: 7200,
        ..StatsSnapshot::default()
    };

    status(&mut line, &snapshot, false, Utc::now());
    assert!(line.contains("bytes=511200"), "{line}");
    assert!(line.contains("packets=7200"), "{line}");
    assert!(
        !line.contains("frames="),
        "a packet link has no frames: {line}"
    );
    assert!(line.ends_with("last=never"), "{line}");

    status(&mut line, &snapshot, true, Utc::now());
    assert!(line.contains("frames=0/0"), "{line}");
    assert!(
        line.contains("loss=0.00%"),
        "loss over nothing is 0, not 100: {line}"
    );
}

#[test]
fn the_status_line_is_reused_and_not_appended_to() {
    let mut line = String::new();
    status(&mut line, &StatsSnapshot::default(), false, Utc::now());
    let once = line.len();
    status(&mut line, &StatsSnapshot::default(), false, Utc::now());
    assert_eq!(line.len(), once, "the buffer grew: {line}");
}

#[test]
fn a_status_line_is_written_out_in_full() {
    let mut line = String::new();
    let snapshot = StatsSnapshot {
        frames_seen: 4,
        frames_ok: 3,
        frames_dropped: 1,
        rs_corrected: 2,
        last_packet: Some(Utc::from_unix_secs(10)),
        ..StatsSnapshot::default()
    };
    status(&mut line, &snapshot, true, Utc::from_unix_secs(12));
    assert_eq!(
        line,
        "1970-01-01T00:00:12.000Z bytes=0 frames=3/4 loss=25.00% rs=2/0 crc=0 packets=0 decoded=0 \
         rejected=0 lost=0 gaps=0 missing=0 last=2.0s ago"
    );
}

#[test]
fn refusals_are_counted_by_kind() {
    let mut run = ExportRun::default();
    run.reject("no container matches");
    run.reject("packet too short");
    run.reject("no container matches");
    assert_eq!(run.rejected_total(), 3);
    assert_eq!(
        run.rejected,
        vec![("no container matches", 2), ("packet too short", 1)]
    );
}

fn at(stamp: Utc, severity: Severity, source: &'static str, message: &str) -> Event {
    Event::at(stamp, severity, source, message.to_string())
}

#[test]
fn two_events_at_the_same_instant_are_both_printed() {
    let stamp = Utc::now();
    let mut log = EventLog::with_capacity(8);
    let mut cursor = 0u64;

    log.push(at(stamp, Severity::Warning, "link", "frame synchronisation lost"));
    let first = unprinted_events(&log, &mut cursor, false);
    log.push(at(stamp, Severity::Error, "session", "the decode thread ended"));
    let second = unprinted_events(&log, &mut cursor, false);

    assert_eq!(first.len(), 1, "{first:?}");
    assert_eq!(
        second.len(),
        1,
        "an event whose stamp ties the newest already printed was dropped: {second:?}"
    );
    assert!(second[0].contains("the decode thread ended"), "{second:?}");
}

#[test]
fn a_collapsed_line_reprints_only_when_its_count_has_risen() {
    let stamp = Utc::now();
    let mut log = EventLog::with_capacity(8);
    let mut cursor = 0u64;
    let crc = || at(stamp, Severity::Warning, "frame", "CRC failed");

    log.push(crc());
    let once = unprinted_events(&log, &mut cursor, false);
    assert_eq!(once.len(), 1, "{once:?}");
    assert!(!once[0].contains("(x"), "one is not a repeat: {once:?}");

    assert!(
        unprinted_events(&log, &mut cursor, false).is_empty(),
        "an unchanged line printed twice"
    );

    log.push(crc());
    log.push(crc());
    let again = unprinted_events(&log, &mut cursor, false);
    assert_eq!(again.len(), 1, "{again:?}");
    assert!(
        again[0].contains("(x3)"),
        "the count did not rise: {again:?}"
    );
    assert!(
        unprinted_events(&log, &mut cursor, false).is_empty(),
        "the repeat printed twice at the same count"
    );
}

#[test]
fn an_info_line_is_held_back_without_hiding_the_warning_behind_it() {
    let stamp = Utc::now();
    let mut log = EventLog::with_capacity(8);
    let mut cursor = 0u64;

    log.push(at(stamp, Severity::Info, "link", "reading file://pass.dat"));
    log.push(at(stamp, Severity::Warning, "link", "1 partial packet(s) abandoned"));
    let quiet = unprinted_events(&log, &mut cursor, false);
    assert_eq!(quiet.len(), 1, "{quiet:?}");
    assert!(quiet[0].contains("partial packet"), "{quiet:?}");
}

#[test]
fn a_line_the_ring_has_evicted_does_not_reprint_the_ones_behind_it() {
    let stamp = Utc::now();
    let mut log = EventLog::with_capacity(2);
    let mut cursor = 0u64;

    log.push(at(stamp, Severity::Warning, "link", "one"));
    log.push(at(stamp, Severity::Warning, "link", "two"));
    assert_eq!(unprinted_events(&log, &mut cursor, false).len(), 2);

    log.push(at(stamp, Severity::Warning, "link", "three"));
    let after = unprinted_events(&log, &mut cursor, false);
    assert_eq!(after.len(), 1, "{after:?}");
    assert!(after[0].contains("three"), "{after:?}");
}

#[test]
fn informational_lines_are_shown_when_asked_for() {
    let stamp = Utc::from_unix_secs(0);
    let events = vec![
        at(stamp, Severity::Info, "link", "locked"),
        at(stamp, Severity::Error, "link", "lost"),
    ];
    assert_eq!(event_line(&events[0]), "1970-01-01T00:00:00.000Z i link: locked");
    assert_eq!(
        report_events(&events, false),
        vec!["1970-01-01T00:00:00.000Z x link: lost".to_string()]
    );
    assert_eq!(report_events(&events, true).len(), 2);
}

/// `count` back-to-back space packets on APID 100, each carrying `payload` octets.
fn space_packets(count: u16, payload: usize) -> Vec<u8> {
    let mut bytes = Vec::new();
    for sequence in 0..count {
        bytes.extend_from_slice(&100u16.to_be_bytes());
        bytes.extend_from_slice(&(0xC000 | sequence).to_be_bytes());
        bytes.extend_from_slice(&((payload - 1) as u16).to_be_bytes());
        bytes.extend((0..payload).map(|i| (sequence as usize + i) as u8));
    }
    bytes
}

fn definition() -> Definition {
    Definition {
        parameters: vec![ParameterText {
            name: "/TestSystem/PKT_VALUE".to_string(),
            units: Vec::new(),
        }],
    }
}

/// What a definition with one 32-bit parameter makes of a packet.
fn described(packet: &RawPacket) -> Result<DecodedPacket, DecodeError> {
    if packet.bytes.len() < 4 {
        return Err(DecodeError {
            kind: DecodeErrorKind::Bits,
            message: "short".to_string(),
        });
    }
    let word = [packet.bytes[0], packet.bytes[1], packet.bytes[2], packet.bytes[3]];
    let value = u64::from(u32::from_be_bytes(word));
    Ok(DecodedPacket {
        container: ContainerId::new(0),
        container_name: Some("PKT_CONTAINER".to_string()),
        container_count: 1,
        values: vec![DecodedValue {
            parameter: ParamId::new(0),
            raw: RawValue::Unsigned(value),
            eng: EngValue::Unsigned(value),
        }],
        clock: None,
        trailing_bits: 0,
    })
}

/// Runs an export over `bytes`, read in chunks of 64, into an output that does as it is told.
fn export_bytes(
    bytes: &[u8],
    limit: Option<usize>,
    output: &dyn Fn(&[u8]) -> WriteOutcome,
) -> (Result<(), CliError>, ExportRun, StatsSnapshot) {
    let mut packets = PacketDecoder::new(None, LinkStats::new());
    let mut run = ExportRun::default();
    let mut framing = PacketSplitter::new();
    let mut batch = empty_batch();
    let mut lost = 0u64;
    let mut chunks = bytes.chunks(64);
    let mut result = Ok(());
    'stream: while run.wants_more(limit) {
        let chunk = chunks.next().unwrap_or_default();
        let plan = plan_read(false, chunk.len(), false);
        if plan.ended {
            if framing.is_unfinished() {
                lost += 1;
            }
            break;
        }
        framing.push(chunk);
        while let Some(bytes) = framing.next() {
            if !run.wants_more(limit) {
                break;
            }
            let packet = RawPacket::now(bytes);
            let decoded = described(&packet);
            let floats = vec![FloatText { raw: String::new(), eng: String::new() }];
            let mut out = Vec::new();
            let filed = run.file(
                decoded,
                &packet,
                &floats,
                &definition(),
                &mut packets,
                &mut batch,
                &mut out,
            );
            if let Filed::Rows(rows) = filed {
                match run.settle(rows, output(&out)) {
                    Ok(true) => {}
                    Ok(false) => break 'stream,
                    Err(error) => {
                        result = Err(error);
                        break 'stream;
                    }
                }
            }
        }
    }
    let mut stats = packets.stats().snapshot();
    stats.packets_lost = lost;
    (result, run, stats)
}

fn accepting(_: &[u8]) -> WriteOutcome {
    WriteOutcome::Done
}

#[test]
fn a_stream_that_ends_mid_packet_is_counted_and_not_dropped() {
    let mut bytes = space_packets(10, 4);
    bytes.extend_from_slice(&space_packets(1, 4)[..8]);
    let (result, run, stats) = export_bytes(&bytes, None, &accepting);

    result.expect("a truncated stream is a report, not a failure");
    assert_eq!(run.packets, 10, "the ten whole packets still arrive");
    assert_eq!(
        stats.packets_lost, 1,
        "the eleventh packet's 8 octets went nowhere and nothing counted them"
    );
    assert!(run
        .summary(&stats, false)
        .contains(&"  1 partial packet(s) abandoned".to_string()));
}

#[test]
fn a_stream_that_ends_on_a_packet_boundary_loses_nothing() {
    let bytes = space_packets(10, 4);
    let (result, run, stats) = export_bytes(&bytes, None, &accepting);

    result.expect("a clean end of file is not a failure");
    assert_eq!(run.packets, 10);
    assert_eq!(
        stats.packets_lost, 0,
        "a stream that ends where a packet ends has no partial to abandon"
    );
    assert_eq!(
        run.summary(&stats, false),
        vec!["export: 10 packets, 10 rows, 0 refused".to_string()]
    );
}

#[test]
fn a_limit_of_zero_exports_nothing() {
    let bytes = space_packets(10, 4);
    let (result, run, _) = export_bytes(&bytes, Some(0), &accepting);

    result.expect("a limit of zero is a legal limit");
    assert_eq!(run.packets, 0, "--limit 0 exported a packet");
    assert_eq!(run.rows, 0);
}

#[test]
fn a_limit_stops_the_export_where_it_says() {
    let bytes = space_packets(10, 4);
    let (result, run, _) = export_bytes(&bytes, Some(3), &accepting);

    result.expect("three packets is a legal limit");
    assert_eq!(run.packets, 3);
}

#[test]
fn an_output_that_closed_early_ends_the_export_rather_than_failing_it() {
    let bytes = space_packets(10, 4);
    let (result, run, stats) = export_bytes(&bytes, None, &|_| WriteOutcome::Closed);

    result.expect("a reader that went away is a clean stop, not a failure");
    assert!(run.closed, "the summary would not say the output closed");
    assert!(
        run.packets < 10,
        "the export ran to the end of a stream nothing was reading: {}",
        run.packets
    );
    assert_eq!(
        run.summary(&stats, false)[0],
        "export: the output closed after 1 packets; stopping there"
    );
}

#[test]
fn an_output_that_fails_ends_the_export_with_its_own_words() {
    let bytes = space_packets(10, 4);
    let failing = |_: &[u8]| WriteOutcome::Failed("no space left".to_string());
    let (result, run, _) = export_bytes(&bytes, None, &failing);
    assert!(matches!(result, Err(CliError::Io(message)) if message == "no space left"));
    assert_eq!(run.rows, 0);
}

#[test]
fn a_refused_packet_is_counted_under_its_kind_and_writes_nothing() {
    let mut run = ExportRun::default();
    let mut packets = PacketDecoder::new(None, LinkStats::new());
    let mut batch = empty_batch();
    let mut out = Vec::new();
    let stump = RawPacket::now(vec![0; 3]);
    let filed = run.file(
        described(&stump),
        &stump,
        &Vec::new(),
        &definition(),
        &mut packets,
        &mut batch,
        &mut out,
    );
    assert_eq!(filed, Filed::Refused);
    assert!(out.is_empty());
    let stats = StatsSnapshot {
        frames_ok: 3,
        frames_seen: 4,
        rs_uncorrectable: 1,
        sequence_gaps: 2,
        sequence_missing: 5,
        ..StatsSnapshot::default()
    };
    assert_eq!(
        run.summary(&stats, true),
        vec![
            "export: 1 packets, 0 rows, 1 refused".to_string(),
            "  1 refused: field past the end of the packet".to_string(),
            "  frames 3/4 ok, 1 uncorrectable, 0 checksum failures".to_string(),
            "  2 sequence gaps, 5 packets missing".to_string(),
        ]
    );
}

#[test]
fn progress_is_said_once_every_thousand_packets() {
    let mut run = ExportRun::default();
    let mut next = PROGRESS_PACKETS;
    let mut lines = Vec::new();
    for packets in 1..=2500u64 {
        run.packets = packets;
        lines.extend(run.progress(&mut next));
    }
    assert_eq!(
        lines,
        vec![
            "export: 1000 packets, 0 rows".to_string(),
            "export: 2000 packets, 0 rows".to_string(),
        ]
    );
}

#[test]
fn what_a_read_brings_decides_what_is_done_with_it() {
    let plan = |restart, push, flush, ended| ReadPlan {
        restart,
        push,
        flush,
        ended,
    };
    assert_eq!(plan_read(false, 10, false), plan(false, true, false, false));
    assert_eq!(plan_read(true, 10, true), plan(true, true, true, false));
    assert_eq!(plan_read(false, 0, false), plan(false, false, true, true));
}

#[test]
fn a_call_prints_everything_since_the_last_one_whatever_made_way() {
    let stamp = Utc::from_unix_secs(0);
    let mut log = EventLog::with_capacity(3);
    let mut cursor = 0u64;
    let say = |log: &mut EventLog, words: &[&str]| {
        for word in words {
            log.push(at(stamp, Severity::Warning, "link", word));
        }
    };
    let told = |lines: Vec<String>| -> Vec<String> {
        lines
            .iter()
            .map(|line| line.trim_start_matches("1970-01-01T00:00:00.000Z ! link: ").to_string())
            .collect()
    };

    say(&mut log, &["one", "two", "two", "three"]);
    assert_eq!(
        told(unprinted_events(&log, &mut cursor, false)),
        vec!["one", "two (x2)", "three"]
    );
    assert_eq!(cursor, 4);

    // The last line again, then others: it is told again with its count, ahead of them.
    say(&mut log, &["three", "four", "four", "four"]);
    assert_eq!(
        told(unprinted_events(&log, &mut cursor, false)),
        vec!["three (x2)", "four (x3)"]
    );
    assert_eq!(cursor, log.total());

    // More than the log holds: what made way before it was told is not told.
    say(&mut log, &["a", "b", "c", "d", "d"]);
    assert_eq!(
        told(unprinted_events(&log, &mut cursor, false)),
        vec!["b", "c", "d (x2)"]
    );
    assert!(unprinted_events(&log, &mut cursor, false).is_empty());

    log.push(at(stamp, Severity::Info, "link", "quiet"));
    say(&mut log, &["e"]);
    assert_eq!(told(unprinted_events(&log, &mut cursor, false)), vec!["e"]);
    assert!(unprinted_events(&log, &mut cursor, true).is_empty());
    assert_eq!(log.len(), 3);
}

#[test]
fn the_last_flush_decides_how_an_export_ends() {
    let mut run = ExportRun::default();
    assert!(run.flushed(WriteOutcome::Done).is_ok());
    assert!(!run.closed);
    let refused = run.flushed(WriteOutcome::Failed("no space left".to_string()));
    assert!(matches!(refused, Err(CliError::Io(message)) if message == "no space left"));
    assert!(!run.closed);
    assert!(run.flushed(WriteOutcome::Closed).is_ok());
    assert!(run.closed);
    assert_eq!(
        run.summary(&LinkStats::new().snapshot(), false)[0],
        "export: the output closed after 0 packets; stopping there"
    );
}
