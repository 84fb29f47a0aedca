//! The CSV side of a session, and the recording.

use xtce_gs::csv::{write_field, write_row};
use xtce_gs::decoded::{DecodeError, DecodeErrorKind, DecodedPacket, DecodedValue};
use xtce_gs::definition::{Definition, ParameterText};
use xtce_gs::float::Float64;
use xtce_gs::ids::{ContainerId, ParamId};
use xtce_gs::limits::{Limit, LimitSet, Range};
use xtce_gs::record::{
    write_batch, write_history, write_snapshot, ExportSummary, FloatText, PacketSplitter,
    Recorder, StreamExport, BATCH_HEADER, HISTORY_HEADER, RECORD_BUFFER_BYTES,
    RECORD_FLUSH_NANOS, SNAPSHOT_HEADER, ValueText,
};
use xtce_gs::sample::{Batch, Sample};
use xtce_gs::store::ParameterStore;
use xtce_gs::time::Utc;
use xtce_gs::value::{EngValue, RawValue, Value};

fn double(value: f64) -> Float64 {
    Float64::from_bits(value.to_bits())
}

fn number(value: Float64) -> f64 {
    f64::from_bits(value.to_bits())
}

/// Three parameters, one of them named to break an unescaped export.
fn definition() -> Definition {
    let parameter = |name: &str| ParameterText {
        name: name.to_string(),
        units: vec!["deg".to_string(), "C".to_string()],
    };
    Definition {
        parameters: vec![
            parameter("/Sat/PLAIN"),
            parameter("/Sat/MODE, \"ODD\""),
            parameter("/Sat/SECOND"),
        ],
    }
}

const PLAIN: u32 = 0;
const ODD: u32 = 1;
const SECOND: u32 = 2;

/// What the definition makes of a packet: the first eight octets are two numbers, so a packet
/// shorter than that is one it refuses.
fn described(packet: &[u8]) -> Result<DecodedPacket, DecodeError> {
    if packet.len() < 8 {
        return Err(DecodeError {
            kind: DecodeErrorKind::Bits,
            message: "a field runs past the end of the packet".to_string(),
        });
    }
    let word = |at: usize| {
        u64::from(u32::from_be_bytes([
            packet[at],
            packet[at + 1],
            packet[at + 2],
            packet[at + 3],
        ]))
    };
    Ok(DecodedPacket {
        container: ContainerId::new(0),
        container_name: Some("/Sat/PKT".to_string()),
        container_count: 1,
        values: vec![
            DecodedValue {
                parameter: ParamId::new(PLAIN),
                raw: RawValue::Unsigned(word(0)),
                eng: EngValue::Unsigned(word(0)),
            },
            DecodedValue {
                parameter: ParamId::new(SECOND),
                raw: RawValue::Unsigned(word(4)),
                eng: EngValue::Unsigned(word(4)),
            },
        ],
        clock: None,
        trailing_bits: 0,
    })
}

fn text_of(value: &Value) -> String {
    match value {
        Value::Float(value) => number(*value).to_string(),
        _ => String::new(),
    }
}

fn texts<'a>(samples: impl Iterator<Item = &'a Sample>) -> Vec<FloatText> {
    samples
        .map(|sample| FloatText {
            raw: text_of(&sample.raw),
            eng: text_of(&sample.eng),
        })
        .collect()
}

/// One CCSDS packet: six-octet primary header and `body`.
fn packet(apid: u16, sequence: u16, body: &[u8]) -> Vec<u8> {
    let mut bytes = Vec::with_capacity(6 + body.len());
    bytes.extend_from_slice(&(apid & 0x07ff).to_be_bytes());
    bytes.extend_from_slice(&(0xc000 | (sequence & 0x3fff)).to_be_bytes());
    // CCSDS 133.0-B-2 §4.1.3.5.3: the field is the octet count of the data field, less 1.
    let length = u16::try_from(body.len().saturating_sub(1)).unwrap_or(0);
    bytes.extend_from_slice(&length.to_be_bytes());
    bytes.extend_from_slice(body);
    bytes
}

/// Splits a CSV document into records and fields, honouring RFC 4180 §2 quoting.
fn parse_csv(text: &str) -> Vec<Vec<String>> {
    let mut records = Vec::new();
    let mut record = Vec::new();
    let mut field = String::new();
    let mut quoted = false;
    let mut chars = text.chars().peekable();
    while let Some(c) = chars.next() {
        match c {
            '"' if quoted => {
                if chars.peek() == Some(&'"') {
                    chars.next();
                    field.push('"');
                } else {
                    quoted = false;
                }
            }
            '"' => quoted = true,
            ',' if !quoted => record.push(std::mem::take(&mut field)),
            '\n' if !quoted => {
                record.push(std::mem::take(&mut field));
                records.push(std::mem::take(&mut record));
            }
            '\r' if !quoted => {}
            other => field.push(other),
        }
    }
    if !field.is_empty() || !record.is_empty() {
        record.push(field);
        records.push(record);
    }
    records
}

fn sample(parameter: u32, raw: u64, eng: f64) -> Sample {
    Sample {
        parameter: ParamId::new(parameter),
        time: Utc::from_unix_secs(1_600_000_000),
        raw: Value::Unsigned(raw),
        eng: Value::Float(double(eng)),
    }
}

fn escaped(field: &str) -> String {
    let mut out = Vec::new();
    write_field(&mut out, field);
    String::from_utf8(out).unwrap()
}

#[test]
fn a_field_with_a_comma_a_quote_or_a_newline_is_quoted() {
    assert_eq!(escaped("SAFE, NO COMMS"), "\"SAFE, NO COMMS\"");
    assert_eq!(escaped("say \"hello\""), "\"say \"\"hello\"\"\"");
    assert_eq!(escaped("two\nlines"), "\"two\nlines\"");
    // A bare carriage return counts too — RFC 4180 §2 names CR as well as LF.
    assert_eq!(escaped("two\rlines"), "\"two\rlines\"");
    assert_eq!(
        escaped("all\r\nof, \"them\""),
        "\"all\r\nof, \"\"them\"\"\""
    );
}

#[test]
fn a_field_that_is_one_quote_becomes_four() {
    assert_eq!(escaped("\""), "\"\"\"\"");
    assert_eq!(escaped("\"\""), "\"\"\"\"\"\"");
}

#[test]
fn a_field_needing_nothing_is_written_as_it_is() {
    assert_eq!(escaped("/Sat/TEMP"), "/Sat/TEMP");
    assert_eq!(escaped(""), "");
    // RFC 4180 §2 makes a surrounding space part of the field, not a reason to quote.
    assert_eq!(escaped("  padded  "), "  padded  ");
    assert_eq!(escaped("deg C"), "deg C");
}

#[test]
fn a_row_reads_back_as_its_fields() {
    let fields: Vec<String> = ["plain", "a,b", "q\"q", "", "line\nbreak", "größe"]
        .iter()
        .map(|field| field.to_string())
        .collect();
    let mut out = Vec::new();
    write_row(&mut out, &fields);
    let rows = parse_csv(&String::from_utf8(out).unwrap());
    assert_eq!(rows, vec![fields]);
}

fn snapshot(store: &ParameterStore, limits: &LimitSet) -> String {
    let floats = texts(store.seen().into_iter().filter_map(|seen| store.latest(seen)));
    let mut out = Vec::new();
    write_snapshot(&mut out, store, &definition(), limits, &floats);
    String::from_utf8(out).unwrap()
}

#[test]
fn a_parameter_name_with_a_comma_does_not_shift_the_columns() {
    let mut store = ParameterStore::new(3, 8);
    store.push(sample(ODD, 3, 3.0));

    let rows = parse_csv(&snapshot(&store, &LimitSet::new()));

    let columns = SNAPSHOT_HEADER.split(',').count();
    assert_eq!(rows.len(), 2, "header and one parameter");
    assert_eq!(rows[0].join(","), SNAPSHOT_HEADER);
    assert_eq!(rows[1].len(), columns, "the name must not add a column");
    assert_eq!(rows[1][0], "/Sat/MODE, \"ODD\"");
    assert_eq!(rows[1][4], "deg C");
}

#[test]
fn a_snapshot_has_a_row_per_parameter_seen_not_per_slot() {
    let mut store = ParameterStore::new(3, 8);
    assert!(store.parameter_count() >= 3);
    store.push(sample(PLAIN, 1, 1.0));
    store.push(sample(ODD, 2, 2.0));

    let rows = parse_csv(&snapshot(&store, &LimitSet::new()));
    assert_eq!(rows.len(), 3, "one header and two seen parameters");
}

#[test]
fn a_snapshot_carries_the_limit_state_of_the_engineering_value() {
    let mut store = ParameterStore::new(3, 8);
    store.push(sample(PLAIN, 99, 99.0));

    let mut limits = LimitSet::new();
    limits.insert(
        "/Sat/PLAIN".to_string(),
        Limit {
            warning: Range::new(double(0.0), double(50.0)),
            alarm: Range::new(double(-10.0), double(200.0)),
        },
    );

    let rows = parse_csv(&snapshot(&store, &limits));
    assert_eq!(rows[1][6], "WARN");
    assert_eq!(rows[1][5], "1", "one update");
    assert_eq!(rows[1][2..4], ["99".to_string(), "99".to_string()]);
}

#[test]
fn a_history_is_written_oldest_first_and_only_for_what_is_watched() {
    let mut store = ParameterStore::new(3, 8);
    store.watch(ParamId::new(PLAIN));
    for (index, value) in [10.0f64, 20.0, 30.0].into_iter().enumerate() {
        let mut point = sample(PLAIN, index as u64, value);
        point.time = Utc::from_unix_secs(1_600_000_000 + index as i64);
        store.push(point);
    }
    // Not watched: it has a latest value and no history.
    store.push(sample(ODD, 7, 7.0));

    let values: Vec<Vec<String>> = store
        .watched()
        .into_iter()
        .filter_map(|watched| store.history(watched))
        .map(|ring| {
            ring.iter()
                .into_iter()
                .map(|point| number(point.v).to_string())
                .collect()
        })
        .collect();
    let mut out = Vec::new();
    write_history(&mut out, &store, &definition(), &values);
    let rows = parse_csv(&String::from_utf8(out).unwrap());

    assert_eq!(rows[0].join(","), HISTORY_HEADER);
    assert_eq!(rows.len(), 4, "one header and three points");
    assert_eq!(rows[1][1], "2020-09-13T12:26:40.000Z");
    assert_eq!(rows[1][2], "10");
    assert_eq!(rows[3][2], "30");
}

#[test]
fn a_batch_is_one_row_per_sample_with_no_header() {
    let batch = Batch {
        container: ContainerId::new(0),
        received: Utc::from_unix_secs(1_600_000_000),
        spacecraft: Some(Utc::from_unix_secs(1_600_000_100)),
        apid: 11,
        sequence: 4095,
        sequence_gap: false,
        samples: vec![sample(PLAIN, 1, 1.5), sample(ODD, 2, 2.5)],
    };

    let mut out = Vec::new();
    let floats = texts(batch.samples.iter());
    let rows = write_batch(&mut out, &batch, &definition(), &floats);
    assert_eq!(
        rows,
        batch.samples.len(),
        "every sample here has a nameable parameter"
    );
    let rows = parse_csv(&String::from_utf8(out).unwrap());

    assert_eq!(rows.len(), 2, "no header, two samples");
    assert_eq!(rows[0].len(), BATCH_HEADER.split(',').count());
    // Spacecraft time in `time`, ground receipt in `received`; both columns, or the
    // export cannot be checked against the pass.
    assert_eq!(rows[0][0], "2020-09-13T12:28:20.000Z");
    assert_eq!(rows[0][1], "2020-09-13T12:26:40.000Z");
    assert_eq!(rows[0][2], "11");
    assert_eq!(rows[0][3], "4095");
    assert_eq!(rows[1][4], "/Sat/MODE, \"ODD\"");
    assert_eq!(rows[1][6], "2.5");
}

#[test]
fn a_sample_the_definition_cannot_name_makes_no_row() {
    let mut batch = xtce_gs::decode::empty_batch();
    batch.samples = vec![sample(7, 1, 1.5), sample(PLAIN, 1, 1.5)];
    let floats = texts(batch.samples.iter());
    let mut out = Vec::new();
    assert_eq!(write_batch(&mut out, &batch, &definition(), &floats), 1);
    assert_eq!(parse_csv(&String::from_utf8(out).unwrap()).len(), 1);
}

/// Exports a stream, read in chunks of the given size.
fn export_in(stream: &[u8], limit: Option<u64>, chunk: usize) -> (ExportSummary, String) {
    let mut out = Vec::new();
    let mut export = StreamExport::start(limit, &mut out);
    for piece in stream.chunks(chunk) {
        export.push(piece);
        while let Some(packet) = export.next_packet() {
            let decoded = described(&packet).map(|described| {
                let words = |value: &Value| value.display(&text_of(value));
                described
                    .values
                    .iter()
                    .map(|value| ValueText {
                        parameter: value.parameter,
                        raw: words(&Value::from_raw(&value.raw)),
                        eng: words(&Value::from_eng(&value.eng)),
                    })
                    .collect()
            });
            export.file(&packet, &decoded, &definition(), Utc::epoch(), &mut out);
        }
        if export.is_full() {
            break;
        }
    }
    (export.finish(), String::from_utf8(out).unwrap())
}

fn export_stream(stream: &[u8], limit: Option<u64>) -> (ExportSummary, String) {
    export_in(stream, limit, 65_536)
}

#[test]
fn an_empty_stream_exports_the_header_and_nothing_else() {
    let (summary, out) = export_stream(&[], None);
    assert_eq!(summary, ExportSummary::default());
    assert_eq!(out, format!("{BATCH_HEADER}\n"));
}

#[test]
fn an_export_writes_a_row_per_decoded_value() {
    let mut stream = Vec::new();
    for sequence in 0..3u16 {
        stream.extend_from_slice(&packet(0x40, sequence, &[0, sequence as u8]));
    }

    let (summary, out) = export_stream(&stream, None);
    let rows = parse_csv(&out);

    assert_eq!(summary.packets, 3);
    assert_eq!(summary.rows, 6, "the container declares two parameters");
    assert_eq!(summary.rejected, 0);
    assert!(!summary.truncated);
    assert_eq!(rows.len(), 7);
    assert_eq!(rows[1][3], "0", "the first packet's sequence count");
    assert_eq!(rows[1][4], "/Sat/PLAIN");
    assert_eq!(rows[6][3], "2");
}

#[test]
fn an_export_stops_at_the_limit() {
    let mut stream = Vec::new();
    for sequence in 0..10u16 {
        stream.extend_from_slice(&packet(0x40, sequence, &[0, 1]));
    }

    let (summary, _) = export_stream(&stream, Some(4));
    assert_eq!(summary.packets, 4);
    assert!(!summary.truncated);
}

#[test]
fn a_hostile_length_field_ends_the_export_instead_of_spinning() {
    // A header claiming 65 536 octets of data with four on the stream.
    let mut stream = packet(0x40, 0, &[0, 1]);
    if let Some(slice) = stream.get_mut(4..6) {
        slice.copy_from_slice(&u16::MAX.to_be_bytes());
    }

    let (summary, _) = export_stream(&stream, None);
    assert_eq!(summary.packets, 0, "the packet was never complete");
    assert!(summary.truncated);
}

#[test]
fn a_stream_that_ends_inside_a_header_is_truncated_not_a_packet() {
    let mut stream = packet(0x40, 0, &[0, 1]);
    stream.truncate(3);

    let (summary, _) = export_stream(&stream, None);
    assert_eq!(summary.packets, 0);
    assert!(summary.truncated);
    assert_eq!(summary.rows, 0);
}

#[test]
fn a_packet_the_definition_refuses_is_counted_and_skipped() {
    // Seven octets on the stream, eight in the container's entry list.
    let stream = packet(0x40, 0, &[0]);

    let (summary, _) = export_stream(&stream, None);
    assert_eq!(summary.packets, 1);
    assert_eq!(summary.rejected, 1);
    assert_eq!(summary.rows, 0);
}

#[test]
fn how_a_stream_is_cut_makes_no_difference_to_its_export() {
    let mut stream = Vec::new();
    for sequence in 0..5u16 {
        stream.extend_from_slice(&packet(0x40, sequence, &vec![7; 2 + sequence as usize]));
    }
    stream.extend_from_slice(&[1, 2, 3]);
    let whole = export_stream(&stream, None);
    assert!(whole.0.truncated);
    for chunk in [1, 2, 3, 7, 8, 9, 20] {
        assert_eq!(export_in(&stream, None, chunk), whole);
    }
}

#[test]
fn the_packets_and_the_rest_are_the_stream() {
    let mut stream = packet(1, 1, &[1, 2, 3]);
    stream.extend_from_slice(&packet(2, 2, &[4]));
    stream.extend_from_slice(&[9, 9]);
    let mut splitter = PacketSplitter::new();
    splitter.push(&stream);
    assert_eq!(splitter.next(), Some(packet(1, 1, &[1, 2, 3])));
    assert_eq!(splitter.next(), Some(packet(2, 2, &[4])));
    assert_eq!(splitter.next(), None);
    assert!(splitter.is_unfinished());
}

#[test]
fn a_recording_is_every_byte_in_order() {
    let mut buffer = Recorder::open("pass.rec".to_string());
    assert_eq!(buffer.path(), "pass.rec");
    assert!(!buffer.write(b"first chunk ", 0));
    assert!(!buffer.write(b"second chunk", RECORD_FLUSH_NANOS - 1));
    assert_eq!(buffer.buffered(), 24);
    assert!(buffer.write(b"", RECORD_FLUSH_NANOS), "the time bound");
    assert_eq!(buffer.flush(), b"first chunk second chunk");
    assert_eq!(buffer.bytes_written(), 24);
    assert_eq!(buffer.buffered(), 0);

    let big = vec![0xa5u8; RECORD_BUFFER_BYTES * 2 + 7];
    assert!(buffer.write(&big, 0), "the size bound");
    assert_eq!(buffer.flush(), big);
}

#[test]
fn a_stream_is_exported_in_the_decoders_own_words() {
    let mut out = Vec::new();
    let mut export = StreamExport::start(None, &mut out);
    let bytes = packet(5, 9, &[0; 4]);
    export.push(&bytes);
    let taken = export.next_packet().unwrap();
    let value = |parameter: u32, raw: &str, eng: &str| ValueText {
        parameter: ParamId::new(parameter),
        raw: raw.to_string(),
        eng: eng.to_string(),
    };
    let long = "00 01 02 03 04 05 06 07 08 09 0a 0b 0c 0d 0e 0f 10 11 12 13";
    let decoded = Ok(vec![value(PLAIN, long, "a, b"), value(99, "1", "1")]);
    export.file(&taken, &decoded, &definition(), Utc::epoch(), &mut out);
    let rows = parse_csv(&String::from_utf8(out).unwrap());
    assert_eq!(rows.len(), 2, "a heading and one row");
    assert_eq!(rows[1][2..4], ["5".to_string(), "9".to_string()]);
    assert_eq!(rows[1][5..7], [long.to_string(), "a, b".to_string()]);
    assert_eq!(export.finish().rows, 1);
}
