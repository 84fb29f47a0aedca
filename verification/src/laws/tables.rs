//! What tables and recordings promise: every row can be read back.

use vstd::prelude::*;

use crate::csv::{csv_field, needs_quotes, read_row, row_of, rows_read_back};
use crate::definition::{spaced, Definition};
use crate::ids::ParamId;
use crate::limits::{LimitSet, LimitState};
use crate::ratio::nanos_cut_off;
use crate::record::{
    first_packet_len, found_in, header_line, history_rows, named_samples, named_values, one_more,
    packets_of, point_rows, recorder_step, sample_row, sample_rows, snapshot_row, snapshot_rows,
    stamp_of, stream_stamp, summed_up, unfinished, utf8, value_rows, ExportSummary, FloatText,
    PacketStamp, RecordStep, Recorder, StreamExport, ValueText,
};
use crate::sample::{Batch, SampleView};
use crate::store::{Point, StoreView};
use crate::text::decimal;
use crate::time::{iso_text, Utc};
use crate::value::value_text;

verus! {

/// The fields of a row, as a reader of the table gets them.
pub open spec fn fields_of(row: Seq<u8>) -> Seq<Seq<u8>> {
    read_row(row, false, Seq::empty(), Seq::empty())
}

/// A field that needs no quotes is written as it is; one with a comma, a quote or a line end in it
/// stands between quotes.
pub proof fn a_field_is_quoted_where_it_must_be(field: Seq<u8>, place: int)
    ensures
        !needs_quotes(field) ==> csv_field(field) == field,
        0 <= place < field.len() && (field[place] == 0x2c || field[place] == 0x22 || field[place]
            == 0x0a || field[place] == 0x0d) ==> needs_quotes(field),
        needs_quotes(field) ==> csv_field(field).len() >= field.len() + 2 && csv_field(field)[0]
            == 0x22 && csv_field(field).last() == 0x22,
        needs_quotes(field) ==> exists|i: int|
            0 <= i < field.len() && ((#[trigger] field[i]) == 0x2c || field[i] == 0x22 || field[i]
                == 0x0a || field[i] == 0x0d),
{
    lemma_doubled_len(field);
    if 0 <= place < field.len() && crate::csv::is_special(field[place]) {
        assert(needs_quotes(field));
    }
}

proof fn lemma_doubled_len(field: Seq<u8>)
    ensures
        crate::csv::doubled(field).len() >= field.len(),
    decreases field.len(),
{
    if field.len() > 0 {
        lemma_doubled_len(field.skip(1));
    }
}

/// A row of a sample reads back as when it is, when it was received, its APID and count, the name
/// of its parameter, and the two texts of its value, in that order.
pub proof fn a_sample_row_reads_back(
    stamp: PacketStamp,
    name: Seq<char>,
    raw: Seq<char>,
    eng: Seq<char>,
)
    ensures
        ({
            let fields = fields_of(sample_row(stamp, name, raw, eng));
            &&& fields.len() == 7
            &&& fields[0] == utf8(iso_text(stamp.time.nanos()))
            &&& fields[1] == utf8(iso_text(stamp.received.nanos()))
            &&& fields[2] == utf8(decimal(stamp.apid as nat))
            &&& fields[3] == utf8(decimal(stamp.sequence as nat))
            &&& fields[4] == utf8(name)
            &&& fields[5] == utf8(raw)
            &&& fields[6] == utf8(eng)
        }),
{
    let fields = seq![
        utf8(iso_text(stamp.time.nanos())),
        utf8(iso_text(stamp.received.nanos())),
        utf8(decimal(stamp.apid as nat)),
        utf8(decimal(stamp.sequence as nat)),
        utf8(name),
        utf8(raw),
        utf8(eng),
    ];
    rows_read_back(fields);
}

/// A row of a snapshot reads back as the parameter's name, when its latest sample was, the two texts
/// of it, its unit, how often it came, and how it stands to its limits.
pub proof fn a_snapshot_row_reads_back(
    name: Seq<char>,
    sample: SampleView,
    text: FloatText,
    unit: Seq<char>,
    updates: u32,
    state: LimitState,
)
    ensures
        ({
            let fields = fields_of(snapshot_row(name, sample, text, unit, updates, state));
            &&& fields.len() == 7
            &&& fields[0] == utf8(name)
            &&& fields[1] == utf8(iso_text(sample.time.nanos()))
            &&& fields[2] == utf8(value_text(sample.raw, text.raw@))
            &&& fields[3] == utf8(value_text(sample.eng, text.eng@))
            &&& fields[4] == utf8(unit)
            &&& fields[5] == utf8(decimal(updates as nat))
            &&& fields[6] == utf8(state.text())
        }),
{
    let fields = seq![
        utf8(name),
        utf8(iso_text(sample.time.nanos())),
        utf8(value_text(sample.raw, text.raw@)),
        utf8(value_text(sample.eng, text.eng@)),
        utf8(unit),
        utf8(decimal(updates as nat)),
        utf8(state.text()),
    ];
    rows_read_back(fields);
}

/// A point of a history is a row that reads back as the parameter's name, when it was and what it
/// was; points come oldest first.
pub proof fn a_point_row_reads_back(
    name: Seq<char>,
    points: Seq<Point>,
    values: Seq<String>,
    count: nat,
)
    ensures
        point_rows(name, points, values, 0).len() == 0,
        ({
            let before = point_rows(name, points, values, count);
            let after = point_rows(name, points, values, count + 1);
            let row = after.skip(before.len() as int);
            &&& after.take(before.len() as int) == before
            &&& fields_of(row) == seq![
                utf8(name),
                utf8(iso_text(nanos_cut_off(points[count as int].t))),
                utf8(values[count as int]@),
            ]
        }),
{
    let fields = seq![
        utf8(name),
        utf8(iso_text(nanos_cut_off(points[count as int].t))),
        utf8(values[count as int]@),
    ];
    rows_read_back(fields);
    let before = point_rows(name, points, values, count);
    let after = point_rows(name, points, values, count + 1);
    assert(after == before + row_of(fields));
    assert(after.take(before.len() as int) =~= before);
    assert(after.skip(before.len() as int) =~= row_of(fields));
}

/// Each sample whose parameter the definition can name makes one row behind the others, and is
/// counted; one whose parameter it cannot makes none, and is not.
pub proof fn each_named_sample_makes_a_row(
    stamp: PacketStamp,
    samples: Seq<SampleView>,
    definition: &Definition,
    floats: Seq<FloatText>,
    count: nat,
)
    requires
        count < samples.len(),
    ensures
        ({
            let sample = samples[count as int];
            let named = sample.parameter.number < definition.parameters@.len();
            let before = sample_rows(stamp, samples, definition, floats, count);
            let after = sample_rows(stamp, samples, definition, floats, count + 1);
            &&& !named ==> after == before && named_samples(samples, definition, count + 1)
                == named_samples(samples, definition, count)
            &&& named ==> after == before + sample_row(
                stamp,
                definition.parameters@[sample.parameter.number as int].name@,
                value_text(sample.raw, floats[count as int].raw@),
                value_text(sample.eng, floats[count as int].eng@),
            ) && named_samples(samples, definition, count + 1) == named_samples(
                samples,
                definition,
                count,
            ) + 1
            &&& sample_rows(stamp, samples, definition, floats, 0).len() == 0
            &&& named_samples(samples, definition, 0) == 0
        }),
{
    let before = sample_rows(stamp, samples, definition, floats, count);
    assert(before + Seq::<u8>::empty() =~= before);
}

/// The same of values in the decoder's own words.
pub proof fn each_named_value_makes_a_row(
    stamp: PacketStamp,
    values: Seq<ValueText>,
    definition: &Definition,
    count: nat,
)
    requires
        count < values.len(),
    ensures
        ({
            let value = values[count as int];
            let named = value.parameter.number < definition.parameters@.len();
            let before = value_rows(stamp, values, definition, count);
            let after = value_rows(stamp, values, definition, count + 1);
            &&& !named ==> after == before && named_values(values, definition, count + 1)
                == named_values(values, definition, count)
            &&& named ==> after == before + sample_row(
                stamp,
                definition.parameters@[value.parameter.number as int].name@,
                value.raw@,
                value.eng@,
            ) && named_values(values, definition, count + 1) == named_values(
                values,
                definition,
                count,
            ) + 1
            &&& value_rows(stamp, values, definition, 0).len() == 0
            &&& named_values(values, definition, 0) == 0
        }),
{
    let before = value_rows(stamp, values, definition, count);
    assert(before + Seq::<u8>::empty() =~= before);
}

/// A batch's rows are stamped with where its samples are placed and with when it was received; those
/// of a packet off a stream with when it was read, twice, and with what its header says.
pub proof fn rows_are_stamped(batch: &Batch, packet: Seq<u8>, read: Utc)
    ensures
        stamp_of(batch).received == batch.received,
        stamp_of(batch).apid == batch.apid,
        stamp_of(batch).sequence == batch.sequence,
        batch.spacecraft matches Some(time) ==> stamp_of(batch).time == time,
        batch.spacecraft is None ==> stamp_of(batch).time == batch.received,
        stream_stamp(packet, read).time == read,
        stream_stamp(packet, read).received == read,
        packet.len() >= 6 ==> stream_stamp(packet, read).apid == crate::packet::apid_of(packet)
            && stream_stamp(packet, read).sequence == crate::packet::count_of(packet),
{
}

/// A snapshot has one row for each parameter listed that has arrived and has a name, with its latest
/// sample, how often it came, its unit and its state; and no row for any other.
pub proof fn a_snapshot_has_a_row_for_each(
    store: StoreView,
    definition: &Definition,
    limits: &LimitSet,
    parameters: Seq<ParamId>,
    floats: Seq<FloatText>,
    count: nat,
)
    requires
        count < parameters.len(),
    ensures
        ({
            let parameter = parameters[count as int];
            let place = parameter.number as int;
            let before = snapshot_rows(store, definition, limits, parameters, floats, count);
            let after = snapshot_rows(store, definition, limits, parameters, floats, count + 1);
            let named = place < definition.parameters@.len();
            let arrived = place < store.latest.len() && store.latest[place] is Some;
            &&& !named || !arrived ==> after == before
            &&& named && arrived ==> after == before + snapshot_row(
                definition.parameters@[place].name@,
                store.latest[place]->0,
                floats[count as int],
                spaced(definition.parameters@[place].units@),
                store.updates[place],
                limits.state_of(definition.parameters@[place].name@, store.latest[place]->0.eng),
            )
        }),
{
    let before = snapshot_rows(store, definition, limits, parameters, floats, count);
    assert(before + Seq::<u8>::empty() =~= before);
}

/// A history table has the points of each parameter listed that is watched and has a name, one
/// parameter after the other.
pub proof fn a_history_has_every_point(
    definition: &Definition,
    parameters: Seq<ParamId>,
    history: Seq<Option<Seq<Point>>>,
    values: Seq<Vec<String>>,
    count: nat,
)
    requires
        count < parameters.len(),
    ensures
        ({
            let place = parameters[count as int].number as int;
            let before = history_rows(definition, parameters, history, values, count);
            let after = history_rows(definition, parameters, history, values, count + 1);
            let named = place < definition.parameters@.len();
            &&& !named || history[place] is None ==> after == before
            &&& named && history[place] is Some ==> after == before + point_rows(
                definition.parameters@[place].name@,
                history[place]->0,
                values[count as int]@,
                history[place]->0.len(),
            )
        }),
{
    let before = history_rows(definition, parameters, history, values, count);
    assert(before + Seq::<u8>::empty() =~= before);
}

/// Units stand one behind the other with a space between each and the next.
pub proof fn units_are_spaced(words: Seq<String>, word: String)
    ensures
        spaced(Seq::<String>::empty()) == Seq::<char>::empty(),
        spaced(seq![word]) == word@,
        words.len() > 0 ==> spaced(words.push(word)) == spaced(words) + seq![' '] + word@,
{
    reveal_strlit(" ");
    assert(words.push(word).drop_last() =~= words);
    if words.len() > 0 {
        assert(spaced(words.push(word)) =~= spaced(words) + seq![' '] + word@);
    }
}

/// A table starts with its column names and a line end.
pub proof fn a_heading_is_a_line(header: Seq<char>)
    ensures
        header_line(header).len() == utf8(header).len() + 1,
        header_line(header).take(utf8(header).len() as int) == utf8(header),
        header_line(header).last() == 0x0a,
{
    assert(header_line(header).take(utf8(header).len() as int) =~= utf8(header));
}

/// What is written to a recording is held behind what is held already, and a flush hands all of it
/// over.
pub proof fn a_recording_holds_what_it_was_given(held: Seq<u8>, bytes: Seq<u8>)
    ensures
        recorder_step(held, RecordStep::Write(bytes)).0 + recorder_step(
            held,
            RecordStep::Write(bytes),
        ).1 == held + bytes,
        recorder_step(held, RecordStep::Flush).0 == held,
        recorder_step(held, RecordStep::Flush).1.len() == 0,
{
    assert(Seq::<u8>::empty() + (held + bytes) =~= held + bytes);
}

/// A stream has a first packet exactly where it has a header and all that the header says; then that
/// is the first packet, and the others are those of the rest. What no packet is made of is what the
/// next chunk goes behind.
pub proof fn a_stream_is_split_where_it_says(stream: Seq<u8>)
    ensures
        ({
            let len = 7 + stream[4] * 256 + stream[5];
            let whole = stream.len() >= 6 && stream.len() >= len;
            &&& first_packet_len(stream) is Some <==> whole
            &&& whole ==> first_packet_len(stream) == Some(len) && packets_of(stream) == seq![
                stream.take(len),
            ] + packets_of(stream.skip(len)) && unfinished(stream) == unfinished(stream.skip(len))
            &&& !whole ==> packets_of(stream).len() == 0 && unfinished(stream) == stream
        }),
{
}

/// An export of a stream is full exactly where it was told a number of packets and has as many.
pub proof fn a_stream_export_stops_where_it_is_told(export: &StreamExport)
    ensures
        export.stop_after() is None ==> !export.full(),
        export.stop_after() matches Some(limit) ==> (export.full() <==> export.found().packets
            >= limit),
{
}

/// A recording is flushed once it holds 65 536 bytes, and a second after it last was; not before.
pub proof fn a_recording_is_flushed_in_time(held: nat, elapsed: u64)
    ensures
        held >= 65_536 ==> Recorder::is_due(held, elapsed),
        elapsed >= 1_000_000_000 ==> Recorder::is_due(held, elapsed),
        held < 65_536 && elapsed < 1_000_000_000 ==> !Recorder::is_due(held, elapsed),
{
}

/// Each packet of a stream is counted once, and then either makes its rows or is a rejection. A
/// stream is truncated exactly where bytes are left over that no packet was made of, and the export
/// did not stop of its own accord.
pub proof fn a_stream_is_counted(found: ExportSummary, rows: nat, full: bool, left: nat)
    requires
        found.packets < u64::MAX,
        found.rejected < u64::MAX,
        found.rows + rows <= u64::MAX,
    ensures
        one_more(found).packets == found.packets + 1,
        one_more(found).rows == found.rows && one_more(found).rejected == found.rejected,
        found_in(found, Some(rows)).rows == found.rows + rows,
        found_in(found, Some(rows)).rejected == found.rejected,
        found_in(found, None).rejected == found.rejected + 1,
        found_in(found, None).rows == found.rows,
        found_in(found, Some(rows)).packets == found.packets && found_in(found, None).packets
            == found.packets,
        summed_up(found, full, left).truncated <==> left > 0 && !full,
        summed_up(found, full, left).packets == found.packets,
        summed_up(found, full, left).rows == found.rows,
        summed_up(found, full, left).rejected == found.rejected,
{
}

} // verus!
