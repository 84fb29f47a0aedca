//! The two files a session writes: the bytes that arrived, and a table of what they meant.
//!
//! A recording is every byte the source produced, in order, with nothing added. The CSV side is
//! the opposite: it is for something that is not this program. Columns are fixed here so that a
//! spreadsheet built on one export still opens the next one.

use vstd::prelude::*;
use vstd::string::*;
use vstd::utf8::*;

use crate::csv::{encoded, push_bytes, row_of, write_row};
use crate::decoded::DecodeError;
use crate::definition::Definition;
use crate::ids::ParamId;
use crate::limits::{LimitSet, LimitState};
use crate::packet::{apid_of, count_of, declared_len, read_header};
use crate::ratio::nanos_cut_off;
use crate::ring::RingBuffer;
use crate::sample::{sample_views, Batch, Sample, SampleView};
use crate::sequence::saturated_sum;
use crate::store::{held_places, ParameterStore, Point, StoreView};
use crate::text::{decimal, push_decimal};
use crate::time::{iso_text, Utc};
use crate::value::value_text;

verus! {

/// Columns of a store snapshot.
pub const SNAPSHOT_HEADER: &'static str = "parameter,time,raw,eng,unit,updates,limit";

/// Columns of a watched parameter's history.
pub const HISTORY_HEADER: &'static str = "parameter,time,value";

/// Columns of a decoded batch.
pub const BATCH_HEADER: &'static str = "time,received,apid,sequence,parameter,raw,eng";

/// Bytes a recording holds before it writes them out.
pub const RECORD_BUFFER_BYTES: usize = 65_536;

/// How long a recording holds a partial buffer before writing it out anyway, in nanoseconds.
pub const RECORD_FLUSH_NANOS: u64 = 1_000_000_000;

/// Bytes an export reads from its stream at a time.
pub const EXPORT_CHUNK_BYTES: usize = 65_536;

/// What can be done to a recording.
pub ghost enum RecordStep {
    Write(Seq<u8>),
    Flush,
}

/// What a step hands to the file, and what is held after it.
pub open spec fn recorder_step(held: Seq<u8>, step: RecordStep) -> (Seq<u8>, Seq<u8>) {
    match step {
        RecordStep::Write(bytes) => (Seq::empty(), held + bytes),
        RecordStep::Flush => (held, Seq::empty()),
    }
}

/// A recording: where it goes, and the bytes of it that are not on the file yet.
///
/// Writes are buffered and flushed on a bound of bytes or of time, whichever comes first: a
/// bound on bytes alone loses the tail of a quiet link, and a bound on time alone is a write
/// per datagram on a loud one.
#[derive(Debug)]
pub struct Recorder {
    path: String,
    bytes: u64,
    buffer: Vec<u8>,
}

impl Recorder {
    /// Where the recording goes.
    pub closed spec fn destination(&self) -> Seq<char> {
        self.path@
    }

    /// The bytes held.
    pub closed spec fn held(&self) -> Seq<u8> {
        self.buffer@
    }

    /// How many bytes have been accepted.
    pub closed spec fn accepted(&self) -> u64 {
        self.bytes
    }

    /// Whether a recording that holds so many bytes is to be flushed, so many nanoseconds after it
    /// last was.
    pub open spec fn is_due(held: nat, elapsed: u64) -> bool {
        held >= 65_536 || elapsed >= 1_000_000_000
    }

    /// A recording to `path` that nothing has been written to.
    pub fn open(path: String) -> (r: Self)
        ensures
            r.destination() == path@,
            r.held() == Seq::<u8>::empty(),
            r.accepted() == 0,
    {
        Recorder { path, bytes: 0, buffer: Vec::with_capacity(RECORD_BUFFER_BYTES) }
    }

    /// The file being written.
    pub fn path(&self) -> (r: &str)
        ensures
            r@ == self.destination(),
    {
        self.path.as_str()
    }

    /// How many bytes this recording has accepted.
    pub fn bytes_written(&self) -> (r: u64)
        ensures
            r == self.accepted(),
    {
        self.bytes
    }

    /// How many accepted bytes are not on the file yet.
    pub fn buffered(&self) -> (r: usize)
        ensures
            r == self.held().len(),
    {
        self.buffer.len()
    }

    /// Accepts bytes, and says whether the recording is to be flushed, `elapsed` nanoseconds
    /// after it last was.
    pub fn write(&mut self, bytes: &[u8], elapsed: u64) -> (r: bool)
        ensures
            final(self).destination() == old(self).destination(),
            (Seq::<u8>::empty(), final(self).held()) == recorder_step(
                old(self).held(),
                RecordStep::Write(bytes@),
            ),
            final(self).accepted() == saturated_sum(old(self).accepted(), bytes@.len() as int),
            r == Self::is_due(final(self).held().len(), elapsed),
            r == (final(self).held().len() >= 65_536 || elapsed >= 1_000_000_000),
    {
        push_bytes(&mut self.buffer, bytes);
        self.bytes = self.bytes.saturating_add(bytes.len() as u64);
        self.buffer.len() >= RECORD_BUFFER_BYTES || elapsed >= RECORD_FLUSH_NANOS
    }

    /// Hands over what is held, for the file.
    pub fn flush(&mut self) -> (r: Vec<u8>)
        ensures
            (r@, final(self).held()) == recorder_step(old(self).held(), RecordStep::Flush),
            final(self).destination() == old(self).destination(),
            final(self).accepted() == old(self).accepted(),
    {
        let mut taken: Vec<u8> = Vec::new();
        core::mem::swap(&mut self.buffer, &mut taken);
        assert(self.held() =~= Seq::<u8>::empty());
        taken
    }
}

/// The bytes that are on the file and those that are held, after some steps.
pub open spec fn recorded(steps: Seq<RecordStep>) -> (Seq<u8>, Seq<u8>)
    decreases steps.len(),
{
    if steps.len() == 0 {
        (Seq::empty(), Seq::empty())
    } else {
        let (on_file, held) = recorded(steps.drop_last());
        let (handed_over, kept) = recorder_step(held, steps.last());
        (on_file + handed_over, kept)
    }
}

/// Everything that was written in some steps.
pub open spec fn written(steps: Seq<RecordStep>) -> Seq<u8>
    decreases steps.len(),
{
    if steps.len() == 0 {
        Seq::empty()
    } else {
        match steps.last() {
            RecordStep::Write(bytes) => written(steps.drop_last()) + bytes,
            RecordStep::Flush => written(steps.drop_last()),
        }
    }
}

/// A recording is every byte that was written, in order, whenever it was flushed: what is on the
/// file and what is held make it up, and a flush leaves nothing held.
pub proof fn a_recording_is_every_byte(steps: Seq<RecordStep>)
    ensures
        recorded(steps).0 + recorded(steps).1 == written(steps),
        recorded(steps.push(RecordStep::Flush)).0 == written(steps),
        recorded(steps.push(RecordStep::Flush)).1.len() == 0,
    decreases steps.len(),
{
    if steps.len() > 0 {
        a_recording_is_every_byte(steps.drop_last());
    }
    assert(recorded(steps).0 + recorded(steps).1 =~= written(steps));
    assert(steps.push(RecordStep::Flush).drop_last() =~= steps);
}

/// The decimal renderings of a sample's two values, where they are floats.
#[derive(Debug)]
pub struct FloatText {
    pub raw: String,
    pub eng: String,
}

/// The bytes of a text.
pub open spec fn utf8(text: Seq<char>) -> Seq<u8> {
    encode_utf8(text)
}

/// The line of column names a file starts with.
pub open spec fn header_line(header: Seq<char>) -> Seq<u8> {
    utf8(header) + seq![0x0au8]
}

/// The four columns every row of one packet repeats: where it came from and when.
#[derive(Clone, Copy, PartialEq, Eq, Debug, Structural)]
pub struct PacketStamp {
    /// Spacecraft time when the packet carried one, ground receipt otherwise.
    pub time: Utc,
    /// When the ground received the packet.
    pub received: Utc,
    /// Application process identifier from the primary header.
    pub apid: u16,
    /// Sequence count from the primary header.
    pub sequence: u16,
}

/// One row in the columns of [`BATCH_HEADER`].
pub open spec fn sample_row(
    stamp: PacketStamp,
    name: Seq<char>,
    raw: Seq<char>,
    eng: Seq<char>,
) -> Seq<u8> {
    row_of(
        seq![
            utf8(iso_text(stamp.time.nanos())),
            utf8(iso_text(stamp.received.nanos())),
            utf8(decimal(stamp.apid as nat)),
            utf8(decimal(stamp.sequence as nat)),
            utf8(name),
            utf8(raw),
            utf8(eng),
        ],
    )
}

fn decimal_text(n: u64) -> (r: String)
    ensures
        r@ == decimal(n as nat),
{
    let mut out: String = String::new();
    push_decimal(&mut out, n);
    assert(out@ =~= decimal(n as nat));
    out
}

/// Writes a line of column names.
fn write_header(out: &mut Vec<u8>, header: &str)
    ensures
        final(out)@ == old(out)@ + header_line(header@),
{
    push_bytes(out, header.as_bytes());
    out.push(0x0a);
    assert(out@ =~= old(out)@ + header_line(header@));
}

/// Writes one row in the columns of [`BATCH_HEADER`].
fn write_sample_row(out: &mut Vec<u8>, stamp: PacketStamp, name: &str, raw: String, eng: String)
    ensures
        final(out)@ == old(out)@ + sample_row(stamp, name@, raw@, eng@),
{
    let mut fields: Vec<String> = Vec::with_capacity(7);
    fields.push(stamp.time.to_string());
    fields.push(stamp.received.to_string());
    fields.push(decimal_text(stamp.apid as u64));
    fields.push(decimal_text(stamp.sequence as u64));
    fields.push(name.to_owned());
    fields.push(raw);
    fields.push(eng);
    proof {
        let row = seq![
            utf8(iso_text(stamp.time.nanos())),
            utf8(iso_text(stamp.received.nanos())),
            utf8(decimal(stamp.apid as nat)),
            utf8(decimal(stamp.sequence as nat)),
            utf8(name@),
            utf8(fields@[5]@),
            utf8(fields@[6]@),
        ];
        assert(encoded(fields@) =~= row);
    }
    write_row(out, &fields);
}

/// The rows of the first `count` samples: one for each whose parameter the definition can name.
pub open spec fn sample_rows(
    stamp: PacketStamp,
    samples: Seq<SampleView>,
    definition: &Definition,
    floats: Seq<FloatText>,
    count: nat,
) -> Seq<u8>
    decreases count,
{
    if count == 0 {
        Seq::empty()
    } else {
        let sample = samples[count - 1];
        let text = floats[count - 1];
        sample_rows(stamp, samples, definition, floats, (count - 1) as nat) + (
        match definition.name_of(sample.parameter) {
            Some(name) => sample_row(
                stamp,
                name,
                value_text(sample.raw, text.raw@),
                value_text(sample.eng, text.eng@),
            ),
            None => Seq::empty(),
        })
    }
}

/// How many of the first `count` samples have a parameter that the definition can name.
pub open spec fn named_samples(samples: Seq<SampleView>, definition: &Definition, count: nat) -> nat
    decreases count,
{
    if count == 0 {
        0
    } else {
        named_samples(samples, definition, (count - 1) as nat) + (if definition.name_of(
            samples[count - 1].parameter,
        ) is Some {
            1nat
        } else {
            0nat
        })
    }
}

/// The stamp of a batch: `time` is where its samples are placed, `received` the ground stamp.
pub open spec fn stamp_of(batch: &Batch) -> PacketStamp {
    PacketStamp {
        time: batch.placed_at(),
        received: batch.received,
        apid: batch.apid,
        sequence: batch.sequence,
    }
}

/// Writes one decoded batch as rows, without a header. Returns how many rows were written.
///
/// `floats` gives the text of each sample's two numbers. The count is of rows written and not
/// of samples offered: a sample whose parameter the definition cannot name is skipped.
pub fn write_batch(
    out: &mut Vec<u8>,
    batch: &Batch,
    definition: &Definition,
    floats: &Vec<FloatText>,
) -> (r: usize)
    requires
        floats@.len() == batch.samples@.len(),
    ensures
        final(out)@ == old(out)@ + sample_rows(
            stamp_of(batch),
            sample_views(batch.samples@),
            definition,
            floats@,
            batch.samples@.len(),
        ),
        r == named_samples(sample_views(batch.samples@), definition, batch.samples@.len()),
        r <= batch.samples@.len(),
{
    let stamp = PacketStamp {
        time: batch.time(),
        received: batch.received,
        apid: batch.apid,
        sequence: batch.sequence,
    };
    let ghost before = out@;
    let ghost views = sample_views(batch.samples@);
    let mut rows: usize = 0;
    let mut index: usize = 0;
    assert(out@ =~= before + sample_rows(stamp, views, definition, floats@, 0));
    while index < batch.samples.len()
        invariant
            index <= batch.samples@.len(),
            floats@.len() == batch.samples@.len(),
            views == sample_views(batch.samples@),
            rows <= index,
            rows == named_samples(views, definition, index as nat),
            out@ == before + sample_rows(stamp, views, definition, floats@, index as nat),
        decreases batch.samples@.len() - index,
    {
        let sample: &Sample = &batch.samples[index];
        let text: &FloatText = &floats[index];
        match definition.qualified_name(sample.parameter) {
            Some(name) => {
                write_sample_row(
                    out,
                    stamp,
                    name,
                    sample.raw.display(text.raw.as_str()),
                    sample.eng.display(text.eng.as_str()),
                );
                rows = rows + 1;
            },
            None => {},
        }
        index = index + 1;
        assert(out@ =~= before + sample_rows(stamp, views, definition, floats@, index as nat));
    }
    rows
}

/// One row in the columns of [`SNAPSHOT_HEADER`].
pub open spec fn snapshot_row(
    name: Seq<char>,
    sample: SampleView,
    text: FloatText,
    unit: Seq<char>,
    updates: u32,
    state: LimitState,
) -> Seq<u8> {
    row_of(
        seq![
            utf8(name),
            utf8(iso_text(sample.time.nanos())),
            utf8(value_text(sample.raw, text.raw@)),
            utf8(value_text(sample.eng, text.eng@)),
            utf8(unit),
            utf8(decimal(updates as nat)),
            utf8(state.text()),
        ],
    )
}

/// The row of one parameter in a snapshot: none where the definition cannot name it.
pub open spec fn snapshot_entry(
    store: StoreView,
    definition: &Definition,
    limits: &LimitSet,
    parameter: ParamId,
    text: FloatText,
) -> Seq<u8> {
    let index = parameter.number as int;
    match definition.name_of(parameter) {
        Some(name) => if index < store.latest.len() && store.latest[index] is Some {
            let sample = store.latest[index]->0;
            snapshot_row(
                name,
                sample,
                text,
                definition.unit_of(parameter),
                store.updates[index],
                limits.state_of(name, sample.eng),
            )
        } else {
            Seq::empty()
        },
        None => Seq::empty(),
    }
}

/// The rows of the first `count` of several parameters.
pub open spec fn snapshot_rows(
    store: StoreView,
    definition: &Definition,
    limits: &LimitSet,
    parameters: Seq<ParamId>,
    floats: Seq<FloatText>,
    count: nat,
) -> Seq<u8>
    decreases count,
{
    if count == 0 {
        Seq::empty()
    } else {
        snapshot_rows(store, definition, limits, parameters, floats, (count - 1) as nat)
            + snapshot_entry(store, definition, limits, parameters[count - 1], floats[count - 1])
    }
}

/// Writes the latest value of everything the store has seen.
///
/// One row per parameter that has arrived, newest value, in the columns of
/// [`SNAPSHOT_HEADER`]. `floats` gives the text of the two numbers of each parameter that
/// [`ParameterStore::seen`] lists.
pub fn write_snapshot(
    out: &mut Vec<u8>,
    store: &ParameterStore,
    definition: &Definition,
    limits: &LimitSet,
    floats: &Vec<FloatText>,
)
    requires
        store.wf(),
        limits.wf(),
        floats@.len() == held_places(store@.latest).len(),
    ensures
        final(out)@ == old(out)@ + header_line(SNAPSHOT_HEADER@) + snapshot_rows(
            store@,
            definition,
            limits,
            held_places(store@.latest),
            floats@,
            floats@.len(),
        ),
{
    proof {
        store.lemma_shape();
    }
    write_header(out, SNAPSHOT_HEADER);
    let ghost before = out@;
    let seen: Vec<ParamId> = store.seen();
    let mut index: usize = 0;
    assert(out@ =~= before + snapshot_rows(store@, definition, limits, seen@, floats@, 0));
    while index < seen.len()
        invariant
            store.wf(),
            store@.shaped(),
            limits.wf(),
            index <= seen@.len(),
            floats@.len() == seen@.len(),
            out@ == before + snapshot_rows(
                store@,
                definition,
                limits,
                seen@,
                floats@,
                index as nat,
            ),
        decreases seen@.len() - index,
    {
        let parameter: ParamId = seen[index];
        let text: &FloatText = &floats[index];
        match (definition.qualified_name(parameter), store.latest(parameter)) {
            (Some(name), Some(sample)) => {
                let mut fields: Vec<String> = Vec::with_capacity(7);
                fields.push(name.to_owned());
                fields.push(sample.time.to_string());
                fields.push(sample.raw.display(text.raw.as_str()));
                fields.push(sample.eng.display(text.eng.as_str()));
                fields.push(definition.unit(parameter));
                fields.push(decimal_text(store.updates(parameter) as u64));
                fields.push(limits.evaluate(name, &sample.eng).label().to_owned());
                proof {
                    let row = seq![
                        utf8(name@),
                        utf8(iso_text(sample.time.nanos())),
                        utf8(value_text(sample.raw@, text.raw@)),
                        utf8(value_text(sample.eng@, text.eng@)),
                        utf8(definition.unit_of(parameter)),
                        utf8(decimal(store@.updates[parameter.number as int] as nat)),
                        utf8(limits.state_of(name@, sample.eng@).text()),
                    ];
                    assert(encoded(fields@) =~= row);
                }
                write_row(out, &fields);
            },
            _ => {},
        }
        index = index + 1;
        assert(out@ =~= before + snapshot_rows(
            store@,
            definition,
            limits,
            seen@,
            floats@,
            index as nat,
        ));
    }
}

/// The rows of the first `count` points of one parameter, oldest first, each with the text of
/// its value.
pub open spec fn point_rows(
    name: Seq<char>,
    points: Seq<Point>,
    values: Seq<String>,
    count: nat,
) -> Seq<u8>
    decreases count,
{
    if count == 0 {
        Seq::empty()
    } else {
        point_rows(name, points, values, (count - 1) as nat) + row_of(
            seq![
                utf8(name),
                utf8(iso_text(nanos_cut_off(points[count - 1].t))),
                utf8(values[count - 1]@),
            ],
        )
    }
}

/// The rows of the first `count` of several parameters: none for one that the definition cannot
/// name.
pub open spec fn history_rows(
    definition: &Definition,
    parameters: Seq<ParamId>,
    history: Seq<Option<Seq<Point>>>,
    values: Seq<Vec<String>>,
    count: nat,
) -> Seq<u8>
    decreases count,
{
    if count == 0 {
        Seq::empty()
    } else {
        let parameter = parameters[count - 1];
        history_rows(definition, parameters, history, values, (count - 1) as nat) + (match (
            definition.name_of(parameter),
            history[parameter.number as int],
        ) {
            (Some(name), Some(points)) => point_rows(
                name,
                points,
                values[count - 1]@,
                points.len(),
            ),
            _ => Seq::empty(),
        })
    }
}

/// Whether texts are those of the values that a store keeps of its watched parameters: as many
/// of each as there are points.
pub open spec fn texts_of_history(store: StoreView, values: Seq<Vec<String>>) -> bool {
    let watched = held_places(store.history);
    &&& values.len() == watched.len()
    &&& forall|i: int|
        0 <= i < watched.len() && (#[trigger] watched[i]).number < store.history.len()
            && store.history[watched[i].number as int] is Some ==> values[i]@.len()
            == store.history[watched[i].number as int]->0.len()
}

proof fn lemma_held_places<T>(slots: Seq<Option<T>>)
    ensures
        forall|i: int|
            0 <= i < held_places(slots).len() ==> (#[trigger] held_places(slots)[i]).number
                < slots.len(),
    decreases slots.len(),
{
    if slots.len() > 0 {
        let earlier = held_places(slots.drop_last());
        lemma_held_places(slots.drop_last());
        let last = (slots.len() - 1) as u32;
        assert(last < slots.len()) by {
            if slots.len() - 1 <= u32::MAX {
                assert(last == slots.len() - 1);
            }
        }
        assert forall|i: int| 0 <= i < held_places(slots).len() implies (
        #[trigger] held_places(slots)[i]).number < slots.len() by {
            if i < earlier.len() {
                assert(held_places(slots)[i] == earlier[i]);
            }
        }
    }
}

fn write_points(out: &mut Vec<u8>, name: &str, points: &RingBuffer<Point>, values: &Vec<String>)
    requires
        points.wf(),
        values@.len() == points@.len(),
    ensures
        final(out)@ == old(out)@ + point_rows(name@, points@, values@, points@.len()),
{
    let ghost before = out@;
    let mut index: usize = 0;
    assert(out@ =~= before + point_rows(name@, points@, values@, 0));
    while index < values.len()
        invariant
            index <= values@.len(),
            points.wf(),
            values@.len() == points@.len(),
            out@ == before + point_rows(name@, points@, values@, index as nat),
        decreases values@.len() - index,
    {
        if let Some(point) = points.get(index) {
            let mut fields: Vec<String> = Vec::with_capacity(3);
            fields.push(name.to_owned());
            fields.push(Utc::from_unix_nanos(point.t.cut_to_nanos()).to_string());
            fields.push(values[index].clone());
            proof {
                assert(encoded(fields@) =~= seq![
                    utf8(name@),
                    utf8(iso_text(nanos_cut_off(points@[index as int].t))),
                    utf8(values@[index as int]@),
                ]);
            }
            write_row(out, &fields);
        }
        index = index + 1;
        assert(out@ =~= before + point_rows(name@, points@, values@, index as nat));
    }
}

/// Writes the history of every watched parameter.
///
/// One row per point, oldest first, parameter by parameter. The time column is the seconds of
/// the axis, back as an instant. `values` gives the text of the value of each point of each
/// parameter that [`ParameterStore::watched`] lists.
pub fn write_history(
    out: &mut Vec<u8>,
    store: &ParameterStore,
    definition: &Definition,
    values: &Vec<Vec<String>>,
)
    requires
        store.wf(),
        texts_of_history(store@, values@),
    ensures
        final(out)@ == old(out)@ + header_line(HISTORY_HEADER@) + history_rows(
            definition,
            held_places(store@.history),
            store@.history,
            values@,
            values@.len(),
        ),
{
    write_header(out, HISTORY_HEADER);
    let ghost before = out@;
    let watched: Vec<ParamId> = store.watched();
    let mut index: usize = 0;
    proof {
        lemma_held_places(store@.history);
    }
    assert(out@ =~= before + history_rows(definition, watched@, store@.history, values@, 0));
    while index < watched.len()
        invariant
            index <= watched@.len(),
            store.wf(),
            watched@ == held_places(store@.history),
            texts_of_history(store@, values@),
            forall|i: int|
                0 <= i < watched@.len() ==> (#[trigger] watched@[i]).number < store@.history.len(),
            out@ == before + history_rows(
                definition,
                watched@,
                store@.history,
                values@,
                index as nat,
            ),
        decreases watched@.len() - index,
    {
        let parameter: ParamId = watched[index];
        match (definition.qualified_name(parameter), store.history(parameter)) {
            (Some(name), Some(points)) => write_points(out, name, points, &values[index]),
            _ => {},
        }
        index = index + 1;
        assert(out@ =~= before + history_rows(
            definition,
            watched@,
            store@.history,
            values@,
            index as nat,
        ));
    }
}

/// How many bytes of a stream its first packet takes, when all of them are there: the primary
/// header says.
pub open spec fn first_packet_len(stream: Seq<u8>) -> Option<int> {
    if stream.len() >= 6 && stream.len() >= declared_len(stream) {
        Some(declared_len(stream))
    } else {
        None
    }
}

/// The packets that a stream of space packets starts with.
pub open spec fn packets_of(stream: Seq<u8>) -> Seq<Seq<u8>>
    decreases stream.len(),
{
    match first_packet_len(stream) {
        Some(len) => seq![stream.take(len)] + packets_of(stream.skip(len)),
        None => Seq::empty(),
    }
}

/// What is behind the last whole packet of a stream.
pub open spec fn unfinished(stream: Seq<u8>) -> Seq<u8>
    decreases stream.len(),
{
    match first_packet_len(stream) {
        Some(len) => unfinished(stream.skip(len)),
        None => stream,
    }
}

/// Takes a stream of space packets apart, however it is cut into chunks.
///
/// Packet boundaries come from the primary header alone. No more than one chunk and one packet
/// is held at a time.
#[derive(Debug)]
pub struct PacketSplitter {
    buffer: Vec<u8>,
    at: usize,
}

impl PacketSplitter {
    /// What every splitter keeps.
    pub closed spec fn wf(&self) -> bool {
        self.at <= self.buffer@.len()
    }

    /// The bytes that no packet has been made of yet.
    pub closed spec fn pending(&self) -> Seq<u8> {
        self.buffer@.skip(self.at as int)
    }

    /// A splitter that holds nothing.
    pub fn new() -> (r: Self)
        ensures
            r.wf(),
            r.pending() == Seq::<u8>::empty(),
    {
        let splitter = PacketSplitter { buffer: Vec::with_capacity(EXPORT_CHUNK_BYTES), at: 0 };
        assert(splitter.pending() =~= Seq::<u8>::empty());
        splitter
    }

    /// Accepts the next chunk of the stream.
    pub fn push(&mut self, chunk: &[u8])
        requires
            old(self).wf(),
        ensures
            final(self).wf(),
            final(self).pending() == old(self).pending() + chunk@,
    {
        let ghost before = self.pending();
        if self.at > 0 {
            let rest: Vec<u8> = self.buffer.split_off(self.at);
            assert(rest@ =~= before);
            self.buffer = rest;
            self.at = 0;
        }
        push_bytes(&mut self.buffer, chunk);
        assert(self.pending() =~= before + chunk@);
    }

    /// The next packet, when all of it is there.
    pub fn next(&mut self) -> (r: Option<Vec<u8>>)
        requires
            old(self).wf(),
        ensures
            final(self).wf(),
            match first_packet_len(old(self).pending()) {
                Some(len) => {
                    &&& r matches Some(packet) && packet@ == old(self).pending().take(len)
                    &&& final(self).pending() == old(self).pending().skip(len)
                },
                None => r is None && final(self).pending() == old(self).pending(),
            },
    {
        let available: usize = self.buffer.len() - self.at;
        let ghost pending = self.pending();
        let rest: &[u8] = &self.buffer.as_slice()[self.at..self.buffer.len()];
        assert(rest@ =~= pending);
        match read_header(rest) {
            None => None,
            Some(header) => {
                let needed: usize = 6 + header.data_length as usize + 1;
                if available < needed {
                    return None;
                }
                let mut packet: Vec<u8> = Vec::with_capacity(needed);
                push_bytes(&mut packet, &rest[0..needed]);
                assert(packet@ =~= pending.take(needed as int));
                self.at = self.at + needed;
                assert(self.pending() =~= pending.skip(needed as int));
                Some(packet)
            },
        }
    }

    /// Whether bytes are left that no packet has been made of.
    pub fn is_unfinished(&self) -> (r: bool)
        requires
            self.wf(),
        ensures
            r == (self.pending().len() > 0),
    {
        self.at < self.buffer.len()
    }
}

/// What an export of a stream found.
#[derive(Clone, Copy, PartialEq, Eq, Debug, Structural)]
pub struct ExportSummary {
    /// Packets taken off the stream, decoded or not.
    pub packets: u64,
    /// Rows written: one per decoded parameter value.
    pub rows: u64,
    /// Packets the definition refused. Counted and skipped, never fatal.
    pub rejected: u64,
    /// Whether the stream ended in the middle of a packet.
    pub truncated: bool,
}

impl Default for ExportSummary {
    /// Nothing found.
    fn default() -> (r: Self)
        ensures
            r == (ExportSummary { packets: 0, rows: 0, rejected: 0, truncated: false }),
    {
        ExportSummary { packets: 0, rows: 0, rejected: 0, truncated: false }
    }
}

/// An export of a stream of space packets straight to CSV.
///
/// The stream is pushed in chunk by chunk, packets come out, and what the definition made of
/// each is filed as rows. A packet the definition refuses is counted and skipped; a stream that
/// ends inside a packet is a truncated one. Neither is an error.
#[derive(Debug)]
pub struct StreamExport {
    splitter: PacketSplitter,
    summary: ExportSummary,
    limit: Option<u64>,
}

/// A decoded value in the decoder's own words.
#[derive(Debug)]
pub struct ValueText {
    /// Which parameter.
    pub parameter: ParamId,
    /// What it says of the bits as they appeared in the packet.
    pub raw: String,
    /// What it says of the value after calibration.
    pub eng: String,
}

/// The rows of the first `count` values: one for each whose parameter the definition can name.
pub open spec fn value_rows(
    stamp: PacketStamp,
    values: Seq<ValueText>,
    definition: &Definition,
    count: nat,
) -> Seq<u8>
    decreases count,
{
    if count == 0 {
        Seq::empty()
    } else {
        let value = values[count - 1];
        value_rows(stamp, values, definition, (count - 1) as nat) + (match definition.name_of(
            value.parameter,
        ) {
            Some(name) => sample_row(stamp, name, value.raw@, value.eng@),
            None => Seq::empty(),
        })
    }
}

/// How many of the first `count` values have a parameter that the definition can name.
pub open spec fn named_values(values: Seq<ValueText>, definition: &Definition, count: nat) -> nat
    decreases count,
{
    if count == 0 {
        0
    } else {
        named_values(values, definition, (count - 1) as nat) + (if definition.name_of(
            values[count - 1].parameter,
        ) is Some {
            1nat
        } else {
            0nat
        })
    }
}

/// What an export found, once its stream has ended with so many bytes left over.
pub open spec fn summed_up(found: ExportSummary, full: bool, left: nat) -> ExportSummary {
    ExportSummary { truncated: !full && left > 0, ..found }
}

/// What an export found, with one packet more put to the definition.
pub open spec fn one_more(found: ExportSummary) -> ExportSummary {
    ExportSummary { packets: saturated_sum(found.packets, 1), ..found }
}

/// What an export found, with a packet filed: so many rows, or a rejection.
pub open spec fn found_in(found: ExportSummary, rows: Option<nat>) -> ExportSummary {
    match rows {
        Some(count) => ExportSummary { rows: saturated_sum(found.rows, count as int), ..found },
        None => ExportSummary { rejected: saturated_sum(found.rejected, 1), ..found },
    }
}

/// The stamp of a packet off a stream, read at an instant.
pub open spec fn stream_stamp(packet: Seq<u8>, read: Utc) -> PacketStamp {
    PacketStamp {
        time: read,
        received: read,
        apid: apid_of(packet) as u16,
        sequence: count_of(packet) as u16,
    }
}

impl StreamExport {
    /// What every export keeps.
    pub closed spec fn wf(&self) -> bool {
        self.splitter.wf()
    }

    /// The bytes that no packet has been made of yet.
    pub closed spec fn pending(&self) -> Seq<u8> {
        self.splitter.pending()
    }

    /// What has been found so far.
    pub closed spec fn found(&self) -> ExportSummary {
        self.summary
    }

    /// How many packets to stop after, if there is such a number.
    pub closed spec fn stop_after(&self) -> Option<u64> {
        self.limit
    }

    /// Whether as many packets have been taken as were asked for.
    pub open spec fn full(&self) -> bool {
        self.stop_after() matches Some(limit) && self.found().packets >= limit
    }

    /// Starts an export: the column names are written first.
    pub fn start(limit: Option<u64>, out: &mut Vec<u8>) -> (r: Self)
        ensures
            r.wf(),
            r.pending() == Seq::<u8>::empty(),
            r.found() == (ExportSummary { packets: 0, rows: 0, rejected: 0, truncated: false }),
            r.stop_after() == limit,
            final(out)@ == old(out)@ + header_line(BATCH_HEADER@),
    {
        write_header(out, BATCH_HEADER);
        StreamExport {
            splitter: PacketSplitter::new(),
            summary: ExportSummary { packets: 0, rows: 0, rejected: 0, truncated: false },
            limit,
        }
    }

    /// Whether as many packets have been taken as were asked for.
    pub fn is_full(&self) -> (r: bool)
        ensures
            r == self.full(),
    {
        match self.limit {
            Some(limit) => self.summary.packets >= limit,
            None => false,
        }
    }

    /// Accepts the next chunk of the stream.
    pub fn push(&mut self, chunk: &[u8])
        requires
            old(self).wf(),
        ensures
            final(self).wf(),
            final(self).pending() == old(self).pending() + chunk@,
            final(self).found() == old(self).found(),
            final(self).stop_after() == old(self).stop_after(),
    {
        self.splitter.push(chunk);
    }

    /// The next packet to put to the definition, counted: none once the limit is reached, and
    /// none that is not all there.
    pub fn next_packet(&mut self) -> (r: Option<Vec<u8>>)
        requires
            old(self).wf(),
        ensures
            final(self).wf(),
            final(self).stop_after() == old(self).stop_after(),
            match (old(self).full(), first_packet_len(old(self).pending())) {
                (false, Some(len)) => {
                    &&& final(self).found() == one_more(old(self).found())
                    &&& r matches Some(packet) && packet@ == old(self).pending().take(len)
                    &&& final(self).pending() == old(self).pending().skip(len)
                    &&& final(self).found() == (ExportSummary {
                        packets: saturated_sum(old(self).found().packets, 1),
                        ..old(self).found()
                    })
                },
                _ => {
                    &&& r is None
                    &&& final(self).pending() == old(self).pending()
                    &&& final(self).found() == old(self).found()
                },
            },
    {
        if self.is_full() {
            return None;
        }
        match self.splitter.next() {
            Some(packet) => {
                self.summary.packets = self.summary.packets.saturating_add(1);
                Some(packet)
            },
            None => None,
        }
    }

    /// Files what the definition made of one packet, read at an instant: a row for each value
    /// whose parameter it can name, or a rejection.
    pub fn file(
        &mut self,
        packet: &Vec<u8>,
        decoded: &Result<Vec<ValueText>, DecodeError>,
        definition: &Definition,
        read: Utc,
        out: &mut Vec<u8>,
    )
        requires
            old(self).wf(),
            packet@.len() >= 6,
        ensures
            final(self).wf(),
            final(self).pending() == old(self).pending(),
            final(self).stop_after() == old(self).stop_after(),
            final(self).found() == found_in(
                old(self).found(),
                match decoded {
                    Ok(values) => Some(named_values(values@, definition, values@.len())),
                    Err(_) => None,
                },
            ),
            match decoded {
                Ok(values) => {
                    &&& final(out)@ == old(out)@ + value_rows(
                        stream_stamp(packet@, read),
                        values@,
                        definition,
                        values@.len(),
                    )
                    &&& final(self).found() == (ExportSummary {
                        rows: saturated_sum(
                            old(self).found().rows,
                            named_values(values@, definition, values@.len()) as int,
                        ),
                        ..old(self).found()
                    })
                },
                Err(_) => {
                    &&& final(out)@ == old(out)@
                    &&& final(self).found() == (ExportSummary {
                        rejected: saturated_sum(old(self).found().rejected, 1),
                        ..old(self).found()
                    })
                },
            },
    {
        let values = match decoded {
            Err(_) => {
                self.summary.rejected = self.summary.rejected.saturating_add(1);
                return;
            },
            Ok(values) => values,
        };
        let (apid, sequence) = match read_header(packet.as_slice()) {
            Some(header) => (header.apid, header.sequence_count),
            None => (0, 0),
        };
        let stamp = PacketStamp { time: read, received: read, apid, sequence };
        assert(stamp == stream_stamp(packet@, read));
        let ghost before = out@;
        let mut rows: usize = 0;
        let mut index: usize = 0;
        assert(out@ =~= before + value_rows(stamp, values@, definition, 0));
        while index < values.len()
            invariant
                index <= values@.len(),
                rows <= index,
                rows == named_values(values@, definition, index as nat),
                out@ == before + value_rows(stamp, values@, definition, index as nat),
            decreases values@.len() - index,
        {
            let value: &ValueText = &values[index];
            match definition.qualified_name(value.parameter) {
                Some(name) => {
                    write_sample_row(out, stamp, name, value.raw.clone(), value.eng.clone());
                    rows = rows + 1;
                },
                None => {},
            }
            index = index + 1;
            assert(out@ =~= before + value_rows(stamp, values@, definition, index as nat));
        }
        self.summary.rows = self.summary.rows.saturating_add(rows as u64);
    }

    /// The stream has ended. What is left cannot be a packet; where the limit was not reached
    /// first, that is a truncated stream.
    pub fn finish(&self) -> (r: ExportSummary)
        requires
            self.wf(),
        ensures
            r == summed_up(self.found(), self.full(), self.pending().len()),
            r == (ExportSummary {
                truncated: !self.full() && self.pending().len() > 0,
                ..self.found()
            }),
    {
        let truncated = !self.is_full() && self.splitter.is_unfinished();
        ExportSummary {
            packets: self.summary.packets,
            rows: self.summary.rows,
            rejected: self.summary.rejected,
            truncated,
        }
    }
}

proof fn lemma_longer_stream(stream: Seq<u8>, more: Seq<u8>)
    requires
        first_packet_len(stream) is Some,
    ensures
        first_packet_len(stream + more) == first_packet_len(stream),
        (stream + more).take(first_packet_len(stream)->0) == stream.take(
            first_packet_len(stream)->0,
        ),
        (stream + more).skip(first_packet_len(stream)->0) == stream.skip(
            first_packet_len(stream)->0,
        ) + more,
{
    let len = first_packet_len(stream)->0;
    assert((stream + more)[4] == stream[4] && (stream + more)[5] == stream[5]);
    assert((stream + more).take(len) =~= stream.take(len));
    assert((stream + more).skip(len) =~= stream.skip(len) + more);
}

/// How a stream is cut into chunks makes no difference: the packets of a stream are those of
/// its front, and then those of what the front left unfinished with the rest behind it.
pub proof fn chunks_make_no_difference(front: Seq<u8>, rest: Seq<u8>)
    ensures
        packets_of(front + rest) == packets_of(front) + packets_of(unfinished(front) + rest),
        unfinished(front + rest) == unfinished(unfinished(front) + rest),
    decreases front.len(),
{
    match first_packet_len(front) {
        Some(len) => {
            lemma_longer_stream(front, rest);
            chunks_make_no_difference(front.skip(len), rest);
            assert(packets_of(front + rest) =~= packets_of(front) + packets_of(
                unfinished(front) + rest,
            ));
        },
        None => {
            assert(packets_of(front) + packets_of(front + rest) =~= packets_of(front + rest));
        },
    }
}

/// No byte is lost or made up: the packets of a stream and what is behind them are the stream.
pub proof fn packets_make_up_the_stream(stream: Seq<u8>)
    ensures
        packets_of(stream).flatten() + unfinished(stream) == stream,
    decreases stream.len(),
{
    match first_packet_len(stream) {
        Some(len) => {
            let rest = stream.skip(len);
            packets_make_up_the_stream(rest);
            assert(packets_of(stream).drop_first() =~= packets_of(rest));
            let behind = packets_of(rest).flatten();
            assert(packets_of(stream).flatten() == stream.take(len) + behind);
            assert((stream.take(len) + behind) + unfinished(rest) =~= stream.take(len) + (behind
                + unfinished(rest)));
            assert(stream.take(len) + rest =~= stream);
        },
        None => {
            assert(packets_of(stream).flatten() =~= Seq::<u8>::empty());
            assert(packets_of(stream).flatten() + unfinished(stream) =~= stream);
        },
    }
}

/// Every packet off a stream is as long as its own header says.
pub proof fn packets_are_as_long_as_they_say(stream: Seq<u8>, index: int)
    requires
        0 <= index < packets_of(stream).len(),
    ensures
        packets_of(stream)[index].len() == declared_len(packets_of(stream)[index]),
        packets_of(stream)[index].len() >= 7,
    decreases stream.len(),
{
    match first_packet_len(stream) {
        Some(len) => {
            if index == 0 {
                assert(stream.take(len)[4] == stream[4] && stream.take(len)[5] == stream[5]);
            } else {
                packets_are_as_long_as_they_say(stream.skip(len), index - 1);
            }
        },
        None => {},
    }
}

} // verus!
