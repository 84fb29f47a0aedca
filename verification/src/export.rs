//! A stream decoded into CSV: what is counted on the way, when to stop, and what is said at the
//! end.

use vstd::prelude::*;
use vstd::string::*;

use crate::cli::{text_views, CliError, CliErrorView};
use crate::decode::{accepted, is_batch_of, refused, PacketDecoder};
use crate::decoded::{error_kind, kind_text, DecodeError, DecodedPacket};
use crate::definition::Definition;
use crate::packet::RawPacket;
use crate::record::{named_samples, sample_rows, stamp_of, write_batch, FloatText};
use crate::sample::{sample_views, Batch};
use crate::sequence::saturated_sum;
use crate::stats::StatsSnapshot;
use crate::text::{decimal, push_decimal, same_text};

verus! {

/// Packets between two progress lines.
pub const PROGRESS_PACKETS: u64 = 1000;

/// What one export run found.
#[derive(Debug)]
pub struct ExportRun {
    /// Packets taken off the stream, decoded or not.
    pub packets: u64,
    /// Rows written: one per decoded parameter value.
    pub rows: u64,
    /// Packets the definition refused, by the kind of refusal.
    pub rejected: Vec<(&'static str, u64)>,
    /// Whether the output went away before the stream ended.
    pub closed: bool,
}

/// What one export run found, to a caller.
#[verifier::ext_equal]
pub struct ExportRunView {
    pub packets: u64,
    pub rows: u64,
    pub rejected: Seq<(Seq<char>, u64)>,
    pub closed: bool,
}

impl View for ExportRun {
    type V = ExportRunView;

    open spec fn view(&self) -> ExportRunView {
        ExportRunView {
            packets: self.packets,
            rows: self.rows,
            rejected: kinds_of(self.rejected@),
            closed: self.closed,
        }
    }
}

/// The kinds of a tally, by their text.
pub open spec fn kinds_of(rejected: Seq<(&'static str, u64)>) -> Seq<(Seq<char>, u64)> {
    rejected.map_values(|entry: (&'static str, u64)| (entry.0@, entry.1))
}

/// Where a tally holds a kind, or its length where it does not.
pub open spec fn place_of(rejected: Seq<(Seq<char>, u64)>, kind: Seq<char>) -> int
    decreases rejected.len(),
{
    if rejected.len() == 0 {
        0
    } else if place_of(rejected.drop_last(), kind) < rejected.len() - 1 {
        place_of(rejected.drop_last(), kind)
    } else if rejected.last().0 == kind {
        rejected.len() - 1
    } else {
        rejected.len() as int
    }
}

/// A tally with one more refusal in it: the kind's own count is higher by one, or the kind
/// stands behind the others with a count of one.
pub open spec fn tallied_refusal(
    rejected: Seq<(Seq<char>, u64)>,
    kind: Seq<char>,
) -> Seq<(Seq<char>, u64)> {
    let place = place_of(rejected, kind);
    if place < rejected.len() {
        rejected.update(place, (kind, saturated_sum(rejected[place].1, 1)))
    } else {
        rejected.push((kind, 1))
    }
}

/// How many packets a tally has counted.
pub open spec fn refusals(rejected: Seq<(Seq<char>, u64)>) -> nat
    decreases rejected.len(),
{
    if rejected.len() == 0 {
        0
    } else {
        refusals(rejected.drop_last()) + rejected.last().1 as nat
    }
}

/// Whether no kind is listed twice.
pub open spec fn kinds_apart(rejected: Seq<(Seq<char>, u64)>) -> bool {
    forall|i: int, j: int|
        0 <= i < j < rejected.len() ==> (#[trigger] rejected[i]).0 != (#[trigger] rejected[j]).0
}

proof fn lemma_place_of(rejected: Seq<(Seq<char>, u64)>, kind: Seq<char>)
    ensures
        0 <= place_of(rejected, kind) <= rejected.len(),
        place_of(rejected, kind) < rejected.len() ==> rejected[place_of(rejected, kind)].0 == kind,
        forall|i: int|
            0 <= i < place_of(rejected, kind) ==> (#[trigger] rejected[i]).0 != kind,
    decreases rejected.len(),
{
    if rejected.len() > 0 {
        let init = rejected.drop_last();
        lemma_place_of(init, kind);
        assert forall|i: int| 0 <= i < place_of(rejected, kind) implies (#[trigger] rejected[i]).0
            != kind by {
            if i < init.len() {
                assert(init[i].0 != kind);
            }
        }
    }
}

/// A place that holds a kind, with no earlier one that does, is where the tally holds it.
proof fn lemma_first_place(rejected: Seq<(Seq<char>, u64)>, kind: Seq<char>, place: int)
    requires
        0 <= place <= rejected.len(),
        place < rejected.len() ==> rejected[place].0 == kind,
        forall|i: int| 0 <= i < place ==> (#[trigger] rejected[i]).0 != kind,
    ensures
        place_of(rejected, kind) == place,
{
    lemma_place_of(rejected, kind);
    let found = place_of(rejected, kind);
    if found < place {
        assert(rejected[found].0 != kind);
    }
    if place < found {
        assert(rejected[place].0 != kind);
    }
}

proof fn lemma_refusals_update(rejected: Seq<(Seq<char>, u64)>, place: int, entry: (Seq<char>, u64))
    requires
        0 <= place < rejected.len(),
    ensures
        refusals(rejected.update(place, entry)) == refusals(rejected) - rejected[place].1 + entry.1,
        rejected[place].1 <= refusals(rejected),
    decreases rejected.len(),
{
    let after = rejected.update(place, entry);
    if place == rejected.len() - 1 {
        assert(after.drop_last() =~= rejected.drop_last());
    } else {
        lemma_refusals_update(rejected.drop_last(), place, entry);
        assert(after.drop_last() =~= rejected.drop_last().update(place, entry));
    }
}

/// A refusal is counted once, under its own kind: the total is higher by one, no kind is listed
/// twice, and the kinds that were listed stay in their order.
pub proof fn a_refusal_is_counted_once(rejected: Seq<(Seq<char>, u64)>, kind: Seq<char>)
    requires
        kinds_apart(rejected),
        refusals(rejected) < u64::MAX,
    ensures
        kinds_apart(tallied_refusal(rejected, kind)),
        refusals(tallied_refusal(rejected, kind)) == refusals(rejected) + 1,
        forall|i: int|
            0 <= i < rejected.len() ==> (#[trigger] tallied_refusal(rejected, kind)[i]).0
                == rejected[i].0 && (rejected[i].0 != kind ==> tallied_refusal(rejected, kind)[i]
                == rejected[i]),
{
    lemma_place_of(rejected, kind);
    let place = place_of(rejected, kind);
    let after = tallied_refusal(rejected, kind);
    if place < rejected.len() {
        lemma_refusals_update(rejected, place, (kind, saturated_sum(rejected[place].1, 1)));
    } else {
        assert(after.drop_last() =~= rejected);
    }
    assert forall|i: int, j: int| 0 <= i < j < after.len() implies (#[trigger] after[i]).0 != (
    #[trigger] after[j]).0 by {
        if j < rejected.len() {
            assert(rejected[i].0 != rejected[j].0);
        } else {
            assert(rejected[i].0 != kind);
        }
    }
}

/// Whether an export is to take another packet.
pub open spec fn wants_another(packets: u64, limit: Option<usize>) -> bool {
    match limit {
        Some(max) => packets < max,
        None => true,
    }
}

/// An export that takes a packet only where another is wanted takes no more than its limit, and
/// none at all under a limit of none.
pub proof fn the_limit_is_kept(packets: u64, limit: usize)
    ensures
        wants_another(packets, Some(limit)) ==> packets + 1 <= limit,
        packets <= limit && !wants_another(packets, Some(limit)) ==> packets == limit,
        !wants_another(packets, Some(0)),
{
}

/// What became of a packet.
#[derive(Clone, Copy, PartialEq, Eq, Debug, Structural)]
pub enum Filed {
    /// It was decoded, and makes this many rows.
    Rows(usize),
    /// The definition refused it.
    Refused,
}

/// What became of a write.
#[derive(Debug)]
pub enum WriteOutcome {
    /// The bytes are on their way.
    Done,
    /// The reader at the other end of the output has gone away.
    Closed,
    /// The output said no.
    Failed(String),
}

/// What is to be done with what a read brought.
#[derive(Clone, Copy, PartialEq, Eq, Debug, Structural)]
pub struct ReadPlan {
    /// Flush the framing and forget the sequence counts first.
    pub restart: bool,
    /// Run the bytes through the framing.
    pub push: bool,
    /// Flush the framing behind them.
    pub flush: bool,
    /// Stop reading.
    pub ended: bool,
}

/// What is to be done with what a read brought.
///
/// A stream that starts again makes the framing state and the sequence counts from before the
/// seam wrong after it. One that ends may do so in the middle of a packet, and the flush is what
/// has the partial counted.
pub fn plan_read(restarted: bool, read: usize, datagram: bool) -> (r: ReadPlan)
    ensures
        r == (ReadPlan {
            restart: restarted,
            push: read > 0,
            flush: read == 0 || datagram,
            ended: read == 0,
        }),
{
    ReadPlan {
        restart: restarted,
        push: read > 0,
        flush: read == 0 || datagram,
        ended: read == 0,
    }
}

/// The first line of a summary, where the output closed.
pub open spec fn closed_text(packets: u64) -> Seq<char> {
    "export: the output closed after "@ + decimal(packets as nat) + " packets; stopping there"@
}

/// What was counted.
pub open spec fn totals_text(packets: u64, rows: u64, refused: nat) -> Seq<char> {
    "export: "@ + decimal(packets as nat) + " packets, "@ + decimal(rows as nat) + " rows, "@
        + decimal(refused) + " refused"@
}

/// How far an export is.
pub open spec fn progress_text(packets: u64, rows: u64) -> Seq<char> {
    "export: "@ + decimal(packets as nat) + " packets, "@ + decimal(rows as nat) + " rows"@
}

/// How often one kind of refusal occurred.
pub open spec fn refusal_text(entry: (Seq<char>, u64)) -> Seq<char> {
    "  "@ + decimal(entry.1 as nat) + " refused: "@ + entry.0
}

/// What the frames of a framed link came to.
pub open spec fn frames_text(snapshot: StatsSnapshot) -> Seq<char> {
    "  frames "@ + decimal(snapshot.frames_ok as nat) + "/"@ + decimal(snapshot.frames_seen as nat)
        + " ok, "@ + decimal(snapshot.rs_uncorrectable as nat) + " uncorrectable, "@ + decimal(
        snapshot.crc_failures as nat,
    ) + " checksum failures"@
}

/// What the sequence counts say was lost.
pub open spec fn gaps_text(snapshot: StatsSnapshot) -> Seq<char> {
    "  "@ + decimal(snapshot.sequence_gaps as nat) + " sequence gaps, "@ + decimal(
        snapshot.sequence_missing as nat,
    ) + " packets missing"@
}

/// A line, where there is something to say.
pub open spec fn line_if(wanted: bool, line: Seq<char>) -> Seq<Seq<char>> {
    if wanted {
        seq![line]
    } else {
        Seq::empty()
    }
}

/// The lines an export ends with.
pub open spec fn summary_lines(
    run: ExportRunView,
    snapshot: StatsSnapshot,
    framed: bool,
) -> Seq<Seq<char>> {
    line_if(run.closed, closed_text(run.packets)) + seq![
        totals_text(run.packets, run.rows, refusals(run.rejected)),
    ] + run.rejected.map_values(|entry: (Seq<char>, u64)| refusal_text(entry)) + line_if(
        snapshot.packets_lost > 0,
        "  "@ + decimal(snapshot.packets_lost as nat) + " partial packet(s) abandoned"@,
    ) + line_if(framed, frames_text(snapshot)) + line_if(
        snapshot.sequence_gaps > 0,
        gaps_text(snapshot),
    )
}

impl Default for ExportRun {
    fn default() -> (r: Self)
        ensures
            r.wf(),
            r@ == (ExportRunView { packets: 0, rows: 0, rejected: Seq::empty(), closed: false }),
    {
        let r = ExportRun { packets: 0, rows: 0, rejected: Vec::new(), closed: false };
        assert(r@.rejected =~= Seq::empty());
        r
    }
}

/// A run after a write of so many rows.
pub open spec fn settled(run: ExportRunView, rows: usize, outcome: WriteOutcome) -> ExportRunView {
    match outcome {
        WriteOutcome::Done => ExportRunView { rows: saturated_sum(run.rows, rows as int), ..run },
        WriteOutcome::Closed => ExportRunView { closed: true, ..run },
        WriteOutcome::Failed(_) => run,
    }
}

/// A run after one more packet, which the definition refused where there is a kind of refusal.
pub open spec fn counted_in(run: ExportRunView, refusal: Option<Seq<char>>) -> ExportRunView {
    ExportRunView {
        packets: saturated_sum(run.packets, 1),
        rejected: match refusal {
            Some(kind) => tallied_refusal(run.rejected, kind),
            None => run.rejected,
        },
        ..run
    }
}

impl ExportRun {
    /// What every run keeps.
    pub open spec fn wf(&self) -> bool {
        kinds_apart(self@.rejected) && refusals(self@.rejected) <= u64::MAX
    }

    /// Files one refusal under its kind.
    pub fn reject(&mut self, kind: &'static str)
        requires
            old(self).wf(),
            refusals(old(self)@.rejected) < u64::MAX,
        ensures
            final(self).wf(),
            final(self)@ == (ExportRunView {
                rejected: tallied_refusal(old(self)@.rejected, kind@),
                ..old(self)@
            }),
    {
        let ghost before = self@.rejected;
        proof {
            a_refusal_is_counted_once(before, kind@);
        }
        let mut index: usize = 0;
        while index < self.rejected.len()
            invariant
                index <= self.rejected@.len(),
                *self == *old(self),
                before == self@.rejected,
                before == old(self)@.rejected,
                forall|i: int| 0 <= i < index ==> (#[trigger] before[i]).0 != kind@,
                kinds_apart(tallied_refusal(before, kind@)),
                refusals(tallied_refusal(before, kind@)) <= u64::MAX,
            decreases self.rejected@.len() - index,
        {
            if same_text(self.rejected[index].0, kind) {
                let count: u64 = self.rejected[index].1;
                self.rejected[index] = (kind, count.saturating_add(1));
                proof {
                    assert(before[index as int].0 == kind@);
                    lemma_first_place(before, kind@, index as int);
                    assert(self@.rejected =~= tallied_refusal(before, kind@));
                }
                return;
            }
            index = index + 1;
        }
        self.rejected.push((kind, 1));
        proof {
            lemma_first_place(before, kind@, index as int);
            assert(self@.rejected =~= tallied_refusal(before, kind@));
        }
    }

    /// How many packets were refused in total.
    pub fn rejected_total(&self) -> (r: u64)
        requires
            self.wf(),
        ensures
            r == refusals(self@.rejected),
    {
        let mut total: u64 = 0;
        let mut index: usize = 0;
        let ghost kinds = self@.rejected;
        assert(refusals(kinds.take(0)) == 0);
        while index < self.rejected.len()
            invariant
                index <= self.rejected@.len(),
                kinds == self@.rejected,
                refusals(kinds) <= u64::MAX,
                total == refusals(kinds.take(index as int)),
            decreases self.rejected@.len() - index,
        {
            proof {
                assert(kinds.take(index + 1).drop_last() =~= kinds.take(index as int));
                lemma_refusals_of_part(kinds, index + 1);
            }
            total = total + self.rejected[index].1;
            index = index + 1;
        }
        assert(kinds.take(index as int) =~= kinds);
        total
    }

    /// Whether another packet is to be taken.
    ///
    /// Tested before each read and before each packet: a limit of none is "stop after none of
    /// them".
    pub fn wants_more(&self, limit: Option<usize>) -> (r: bool)
        ensures
            r == wants_another(self.packets, limit),
    {
        match limit {
            Some(max) => self.packets < max as u64,
            None => true,
        }
    }

    /// Counts one packet, and decodes it onto the end of `out`.
    pub fn file(
        &mut self,
        decoded: Result<DecodedPacket, DecodeError>,
        packet: &RawPacket,
        floats: &Vec<FloatText>,
        definition: &Definition,
        packets: &mut PacketDecoder,
        batch: &mut Batch,
        out: &mut Vec<u8>,
    ) -> (r: Filed)
        requires
            old(self).wf(),
            refusals(old(self)@.rejected) < u64::MAX,
            old(packets)@.sequence.valid(),
            decoded matches Ok(described) ==> floats@.len() == described.values@.len(),
        ensures
            final(self).wf(),
            final(packets)@.sequence.valid(),
            final(self)@ == counted_in(
                old(self)@,
                match decoded {
                    Ok(_) => None,
                    Err(error) => Some(kind_text(error.kind)),
                },
            ),
            match decoded {
                Ok(described) => {
                    let views = sample_views(final(batch).samples@);
                    let count = final(batch).samples@.len();
                    &&& r == Filed::Rows(named_samples(views, definition, count) as usize)
                    &&& named_samples(views, definition, count) <= usize::MAX
                    &&& final(out)@ == old(out)@ + sample_rows(
                        stamp_of(final(batch)),
                        views,
                        definition,
                        floats@,
                        count,
                    )
                    &&& is_batch_of(
                        *final(batch),
                        old(packets)@,
                        &described,
                        packet.received,
                        packet.bytes@,
                    )
                    &&& final(packets)@ == accepted(
                        old(packets)@,
                        &described,
                        packet.received,
                        packet.bytes@,
                    )
                    &&& final(self)@ == (ExportRunView {
                        packets: saturated_sum(old(self)@.packets, 1),
                        ..old(self)@
                    })
                },
                Err(error) => {
                    &&& r == Filed::Refused
                    &&& final(out)@ == old(out)@
                    &&& *final(batch) == *old(batch)
                    &&& final(packets)@ == refused(old(packets)@, packet.received, packet.bytes@)
                    &&& final(self)@ == (ExportRunView {
                        packets: saturated_sum(old(self)@.packets, 1),
                        rejected: tallied_refusal(old(self)@.rejected, kind_text(error.kind)),
                        ..old(self)@
                    })
                },
            },
    {
        self.packets = self.packets.saturating_add(1);
        match packets.decode_owned(decoded, packet, batch) {
            Ok(()) => {
                assert(sample_views(batch.samples@).len() == floats@.len());
                Filed::Rows(write_batch(out, batch, definition, floats))
            },
            Err(error) => {
                self.reject(error_kind(&error));
                Filed::Refused
            },
        }
    }

    /// Counts what was written, or says why to stop. Whether to go on.
    ///
    /// An output that closes is a clean stop: the reader stopped listening first, and nothing is
    /// lost that was asked for.
    pub fn settle(&mut self, rows: usize, outcome: WriteOutcome) -> (r: Result<bool, CliError>)
        ensures
            final(self)@ == settled(old(self)@, rows, outcome),
            match outcome {
                WriteOutcome::Done => {
                    &&& r matches Ok(onwards) && onwards
                    &&& final(self)@ == (ExportRunView {
                        rows: saturated_sum(old(self)@.rows, rows as int),
                        ..old(self)@
                    })
                },
                WriteOutcome::Closed => {
                    &&& r matches Ok(onwards) && !onwards
                    &&& final(self)@ == (ExportRunView { closed: true, ..old(self)@ })
                },
                WriteOutcome::Failed(message) => {
                    &&& r matches Err(error) && error@ == CliErrorView::Io(message@)
                    &&& final(self)@ == old(self)@
                },
            },
    {
        match outcome {
            WriteOutcome::Done => {
                self.rows = self.rows.saturating_add(rows as u64);
                Ok(true)
            },
            WriteOutcome::Closed => {
                self.closed = true;
                Ok(false)
            },
            WriteOutcome::Failed(message) => Err(CliError::Io(message)),
        }
    }

    /// Takes note of what became of the last flush, before anything else is said of the run: a
    /// failure part way through still leaves the rows that were written. An output that closes
    /// here is a clean stop too.
    pub fn flushed(&mut self, outcome: WriteOutcome) -> (r: Result<(), CliError>)
        ensures
            final(self)@ == settled(old(self)@, 0, outcome),
            match outcome {
                WriteOutcome::Done => r is Ok && final(self)@ == old(self)@,
                WriteOutcome::Closed => r is Ok && final(self)@ == (ExportRunView {
                    closed: true,
                    ..old(self)@
                }),
                WriteOutcome::Failed(message) => {
                    &&& r matches Err(error) && error@ == CliErrorView::Io(message@)
                    &&& final(self)@ == old(self)@
                },
            },
    {
        match outcome {
            WriteOutcome::Done => Ok(()),
            WriteOutcome::Closed => {
                self.closed = true;
                Ok(())
            },
            WriteOutcome::Failed(message) => Err(CliError::Io(message)),
        }
    }

    /// A line of progress, where one is due; `next` is the packet that the next one is due at.
    pub fn progress(&self, next: &mut u64) -> (r: Option<String>)
        ensures
            r is Some <==> self.packets >= *old(next),
            r matches Some(line) ==> line@ == progress_text(self.packets, self.rows),
            *final(next) == (if r is Some {
                saturated_sum(*old(next), 1000)
            } else {
                *old(next)
            }),
    {
        if self.packets < *next {
            return None;
        }
        *next = next.saturating_add(PROGRESS_PACKETS);
        let mut line: String = "export: ".to_owned();
        push_decimal(&mut line, self.packets);
        line.append(" packets, ");
        push_decimal(&mut line, self.rows);
        line.append(" rows");
        Some(line)
    }

    /// The lines the export ends with.
    pub fn summary(&self, snapshot: &StatsSnapshot, framed: bool) -> (r: Vec<String>)
        requires
            self.wf(),
        ensures
            text_views(r@) == summary_lines(self@, *snapshot, framed),
    {
        let mut lines: Vec<String> = Vec::new();
        if self.closed {
            let mut line: String = "export: the output closed after ".to_owned();
            push_decimal(&mut line, self.packets);
            line.append(" packets; stopping there");
            lines.push(line);
        }
        let ghost mut said = line_if(self.closed, closed_text(self.packets));
        assert(text_views(lines@) =~= said);
        let mut totals: String = "export: ".to_owned();
        push_decimal(&mut totals, self.packets);
        totals.append(" packets, ");
        push_decimal(&mut totals, self.rows);
        totals.append(" rows, ");
        push_decimal(&mut totals, self.rejected_total());
        totals.append(" refused");
        lines.push(totals);
        proof {
            said = said + seq![totals_text(self.packets, self.rows, refusals(self@.rejected))];
            assert(text_views(lines@) =~= said);
        }
        let ghost kinds = self@.rejected.map_values(|entry: (Seq<char>, u64)| refusal_text(entry));
        let mut index: usize = 0;
        assert(said + kinds.take(0) =~= said);
        while index < self.rejected.len()
            invariant
                index <= self.rejected@.len(),
                kinds == self@.rejected.map_values(|entry: (Seq<char>, u64)| refusal_text(entry)),
                text_views(lines@) == said + kinds.take(index as int),
            decreases self.rejected@.len() - index,
        {
            let mut line: String = "  ".to_owned();
            push_decimal(&mut line, self.rejected[index].1);
            line.append(" refused: ");
            line.append(self.rejected[index].0);
            assert(line@ == kinds[index as int]);
            let ghost earlier = lines@;
            lines.push(line);
            assert(text_views(lines@) =~= text_views(earlier).push(kinds[index as int]));
            assert(said + kinds.take(index + 1) =~= (said + kinds.take(index as int)).push(
                kinds[index as int],
            ));
            index = index + 1;
        }
        proof {
            assert(kinds.take(index as int) =~= kinds);
            said = said + kinds;
        }
        if snapshot.packets_lost > 0 {
            let mut line: String = "  ".to_owned();
            push_decimal(&mut line, snapshot.packets_lost);
            line.append(" partial packet(s) abandoned");
            lines.push(line);
        }
        proof {
            said = said + line_if(
                snapshot.packets_lost > 0,
                "  "@ + decimal(snapshot.packets_lost as nat) + " partial packet(s) abandoned"@,
            );
            assert(text_views(lines@) =~= said);
        }
        if framed {
            let mut line: String = "  frames ".to_owned();
            push_decimal(&mut line, snapshot.frames_ok);
            line.append("/");
            push_decimal(&mut line, snapshot.frames_seen);
            line.append(" ok, ");
            push_decimal(&mut line, snapshot.rs_uncorrectable);
            line.append(" uncorrectable, ");
            push_decimal(&mut line, snapshot.crc_failures);
            line.append(" checksum failures");
            lines.push(line);
        }
        proof {
            said = said + line_if(framed, frames_text(*snapshot));
            assert(text_views(lines@) =~= said);
        }
        if snapshot.sequence_gaps > 0 {
            let mut line: String = "  ".to_owned();
            push_decimal(&mut line, snapshot.sequence_gaps);
            line.append(" sequence gaps, ");
            push_decimal(&mut line, snapshot.sequence_missing);
            line.append(" packets missing");
            lines.push(line);
        }
        assert(text_views(lines@) =~= summary_lines(self@, *snapshot, framed));
        lines
    }
}

proof fn lemma_refusals_of_part(rejected: Seq<(Seq<char>, u64)>, count: int)
    requires
        0 <= count <= rejected.len(),
    ensures
        refusals(rejected.take(count)) <= refusals(rejected),
    decreases rejected.len(),
{
    if count == rejected.len() {
        assert(rejected.take(count) =~= rejected);
    } else {
        lemma_refusals_of_part(rejected.drop_last(), count);
        assert(rejected.drop_last().take(count) =~= rejected.take(count));
    }
}

} // verus!
