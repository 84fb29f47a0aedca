//! What an export promises to say at its end.

use vstd::prelude::*;

use crate::export::{
    closed_text, counted_in, frames_text, gaps_text, place_of, progress_text, refusal_text,
    refusals, settled, summary_lines, tallied_refusal, totals_text, wants_another, ExportRunView,
    WriteOutcome,
};
use crate::laws::text::shows;
use crate::stats::StatsSnapshot;
use crate::text::decimal;

verus! {

/// A refusal is counted under its kind and under no other: one more where the kind is listed, a new
/// entry of one where it is not.
pub proof fn a_refusal_is_filed_under_its_kind(
    rejected: Seq<(Seq<char>, u64)>,
    kind: Seq<char>,
    place: int,
)
    requires
        0 <= place < rejected.len(),
        rejected[place].0 == kind,
        forall|i: int| 0 <= i < place ==> (#[trigger] rejected[i]).0 != kind,
        rejected[place].1 < u64::MAX,
    ensures
        tallied_refusal(rejected, kind).len() == rejected.len(),
        tallied_refusal(rejected, kind)[place].0 == kind,
        tallied_refusal(rejected, kind)[place].1 == rejected[place].1 + 1,
        forall|i: int|
            0 <= i < rejected.len() && i != place ==> (#[trigger] tallied_refusal(
                rejected,
                kind,
            )[i]) == rejected[i],
{
    lemma_place(rejected, kind, place);
}

/// A kind that is not listed is listed behind the others, once.
pub proof fn a_new_kind_is_listed_last(rejected: Seq<(Seq<char>, u64)>, kind: Seq<char>)
    requires
        forall|i: int| 0 <= i < rejected.len() ==> (#[trigger] rejected[i]).0 != kind,
    ensures
        tallied_refusal(rejected, kind) == rejected.push((kind, 1u64)),
{
    lemma_no_place(rejected, kind);
}

proof fn lemma_no_place(rejected: Seq<(Seq<char>, u64)>, kind: Seq<char>)
    requires
        forall|i: int| 0 <= i < rejected.len() ==> (#[trigger] rejected[i]).0 != kind,
    ensures
        place_of(rejected, kind) == rejected.len(),
    decreases rejected.len(),
{
    if rejected.len() > 0 {
        let rest = rejected.drop_last();
        assert forall|i: int| 0 <= i < rest.len() implies (#[trigger] rest[i]).0 != kind by {
            assert(rejected[i].0 != kind);
        }
        lemma_no_place(rest, kind);
        assert(rejected[rejected.len() - 1].0 != kind);
    }
}

proof fn lemma_place(rejected: Seq<(Seq<char>, u64)>, kind: Seq<char>, place: int)
    requires
        0 <= place < rejected.len(),
        rejected[place].0 == kind,
        forall|i: int| 0 <= i < place ==> (#[trigger] rejected[i]).0 != kind,
    ensures
        place_of(rejected, kind) == place,
    decreases rejected.len(),
{
    let rest = rejected.drop_last();
    if place < rest.len() {
        assert forall|i: int| 0 <= i < place implies (#[trigger] rest[i]).0 != kind by {
            assert(rejected[i].0 != kind);
        }
        lemma_place(rest, kind, place);
    } else {
        assert forall|i: int| 0 <= i < rest.len() implies (#[trigger] rest[i]).0 != kind by {
            assert(rejected[i].0 != kind);
        }
        lemma_no_place(rest, kind);
    }
}

/// All the refusals together are those of each kind.
pub proof fn refusals_add_up(rejected: Seq<(Seq<char>, u64)>, entry: (Seq<char>, u64))
    ensures
        refusals(Seq::<(Seq<char>, u64)>::empty()) == 0,
        refusals(rejected.push(entry)) == refusals(rejected) + entry.1,
{
    assert(rejected.push(entry).drop_last() =~= rejected);
}

/// An export goes on while it has fewer packets than it was told, and for good where it was told
/// nothing.
pub proof fn an_export_stops_where_it_is_told(packets: u64, limit: usize)
    ensures
        wants_another(packets, None),
        packets < limit ==> wants_another(packets, Some(limit)),
        packets >= limit ==> !wants_another(packets, Some(limit)),
{
}

/// The lines of an export show each of its counts.
pub proof fn the_lines_of_an_export_show_its_counts(
    packets: u64,
    rows: u64,
    refused: nat,
    entry: (Seq<char>, u64),
    snapshot: StatsSnapshot,
)
    ensures
        shows(closed_text(packets), " after "@, decimal(packets as nat), " packets"@),
        shows(totals_text(packets, rows, refused), "export: "@, decimal(packets as nat), " packets, "@),
        shows(totals_text(packets, rows, refused), " packets, "@, decimal(rows as nat), " rows, "@),
        shows(totals_text(packets, rows, refused), " rows, "@, decimal(refused), " refused"@),
        shows(progress_text(packets, rows), "export: "@, decimal(packets as nat), " packets, "@),
        shows(progress_text(packets, rows), " packets, "@, decimal(rows as nat), " rows"@),
        shows(refusal_text(entry), "  "@, decimal(entry.1 as nat), " refused: "@),
        shows(refusal_text(entry), " refused: "@, entry.0, Seq::empty()),
        shows(frames_text(snapshot), "  frames "@, decimal(snapshot.frames_ok as nat), "/"@),
        shows(frames_text(snapshot), "/"@, decimal(snapshot.frames_seen as nat), " ok, "@),
        shows(
            frames_text(snapshot),
            " ok, "@,
            decimal(snapshot.rs_uncorrectable as nat),
            " uncorrectable, "@,
        ),
        shows(
            frames_text(snapshot),
            " uncorrectable, "@,
            decimal(snapshot.crc_failures as nat),
            " checksum failures"@,
        ),
        shows(
            gaps_text(snapshot),
            "  "@,
            decimal(snapshot.sequence_gaps as nat),
            " sequence gaps, "@,
        ),
        shows(
            gaps_text(snapshot),
            " sequence gaps, "@,
            decimal(snapshot.sequence_missing as nat),
            " packets missing"@,
        ),
{
    let none = Seq::<char>::empty();
    let (p, r, f, e) = (
        decimal(packets as nat),
        decimal(rows as nat),
        decimal(refused),
        decimal(entry.1 as nat),
    );
    reveal_strlit("export: the output closed after ");
    reveal_strlit(" after ");
    reveal_strlit(" packets; stopping there");
    reveal_strlit(" packets");
    let closed = closed_text(packets);
    let front = "export: the output closed after "@.take(25);
    let back = " packets; stopping there"@.skip(8);
    assert("export: the output closed after "@ =~= front + " after "@);
    assert(" packets; stopping there"@ =~= " packets"@ + back);
    assert(closed =~= front + " after "@ + p + " packets"@ + back);
    let totals = totals_text(packets, rows, refused);
    assert(totals =~= none + "export: "@ + p + " packets, "@ + (r + " rows, "@ + f + " refused"@));
    assert(totals =~= ("export: "@ + p) + " packets, "@ + r + " rows, "@ + (f + " refused"@));
    assert(totals =~= ("export: "@ + p + " packets, "@ + r) + " rows, "@ + f + " refused"@ + none);
    let progress = progress_text(packets, rows);
    assert(progress =~= none + "export: "@ + p + " packets, "@ + (r + " rows"@));
    assert(progress =~= ("export: "@ + p) + " packets, "@ + r + " rows"@ + none);
    let refusal = refusal_text(entry);
    assert(refusal =~= none + "  "@ + e + " refused: "@ + entry.0);
    assert(refusal =~= ("  "@ + e) + " refused: "@ + entry.0 + none + none);
    let (ok, seen, bad, crc) = (
        decimal(snapshot.frames_ok as nat),
        decimal(snapshot.frames_seen as nat),
        decimal(snapshot.rs_uncorrectable as nat),
        decimal(snapshot.crc_failures as nat),
    );
    let frames = frames_text(snapshot);
    let end = " checksum failures"@;
    assert(frames =~= none + "  frames "@ + ok + "/"@ + (seen + " ok, "@ + bad + " uncorrectable, "@
        + crc + end));
    assert(frames =~= ("  frames "@ + ok) + "/"@ + seen + " ok, "@ + (bad + " uncorrectable, "@ + crc
        + end));
    assert(frames =~= ("  frames "@ + ok + "/"@ + seen) + " ok, "@ + bad + " uncorrectable, "@ + (crc
        + end));
    assert(frames =~= ("  frames "@ + ok + "/"@ + seen + " ok, "@ + bad) + " uncorrectable, "@ + crc
        + end + none);
    let (g, m) = (
        decimal(snapshot.sequence_gaps as nat),
        decimal(snapshot.sequence_missing as nat),
    );
    let gaps = gaps_text(snapshot);
    assert(gaps =~= none + "  "@ + g + " sequence gaps, "@ + (m + " packets missing"@));
    assert(gaps =~= ("  "@ + g) + " sequence gaps, "@ + m + " packets missing"@ + none);
}

/// A summary has its totals, behind a line about an output that closed where it did; a line for each
/// kind of refusal, in the order they came; and behind them one about partial packets where there
/// were any, one about frames where the link has frames, and one about gaps where there were any.
pub proof fn a_summary_says_what_there_is(
    run: ExportRunView,
    snapshot: StatsSnapshot,
    framed: bool,
    kind: int,
)
    ensures
        ({
            let lines = summary_lines(run, snapshot, framed);
            let first = if run.closed {
                1int
            } else {
                0
            };
            let lost = if snapshot.packets_lost > 0 {
                1int
            } else {
                0
            };
            let frames = if framed {
                1int
            } else {
                0
            };
            let gaps = if snapshot.sequence_gaps > 0 {
                1int
            } else {
                0
            };
            let kinds = run.rejected.len() as int;
            &&& lines.len() == first + 1 + kinds + lost + frames + gaps
            &&& run.closed ==> lines[0] == closed_text(run.packets)
            &&& lines[first] == totals_text(run.packets, run.rows, refusals(run.rejected))
            &&& 0 <= kind < kinds ==> lines[first + 1 + kind] == refusal_text(run.rejected[kind])
            &&& snapshot.packets_lost > 0 ==> shows(
                lines[first + 1 + kinds],
                "  "@,
                decimal(snapshot.packets_lost as nat),
                " partial packet(s) abandoned"@,
            )
            &&& framed ==> lines[first + 1 + kinds + lost] == frames_text(snapshot)
            &&& snapshot.sequence_gaps > 0 ==> lines[first + 1 + kinds + lost + frames]
                == gaps_text(snapshot)
        }),
{
    if snapshot.packets_lost > 0 {
        let none = Seq::<char>::empty();
        let n = decimal(snapshot.packets_lost as nat);
        let line = "  "@ + n + " partial packet(s) abandoned"@;
        assert(line =~= none + "  "@ + n + " partial packet(s) abandoned"@ + none);
    }
}

/// A write that is done adds its rows and nothing else; an output that closed is marked, and loses
/// no count; one that failed leaves the run as it was.
pub proof fn a_write_is_counted_once(run: ExportRunView, rows: usize, message: String)
    ensures
        run.rows + rows <= u64::MAX ==> settled(run, rows, WriteOutcome::Done).rows == run.rows
            + rows,
        settled(run, rows, WriteOutcome::Done).packets == run.packets,
        settled(run, rows, WriteOutcome::Done).rejected == run.rejected,
        settled(run, rows, WriteOutcome::Done).closed == run.closed,
        settled(run, rows, WriteOutcome::Closed).closed,
        settled(run, rows, WriteOutcome::Closed).rows == run.rows,
        settled(run, rows, WriteOutcome::Closed).packets == run.packets,
        settled(run, rows, WriteOutcome::Closed).rejected == run.rejected,
        settled(run, rows, WriteOutcome::Failed(message)) == run,
{
}

/// Every packet is counted, described or not; only one that is refused is a refusal, of its kind; and
/// none is a row before it is written.
pub proof fn every_packet_of_an_export_is_counted(run: ExportRunView, kind: Seq<char>)
    ensures
        run.packets < u64::MAX ==> counted_in(run, None).packets == run.packets + 1 && counted_in(
            run,
            Some(kind),
        ).packets == run.packets + 1,
        counted_in(run, None).rejected == run.rejected,
        counted_in(run, Some(kind)).rejected == tallied_refusal(run.rejected, kind),
        counted_in(run, None).rows == run.rows && counted_in(run, Some(kind)).rows == run.rows,
        counted_in(run, None).closed == run.closed && counted_in(run, Some(kind)).closed
            == run.closed,
{
}

} // verus!
