//! What a probe promises of a stream.

use vstd::prelude::*;

use crate::laws::text::{columns_are_filled, shows};
use crate::probe::{
    advice, apids_seen, candidate_row, counter_line, counters_text, empty_tally, filed, first_row,
    first_rows, frame_trial_text, indented, interval_count, is_modal, markers, modal_stride_of,
    packet_filed, packets_text, room_for, strides_of, sync_marker, tallied, tally_row, tally_rows, ApidTally,
    ProbeView, FIRST_COLUMNS, TALLY_COLUMNS,
};
use crate::stats::StatsSnapshot;
use crate::text::{decimal, left_aligned, right_aligned};

verus! {

/// A tally after several packets, each a length and a sequence count.
pub open spec fn tallied_all(tally: ApidTally, packets: Seq<(usize, u16)>) -> ApidTally
    decreases packets.len(),
{
    if packets.len() == 0 {
        tally
    } else {
        tallied(tallied_all(tally, packets.drop_last()), packets.last().0, packets.last().1)
    }
}

/// Over any run of packets of one APID, the longest is at least as long as each of them and is one
/// of them, and so is the shortest at most; as many packets are counted as there were, and the last
/// count is the last packet's.
pub proof fn the_longest_and_the_shortest_are_packets(packets: Seq<(usize, u16)>)
    requires
        packets.len() > 0,
    ensures
        ({
            let tally = tallied_all(empty_tally(), packets);
            &&& forall|i: int|
                0 <= i < packets.len() ==> tally.shortest <= (#[trigger] packets[i]).0
                    <= tally.longest
            &&& exists|i: int| 0 <= i < packets.len() && (#[trigger] packets[i]).0 == tally.longest
            &&& exists|i: int| 0 <= i < packets.len() && (#[trigger] packets[i]).0 == tally.shortest
            &&& tally.last == Some(packets.last().1)
            &&& packets.len() <= u64::MAX ==> tally.count == packets.len()
        }),
    decreases packets.len(),
{
    let rest = packets.drop_last();
    let tally = tallied_all(empty_tally(), packets);
    let before = tallied_all(empty_tally(), rest);
    let n = packets.len() - 1;
    assert(packets[n] == packets.last());
    if rest.len() > 0 {
        the_longest_and_the_shortest_are_packets(rest);
        let a = choose|i: int| 0 <= i < rest.len() && (#[trigger] rest[i]).0 == before.longest;
        let b = choose|i: int| 0 <= i < rest.len() && (#[trigger] rest[i]).0 == before.shortest;
        assert(packets[a] == rest[a]);
        assert(packets[b] == rest[b]);
        assert forall|i: int| 0 <= i < packets.len() implies tally.shortest <= (
        #[trigger] packets[i]).0 <= tally.longest by {
            if i < n {
                assert(rest[i] == packets[i]);
            }
        }
        assert(packets[if packets[n].0 == tally.longest {
            n
        } else {
            a
        }].0 == tally.longest);
        assert(packets[if packets[n].0 == tally.shortest {
            n
        } else {
            b
        }].0 == tally.shortest);
    } else {
        assert(before == empty_tally());
    }
}

/// One packet more never lowers the longest nor raises the shortest, takes no gap back, and counts
/// one packet.
pub proof fn a_tally_only_widens(tally: ApidTally, length: usize, sequence: u16)
    ensures
        ({
            let after = tallied(tally, length, sequence);
            &&& after.longest >= tally.longest
            &&& after.shortest <= tally.shortest
            &&& after.longest >= length
            &&& after.shortest <= length
            &&& after.longest == length || after.longest == tally.longest
            &&& after.shortest == length || after.shortest == tally.shortest
            &&& after.gaps >= tally.gaps
            &&& after.missing >= tally.missing
            &&& tally.count < u64::MAX ==> after.count == tally.count + 1
            &&& after.last == Some(sequence)
        }),
{
}

/// A count that skips some is one gap, and as many packets missing as it skips, around the wrap
/// too; one that follows on is none.
pub proof fn a_gap_is_what_is_skipped(
    tally: ApidTally,
    previous: u16,
    skipped: int,
    length: usize,
    sequence: u16,
)
    requires
        tally.last == Some(previous),
        previous < 16_384,
        0 <= skipped < 16_384,
        sequence == (previous + 1 + skipped) % 16_384,
        tally.gaps < u64::MAX,
        tally.missing + skipped <= u64::MAX,
    ensures
        tallied(tally, length, sequence).missing == tally.missing + skipped,
        tallied(tally, length, sequence).gaps == tally.gaps + (if skipped > 0 {
            1int
        } else {
            0
        }),
{
    crate::probe::a_gap_counts_the_packets_it_implies(tally, previous, skipped, length, sequence);
}

/// The markers of a stream are where its four octets are: each further octet adds one exactly where
/// it ends them.
pub proof fn a_marker_is_four_octets(stream: Seq<u8>, octet: u8)
    ensures
        ({
            let more = stream.push(octet);
            let n = more.len() as int;
            let ends = n >= 4 && more[n - 4] == 0x1a && more[n - 3] == 0xcf && more[n - 2] == 0xfc
                && more[n - 1] == 0x1d;
            &&& ends ==> markers(more) == markers(stream).push(n - 4)
            &&& !ends ==> markers(more) == markers(stream)
            &&& markers(Seq::<u8>::empty()).len() == 0
        }),
{
    let more = stream.push(octet);
    let n = more.len() as int;
    assert(more.drop_last() =~= stream);
    if n >= 4 {
        let tail = more.skip(n - 4);
        assert(tail[0] == more[n - 4] && tail[1] == more[n - 3] && tail[2] == more[n - 2] && tail[3]
            == more[n - 1]);
        if more[n - 4] == 0x1a && more[n - 3] == 0xcf && more[n - 2] == 0xfc && more[n - 1] == 0x1d {
            assert(tail =~= sync_marker());
        } else {
            assert(sync_marker()[0] == 0x1a && sync_marker()[1] == 0xcf && sync_marker()[2] == 0xfc
                && sync_marker()[3] == 0x1d);
        }
    }
}

/// Strides are counted from each marker to the next: one more marker counts one more stride, the
/// distance from the last one; and there is one distance fewer than there are markers.
pub proof fn strides_go_from_marker_to_marker(places: Seq<int>, place: int, stride: int)
    ensures
        strides_of(Seq::<int>::empty(), stride) == 0,
        strides_of(seq![place], stride) == 0,
        places.len() > 0 ==> strides_of(places.push(place), stride) == strides_of(places, stride) + (
        if place - places.last() == stride {
            1int
        } else {
            0
        }),
        interval_count(places.push(place)) == places.len(),
        interval_count(Seq::<int>::empty()) == 0,
{
    assert(places.push(place).drop_last() =~= places);
}

/// The modal stride is one that occurs, none occurs more often, and none as often is shorter.
pub proof fn the_modal_stride_is_the_most_common(places: Seq<int>, stride: int, other: int)
    requires
        is_modal(places, stride),
    ensures
        strides_of(places, stride) > 0,
        strides_of(places, other) <= strides_of(places, stride),
        strides_of(places, other) == strides_of(places, stride) ==> stride <= other,
        is_modal(places, other) ==> other == stride,
        modal_stride_of(places) == stride,
{
    let modal = modal_stride_of(places);
    assert(is_modal(places, modal));
    assert(strides_of(places, modal) <= strides_of(places, stride));
    assert(strides_of(places, stride) <= strides_of(places, modal));
}

/// What is between two markers is Reed-Solomon codewords exactly where it is 255 octets for each of
/// one, two, three, four, five or eight: then both codes are advised for that depth, and otherwise
/// an uncoded frame of that length. Less than a marker is no frame.
pub proof fn a_stride_is_advised_on(stride: u64)
    ensures
        ({
            let block = stride - 4;
            let depth = block / 255;
            let coded = block == 255 * depth && (depth == 1 || depth == 2 || depth == 3 || depth == 4
                || depth == 5 || depth == 8);
            let lines = advice(stride);
            &&& block <= 0 ==> lines.len() == 1 && shows(
                lines[0],
                "a stride of "@,
                decimal(stride as nat),
                " is shorter than the sync marker: these are not frames"@,
            )
            &&& block > 0 && coded ==> lines.len() == 3 && shows(
                lines[0],
                " octets between markers is "@,
                decimal(depth as nat),
                " x 255 (CCSDS 131.0-B-5 section 4): a Reed-Solomon coded link."@,
            ) && shows(
                lines[1],
                "try --framing tm --rs 32 --interleave "@,
                decimal(depth as nat),
                " --frame-length "@,
            ) && shows(lines[1], " --frame-length "@, decimal((depth * 223) as nat), Seq::empty())
                && shows(
                lines[2],
                "  or --framing tm --rs 16 --interleave "@,
                decimal(depth as nat),
                " --frame-length "@,
            ) && shows(
                lines[2],
                " --frame-length "@,
                decimal((depth * 239) as nat),
                " (E=8 instead of E=16)"@,
            )
            &&& block > 0 && !coded ==> lines.len() == 2 && shows(
                lines[0],
                Seq::empty(),
                decimal(block as nat),
                " octets between markers is not a multiple of 255: an uncoded link."@,
            ) && shows(
                lines[1],
                "try --framing tm --frame-length "@,
                decimal(block as nat),
                Seq::empty(),
            )
        }),
{
    let none = Seq::<char>::empty();
    let block = stride - 4;
    let depth = block / 255;
    vstd::arithmetic::div_mod::lemma_fundamental_div_mod(block, 255);
    let lines = advice(stride);
    let (b, d) = (decimal(block as nat), decimal(depth as nat));
    if block <= 0 {
        assert(lines[0] =~= none + "a stride of "@ + decimal(stride as nat)
            + " is shorter than the sync marker: these are not frames"@ + none);
    } else if crate::probe::is_coded_block(block) {
        assert(lines[0] =~= b + " octets between markers is "@ + d
            + " x 255 (CCSDS 131.0-B-5 section 4): a Reed-Solomon coded link."@ + none);
        let (x, y) = (decimal((depth * 223) as nat), decimal((depth * 239) as nat));
        let try_32 = "try --framing tm --rs 32 --interleave "@;
        let try_16 = "  or --framing tm --rs 16 --interleave "@;
        let length = " --frame-length "@;
        assert(lines[1] =~= none + try_32 + d + length + x);
        assert(lines[1] =~= (try_32 + d) + length + x + none + none);
        assert(lines[2] =~= none + try_16 + d + length + (y + " (E=8 instead of E=16)"@));
        assert(lines[2] =~= (try_16 + d) + length + y + " (E=8 instead of E=16)"@ + none);
    } else {
        assert(lines[0] =~= none + none + b
            + " octets between markers is not a multiple of 255: an uncoded link."@ + none);
        assert(lines[1] =~= none + "try --framing tm --frame-length "@ + b + none + none);
    }
}

/// A row of an APID has its number, how many packets, the shortest, the longest, the gaps and what
/// is missing, each in its own column, for as long as they fit there.
pub proof fn a_row_has_its_columns(apid: nat, tally: ApidTally)
    requires
        decimal(apid).len() <= 5,
        decimal(tally.count as nat).len() <= 9,
        decimal(tally.shortest as nat).len() <= 6,
        decimal(tally.longest as nat).len() <= 6,
        decimal(tally.gaps as nat).len() <= 6,
        decimal(tally.missing as nat).len() <= 8,
    ensures
        ({
            let row = tally_row(apid, tally);
            &&& row.len() == 53
            &&& row.subrange(2, 7) == right_aligned(decimal(apid), ' ', 5)
            &&& row.subrange(9, 18) == right_aligned(decimal(tally.count as nat), ' ', 9)
            &&& row.subrange(20, 26) == right_aligned(decimal(tally.shortest as nat), ' ', 6)
            &&& row.subrange(28, 34) == right_aligned(decimal(tally.longest as nat), ' ', 6)
            &&& row.subrange(36, 42) == right_aligned(decimal(tally.gaps as nat), ' ', 6)
            &&& row.subrange(44, 52) == right_aligned(decimal(tally.missing as nat), ' ', 8)
        }),
{
    reveal_strlit("  ");
    reveal_strlit("\n");
    columns_are_filled(decimal(apid), ' ', 5);
    columns_are_filled(decimal(tally.count as nat), ' ', 9);
    columns_are_filled(decimal(tally.shortest as nat), ' ', 6);
    columns_are_filled(decimal(tally.longest as nat), ' ', 6);
    columns_are_filled(decimal(tally.gaps as nat), ' ', 6);
    columns_are_filled(decimal(tally.missing as nat), ' ', 8);
    let row = tally_row(apid, tally);
    assert(row.subrange(2, 7) =~= right_aligned(decimal(apid), ' ', 5));
    assert(row.subrange(9, 18) =~= right_aligned(decimal(tally.count as nat), ' ', 9));
    assert(row.subrange(20, 26) =~= right_aligned(decimal(tally.shortest as nat), ' ', 6));
    assert(row.subrange(28, 34) =~= right_aligned(decimal(tally.longest as nat), ' ', 6));
    assert(row.subrange(36, 42) =~= right_aligned(decimal(tally.gaps as nat), ' ', 6));
    assert(row.subrange(44, 52) =~= right_aligned(decimal(tally.missing as nat), ' ', 8));
}

/// A row of a packet has its APID, its count and its length, each in its own column.
pub proof fn a_packet_row_has_its_columns(packet: (u16, u16, usize))
    requires
        decimal(packet.0 as nat).len() <= 5,
        decimal(packet.1 as nat).len() <= 9,
        decimal(packet.2 as nat).len() <= 6,
    ensures
        ({
            let row = first_row(packet);
            &&& row.len() == 27
            &&& row.subrange(2, 7) == right_aligned(decimal(packet.0 as nat), ' ', 5)
            &&& row.subrange(9, 18) == right_aligned(decimal(packet.1 as nat), ' ', 9)
            &&& row.subrange(20, 26) == right_aligned(decimal(packet.2 as nat), ' ', 6)
        }),
{
    reveal_strlit("  ");
    reveal_strlit("\n");
    columns_are_filled(decimal(packet.0 as nat), ' ', 5);
    columns_are_filled(decimal(packet.1 as nat), ' ', 9);
    columns_are_filled(decimal(packet.2 as nat), ' ', 6);
    let row = first_row(packet);
    assert(row.subrange(2, 7) =~= right_aligned(decimal(packet.0 as nat), ' ', 5));
    assert(row.subrange(9, 18) =~= right_aligned(decimal(packet.1 as nat), ' ', 9));
    assert(row.subrange(20, 26) =~= right_aligned(decimal(packet.2 as nat), ' ', 6));
}

/// Each APID that packets were seen on has a row, in the order of the APIDs, and is counted; the
/// others have none, and are not.
pub proof fn each_apid_that_was_seen_has_a_row(tallies: Seq<ApidTally>, tally: ApidTally)
    ensures
        tally.count > 0 ==> tally_rows(tallies.push(tally)) == tally_rows(tallies) + tally_row(
            tallies.len(),
            tally,
        ) && apids_seen(tallies.push(tally)) == apids_seen(tallies) + 1,
        tally.count == 0 ==> tally_rows(tallies.push(tally)) == tally_rows(tallies) && apids_seen(
            tallies.push(tally),
        ) == apids_seen(tallies),
        tally_rows(Seq::<ApidTally>::empty()).len() == 0,
        apids_seen(Seq::<ApidTally>::empty()) == 0,
{
    assert(tallies.push(tally).drop_last() =~= tallies);
}

/// Packets are listed in the order they arrived.
pub proof fn packets_are_listed_in_order(first: Seq<(u16, u16, usize)>, packet: (u16, u16, usize))
    ensures
        first_rows(Seq::<(u16, u16, usize)>::empty()).len() == 0,
        first_rows(first.push(packet)) == first_rows(first) + first_row(packet),
{
    assert(first.push(packet).drop_last() =~= first);
}

/// Of a read as much is used as there is room for: all of it without a limit, and with one what is
/// left of it.
pub proof fn a_read_is_cut_to_the_limit(limit: u64, held: int, count: int)
    requires
        0 <= held,
        0 <= count,
    ensures
        room_for(None, held, count) == count,
        held + count <= limit ==> room_for(Some(limit), held, count) == count,
        held <= limit < held + count ==> room_for(Some(limit), held, count) == limit - held,
        held >= limit ==> room_for(Some(limit), held, count) == 0,
{
}

/// A packet is filed under its APID with its count and its length, and one too short for a header
/// under none with its length.
pub proof fn a_packet_is_filed_as_it_is(bytes: Seq<u8>)
    requires
        bytes.len() <= usize::MAX,
    ensures
        filed(bytes).2 == bytes.len(),
        bytes.len() >= 6 ==> filed(bytes).0 == crate::packet::apid_of(bytes) && filed(bytes).1
            == crate::packet::count_of(bytes),
        bytes.len() < 6 ==> filed(bytes).0 == 0 && filed(bytes).1 == 0,
{
}

/// A counter is shown behind its name.
pub proof fn a_counter_is_shown_behind_its_name(name: Seq<char>, value: u64)
    ensures
        shows(counter_line(name, value), seq![' '], decimal(value as nat), seq!['\n']),
        name.len() <= 18 ==> counter_line(name, value).subrange(2, 2 + name.len() as int) == name
            && counter_line(name, value).skip(21) == decimal(value as nat).push('\n'),
{
    reveal_strlit("  ");
    reveal_strlit(" ");
    reveal_strlit("\n");
    columns_are_filled(name, ' ', 18);
    let line = counter_line(name, value);
    let none = Seq::<char>::empty();
    let front = "  "@ + left_aligned(name, 18);
    assert(line =~= front + seq![' '] + decimal(value as nat) + seq!['\n'] + none);
    if name.len() <= 18 {
        let aligned = left_aligned(name, 18);
        assert(aligned.take(name.len() as int) == name);
        assert forall|i: int| 0 <= i < name.len() implies line.subrange(2, 2 + name.len() as int)[i]
            == name[i] by {
            assert(aligned.take(name.len() as int)[i] == aligned[i]);
        }
        assert(line.subrange(2, 2 + name.len() as int) =~= name);
        assert(line.skip(21) =~= decimal(value as nat).push('\n'));
    }
}

/// Whether a text has another in it.
pub open spec fn has(text: Seq<char>, part: Seq<char>) -> bool {
    shows(text, Seq::empty(), part, Seq::empty())
}

proof fn lemma_has(text: Seq<char>, before: Seq<char>, part: Seq<char>, after: Seq<char>)
    requires
        text == before + part + after,
    ensures
        has(text, part),
{
    let none = Seq::<char>::empty();
    assert(text =~= before + none + part + none + after);
}

proof fn lemma_has_longer(text: Seq<char>, part: Seq<char>, more: Seq<char>)
    requires
        has(text, part),
    ensures
        has(text + more, part),
{
    let none = Seq::<char>::empty();
    let (a, b) = choose|a: Seq<char>, b: Seq<char>| text == #[trigger] (a + none + part + none + b);
    let c = b + more;
    assert(text + more =~= a + none + part + none + c);
}

/// Each counter of the link is in the report, under its own name.
pub proof fn every_counter_is_reported(snapshot: StatsSnapshot)
    ensures
        has(counters_text(snapshot), counter_line("bytes in"@, snapshot.bytes_in)),
        has(counters_text(snapshot), counter_line("sync found"@, snapshot.sync_found)),
        has(counters_text(snapshot), counter_line("sync lost"@, snapshot.sync_lost)),
        has(counters_text(snapshot), counter_line("frames seen"@, snapshot.frames_seen)),
        has(counters_text(snapshot), counter_line("frames ok"@, snapshot.frames_ok)),
        has(counters_text(snapshot), counter_line("frames dropped"@, snapshot.frames_dropped)),
        has(counters_text(snapshot), counter_line("rs corrected"@, snapshot.rs_corrected)),
        has(counters_text(snapshot), counter_line("rs symbols"@, snapshot.rs_symbols)),
        has(counters_text(snapshot), counter_line("rs uncorrectable"@, snapshot.rs_uncorrectable)),
        has(counters_text(snapshot), counter_line("crc failures"@, snapshot.crc_failures)),
        has(counters_text(snapshot), counter_line("idle frames"@, snapshot.idle_frames)),
        has(counters_text(snapshot), counter_line("idle packets"@, snapshot.idle_packets)),
        has(counters_text(snapshot), counter_line("packets in"@, snapshot.packets_in)),
        has(counters_text(snapshot), counter_line("packets lost"@, snapshot.packets_lost)),
{
    let lines = seq![
        counter_line("bytes in"@, snapshot.bytes_in),
        counter_line("sync found"@, snapshot.sync_found),
        counter_line("sync lost"@, snapshot.sync_lost),
        counter_line("frames seen"@, snapshot.frames_seen),
        counter_line("frames ok"@, snapshot.frames_ok),
        counter_line("frames dropped"@, snapshot.frames_dropped),
        counter_line("rs corrected"@, snapshot.rs_corrected),
        counter_line("rs symbols"@, snapshot.rs_symbols),
        counter_line("rs uncorrectable"@, snapshot.rs_uncorrectable),
        counter_line("crc failures"@, snapshot.crc_failures),
        counter_line("idle frames"@, snapshot.idle_frames),
        counter_line("idle packets"@, snapshot.idle_packets),
        counter_line("packets in"@, snapshot.packets_in),
        counter_line("packets lost"@, snapshot.packets_lost),
    ];
    let head = "\nlink counters\n"@;
    reveal_with_fuel(stacked, 15);
    assert forall|i: int| 0 <= i < 14 implies has(stacked(head, lines, 14), #[trigger] lines[i]) by {
        lemma_stacked(head, lines, i, 14);
    }
    assert(counters_text(snapshot) == stacked(head, lines, 14));
    assert(has(stacked(head, lines, 14), lines[0]));
    assert(has(stacked(head, lines, 14), lines[1]));
    assert(has(stacked(head, lines, 14), lines[2]));
    assert(has(stacked(head, lines, 14), lines[3]));
    assert(has(stacked(head, lines, 14), lines[4]));
    assert(has(stacked(head, lines, 14), lines[5]));
    assert(has(stacked(head, lines, 14), lines[6]));
    assert(has(stacked(head, lines, 14), lines[7]));
    assert(has(stacked(head, lines, 14), lines[8]));
    assert(has(stacked(head, lines, 14), lines[9]));
    assert(has(stacked(head, lines, 14), lines[10]));
    assert(has(stacked(head, lines, 14), lines[11]));
    assert(has(stacked(head, lines, 14), lines[12]));
    assert(has(stacked(head, lines, 14), lines[13]));
}

spec fn stacked(head: Seq<char>, lines: Seq<Seq<char>>, count: nat) -> Seq<char>
    decreases count,
{
    if count == 0 {
        head
    } else {
        stacked(head, lines, (count - 1) as nat) + lines[count - 1]
    }
}

proof fn lemma_stacked(head: Seq<char>, lines: Seq<Seq<char>>, place: int, count: nat)
    requires
        0 <= place < count <= lines.len(),
    ensures
        has(stacked(head, lines, count), lines[place]),
    decreases count,
{
    let before = stacked(head, lines, (count - 1) as nat);
    if place == count - 1 {
        let none = Seq::<char>::empty();
        assert(before + lines[place] =~= before + lines[place] + none);
        lemma_has(before + lines[place], before, lines[place], none);
    } else {
        lemma_stacked(head, lines, place, (count - 1) as nat);
        lemma_has_longer(before, lines[place], lines[count - 1]);
    }
}

/// The report has how many APIDs were seen and a row for each, and the first packets where any are
/// listed, with how many.
pub proof fn every_apid_is_reported(tallies: Seq<ApidTally>, first: Seq<(u16, u16, usize)>)
    ensures
        has(packets_text(tallies, first), "\napids: "@ + decimal(apids_seen(tallies)) + "\n"@),
        has(packets_text(tallies, first), tally_rows(tallies)),
        first.len() > 0 ==> has(packets_text(tallies, first), first_rows(first)),
        first.len() > 0 ==> has(
            packets_text(tallies, first),
            "\nfirst "@ + decimal(first.len()) + " packets\n"@,
        ),
        apids_seen(tallies) > 0 ==> has(packets_text(tallies, first), TALLY_COLUMNS@),
{
    let none = Seq::<char>::empty();
    let text = packets_text(tallies, first);
    let head = "\napids: "@ + decimal(apids_seen(tallies)) + "\n"@;
    let columns = if apids_seen(tallies) > 0 {
        TALLY_COLUMNS@
    } else {
        none
    };
    let rows = tally_rows(tallies);
    let count = "\nfirst "@ + decimal(first.len()) + " packets\n"@;
    let listed = if first.len() > 0 {
        count + FIRST_COLUMNS@ + first_rows(first)
    } else {
        none
    };
    assert(text =~= head + columns + rows + listed);
    assert(text =~= none + head + (columns + rows + listed));
    lemma_has(text, none, head, columns + rows + listed);
    assert(text =~= (head + columns) + rows + listed);
    lemma_has(text, head + columns, rows, listed);
    assert(text =~= head + columns + (rows + listed));
    lemma_has(text, head, columns, rows + listed);
    if first.len() > 0 {
        assert(text =~= (head + columns + rows) + count + (FIRST_COLUMNS@ + first_rows(first)));
        lemma_has(text, head + columns + rows, count, FIRST_COLUMNS@ + first_rows(first));
        assert(text =~= (head + columns + rows + count + FIRST_COLUMNS@) + first_rows(first) + none);
        lemma_has(
            text,
            head + columns + rows + count + FIRST_COLUMNS@,
            first_rows(first),
            none,
        );
    }
}

/// How well a frame length fits shows how many distances are that long, and how many are that long
/// with the marker.
pub proof fn a_candidate_is_tried_twice(places: Seq<int>, candidate: u64)
    ensures
        shows(
            candidate_row(places, candidate),
            ": "@,
            decimal(strides_of(places, candidate as int)),
            " intervals at "@,
        ),
        shows(
            candidate_row(places, candidate),
            " intervals at "@,
            decimal(candidate as nat),
            ", "@,
        ),
        shows(
            candidate_row(places, candidate),
            ", "@,
            decimal(strides_of(places, candidate + 4)),
            " at "@,
        ),
        shows(
            candidate_row(places, candidate),
            " at "@,
            decimal((candidate + 4) as nat),
            " (marker included)\n"@,
        ),
{
    let none = Seq::<char>::empty();
    let row = candidate_row(places, candidate);
    let start = "  "@ + right_aligned(decimal(candidate as nat), ' ', 5);
    let (a, c, b, d) = (
        decimal(strides_of(places, candidate as int)),
        decimal(candidate as nat),
        decimal(strides_of(places, candidate + 4)),
        decimal((candidate + 4) as nat),
    );
    let (x, y, z, e) = (" intervals at "@, ", "@, " at "@, " (marker included)\n"@);
    assert(row =~= start + ": "@ + a + x + (c + y + b + z + d + e));
    assert(row =~= (start + ": "@ + a) + x + c + y + (b + z + d + e));
    assert(row =~= (start + ": "@ + a + x + c) + y + b + z + (d + e));
    assert(row =~= (start + ": "@ + a + x + c + y + b) + z + d + e + none);
}

/// A trial of a stream without markers says how many bytes there were; one with markers where the
/// first is, the most common stride and how many distances have it, each candidate, and the advice
/// on the stride. A stride that fewer than half of the distances have is doubted.
pub proof fn a_trial_says_what_was_measured(places: Seq<int>, total: u64)
    ensures
        ({
            let text = frame_trial_text(places, total);
            let stride = modal_stride_of(places);
            let count = strides_of(places, stride);
            let found = "  sync markers found: "@ + decimal(places.len()) + "\n"@;
            let doubt = "  the stride is not consistent: "@ + decimal(count) + " of "@ + decimal(
                interval_count(places),
            );
            &&& has(text, found)
            &&& places.len() == 0 ==> has(text, "  no 0x1ACFFC1D in "@ + decimal(total as nat))
            &&& places.len() > 0 ==> has(
                text,
                "  first marker at: "@ + decimal(places[0] as nat) + "\n"@,
            )
            &&& places.len() > 0 ==> has(text, candidate_row(places, 1115)) && has(
                text,
                candidate_row(places, 1279),
            ) && has(text, candidate_row(places, 2048)) && has(text, candidate_row(places, 892))
            &&& places.len() == 1 ==> has(text, "  only one marker: no stride to measure\n"@)
            &&& places.len() > 1 ==> has(
                text,
                "  most common stride: "@ + decimal(stride as nat) + " bytes, "@ + decimal(count)
                    + " of "@ + decimal(interval_count(places)) + " intervals\n"@,
            )
            &&& places.len() > 1 && count * 2 < interval_count(places) ==> has(text, doubt)
            &&& places.len() > 1 ==> has(text, indented(advice(stride as u64)))
        }),
{
    let stride = modal_stride_of(places);
    let count = strides_of(places, stride);
    let parts = lemma_trial(places, total);
    let text = frame_trial_text(places, total);
    assert(has(text, parts[1]));
    if places.len() == 0 {
        assert(has(text, parts[2]));
    } else {
        assert(has(text, parts[2]) && has(text, parts[3]) && has(text, parts[4]) && has(
            text,
            parts[5],
        ) && has(text, parts[6]) && has(text, parts[7]));
        if places.len() > 1 {
            assert(has(text, parts[8]));
            if count * 2 < interval_count(places) {
                assert(has(text, parts[10]));
            }
        }
    }
}

spec fn has_all(text: Seq<char>, parts: Seq<Seq<char>>) -> bool {
    forall|i: int| 0 <= i < parts.len() ==> has(text, #[trigger] parts[i])
}

proof fn lemma_extend(text: Seq<char>, parts: Seq<Seq<char>>, part: Seq<char>) -> (more: Seq<
    Seq<char>,
>)
    requires
        has_all(text, parts),
    ensures
        more == parts.push(part),
        has_all(text + part, more),
{
    let more = parts.push(part);
    let none = Seq::<char>::empty();
    assert forall|i: int| 0 <= i < more.len() implies has(text + part, #[trigger] more[i]) by {
        if i < parts.len() {
            assert(has(text, parts[i]));
            lemma_has_longer(text, parts[i], part);
        } else {
            assert(text + part =~= text + part + none);
            lemma_has(text + part, text, part, none);
        }
    }
    more
}

/// The parts of a trial.
#[verifier::rlimit(60)]
#[verifier::spinoff_prover]
proof fn lemma_trial(places: Seq<int>, total: u64) -> (parts: Seq<Seq<char>>)
    ensures
        has_all(frame_trial_text(places, total), parts),
        parts.len() >= 3,
        parts[1] == "  sync markers found: "@ + decimal(places.len()) + "\n"@,
        places.len() == 0 ==> parts[2] == "  no 0x1ACFFC1D in "@ + decimal(total as nat),
        places.len() > 0 ==> parts.len() >= 8 && parts[2] == "  first marker at: "@ + decimal(
            places[0] as nat,
        ) + "\n"@ && parts[4] == candidate_row(places, 1115) && parts[5] == candidate_row(
            places,
            1279,
        ) && parts[6] == candidate_row(places, 2048) && parts[7] == candidate_row(places, 892),
        places.len() == 1 ==> parts[3] == "  only one marker: no stride to measure\n"@,
        places.len() > 1 ==> parts.len() >= 9 && parts[3] == "  most common stride: "@ + decimal(
            modal_stride_of(places) as nat,
        ) + " bytes, "@ + decimal(strides_of(places, modal_stride_of(places))) + " of "@ + decimal(
            interval_count(places),
        ) + " intervals\n"@,
        places.len() > 1 && strides_of(places, modal_stride_of(places)) * 2 < interval_count(places)
            ==> parts.len() == 11 && parts[8] == "  the stride is not consistent: "@ + decimal(
            strides_of(places, modal_stride_of(places)),
        ) + " of "@ + decimal(interval_count(places)) && parts[10] == indented(
            advice(modal_stride_of(places) as u64),
        ),
        places.len() > 1 && strides_of(places, modal_stride_of(places)) * 2 >= interval_count(places)
            ==> parts.len() == 9 && parts[8] == indented(advice(modal_stride_of(places) as u64)),
{
    let none = Seq::<char>::empty();
    reveal_strlit("\ntransfer frames\n  sync markers found: ");
    reveal_strlit("  sync markers found: ");
    let opening = "\ntransfer frames\n  sync markers found: "@;
    let title = opening.take(17);
    assert(opening =~= title + "  sync markers found: "@);
    let found = "  sync markers found: "@ + decimal(places.len()) + "\n"@;
    let head = opening + decimal(places.len()) + "\n"@;
    assert(head =~= title + found);
    let empty = Seq::<Seq<char>>::empty();
    assert(none + title =~= title);
    let p0 = lemma_extend(none, empty, title);
    let p1 = lemma_extend(title, p0, found);
    if places.len() == 0 {
        let line = "  no 0x1ACFFC1D in "@ + decimal(total as nat);
        let p2 = lemma_extend(head, p1, line);
        let text = frame_trial_text(places, total);
        let end =
            " bytes. Either this is not a transfer frame stream, or\n  the markers were stripped by the receiver — try --framing tm --no-asm with a\n  --frame-length the mission gave you.\n"@;
        assert(head + "  no 0x1ACFFC1D in "@ + decimal(total as nat) =~= head + line);
        let p3 = lemma_extend(head + line, p2, end);
        p3
    } else {
        lemma_trial_found(places, total, head, p1)
    }
}

#[verifier::rlimit(60)]
#[verifier::spinoff_prover]
proof fn lemma_trial_found(
    places: Seq<int>,
    total: u64,
    head: Seq<char>,
    before: Seq<Seq<char>>,
) -> (parts: Seq<Seq<char>>)
    requires
        places.len() > 0,
        head == "\ntransfer frames\n  sync markers found: "@ + decimal(places.len()) + "\n"@,
        has_all(head, before),
        before.len() == 2,
    ensures
        has_all(frame_trial_text(places, total), parts),
        parts.len() >= 8,
        parts[1] == before[1],
        parts[2] == "  first marker at: "@ + decimal(places[0] as nat) + "\n"@,
        parts[4] == candidate_row(places, 1115) && parts[5] == candidate_row(places, 1279)
            && parts[6] == candidate_row(places, 2048) && parts[7] == candidate_row(places, 892),
        places.len() == 1 ==> parts[3] == "  only one marker: no stride to measure\n"@,
        places.len() > 1 ==> parts.len() >= 9 && parts[3] == "  most common stride: "@ + decimal(
            modal_stride_of(places) as nat,
        ) + " bytes, "@ + decimal(strides_of(places, modal_stride_of(places))) + " of "@ + decimal(
            interval_count(places),
        ) + " intervals\n"@,
        places.len() > 1 && strides_of(places, modal_stride_of(places)) * 2 < interval_count(places)
            ==> parts.len() == 11 && parts[8] == "  the stride is not consistent: "@ + decimal(
            strides_of(places, modal_stride_of(places)),
        ) + " of "@ + decimal(interval_count(places)) && parts[10] == indented(
            advice(modal_stride_of(places) as u64),
        ),
        places.len() > 1 && strides_of(places, modal_stride_of(places)) * 2 >= interval_count(places)
            ==> parts.len() == 9 && parts[8] == indented(advice(modal_stride_of(places) as u64)),
{
    let stride = modal_stride_of(places);
    let count = strides_of(places, stride);
    let at = "  first marker at: "@ + decimal(places[0] as nat) + "\n"@;
    let stated = if places.len() == 1 {
        "  only one marker: no stride to measure\n"@
    } else {
        "  most common stride: "@ + decimal(stride as nat) + " bytes, "@ + decimal(count) + " of "@
            + decimal(interval_count(places)) + " intervals\n"@
    };
    let found = head + "  first marker at: "@ + decimal(places[0] as nat) + "\n"@;
    assert(found =~= head + at);
    let p2 = lemma_extend(head, before, at);
    let p3 = lemma_extend(found, p2, stated);
    let measured = if places.len() == 1 {
        found + "  only one marker: no stride to measure\n"@
    } else {
        found + "  most common stride: "@ + decimal(stride as nat) + " bytes, "@ + decimal(count)
            + " of "@ + decimal(interval_count(places)) + " intervals\n"@
    };
    assert(measured =~= found + stated);
    let (a, b, c, d) = (
        candidate_row(places, 1115),
        candidate_row(places, 1279),
        candidate_row(places, 2048),
        candidate_row(places, 892),
    );
    let p4 = lemma_extend(measured, p3, a);
    let p5 = lemma_extend(measured + a, p4, b);
    let p6 = lemma_extend(measured + a + b, p5, c);
    let p7 = lemma_extend(measured + a + b + c, p6, d);
    let tried = measured + a + b + c + d;
    if places.len() == 1 {
        p7
    } else {
        let advised = indented(advice(stride as u64));
        if count * 2 < interval_count(places) {
            let doubt = "  the stride is not consistent: "@ + decimal(count) + " of "@ + decimal(
                interval_count(places),
            );
            let why =
                " intervals. The markers are probably\n  in the data rather than between frames.\n"@;
            let p8 = lemma_extend(tried, p7, doubt);
            let p9 = lemma_extend(tried + doubt, p8, why);
            let p10 = lemma_extend(tried + doubt + why, p9, advised);
            assert(tried + "  the stride is not consistent: "@ + decimal(count) + " of "@ + decimal(
                interval_count(places),
            ) + why =~= tried + doubt + why);
            p10
        } else {
            lemma_extend(tried, p7, advised)
        }
    }
}

/// Lines of advice are indented, each on its own.
pub proof fn advice_is_indented(lines: Seq<Seq<char>>, line: Seq<char>)
    ensures
        indented(Seq::<Seq<char>>::empty()).len() == 0,
        indented(lines.push(line)) == indented(lines) + (seq![' ', ' '] + line + seq!['\n']),
{
    reveal_strlit("  ");
    reveal_strlit("\n");
    assert(lines.push(line).drop_last() =~= lines);
    assert("  "@ =~= seq![' ', ' ']);
    assert("\n"@ =~= seq!['\n']);
}

/// A packet is tallied under its own APID and under no other, and listed while the list is short of
/// what was asked for, behind the others.
pub proof fn a_packet_is_tallied_under_its_apid(probe: ProbeView, bytes: Seq<u8>, other: int)
    requires
        probe.tallies.len() == 2048,
        0 <= other < 2048,
        bytes.len() <= usize::MAX,
    ensures
        ({
            let after = packet_filed(probe, bytes);
            let apid = if bytes.len() >= 6 {
                crate::packet::apid_of(bytes)
            } else {
                0
            };
            let sequence = if bytes.len() >= 6 {
                crate::packet::count_of(bytes)
            } else {
                0
            };
            &&& other == apid ==> after.tallies[other] == tallied(
                probe.tallies[other],
                bytes.len() as usize,
                sequence as u16,
            )
            &&& other != apid ==> after.tallies[other] == probe.tallies[other]
            &&& probe.first.len() < probe.sample ==> after.first.len() == probe.first.len() + 1
                && after.first.drop_last() == probe.first && after.first.last().0 == apid
                && after.first.last().1 == sequence && after.first.last().2 == bytes.len()
            &&& probe.first.len() >= probe.sample ==> after.first == probe.first
            &&& after.stream == probe.stream
            &&& after.limit == probe.limit && after.sample == probe.sample
        }),
{
    let after = packet_filed(probe, bytes);
    if probe.first.len() < probe.sample {
        assert(after.first.drop_last() =~= probe.first);
    }
}

} // verus!
