//! What a terminal is promised to show.

use vstd::prelude::*;

use crate::event::{EventView, Severity};
use crate::laws::text::{lemma_strung_push, lemma_strung_shows, shows, strung};
use crate::report::{
    event_text, is_shown, repeated_text, severity_letter, shown_lines, status_text,
};
use crate::stats::StatsSnapshot;
use crate::text::decimal;
use crate::time::{iso_text, Utc};

verus! {

/// A line shows when it was said, how serious it is, where it comes from and what it says.
pub proof fn a_line_shows_its_event(event: EventView)
    ensures
        shows(event_text(event), Seq::empty(), iso_text(event.time.nanos()), seq![' ']),
        shows(event_text(event), seq![' '], seq![severity_letter(event.severity)], seq![' ']),
        shows(event_text(event), seq![' '], event.source, seq![':', ' ']),
        shows(event_text(event), seq![':', ' '], event.message, Seq::empty()),
        event_text(event).len() == iso_text(event.time.nanos()).len() + 3 + event.source.len() + 2
            + event.message.len(),
        severity_letter(Severity::Info) == 'i',
        severity_letter(Severity::Warning) == '!',
        severity_letter(Severity::Error) == 'x',
{
    reveal_strlit(" ");
    reveal_strlit(": ");
    let none = Seq::<char>::empty();
    let t = iso_text(event.time.nanos());
    let l = seq![severity_letter(event.severity)];
    let (sp, co) = (seq![' '], seq![':', ' ']);
    let text = event_text(event);
    assert(text =~= none + none + t + sp + (l + sp + event.source + co + event.message));
    assert(text =~= t + sp + l + sp + (event.source + co + event.message));
    assert(text =~= (t + sp + l) + sp + event.source + co + event.message);
    assert(text =~= (t + sp + l + sp + event.source) + co + event.message + none + none);
}

/// Warnings and errors are always shown, and information where it is asked for.
pub proof fn what_is_shown(event: EventView)
    ensures
        is_shown(event, true),
        is_shown(event, false) <==> event.severity == Severity::Warning || event.severity
            == Severity::Error,
{
}

/// Events are shown in their order, those that are.
pub proof fn events_are_shown_in_order(events: Seq<EventView>, event: EventView, verbose: bool)
    ensures
        shown_lines(Seq::<EventView>::empty(), verbose).len() == 0,
        verbose || event.severity != Severity::Info ==> shown_lines(events.push(event), verbose)
            == shown_lines(events, verbose).push(event_text(event)),
        !verbose && event.severity == Severity::Info ==> shown_lines(events.push(event), verbose)
            == shown_lines(events, verbose),
{
    assert(events.push(event).drop_last() =~= events);
}

/// A line that was said more than once ends in how often; one that was said once does not.
pub proof fn a_repeat_shows_its_count(line: (EventView, u32))
    ensures
        line.1 <= 1 ==> repeated_text(line) == event_text(line.0),
        line.1 > 1 ==> repeated_text(line) == event_text(line.0) + seq![' ', '(', 'x'] + decimal(
            line.1 as nat,
        ) + seq![')'],
{
    reveal_strlit(" (x");
    reveal_strlit(")");
    if line.1 > 1 {
        assert(repeated_text(line) =~= event_text(line.0) + seq![' ', '(', 'x'] + decimal(
            line.1 as nat,
        ) + seq![')']);
    }
}

/// A status line shows each counter behind its name, the frame figures only where there are frames,
/// and how long ago the last packet was, or that there was none.
pub proof fn a_status_line_shows_the_counters(
    snapshot: StatsSnapshot,
    framed: bool,
    now: Utc,
    loss: Seq<char>,
    age: Seq<char>,
)
    ensures
        ({
            let text = status_text(snapshot, framed, now, loss, age);
            let none = Seq::<char>::empty();
            &&& shows(text, none, iso_text(now.nanos()), " bytes="@)
            &&& shows(text, " bytes="@, decimal(snapshot.bytes_in as nat), none)
            &&& shows(text, " packets="@, decimal(snapshot.packets_in as nat), " decoded="@)
            &&& shows(text, " decoded="@, decimal(snapshot.packets_decoded as nat), " rejected="@)
            &&& shows(text, " rejected="@, decimal(snapshot.packets_rejected as nat), " lost="@)
            &&& shows(text, " lost="@, decimal(snapshot.packets_lost as nat), " gaps="@)
            &&& shows(text, " gaps="@, decimal(snapshot.sequence_gaps as nat), " missing="@)
            &&& shows(text, " missing="@, decimal(snapshot.sequence_missing as nat), " last="@)
            &&& framed ==> shows(text, " frames="@, decimal(snapshot.frames_ok as nat), "/"@)
            &&& framed ==> shows(text, "/"@, decimal(snapshot.frames_seen as nat), " loss="@)
            &&& framed ==> shows(text, " loss="@, loss, "% rs="@)
            &&& framed ==> shows(text, "% rs="@, decimal(snapshot.rs_corrected as nat), "/"@)
            &&& framed ==> shows(text, "/"@, decimal(snapshot.rs_uncorrectable as nat), " crc="@)
            &&& framed ==> shows(text, " crc="@, decimal(snapshot.crc_failures as nat), " packets="@)
            &&& !framed ==> shows(
                text,
                " bytes="@,
                decimal(snapshot.bytes_in as nat),
                " packets="@,
            )
            &&& snapshot.last_packet is Some ==> shows(text, " last="@, age, "s ago"@)
            &&& snapshot.last_packet is None ==> shows(text, " last="@, "never"@, none)
        }),
{
    reveal_strlit(" last=never");
    reveal_strlit(" last=");
    reveal_strlit("never");
    let none = Seq::<char>::empty();
    let text = status_text(snapshot, framed, now, loss, age);
    let start = lemma_status_start(snapshot, now);
    let figures = lemma_status_frames(start, snapshot, framed, loss);
    let all = lemma_status_packets(figures, snapshot);
    let said = if snapshot.last_packet is Some {
        age
    } else {
        "never"@
    };
    let end = if snapshot.last_packet is Some {
        "s ago"@
    } else {
        none
    };
    let whole = all.push(" last="@).push(said).push(end);
    lemma_strung_push(all, " last="@);
    lemma_strung_push(all.push(" last="@), said);
    lemma_strung_push(all.push(" last="@).push(said), end);
    assert(text =~= strung(whole)) by {
        if snapshot.last_packet is None {
            assert(" last=never"@ =~= " last="@ + "never"@);
            assert(strung(all) + (" last="@ + "never"@) =~= strung(all) + " last="@ + "never"@ + none);
        }
    }
    let k = figures.len() as int;
    assert(whole[0] =~= none) by {
        assert(whole[0] == start[0]);
    }
    assert(whole[1] == start[1] && whole[2] == start[2] && whole[3] == start[3]);
    assert(whole[k + 12] == " last="@ && whole[k + 13] == said && whole[k + 14] == end);
    assert forall|i: int| 0 <= i < k implies (#[trigger] whole[i]) == figures[i] by {}
    lemma_strung_shows(whole, 0);
    lemma_strung_shows(whole, 2);
    lemma_strung_shows(whole, k);
    lemma_strung_shows(whole, k + 2);
    lemma_strung_shows(whole, k + 4);
    lemma_strung_shows(whole, k + 6);
    lemma_strung_shows(whole, k + 8);
    lemma_strung_shows(whole, k + 10);
    lemma_strung_shows(whole, k + 12);
    lemma_front_shown(text, " bytes="@, decimal(snapshot.bytes_in as nat), whole[4]);
    if framed {
        lemma_strung_shows(whole, 4);
        lemma_strung_shows(whole, 6);
        lemma_strung_shows(whole, 8);
        lemma_strung_shows(whole, 10);
        lemma_strung_shows(whole, 12);
        lemma_strung_shows(whole, 14);
    }
}

/// What is shown with something behind it is shown.
proof fn lemma_front_shown(text: Seq<char>, front: Seq<char>, shown: Seq<char>, behind: Seq<char>)
    requires
        shows(text, front, shown, behind),
    ensures
        shows(text, front, shown, Seq::empty()),
{
    let (a, b) = choose|a: Seq<char>, b: Seq<char>|
        text == #[trigger] (a + front + shown + behind + b);
    let none = Seq::<char>::empty();
    let more = behind + b;
    assert(text =~= a + front + shown + none + more);
}

/// How a status line begins.
proof fn lemma_status_start(snapshot: StatsSnapshot, now: Utc) -> (parts: Seq<Seq<char>>)
    ensures
        parts.len() == 4,
        parts[0].len() == 0,
        parts[1] == iso_text(now.nanos()),
        parts[2] == " bytes="@,
        parts[3] == decimal(snapshot.bytes_in as nat),
        strung(parts) == iso_text(now.nanos()) + " bytes="@ + decimal(snapshot.bytes_in as nat),
{
    let empty = Seq::<Seq<char>>::empty();
    let none = Seq::<char>::empty();
    let (t, b) = (iso_text(now.nanos()), decimal(snapshot.bytes_in as nat));
    lemma_strung_push(empty, none);
    lemma_strung_push(empty.push(none), t);
    lemma_strung_push(empty.push(none).push(t), " bytes="@);
    lemma_strung_push(empty.push(none).push(t).push(" bytes="@), b);
    let parts = empty.push(none).push(t).push(" bytes="@).push(b);
    assert(strung(parts) =~= t + " bytes="@ + b);
    parts
}

/// The figures of the frames, where there are frames.
proof fn lemma_status_frames(
    start: Seq<Seq<char>>,
    snapshot: StatsSnapshot,
    framed: bool,
    loss: Seq<char>,
) -> (parts: Seq<Seq<char>>)
    requires
        start.len() == 4,
    ensures
        !framed ==> parts == start,
        forall|i: int| 0 <= i < 4 ==> (#[trigger] parts[i]) == start[i],
        framed ==> {
            &&& parts.len() == 16
            &&& parts.take(4) == start
            &&& parts[4] == " frames="@ && parts[5] == decimal(snapshot.frames_ok as nat)
            &&& parts[6] == "/"@ && parts[7] == decimal(snapshot.frames_seen as nat)
            &&& parts[8] == " loss="@ && parts[9] == loss
            &&& parts[10] == "% rs="@ && parts[11] == decimal(snapshot.rs_corrected as nat)
            &&& parts[12] == "/"@ && parts[13] == decimal(snapshot.rs_uncorrectable as nat)
            &&& parts[14] == " crc="@ && parts[15] == decimal(snapshot.crc_failures as nat)
            &&& strung(parts) == strung(start) + " frames="@ + decimal(snapshot.frames_ok as nat)
                + "/"@ + decimal(snapshot.frames_seen as nat) + " loss="@ + loss + "% rs="@
                + decimal(snapshot.rs_corrected as nat) + "/"@ + decimal(
                snapshot.rs_uncorrectable as nat,
            ) + " crc="@ + decimal(snapshot.crc_failures as nat)
        },
{
    if framed {
        let a = lemma_two_more(start, " frames="@, decimal(snapshot.frames_ok as nat));
        let b = lemma_two_more(a, "/"@, decimal(snapshot.frames_seen as nat));
        let c = lemma_two_more(b, " loss="@, loss);
        let d = lemma_two_more(c, "% rs="@, decimal(snapshot.rs_corrected as nat));
        let e = lemma_two_more(d, "/"@, decimal(snapshot.rs_uncorrectable as nat));
        let f = lemma_two_more(e, " crc="@, decimal(snapshot.crc_failures as nat));
        assert(f.take(4) =~= start);
        f
    } else {
        start
    }
}

/// The figures of the packets.
proof fn lemma_status_packets(start: Seq<Seq<char>>, snapshot: StatsSnapshot) -> (parts: Seq<
    Seq<char>,
>)
    ensures
        parts.len() == start.len() + 12,
        parts.take(start.len() as int) == start,
        forall|i: int| 0 <= i < start.len() ==> (#[trigger] parts[i]) == start[i],
        parts[start.len() as int] == " packets="@,
        parts[start.len() as int + 1] == decimal(snapshot.packets_in as nat),
        parts[start.len() as int + 2] == " decoded="@,
        parts[start.len() as int + 3] == decimal(snapshot.packets_decoded as nat),
        parts[start.len() as int + 4] == " rejected="@,
        parts[start.len() as int + 5] == decimal(snapshot.packets_rejected as nat),
        parts[start.len() as int + 6] == " lost="@,
        parts[start.len() as int + 7] == decimal(snapshot.packets_lost as nat),
        parts[start.len() as int + 8] == " gaps="@,
        parts[start.len() as int + 9] == decimal(snapshot.sequence_gaps as nat),
        parts[start.len() as int + 10] == " missing="@,
        parts[start.len() as int + 11] == decimal(snapshot.sequence_missing as nat),
        strung(parts) == strung(start) + " packets="@ + decimal(snapshot.packets_in as nat)
            + " decoded="@ + decimal(snapshot.packets_decoded as nat) + " rejected="@ + decimal(
            snapshot.packets_rejected as nat,
        ) + " lost="@ + decimal(snapshot.packets_lost as nat) + " gaps="@ + decimal(
            snapshot.sequence_gaps as nat,
        ) + " missing="@ + decimal(snapshot.sequence_missing as nat),
{
    let a = lemma_two_more(start, " packets="@, decimal(snapshot.packets_in as nat));
    let b = lemma_two_more(a, " decoded="@, decimal(snapshot.packets_decoded as nat));
    let c = lemma_two_more(b, " rejected="@, decimal(snapshot.packets_rejected as nat));
    let d = lemma_two_more(c, " lost="@, decimal(snapshot.packets_lost as nat));
    let e = lemma_two_more(d, " gaps="@, decimal(snapshot.sequence_gaps as nat));
    let f = lemma_two_more(e, " missing="@, decimal(snapshot.sequence_missing as nat));
    assert(f.take(start.len() as int) =~= start);
    f
}

proof fn lemma_two_more(parts: Seq<Seq<char>>, one: Seq<char>, two: Seq<char>) -> (more: Seq<
    Seq<char>,
>)
    ensures
        more == parts.push(one).push(two),
        strung(more) == strung(parts) + one + two,
{
    lemma_strung_push(parts, one);
    lemma_strung_push(parts.push(one), two);
    parts.push(one).push(two)
}

} // verus!
