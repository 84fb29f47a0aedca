//! Acquisition, the queue between its two sides, and what a session is started from.

use std::collections::VecDeque;

use xtce_gs::acquire::{
    Acquisition, Act, Happened, Todo, DECODER_BEHIND, DECODER_GONE, SESSION_CLOSED, SOURCE_ENDED,
    SOURCE_GONE, STREAM_RESTARTED,
};
use xtce_gs::config::{SessionConfig, TimeFormat, TimeSource};
use xtce_gs::decode::{empty_batch, PacketDecoder};
use xtce_gs::dispatch::{Acquired, Answer, Dispatch, Step, PACKET_QUEUE_DEPTH};
use xtce_gs::error::EngineError;
use xtce_gs::event::{Event, EventLog, Severity};
use xtce_gs::ids::ParamId;
use xtce_gs::limits::{Limit, LimitSet};
use xtce_gs::link::{is_transient, source_kind, ReadFailure, SourceSpec};
use xtce_gs::packet::RawPacket;
use xtce_gs::session::{log, Session};
use xtce_gs::stats::{Counter, LinkStats};
use xtce_gs::time::Utc;

fn packet(sequence: u16) -> Acquired {
    let mut bytes = vec![0x00, 0x64];
    bytes.extend_from_slice(&(0xC000 | sequence).to_be_bytes());
    bytes.extend_from_slice(&[0, 0, 0]);
    Acquired::Packet(RawPacket::now(bytes))
}

fn sequence_of(item: &Acquired) -> Option<u16> {
    match item {
        Acquired::Packet(packet) => packet.sequence_count(),
        Acquired::Restart => None,
    }
}

/// A channel with room for so many items.
struct Channel {
    items: VecDeque<Acquired>,
    room: usize,
}

impl Channel {
    fn try_send(&mut self, item: Acquired) -> Answer {
        if self.items.len() < self.room {
            self.items.push_back(item);
            Answer::Sent
        } else {
            Answer::Full(item)
        }
    }
}

/// Runs a step to where nothing more can be offered. What has to wait is handed back.
fn settle(dispatch: &mut Dispatch, channel: &mut Channel, mut step: Step) -> Option<Acquired> {
    loop {
        match step {
            Step::Offer(item) => {
                let answer = channel.try_send(item);
                step = dispatch.answer(answer);
            }
            Step::Wait(item) => return Some(item),
            Step::Done => return None,
            Step::Gone => panic!("the channel is open"),
        }
    }
}

#[test]
fn a_full_live_queue_drops_a_packet_rather_than_a_restart() {
    let mut channel = Channel {
        items: VecDeque::new(),
        room: 1,
    };
    let mut dispatch = Dispatch::new(2, true);

    // Fill the channel and the ring, then restart, then keep sending.
    for sequence in 0..3u16 {
        let step = dispatch.send(packet(sequence));
        assert!(settle(&mut dispatch, &mut channel, step).is_none());
    }
    let step = dispatch.send(Acquired::Restart);
    assert!(settle(&mut dispatch, &mut channel, step).is_none());
    for sequence in 3..8u16 {
        let step = dispatch.send(packet(sequence));
        assert!(settle(&mut dispatch, &mut channel, step).is_none());
    }

    let mut seen_restart = false;
    let mut packets = Vec::new();
    while let Some(item) = channel.items.pop_front() {
        match &item {
            Acquired::Restart => seen_restart = true,
            Acquired::Packet(_) => packets.extend(sequence_of(&item)),
        }
        let step = dispatch.flush();
        assert!(settle(&mut dispatch, &mut channel, step).is_none());
    }

    assert!(
        seen_restart,
        "the restart marker was evicted; the decoder will never reset at the boundary"
    );
    assert!(
        dispatch.dropped() > 0,
        "the fixture did not actually overflow the queue"
    );
    assert!(
        packets.windows(2).all(|pair| pair[0] < pair[1]),
        "packets came back out of order: {packets:?}"
    );
}

#[test]
fn a_full_live_queue_drops_the_oldest_queued_packet_and_counts_it() {
    let mut channel = Channel {
        items: VecDeque::new(),
        room: 1,
    };
    let mut dispatch = Dispatch::new(2, true);

    for sequence in 0..5u16 {
        let step = dispatch.send(packet(sequence));
        assert!(settle(&mut dispatch, &mut channel, step).is_none());
    }

    // One slot in the channel, two in the ring: packet 0 was handed over, 3 and 4 are the
    // newest survivors, and 1 and 2 — the oldest still in hand — are what went.
    assert_eq!(dispatch.dropped(), 2);
    for expected in [0, 3, 4] {
        let item = channel.items.pop_front();
        assert_eq!(item.as_ref().and_then(sequence_of), Some(expected));
        let step = dispatch.flush();
        assert!(settle(&mut dispatch, &mut channel, step).is_none());
    }
    assert!(!dispatch.is_backed_up());
}

#[test]
fn a_replay_waits_for_room_rather_than_dropping() {
    let mut channel = Channel {
        items: VecDeque::new(),
        room: 1,
    };
    let mut dispatch = Dispatch::new(2, false);

    let step = dispatch.send(packet(0));
    assert!(settle(&mut dispatch, &mut channel, step).is_none(), "room");
    // The channel is full now. The item must wait until something is taken out.
    let step = dispatch.send(packet(1));
    let waiting = settle(&mut dispatch, &mut channel, step);
    assert_eq!(waiting.as_ref().and_then(sequence_of), Some(1), "a replay must block, not drop");
    assert_eq!(dispatch.dropped(), 0);
    assert!(!dispatch.is_backed_up());
}

#[test]
fn a_ring_of_restarts_refuses_a_packet_and_keeps_them_all() {
    let mut dispatch = Dispatch::new(2, true);
    for _ in 0..3 {
        dispatch.push(Acquired::Restart);
    }
    dispatch.push(packet(1));
    assert_eq!(dispatch.dropped(), 1);
    for _ in 0..3 {
        assert!(matches!(dispatch.drain(), Some(Acquired::Restart)));
    }
    assert!(dispatch.drain().is_none());
}

fn acquisition(record: Option<&str>, lossy: bool) -> Acquisition {
    Acquisition::new(
        "udp://0.0.0.0:0".to_string(),
        record.map(str::to_string),
        Dispatch::new(2, lossy),
    )
}

fn said(todo: &Todo) -> Vec<(Severity, &'static str, String)> {
    todo.log
        .iter()
        .map(|event| (event.severity, event.source, event.message.clone()))
        .collect()
}

fn connected(task: &mut Acquisition) -> Todo {
    task.step(Happened::Connected {
        described: "udp://127.0.0.1:4000".to_string(),
        stopped: false,
    })
}

/// As far as the first read.
fn reading(record: Option<&str>, lossy: bool) -> Acquisition {
    let mut task = acquisition(record, lossy);
    let todo = connected(&mut task);
    if matches!(todo.act, Act::OpenRecorder) {
        task.step(Happened::RecorderOpened(Ok(())));
    }
    let todo = task.step(Happened::StopFlag(false));
    assert!(matches!(todo.act, Act::Read { backed_up: false }));
    task
}

#[test]
fn a_session_stopped_before_the_first_poll_opens_neither_source_nor_recording() {
    let mut task = acquisition(Some("pass.rec"), true);
    let todo = task.step(Happened::Stopped);
    assert!(matches!(todo.act, Act::End));
    assert!(todo.log.is_empty());

    let mut task = acquisition(Some("pass.rec"), true);
    let todo = task.step(Happened::Connected {
        described: "file://x".to_string(),
        stopped: true,
    });
    assert!(matches!(todo.act, Act::End), "a recording would have been opened");
    assert!(todo.log.is_empty(), "the task logged that it was reading");
    assert_eq!(task.described(), "udp://0.0.0.0:0");
}

#[test]
fn opening_says_what_is_read_and_where_it_is_recorded() {
    let mut task = acquisition(Some("pass.rec"), true);
    let todo = connected(&mut task);
    assert!(matches!(todo.act, Act::OpenRecorder));
    assert_eq!(
        said(&todo),
        vec![(Severity::Info, "session", "reading udp://127.0.0.1:4000".to_string())]
    );
    assert_eq!(task.described(), "udp://127.0.0.1:4000");
    assert_eq!(task.record(), Some("pass.rec"));
    let todo = task.step(Happened::RecorderOpened(Ok(())));
    assert!(matches!(todo.act, Act::CheckStop) && task.is_recording());
    assert_eq!(
        said(&todo),
        vec![(Severity::Info, "session", "recording to pass.rec".to_string())]
    );

    let mut task = acquisition(None, true);
    let todo = task.step(Happened::ConnectFailed("no route".to_string()));
    assert!(matches!(todo.act, Act::End));
    assert_eq!(
        said(&todo),
        vec![(Severity::Error, "session", "udp://0.0.0.0:0: no route".to_string())]
    );
}

#[test]
fn a_recording_that_fails_does_not_cost_the_pass() {
    let mut task = acquisition(Some("pass.rec"), true);
    connected(&mut task);
    let todo = task.step(Happened::RecorderOpened(Err("denied".to_string())));
    assert!(matches!(todo.act, Act::CheckStop));
    assert_eq!(
        said(&todo),
        vec![(Severity::Error, "session", "pass.rec: denied".to_string())]
    );

    let mut task = reading(Some("pass.rec"), true);
    let todo = task.step(Happened::Read(10));
    assert!(matches!(todo.act, Act::Record), "recorded before it is taken apart");
    let todo = task.step(Happened::Recorded(Err("disk full".to_string())));
    assert!(matches!(todo.act, Act::AskRestart));
    assert!(!task.is_recording());
    assert_eq!(
        said(&todo),
        vec![(Severity::Error, "session", "recording stopped: disk full".to_string())]
    );
}

#[test]
fn a_source_is_given_up_at_the_sixteenth_failure_in_a_row() {
    let mut task = reading(None, true);
    for _ in 0..15 {
        let failed = Happened::ReadFailed(ReadFailure::Interrupted, "interrupted".to_string());
        let todo = task.step(failed);
        assert!(matches!(todo.act, Act::CheckStop));
        assert_eq!(said(&todo), vec![(Severity::Error, "link", "interrupted".to_string())]);
        task.step(Happened::StopFlag(false));
    }
    let failed = Happened::ReadFailed(ReadFailure::TimedOut, "timed out".to_string());
    let todo = task.step(failed);
    assert!(matches!(todo.act, Act::End));
    assert_eq!(
        said(&todo),
        vec![
            (Severity::Error, "link", "timed out".to_string()),
            (Severity::Error, "session", SOURCE_GONE.to_string()),
        ]
    );

    let mut task = reading(None, true);
    let failed = Happened::ReadFailed(ReadFailure::Config, "no".to_string());
    assert!(matches!(task.step(failed).act, Act::End));
    for failure in [ReadFailure::ConnectionReset, ReadFailure::WouldBlock] {
        assert!(is_transient(failure));
    }
    for failure in [ReadFailure::Other, ReadFailure::Ended] {
        assert!(!is_transient(failure));
    }
}

#[test]
fn a_restart_goes_ahead_of_the_packets_behind_it() {
    let mut task = reading(None, true);
    assert!(matches!(task.step(Happened::Read(7)).act, Act::AskRestart));
    assert!(matches!(task.step(Happened::RestartFlag(true)).act, Act::FlushLink));
    let todo = task.step(Happened::LinkFlushed);
    assert!(matches!(todo.act, Act::Offer(Acquired::Restart)));
    assert_eq!(said(&todo), vec![(Severity::Info, "link", STREAM_RESTARTED.to_string())]);
    assert!(matches!(task.step(Happened::Answered(Answer::Sent)).act, Act::Push));
    let mut chunk = VecDeque::new();
    for sequence in 1..3u16 {
        if let Acquired::Packet(packet) = packet(sequence) {
            chunk.push_back(packet);
        }
    }
    let todo = task.step(Happened::Pushed(chunk));
    assert!(matches!(&todo.act, Act::Offer(item) if sequence_of(item) == Some(1)));
    let todo = task.step(Happened::Answered(Answer::Sent));
    assert!(matches!(&todo.act, Act::Offer(item) if sequence_of(item) == Some(2)));
    let todo = task.step(Happened::Answered(Answer::Sent));
    assert!(matches!(todo.act, Act::CheckStop));
    assert!(todo.log.is_empty());
}

#[test]
fn a_decoder_that_is_behind_is_said_to_be_once_per_chunk() {
    let mut task = reading(None, true);
    task.step(Happened::Read(7));
    task.step(Happened::RestartFlag(false));
    let mut chunk = VecDeque::new();
    for sequence in 0..5u16 {
        if let Acquired::Packet(packet) = packet(sequence) {
            chunk.push_back(packet);
        }
    }
    let mut todo = task.step(Happened::Pushed(chunk));
    // The channel is full from the first packet on: two stay in the ring, three are dropped.
    while let Act::Offer(item) = todo.act {
        todo = task.step(Happened::Answered(Answer::Full(item)));
    }
    assert!(matches!(todo.act, Act::CheckStop));
    assert_eq!(task.dropped(), 3);
    assert_eq!(said(&todo), vec![(Severity::Warning, "session", DECODER_BEHIND.to_string())]);

    // What is in the ring goes first once there is room.
    let todo = task.step(Happened::StopFlag(false));
    assert!(matches!(&todo.act, Act::Offer(item) if sequence_of(item) == Some(3)));
    let Act::Offer(item) = todo.act else {
        unreachable!()
    };
    let todo = task.step(Happened::Answered(Answer::Full(item)));
    assert!(matches!(todo.act, Act::Read { backed_up: true }));
    assert!(matches!(task.step(Happened::Room(true)).act, Act::CheckStop));
}

#[test]
fn a_stream_that_ends_is_flushed_and_its_ring_handed_over() {
    let mut task = reading(Some("pass.rec"), true);
    task.step(Happened::Read(7));
    task.step(Happened::Recorded(Ok(())));
    task.step(Happened::RestartFlag(false));
    let mut chunk = VecDeque::new();
    if let Acquired::Packet(packet) = packet(9) {
        chunk.push_back(packet);
    }
    let todo = task.step(Happened::Pushed(chunk));
    let Act::Offer(item) = todo.act else {
        panic!("not offered")
    };
    task.step(Happened::Answered(Answer::Full(item)));
    let todo = task.step(Happened::StopFlag(false));
    let Act::Offer(item) = todo.act else {
        panic!("not offered")
    };
    task.step(Happened::Answered(Answer::Full(item)));

    assert!(matches!(task.step(Happened::Read(0)).act, Act::FlushAndLog));
    let todo = task.step(Happened::LinkFlushed);
    assert_eq!(said(&todo), vec![(Severity::Info, "session", SOURCE_ENDED.to_string())]);
    assert!(matches!(&todo.act, Act::Wait(item) if sequence_of(item) == Some(9)));
    assert!(matches!(task.step(Happened::Waited(true)).act, Act::FlushRecorder));
    let todo = task.step(Happened::RecorderFlushed(Err("disk full".to_string())));
    assert!(matches!(todo.act, Act::End));
    assert_eq!(
        said(&todo),
        vec![(Severity::Error, "session", "recording: disk full".to_string())]
    );
    assert!(matches!(task.step(Happened::Read(5)).act, Act::End), "what is over stays over");
}

#[test]
fn a_shut_down_replay_stops_waiting_for_room() {
    for (stopped, line) in [
        (true, (Severity::Info, "session", SESSION_CLOSED.to_string())),
        (false, (Severity::Error, "session", DECODER_GONE.to_string())),
    ] {
        let mut task = reading(None, false);
        task.step(Happened::Read(7));
        task.step(Happened::RestartFlag(false));
        let mut chunk = VecDeque::new();
        if let Acquired::Packet(packet) = packet(1) {
            chunk.push_back(packet);
        }
        let todo = task.step(Happened::Pushed(chunk));
        let Act::Offer(item) = todo.act else {
            panic!("not offered")
        };
        let todo = task.step(Happened::Answered(Answer::Full(item)));
        assert!(matches!(todo.act, Act::Wait(_)), "a replay waits");
        assert!(matches!(task.step(Happened::Waited(false)).act, Act::CheckStop));
        let todo = task.step(Happened::StopFlag(stopped));
        assert!(matches!(todo.act, Act::End));
        assert_eq!(said(&todo), vec![line]);
    }
}

fn config() -> SessionConfig {
    SessionConfig {
        definition: "mission.xml".to_string(),
        history_depth: 5,
        event_capacity: 3,
        ..SessionConfig::unfinished(65_542)
    }
}

fn started(config: SessionConfig) -> (Session, Acquisition, PacketDecoder) {
    let started = Session::start(
        config,
        "udp://0.0.0.0:10015".to_string(),
        Ok(()),
        Ok(4),
        Ok(()),
        None,
        None,
    );
    match started {
        Ok(parts) => parts,
        Err(error) => panic!("{error:?}"),
    }
}

#[test]
fn a_session_starts_from_its_configuration() {
    let (session, task, packets) = started(config());
    assert_eq!(session.config().definition, "mission.xml");
    assert_eq!(session.store().parameter_count(), 4);
    assert_eq!(session.store().depth(), 5);
    assert!(session.events().is_empty());
    assert!(session.limits().is_empty());
    assert_eq!(session.stats().snapshot().packets_in, 0);
    assert_eq!(session.describe_source(), "udp://0.0.0.0:10015");
    assert!(session.is_running() && !session.is_stopping());
    assert_eq!(session.dropped(), 0);
    assert_eq!(task.record(), None);
    assert!(packets.clock().is_none());
    assert_eq!(PACKET_QUEUE_DEPTH, 1024);
}

#[test]
fn the_first_thing_that_will_not_open_is_the_one_that_is_named() {
    let start = |config, framing, definition, root, limits, clock| {
        Session::start(config, "x".to_string(), framing, definition, root, limits, clock)
            .err()
            .unwrap_or_else(|| panic!("expected a refusal"))
    };
    let text = |reason: &str| reason.to_string();
    let clocked = || SessionConfig {
        spacecraft_time: Some(TimeSource {
            parameter: "/Sat/TIME".to_string(),
            format: TimeFormat::Seconds { epoch: Utc::epoch() },
        }),
        ..config()
    };
    let error = start(config(), Err(text("framing")), Err(text("xml")), Ok(()), None, None);
    assert!(matches!(error, EngineError::Link(reason) if reason == "framing"));
    let error = start(config(), Ok(()), Err(text("xml")), Err(text("root")), None, None);
    assert!(matches!(error, EngineError::Xtce(reason) if reason == "xml"));
    let limits = Some(Err(EngineError::Io(text("limits"))));
    let error = start(config(), Ok(()), Ok(1), Err(text("root")), limits, None);
    assert!(matches!(error, EngineError::Decode(reason) if reason == "root"));
    let limits = Some(Err(EngineError::Io(text("limits"))));
    let error = start(clocked(), Ok(()), Ok(1), Ok(()), limits, None);
    assert!(matches!(error, EngineError::Io(reason) if reason == "limits"));
    let error = start(clocked(), Ok(()), Ok(1), Ok(()), None, None);
    assert!(matches!(error, EngineError::Config(reason) if reason.contains("/Sat/TIME")));

    let mut set = LimitSet::new();
    set.insert("/Sat/TEMP".to_string(), Limit::default());
    let (session, _, packets) = Session::start(
        clocked(),
        "x".to_string(),
        Ok(()),
        Ok(1),
        Ok(()),
        Some(Ok(set)),
        Some(ParamId::new(0)),
    )
    .unwrap();
    assert_eq!(session.limits().len(), 1);
    assert!(packets.clock().is_some());
}

#[test]
fn shutting_down_twice_is_fine_and_the_second_time_changes_nothing() {
    let (mut session, _, _) = started(config());
    assert!(session.is_running());
    session.shutdown();
    assert!(!session.is_running());
    session.shutdown();
    assert!(!session.is_running());
    assert!(session.is_stopping());
}

#[test]
fn a_session_knows_what_its_tasks_tell_it() {
    let (mut session, mut task, mut packets) = started(config());
    connected(&mut task);
    session.observe(&task);
    assert_eq!(session.describe_source(), "udp://127.0.0.1:4000");

    let mut batch = empty_batch();
    let stump = RawPacket::now(Vec::new());
    let refused = Err(xtce_gs::decoded::DecodeError {
        kind: xtce_gs::decoded::DecodeErrorKind::Other,
        message: "no".to_string(),
    });
    assert!(packets.decode_owned(refused, &stump, &mut batch).is_err());
    let mut link = LinkStats::new();
    link.add(Counter::BytesIn, 9);
    link.add(Counter::PacketsRejected, 77);
    session.count(&link, &packets);
    let snapshot = session.stats().snapshot();
    assert_eq!((snapshot.bytes_in, snapshot.packets_rejected), (9, 1));
    assert_eq!(snapshot.last_packet, Some(stump.received));

    for line in ["one", "two", "two", "three", "four"] {
        session.log(Event::info("session", line.to_string()));
    }
    assert_eq!(session.events().len(), 3, "as many lines as were configured");
    assert_eq!(session.events().total(), 5);

    assert!(!session.file(&Vec::new()), "nothing to repaint for");
    assert!(session.file(&vec![empty_batch()]));
    assert_eq!(session.store().ingested(), 1);
    session.finish();
    assert!(!session.is_running() && !session.is_stopping());
}

#[test]
fn a_line_for_the_log_is_a_line_on_the_log() {
    let mut events = EventLog::with_capacity(4);
    log(&mut events, Event::error("session", "and this is why".to_string()));
    assert_eq!(events.len(), 1);
    assert_eq!(events.last().map(|event| event.severity), Some(Severity::Error));
}

#[test]
fn sources_are_named_by_what_they_can_carry() {
    let file = SourceSpec::File {
        path: "x".to_string(),
        bytes_per_second: None,
        chunk: 1,
        repeat: false,
    };
    assert_eq!(source_kind(&SourceSpec::Udp(String::new())), "UDP");
    assert_eq!(source_kind(&SourceSpec::TcpListen(String::new())), "TCP");
    assert_eq!(source_kind(&file), "file");
}

#[test]
fn a_ring_takes_no_more_packets_than_it_holds() {
    let mut dispatch = Dispatch::new(2, true);
    let count = |dispatch: &mut Dispatch| {
        let (mut packets, mut markers) = (0, 0);
        while let Some(item) = dispatch.drain() {
            match item {
                Acquired::Packet(_) => packets += 1,
                Acquired::Restart => markers += 1,
            }
        }
        (packets, markers)
    };
    for sequence in 0..5 {
        dispatch.push(packet(sequence));
    }
    assert_eq!(dispatch.dropped(), 3);
    assert_eq!(count(&mut dispatch), (2, 0));

    dispatch.push(packet(5));
    dispatch.push(Acquired::Restart);
    dispatch.push(Acquired::Restart);
    dispatch.push(Acquired::Restart);
    dispatch.push(packet(6));
    assert_eq!(dispatch.dropped(), 5);
    assert_eq!(count(&mut dispatch), (0, 3), "only markers are taken beyond the capacity");
}
