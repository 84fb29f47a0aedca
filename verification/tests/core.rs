//! The ring, the clock, the log, the limits, the values, the store and the counters.

use xtce_gs::event::{Event, EventLog, Severity};
use xtce_gs::float::Float64;
use xtce_gs::ids::{ContainerId, ParamId};
use xtce_gs::limits::{Limit, LimitSet, LimitState, Range};
use xtce_gs::packet::RawPacket;
use xtce_gs::ring::RingBuffer;
use xtce_gs::sample::{Batch, Sample};
use xtce_gs::stats::{Counter, LinkStats, StatsSnapshot};
use xtce_gs::store::{ParameterStore, Point};
use xtce_gs::time::Utc;
use xtce_gs::value::{EngValue, RawValue, Value, ValueKind};

fn double(value: f64) -> Float64 {
    Float64::from_bits(value.to_bits())
}

fn number(value: Float64) -> f64 {
    f64::from_bits(value.to_bits())
}

fn held(ring: &RingBuffer<i32>) -> Vec<i32> {
    ring.iter().into_iter().copied().collect()
}

#[test]
fn it_overwrites_the_oldest() {
    let mut ring = RingBuffer::with_capacity(3);
    for value in 1..=5 {
        ring.push(value);
    }
    assert_eq!(held(&ring), vec![3, 4, 5]);
    assert_eq!(ring.first(), Some(&3));
    assert_eq!(ring.last(), Some(&5));
}

#[test]
fn push_returns_what_it_evicted() {
    let mut ring = RingBuffer::with_capacity(2);
    assert_eq!(ring.push(1), None);
    assert_eq!(ring.push(2), None);
    assert_eq!(ring.push(3), Some(1));
}

#[test]
fn the_two_slices_are_the_whole_ring_in_order() {
    let mut ring = RingBuffer::with_capacity(4);
    for value in 1..=6 {
        ring.push(value);
    }
    let (old, new) = ring.as_slices();
    let joined: Vec<i32> = old.iter().chain(new.iter()).copied().collect();
    assert_eq!(joined, vec![3, 4, 5, 6]);
    assert_eq!(joined, held(&ring));
}

#[test]
fn a_zero_capacity_ring_accepts_nothing_and_survives() {
    let mut ring = RingBuffer::with_capacity(0);
    assert_eq!(ring.push(7), Some(7));
    assert!(ring.is_empty());
    assert_eq!(ring.last(), None);
}

#[test]
fn indexing_is_logical_not_physical() {
    let mut ring = RingBuffer::with_capacity(3);
    for value in 1..=4 {
        ring.push(value);
    }
    assert_eq!(ring.get(0), Some(&2));
    assert_eq!(ring.get(2), Some(&4));
    assert_eq!(ring.get(3), None);
}

#[test]
fn a_ring_holds_the_newest_of_everything_pushed() {
    for capacity in 0..6usize {
        let mut ring = RingBuffer::with_capacity(capacity);
        let mut all = Vec::new();
        for value in 0..20 {
            ring.push(value);
            all.push(value);
            let newest = all[all.len().saturating_sub(capacity)..].to_vec();
            assert_eq!(held(&ring), newest);
            assert_eq!(ring.len(), newest.len());
            assert_eq!(ring.is_full(), capacity > 0 && newest.len() == capacity);
        }
    }
}

#[test]
fn a_resized_ring_keeps_the_newest() {
    let mut ring = RingBuffer::with_capacity(4);
    for value in 1..=6 {
        ring.push(value);
    }
    ring.resize(2);
    assert_eq!(held(&ring), vec![5, 6]);
    assert_eq!(ring.capacity(), 2);
    ring.resize(3);
    ring.push(7);
    ring.push(8);
    assert_eq!(held(&ring), vec![6, 7, 8]);
    ring.clear();
    assert!(ring.is_empty());
    assert_eq!(ring.capacity(), 3);
}

#[test]
fn a_ring_can_be_written_in_place() {
    let mut ring = RingBuffer::with_capacity(3);
    for value in 1..=4 {
        ring.push(value);
    }
    if let Some(item) = ring.get_mut(1) {
        *item = 30;
    }
    if let Some(item) = ring.last_mut() {
        *item = 40;
    }
    assert_eq!(held(&ring), vec![2, 30, 40]);
    assert!(ring.get_mut(3).is_none());
}

#[test]
fn the_epoch_renders_as_the_epoch() {
    assert_eq!(Utc::epoch().to_string(), "1970-01-01T00:00:00.000Z");
}

#[test]
fn the_ccsds_epoch_is_1958() {
    assert_eq!(Utc::ccsds_epoch().to_string(), "1958-01-01T00:00:00.000Z");
}

#[test]
fn the_gps_epoch_is_the_sixth_of_january() {
    assert_eq!(Utc::gps_epoch().to_string(), "1980-01-06T00:00:00.000Z");
}

#[test]
fn a_leap_day_is_a_day() {
    // 2024-02-29T12:34:56.789Z
    let t = Utc::from_unix_secs(1_709_210_096).offset_nanos(789_000_000);
    assert_eq!(t.to_string(), "2024-02-29T12:34:56.789Z");
}

#[test]
fn instants_before_the_epoch_do_not_land_a_day_late() {
    // One second before the epoch is the last second of 1969.
    let t = Utc::from_unix_nanos(-1_000_000_000);
    assert_eq!(t.to_string(), "1969-12-31T23:59:59.000Z");
    // And a fraction of a second before it is still that day.
    let t = Utc::from_unix_nanos(-1);
    assert_eq!(t.to_string(), "1969-12-31T23:59:59.999Z");
}

#[test]
fn differences_are_signed() {
    let a = Utc::from_unix_secs(100);
    let b = Utc::from_unix_secs(130);
    assert_eq!(number(b.secs_since(a)), 30.0);
    assert_eq!(number(a.secs_since(b)), -30.0);
}

#[test]
fn the_ends_of_the_range_do_not_overflow() {
    for nanos in [i64::MIN, i64::MIN + 1, i64::MAX, i64::MAX - 1, 0, -1] {
        let rendered = Utc::from_unix_nanos(nanos).to_string();
        assert!(!rendered.is_empty(), "{nanos} rendered as nothing");
    }
}

#[test]
fn instants_saturate_at_the_ends() {
    let late = Utc::from_unix_nanos(i64::MAX);
    assert_eq!(late.offset_nanos(1), late);
    assert_eq!(Utc::from_unix_secs(i64::MAX), late);
    assert_eq!(Utc::from_unix_secs(i64::MIN), Utc::from_unix_nanos(i64::MIN));
    assert_eq!(late.since(Utc::from_unix_nanos(i64::MIN)), i64::MAX);
    assert_eq!(Utc::from_unix_nanos(i64::MIN).since(late), i64::MIN);
    assert_eq!(late.since(Utc::from_unix_nanos(1)), i64::MAX - 1);
}

#[test]
fn the_calendar_counts_every_day_once() {
    let mut expected = (1970, 1, 1);
    for day in 0..1500i64 {
        let (year, month, date, ..) = Utc::from_unix_secs(day * 86_400).civil();
        assert_eq!((year, month, date), expected);
        let leap = year % 4 == 0 && (year % 100 != 0 || year % 400 == 0);
        let length = match month {
            2 if leap => 29,
            2 => 28,
            4 | 6 | 9 | 11 => 30,
            _ => 31,
        };
        expected = if date < length {
            (year, month, date + 1)
        } else if month < 12 {
            (year, month + 1, 1)
        } else {
            (year + 1, 1, 1)
        };
    }
}

#[test]
fn the_wall_clock_is_read_and_not_made_up() {
    // 2020 is behind every machine that runs this, and 2262 ahead of it.
    let now = Utc::now();
    assert!(now.unix_nanos() > 1_577_836_800_000_000_000);
    assert!(now.unix_nanos() < i64::MAX);
    assert_eq!(Utc::from_clock(Ok(5)), Utc::from_unix_nanos(5));
    assert_eq!(Utc::from_clock(Err(5)), Utc::from_unix_nanos(-5));
    assert_eq!(Utc::from_clock(Ok(u128::MAX)), Utc::from_unix_nanos(i64::MAX));
}

#[test]
fn seconds_are_what_a_division_gives() {
    for nanos in [
        0,
        1,
        -1,
        999_999_999,
        1_757_000_000_123_456_789,
        -377_654_400_000_000_001,
        i64::MAX,
        i64::MIN,
    ] {
        let seconds = Utc::from_unix_nanos(nanos).unix_secs_f64();
        assert_eq!(seconds.to_bits(), (nanos as f64 / 1e9).to_bits(), "{nanos}");
        assert_eq!(seconds.cut_to_nanos(), (number(seconds) * 1e9) as i64, "{nanos}");
    }
    for seconds in [0.5, -0.5, 1e-20, 1e300, -1e300, f64::INFINITY, f64::NAN, 5e-324] {
        assert_eq!(double(seconds).cut_to_nanos(), (seconds * 1e9) as i64, "{seconds}");
    }
}

#[test]
fn quotients_are_what_a_division_gives() {
    for n in [0u64, 1, 3, 7, 1 << 53, (1 << 53) + 1, u64::MAX, 999_999_937] {
        for d in [1u64, 2, 3, 10, 1 << 53, (1 << 53) + 1, u64::MAX, 998] {
            let quotient = Float64::ratio(n, d);
            assert_eq!(quotient.to_bits(), (n as f64 / d as f64).to_bits(), "{n}/{d}");
        }
    }
}

#[test]
fn a_repeated_line_is_counted_not_appended() {
    let mut log = EventLog::with_capacity(8);
    for _ in 0..5 {
        log.push(Event::warning("frame", "CRC failed".to_string()));
    }
    assert_eq!(log.len(), 1);
    assert_eq!(log.iter().into_iter().next().map(|(_, count)| count), Some(5));
    assert_eq!(log.total(), 5);
}

#[test]
fn a_different_line_breaks_the_run() {
    let mut log = EventLog::with_capacity(8);
    log.push(Event::warning("frame", "CRC failed".to_string()));
    log.push(Event::info("link", "locked".to_string()));
    log.push(Event::warning("frame", "CRC failed".to_string()));
    assert_eq!(log.len(), 3);
}

#[test]
fn it_is_bounded() {
    let mut log = EventLog::with_capacity(2);
    for i in 0..10 {
        log.push(Event::info("link", format!("line {i}")));
    }
    assert_eq!(log.len(), 2);
    assert_eq!(log.last().map(|e| e.message.clone()), Some("line 9".into()));
}

#[test]
fn clearing_a_log_keeps_its_count() {
    let mut log = EventLog::with_capacity(4);
    log.push(Event::error("link", "gone".to_string()));
    log.clear();
    assert!(log.is_empty());
    assert_eq!(log.total(), 1);
    assert!(log.last().is_none());
}

#[test]
fn severities_have_letters_and_an_order() {
    assert_eq!(Severity::Info.letter(), 'i');
    assert_eq!(Severity::Warning.letter(), '!');
    assert_eq!(Severity::Error.letter(), 'x');
    assert!(Severity::Info < Severity::Warning && Severity::Warning < Severity::Error);
}

fn limit() -> Limit {
    Limit {
        warning: Range::new(double(-10.0), double(50.0)),
        alarm: Range::new(double(-20.0), double(70.0)),
    }
}

#[test]
fn the_bands_nest() {
    let limit = limit();
    assert_eq!(limit.evaluate(double(20.0)), LimitState::Nominal);
    assert_eq!(limit.evaluate(double(55.0)), LimitState::Warning);
    assert_eq!(limit.evaluate(double(80.0)), LimitState::Alarm);
    assert_eq!(limit.evaluate(double(-15.0)), LimitState::Warning);
    assert_eq!(limit.evaluate(double(-25.0)), LimitState::Alarm);
}

#[test]
fn the_edges_are_inside() {
    let limit = limit();
    assert_eq!(limit.evaluate(double(50.0)), LimitState::Nominal);
    assert_eq!(limit.evaluate(double(70.0)), LimitState::Warning);
}

#[test]
fn a_one_sided_range_only_bounds_one_side() {
    let limit = Limit {
        warning: Range {
            low: None,
            high: Some(double(100.0)),
        },
        alarm: Range::default(),
    };
    assert_eq!(limit.evaluate(double(-1e30)), LimitState::Nominal);
    assert_eq!(limit.evaluate(double(101.0)), LimitState::Warning);
}

#[test]
fn nan_is_unknown_not_nominal() {
    assert_eq!(limit().evaluate(double(f64::NAN)), LimitState::Unknown);
    assert!(!Range::new(double(0.0), double(1.0)).contains(double(f64::NAN)));
}

#[test]
fn a_parameter_with_no_limit_is_unknown() {
    let mut set = LimitSet::new();
    set.insert("/Sat/TEMP".to_string(), limit());
    assert_eq!(
        set.evaluate("/Sat/VOLTS", &Value::Float(double(3.3))),
        LimitState::Unknown
    );
    assert_eq!(
        set.evaluate("/Sat/TEMP", &Value::Float(double(3.3))),
        LimitState::Nominal
    );
}

#[test]
fn a_label_is_not_coloured_by_its_raw_number() {
    let mut set = LimitSet::new();
    set.insert("/Sat/MODE".to_string(), limit());
    assert_eq!(
        set.evaluate("/Sat/MODE", &Value::Label("SAFE".to_string())),
        LimitState::Unknown
    );
}

#[test]
fn states_order_so_a_group_can_be_summarised() {
    let worst = [LimitState::Nominal, LimitState::Alarm, LimitState::Warning]
        .into_iter()
        .max();
    assert_eq!(worst, Some(LimitState::Alarm));
}

#[test]
fn an_alarm_is_looked_at_before_a_warning() {
    let upside_down = Limit {
        warning: Range::new(double(-20.0), double(70.0)),
        alarm: Range::new(double(-10.0), double(50.0)),
    };
    assert_eq!(upside_down.evaluate(double(60.0)), LimitState::Alarm);
    assert!(LimitState::Alarm.is_violation() && LimitState::Warning.is_violation());
    assert!(!LimitState::Nominal.is_violation() && !LimitState::Unknown.is_violation());
    assert_eq!(LimitState::default(), LimitState::Unknown);
    assert_eq!(LimitState::Alarm.label(), "ALARM");
}

#[test]
fn the_last_limit_inserted_under_a_name_is_the_one() {
    let mut set = LimitSet::new();
    assert!(set.is_empty());
    set.insert("/Sat/TEMP".to_string(), limit());
    set.insert("/Sat/TEMP".to_string(), Limit::default());
    set.insert("/Sat/VOLTS".to_string(), limit());
    assert_eq!(set.len(), 2);
    assert!(set.get("/Sat/TEMP").is_some_and(|found| !found.warning.is_set()));
    let mut names: Vec<&str> = set.iter().into_iter().map(|(name, _)| name).collect();
    names.sort();
    assert_eq!(names, vec!["/Sat/TEMP", "/Sat/VOLTS"]);
}

#[test]
fn borrowed_values_survive_the_buffer_they_came_from() {
    let owned = {
        let packet = vec![b'O', b'K'];
        let eng = EngValue::Text(String::from_utf8_lossy(&packet).into_owned());
        Value::from_eng(&eng)
    };
    assert_eq!(owned.as_str(), Some("OK"));
}

#[test]
fn a_boolean_plots_as_zero_and_one() {
    assert_eq!(Value::Bool(true).as_f64(), Some(double(1.0)));
    assert_eq!(Value::Bool(false).as_f64(), Some(double(0.0)));
    assert!(Value::Label("SAFE".to_string()).as_f64().is_none());
}

#[test]
fn nan_does_not_equal_nan() {
    assert_ne!(Value::Float(double(f64::NAN)), Value::Float(double(f64::NAN)));
    assert_eq!(Value::Float(double(1.5)), Value::Float(double(1.5)));
}

#[test]
fn integers_become_the_nearest_doubles() {
    for value in [0u64, 1, 2, (1 << 53) - 1, (1 << 53) + 1, (1 << 53) + 3, u64::MAX, 1 << 63] {
        assert_eq!(Value::Unsigned(value).as_f64(), Some(double(value as f64)), "{value}");
    }
    for value in [0i64, -1, i64::MIN, i64::MAX, -(1 << 53) - 1, -(1 << 53) - 3] {
        assert_eq!(Value::Signed(value).as_f64(), Some(double(value as f64)), "{value}");
    }
}

#[test]
fn doubles_are_ordered_as_doubles() {
    let values = [
        f64::NEG_INFINITY,
        -1e300,
        -1.5,
        -5e-324,
        -0.0,
        0.0,
        5e-324,
        1.0,
        1.5,
        f64::INFINITY,
        f64::NAN,
    ];
    for a in values {
        for b in values {
            assert_eq!(double(a).lt(double(b)), a < b, "{a} < {b}");
            assert_eq!(double(a).le(double(b)), a <= b, "{a} <= {b}");
            assert_eq!(double(a).same(double(b)), a == b, "{a} == {b}");
        }
    }
}

#[test]
fn what_has_a_kind_that_plots_has_a_number() {
    let values = [
        Value::from_raw(&RawValue::Unsigned(7)),
        Value::from_raw(&RawValue::Signed(-7)),
        Value::from_raw(&RawValue::Float(double(0.5))),
        Value::from_raw(&RawValue::Bytes(vec![1, 2])),
        Value::from_eng(&EngValue::Bool(true)),
        Value::from_eng(&EngValue::Label("SAFE".to_string())),
        Value::from_eng(&EngValue::Text("text".to_string())),
        Value::from_eng(&EngValue::Bytes(vec![])),
    ];
    for value in &values {
        assert_eq!(value.kind().is_plottable(), value.as_f64().is_some());
        assert_eq!(&value.clone(), value);
    }
    assert_eq!(values[3].kind(), ValueKind::Bytes);
    assert_eq!(values[3].as_bytes(), Some(&[1u8, 2][..]));
    assert_eq!(values[0].display(""), "7");
    assert_eq!(values[1].display(""), "-7");
    assert_eq!(values[2].display("0.5"), "0.5");
    assert_eq!(values[4].display(""), "true");
    assert_eq!(values[5].display(""), "SAFE");
}

fn batch(param: u32, value: f64, at: f64) -> Batch {
    Batch {
        container: ContainerId::new(0),
        received: Utc::from_unix_nanos((at * 1e9) as i64),
        spacecraft: None,
        apid: 1,
        sequence: 0,
        sequence_gap: false,
        samples: vec![Sample {
            parameter: ParamId::new(param),
            time: Utc::from_unix_nanos((at * 1e9) as i64),
            raw: Value::Unsigned(value as u64),
            eng: Value::Float(double(value)),
        }],
    }
}

#[test]
fn history_is_kept_only_for_watched_parameters() {
    let mut store = ParameterStore::new(8, 16);
    store.watch(ParamId::new(1));
    store.ingest(&batch(1, 10.0, 100.0));
    store.ingest(&batch(2, 20.0, 100.0));

    assert_eq!(store.history(ParamId::new(1)).map(RingBuffer::len), Some(1));
    assert!(store.history(ParamId::new(2)).is_none());
    // The latest value is kept for both, watched or not.
    assert!(store.latest(ParamId::new(2)).is_some());
}

#[test]
fn unwatching_frees_the_ring() {
    let mut store = ParameterStore::new(4, 16);
    assert!(store.watch(ParamId::new(0)));
    assert!(!store.watch(ParamId::new(0)));
    store.unwatch(ParamId::new(0));
    assert!(!store.is_watched(ParamId::new(0)));
}

#[test]
fn a_label_has_no_history_but_has_a_value() {
    let mut store = ParameterStore::new(2, 8);
    store.watch(ParamId::new(0));
    let mut b = batch(0, 0.0, 1.0);
    if let Some(sample) = b.samples.get_mut(0) {
        sample.eng = Value::Label("SAFE".to_string());
    }
    store.ingest(&b);
    assert_eq!(store.history(ParamId::new(0)).map(RingBuffer::len), Some(0));
    assert_eq!(
        store.latest_value(ParamId::new(0)).and_then(Value::as_str),
        Some("SAFE")
    );
}

#[test]
fn a_sample_for_an_unknown_parameter_is_dropped_not_fatal() {
    let mut store = ParameterStore::new(1, 8);
    store.ingest(&batch(9, 1.0, 1.0));
    assert_eq!(store.seen_count(), 0);
}

#[test]
fn the_generation_moves_when_something_arrives() {
    let mut store = ParameterStore::new(2, 8);
    let before = store.generation();
    store.ingest(&batch(0, 1.0, 1.0));
    assert_ne!(before, store.generation());
}

#[test]
fn the_latest_sample_is_the_last_one_and_the_others_are_left_alone() {
    let mut store = ParameterStore::new(3, 2);
    store.watch(ParamId::new(1));
    for (value, at) in [(1.0, 10.0), (2.0, 11.0), (3.0, 12.5)] {
        store.ingest(&batch(1, value, at));
    }
    assert_eq!(store.latest_value(ParamId::new(1)), Some(&Value::Float(double(3.0))));
    assert_eq!(store.latest_time(ParamId::new(1)), Some(Utc::from_unix_nanos(12_500_000_000)));
    assert_eq!(store.updates(ParamId::new(1)), 3);
    assert_eq!(store.ingested(), 3);
    assert!(store.latest(ParamId::new(0)).is_none());
    assert_eq!(store.seen(), vec![ParamId::new(1)]);
    assert_eq!(store.watched(), vec![ParamId::new(1)]);
    let points: Vec<(f64, f64)> = store
        .history(ParamId::new(1))
        .map(|ring| ring.iter().into_iter().map(|p| (number(p.t), number(p.v))).collect())
        .unwrap_or_default();
    assert_eq!(points, vec![(11.0, 2.0), (12.5, 3.0)]);
    store.set_depth(1);
    assert_eq!(store.depth(), 1);
    assert_eq!(store.history(ParamId::new(1)).map(RingBuffer::len), Some(1));
    store.clear();
    assert_eq!(store.seen_count(), 0);
    assert!(store.is_watched(ParamId::new(1)));
}

#[test]
fn a_sample_outside_a_batch_is_placed_at_its_own_time() {
    let mut store = ParameterStore::new(1, 4);
    store.watch(ParamId::new(0));
    let mut b = batch(0, 4.0, 2.5);
    if let Some(sample) = b.samples.pop() {
        store.push(sample);
    }
    let point = store.history(ParamId::new(0)).and_then(|ring| ring.last().copied());
    assert_eq!(point.map(|p| (number(p.t), number(p.v))), Some((2.5, 4.0)));
    assert_eq!(store.parameter_count(), 1);
}

#[test]
fn spacecraft_time_comes_before_ground_receipt() {
    let mut b = batch(0, 1.0, 100.0);
    assert_eq!(b.time(), b.received);
    b.spacecraft = Some(Utc::from_unix_secs(42));
    assert_eq!(b.time(), Utc::from_unix_secs(42));
}

#[test]
fn a_fresh_link_has_never_seen_a_packet() {
    let stats = LinkStats::new();
    let snap = stats.snapshot();
    assert!(snap.last_packet.is_none());
    assert!(!snap.is_live(Utc::now(), double(5.0)));
}

#[test]
fn loss_over_nothing_is_zero_not_one() {
    assert_eq!(number(StatsSnapshot::default().frame_loss()), 0.0);
}

#[test]
fn counters_count() {
    let mut stats = LinkStats::new();
    stats.add(Counter::FramesOk, 3);
    stats.add(Counter::FramesSeen, 4);
    stats.add(Counter::FramesDropped, 1);
    let snap = stats.snapshot();
    assert_eq!(snap.frames_ok, 3);
    assert_eq!(number(snap.frame_loss()), 0.25);
}

#[test]
fn a_link_is_live_for_as_long_as_it_is_told() {
    let mut stats = LinkStats::new();
    stats.touch(1_000_000_000);
    let snap = stats.snapshot();
    assert_eq!(snap.last_packet, Some(Utc::from_unix_secs(1)));
    assert!(snap.is_live(Utc::from_unix_secs(6), double(5.0)));
    assert!(!snap.is_live(Utc::from_unix_secs(7), double(5.0)));
    assert!(!snap.is_live(Utc::from_unix_secs(6), double(f64::NAN)));
}

#[test]
fn each_counter_has_a_place_of_its_own() {
    let mut stats = LinkStats::new();
    stats.add(Counter::BytesIn, 1);
    stats.add(Counter::SyncFound, 2);
    stats.add(Counter::PacketsLost, 3);
    stats.add(Counter::SequenceMissing, u64::MAX);
    stats.add(Counter::SequenceMissing, 2);
    let snap = stats.snapshot();
    assert_eq!((snap.bytes_in, snap.sync_found, snap.packets_lost), (1, 2, 3));
    assert_eq!(snap.sequence_missing, 1);
    assert_eq!(snap.sequence_gaps, 0);
}

fn assert_send_sync<T: Send + Sync>() {}

#[test]
fn a_sample_can_cross_a_channel() {
    // The decode side makes them and the interface reads them.
    assert_send_sync::<Sample>();
    assert_send_sync::<Batch>();
    assert_send_sync::<RawPacket>();
    assert_send_sync::<ParameterStore>();
    assert_send_sync::<LinkStats>();
}

#[test]
fn the_worst_state_of_a_group_is_the_greatest() {
    let group = [
        LimitState::Nominal,
        LimitState::Warning,
        LimitState::Unknown,
    ];
    assert_eq!(group.iter().max(), Some(&LimitState::Warning));
    let ordered = [
        LimitState::Unknown,
        LimitState::Nominal,
        LimitState::Warning,
        LimitState::Alarm,
    ];
    assert!(ordered.windows(2).all(|pair| pair[0] < pair[1]));
    assert!(Severity::Info < Severity::Warning && Severity::Warning < Severity::Error);
}

#[test]
fn clearing_a_store_forgets_its_samples_and_not_its_count() {
    let mut store = ParameterStore::new(2, 8);
    store.watch(ParamId::new(0));
    store.ingest(&batch(0, 1.0, 1.0));
    store.ingest(&batch(1, 2.0, 2.0));
    assert_eq!((store.ingested(), store.seen_count()), (2, 2));
    let before = store.generation();
    store.clear();
    assert_eq!(store.ingested(), 2, "since the store was made");
    assert_eq!(store.seen_count(), 0);
    assert!(store.latest(ParamId::new(0)).is_none());
    assert_eq!(store.history(ParamId::new(0)).map(RingBuffer::len), Some(0));
    assert_ne!(before, store.generation());
    store.ingest(&batch(0, 3.0, 3.0));
    assert_eq!(store.ingested(), 3);
}

#[test]
fn an_empty_batch_is_counted_and_stays_counted() {
    let mut store = ParameterStore::new(2, 8);
    let mut nothing = batch(0, 0.0, 0.0);
    nothing.samples.clear();
    store.ingest(&nothing);
    store.clear();
    assert_eq!(store.ingested(), 1);
}

#[test]
fn the_second_slice_is_empty_until_the_ring_wraps() {
    let mut ring = RingBuffer::with_capacity(3);
    let mut lengths = Vec::new();
    for value in 1..=8 {
        ring.push(value);
        let (old, new) = ring.as_slices();
        lengths.push((old.len(), new.len()));
    }
    assert_eq!(
        lengths,
        vec![(1, 0), (2, 0), (3, 0), (2, 1), (1, 2), (3, 0), (2, 1), (1, 2)]
    );
    ring.clear();
    ring.push(9);
    assert_eq!(ring.as_slices().1.len(), 0);
}

#[test]
fn limits_and_points_are_equal_where_their_doubles_are() {
    let zero = Range::new(double(0.0), double(1.0));
    assert_eq!(zero, Range::new(double(-0.0), double(1.0)));
    assert_ne!(zero, Range::new(double(0.0), double(2.0)));
    assert_ne!(zero, Range { low: None, high: zero.high });
    let odd = Range::new(double(f64::NAN), double(1.0));
    assert_ne!(odd, odd);
    assert_eq!(limit(), limit());
    assert_ne!(limit(), Limit::default());
    assert_eq!(Limit::default(), Limit { warning: Range::default(), alarm: Range::default() });
    let point = |v: f64| Point { t: double(1.0), v: double(v) };
    assert_eq!(point(0.0), point(-0.0));
    assert_ne!(point(f64::NAN), point(f64::NAN));
}

#[test]
fn zeroed_counters_are_not_a_fresh_link() {
    assert_eq!(LinkStats::default().snapshot().last_packet, Some(Utc::epoch()));
    assert_eq!(LinkStats::default().snapshot().bytes_in, 0);
    assert_eq!(LinkStats::new().snapshot().last_packet, None);
}
