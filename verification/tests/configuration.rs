//! What a session is told, and when it is refused.

use xtce_gs::config::{SessionConfig, TimeFormat, TimeSource};
use xtce_gs::error::EngineError;
use xtce_gs::float::Float64;
use xtce_gs::limit_file::{
    limit_layout, load_limits, wrapped_entries, JsonFault, JsonKind, LimitEntry, LimitFile,
    LimitLayout,
};
use xtce_gs::limits::{LimitState, Range};
use xtce_gs::link::{CspVersion, PipelineConfig, SourceSpec};
use xtce_gs::time::Utc;
use xtce_gs::value::Value;

fn double(value: f64) -> Float64 {
    Float64::from_bits(value.to_bits())
}

fn session() -> SessionConfig {
    SessionConfig {
        definition: "mission.xml".to_string(),
        ..SessionConfig::unfinished(65_542)
    }
}

fn validate(config: &SessionConfig) -> Result<(), EngineError> {
    // The link accepts the framing: back-to-back packets of any length a header can claim.
    config.validate(Ok(()))
}

fn message(result: Result<(), EngineError>) -> String {
    match result {
        Ok(()) => panic!("expected a refusal"),
        Err(error) => error.to_string(),
    }
}

#[test]
fn a_session_with_a_definition_and_the_defaults_is_accepted() {
    assert!(validate(&session()).is_ok());
}

#[test]
fn a_config_nobody_finished_filling_in_is_refused() {
    let message = message(validate(&SessionConfig::unfinished(65_542)));
    assert!(message.contains("definition"), "{message}");
}

#[test]
fn a_history_depth_of_zero_names_the_field_and_the_value() {
    let config = SessionConfig {
        history_depth: 0,
        ..session()
    };
    let message = message(validate(&config));
    assert!(message.contains("history_depth: 0"), "{message}");
}

#[test]
fn an_event_capacity_of_zero_is_refused() {
    let config = SessionConfig {
        event_capacity: 0,
        ..session()
    };
    let message = message(validate(&config));
    assert!(message.contains("event_capacity: 0"), "{message}");
}

fn clocked(parameter: &str, format: TimeFormat) -> SessionConfig {
    SessionConfig {
        spacecraft_time: Some(TimeSource {
            parameter: parameter.to_string(),
            format,
        }),
        ..session()
    }
}

#[test]
fn a_clock_with_no_parameter_named_is_refused() {
    let config = clocked(
        "   ",
        TimeFormat::Seconds {
            epoch: Utc::ccsds_epoch(),
        },
    );
    let message = message(validate(&config));
    assert!(message.contains("spacecraft_time.parameter"), "{message}");
}

#[test]
fn a_cuc_with_no_coarse_bytes_counts_no_seconds() {
    let config = clocked(
        "/Sat/TIME",
        TimeFormat::Cuc {
            coarse_bytes: 0,
            fine_bytes: 2,
            epoch: Utc::ccsds_epoch(),
        },
    );
    let message = message(validate(&config));
    assert!(message.contains("CCSDS 301.0-B-4 section 3.2"), "{message}");
}

#[test]
fn a_cuc_wider_than_the_reader_is_refused_before_the_first_packet() {
    let config = clocked(
        "/Sat/TIME",
        TimeFormat::Cuc {
            coarse_bytes: 6,
            fine_bytes: 4,
            epoch: Utc::ccsds_epoch(),
        },
    );
    let message = message(validate(&config));
    assert!(message.contains("10 bytes wide"), "{message}");
}

#[test]
fn a_cds_submillisecond_field_of_three_bytes_is_refused() {
    let clock = |submillisecond_bytes| {
        clocked(
            "/Sat/TIME",
            TimeFormat::Cds {
                day_bytes: 2,
                submillisecond_bytes,
                epoch: Utc::ccsds_epoch(),
            },
        )
    };
    for width in [1u8, 3, 5, 8] {
        let message = message(validate(&clock(width)));
        assert!(message.contains("submillisecond"), "{message}");
    }
    for width in [0u8, 2, 4] {
        assert!(validate(&clock(width)).is_ok(), "{width} bytes should be a CDS");
    }
}

#[test]
fn a_cds_day_segment_of_one_byte_is_not_a_day_segment() {
    let config = clocked(
        "/Sat/TIME",
        TimeFormat::Cds {
            day_bytes: 1,
            submillisecond_bytes: 0,
            epoch: Utc::ccsds_epoch(),
        },
    );
    let message = message(validate(&config));
    assert!(message.contains("day segment of 1 bytes"), "{message}");
}

#[test]
fn csp_on_a_byte_stream_is_refused_with_the_reason() {
    let pipeline = PipelineConfig {
        csp: Some(CspVersion::V1),
        ..session().pipeline
    };
    let config = SessionConfig {
        source: SourceSpec::TcpConnect("127.0.0.1:10015".to_string()),
        pipeline,
        ..session()
    };
    let message = message(validate(&config));
    assert!(message.contains("no length field"), "{message}");
    // The same pipeline on a datagram source is fine: the datagram is the boundary.
    let config = SessionConfig {
        pipeline,
        ..session()
    };
    assert!(validate(&config).is_ok());
}

#[test]
fn a_refused_pipeline_is_reported_in_the_pipelines_own_words() {
    let config = SessionConfig {
        pipeline: PipelineConfig {
            max_packet_length: 3,
            ..session().pipeline
        },
        ..session()
    };
    let refused = Err("max_packet_length: 3 is shorter than a primary header".to_string());
    let message = message(config.validate(refused));
    assert!(message.contains("max_packet_length"), "{message}");
}

#[test]
fn the_first_mistake_is_the_one_that_is_named() {
    let config = SessionConfig {
        history_depth: 0,
        event_capacity: 0,
        ..session()
    };
    let message = message(config.validate(Err("framing".to_string())));
    assert!(message.contains("history_depth"), "{message}");
}

fn entry(value: &serde_json::Value) -> Result<LimitEntry, String> {
    let mut entry = LimitEntry {
        warning_low: None,
        warning_high: None,
        alarm_low: None,
        alarm_high: None,
    };
    let members = match value.as_object() {
        Some(members) => members,
        None => return Err("expected an object of thresholds".to_string()),
    };
    for (name, value) in members {
        let number = match (value.as_f64(), value.is_null()) {
            (Some(number), _) => Some(double(number)),
            (None, true) => None,
            (None, false) => return Err(format!("{name}: invalid type, expected f64")),
        };
        match name.as_str() {
            "warning_low" => entry.warning_low = number,
            "warning_high" => entry.warning_high = number,
            "alarm_low" => entry.alarm_low = number,
            "alarm_high" => entry.alarm_high = number,
            other => return Err(format!("unknown field `{other}`")),
        }
    }
    Ok(entry)
}

fn from_json(text: &str) -> Result<LimitFile, EngineError> {
    LimitFile::from_json(text, entry)
}

fn refusal(text: &str) -> String {
    match from_json(text) {
        Ok(_) => panic!("expected a refusal"),
        Err(error) => error.to_string(),
    }
}

#[test]
fn a_good_limits_file_loads_every_threshold() {
    let text = r#"{ "parameters": {
        "/Sat/Bus/TEMP": { "warning_low": -10, "warning_high": 50,
                           "alarm_low": -20, "alarm_high": 70 } } }"#;
    let set = from_json(text).unwrap().into_limit_set();
    let limit = set.get("/Sat/Bus/TEMP").unwrap();
    let expected = Range::new(double(-10.0), double(50.0));
    assert_eq!((limit.warning.low, limit.warning.high), (expected.low, expected.high));
    let expected = Range::new(double(-20.0), double(70.0));
    assert_eq!((limit.alarm.low, limit.alarm.high), (expected.low, expected.high));
}

#[test]
fn the_parameters_wrapper_may_be_left_off() {
    let wrapped = r#"{"parameters": {"/Sat/TEMP": {"alarm_high": 70}}}"#;
    let bare = r#"{"/Sat/TEMP": {"alarm_high": 70}}"#;
    let one = from_json(wrapped).unwrap().into_limit_set();
    let other = from_json(bare).unwrap().into_limit_set();
    let bounds = |set: &xtce_gs::limits::LimitSet| {
        set.get("/Sat/TEMP").map(|limit| {
            (
                limit.warning.low,
                limit.warning.high,
                limit.alarm.low,
                limit.alarm.high,
            )
        })
    };
    assert_eq!(bounds(&one), bounds(&other));
    assert_eq!(bounds(&one), Some((None, None, None, Some(double(70.0)))));
    assert_eq!(one.len(), 1);
}

#[test]
fn an_entry_may_set_only_an_upper_alarm() {
    let set = from_json(r#"{"/Sat/TEMP": {"alarm_high": 70}}"#)
        .unwrap()
        .into_limit_set();
    let limit = set.get("/Sat/TEMP").unwrap();
    assert_eq!(limit.alarm.high, Some(double(70.0)));
    assert_eq!(limit.alarm.low, None);
    assert!(!limit.warning.is_set());
    // One-sided, so nothing below is a violation and 70 itself is inside.
    assert_eq!(limit.evaluate(double(-1e30)), LimitState::Nominal);
    assert_eq!(limit.evaluate(double(70.0)), LimitState::Nominal);
    assert_eq!(limit.evaluate(double(70.5)), LimitState::Alarm);
}

#[test]
fn an_entry_with_no_thresholds_is_listed_and_unchecked() {
    let set = from_json(r#"{"/Sat/TEMP": {}}"#).unwrap().into_limit_set();
    assert_eq!(set.len(), 1);
    assert_eq!(
        set.evaluate("/Sat/TEMP", &Value::Float(double(3.3))),
        LimitState::Unknown
    );
}

#[test]
fn a_string_where_a_number_belongs_names_the_parameter() {
    let text = r#"{"/Sat/A": {"alarm_high": 70}, "/Sat/B": {"warning_low": "cold"}}"#;
    let message = refusal(text);
    assert!(message.contains("/Sat/B"), "{message}");
    assert!(!message.contains("/Sat/A"), "{message}");
}

#[test]
fn a_misspelled_threshold_is_refused_rather_than_silently_dropped() {
    let message = refusal(r#"{"/Sat/TEMP": {"warn_high": 70}}"#);
    assert!(message.contains("/Sat/TEMP"), "{message}");
    assert!(message.contains("warn_high"), "{message}");
}

#[test]
fn a_syntax_error_carries_the_line_and_the_column() {
    let text = "{\n  \"/Sat/TEMP\": { \"alarm_high\": 70,\n}\n";
    let message = refusal(text);
    assert!(message.contains("line 3"), "{message}");
    assert!(message.contains("column"), "{message}");
}

#[test]
fn a_file_that_is_not_an_object_says_what_it_found() {
    let message = refusal("[1, 2, 3]");
    assert!(message.contains("an array"), "{message}");
    let message = refusal(r#"{"parameters": 7}"#);
    assert!(message.contains("a number"), "{message}");
}

#[test]
fn every_kind_of_json_is_told_apart() {
    for (text, found) in [
        ("null", "found null"),
        ("true", "found a boolean"),
        ("1.5", "found a number"),
        ("\"x\"", "found a string"),
        ("[]", "found an array"),
    ] {
        let message = refusal(text);
        assert!(message.contains(found), "{text}: {message}");
    }
}

#[test]
fn an_empty_file_is_no_limits_and_not_an_error() {
    assert!(from_json("{}").unwrap().into_limit_set().is_empty());
    assert!(from_json(r#"{"parameters": {}}"#)
        .unwrap()
        .into_limit_set()
        .is_empty());
}

#[test]
fn the_members_of_a_file_are_handed_on_by_name() {
    let text = r#"{"b": {"alarm_high": 1.50}, "a": {}, "b": {"alarm_high": 2}}"#;
    let entries = LimitFile::entries(text).unwrap();
    let found: Vec<(&str, String)> = entries
        .iter()
        .map(|(name, value)| (name.as_str(), value.to_string()))
        .collect();
    assert_eq!(
        found,
        vec![("a", "{}".to_string()), ("b", r#"{"alarm_high":2}"#.to_string())]
    );
}

#[test]
fn a_member_is_a_parameter_whatever_it_is_called() {
    for name in ["$serde_json::private::RawValue", "$serde_json::private::Number", "", "parameter"] {
        let bare = format!("{{\"{name}\": {{\"alarm_high\": 70}}, \"/B\": {{}}}}");
        let wrapped = format!("{{\"parameters\": {bare}}}");
        for text in [bare, wrapped] {
            let set = from_json(&text).unwrap().into_limit_set();
            assert_eq!(set.len(), 2, "{text}");
            assert_eq!(set.get(name).unwrap().alarm.high, Some(double(70.0)));
        }
        assert!(refusal(&format!("{{\"{name}\": \"1\"}}")).contains("parameter `"));
    }
}

#[test]
fn a_layout_is_decided_by_the_kind_and_the_members() {
    let number = serde_json::Value::from(7);
    let wrapper = || ("parameters".to_string(), number.clone());
    let other = |name: &str| (name.to_string(), serde_json::Value::Null);
    let words = |kind: JsonKind, members: Vec<(String, serde_json::Value)>| {
        match limit_layout(Ok(kind), members) {
            Ok(LimitLayout::Bare(entries)) => format!("{} bare", entries.len()),
            Ok(LimitLayout::Wrapped(value)) => format!("wrapped {value}"),
            Err(error) => error.to_string(),
        }
    };
    assert_eq!(words(JsonKind::Object, vec![]), "0 bare");
    assert_eq!(words(JsonKind::Object, vec![other("/A"), other("/B")]), "2 bare");
    assert_eq!(words(JsonKind::Object, vec![wrapper()]), "wrapped 7");
    assert!(words(JsonKind::Object, vec![other("/A"), wrapper()])
        .ends_with("unknown member beside `parameters`: /A"));
    assert!(words(JsonKind::Object, vec![other("a"), wrapper(), other("z")])
        .ends_with("unknown members beside `parameters`: a, z"));
    assert!(words(JsonKind::Null, vec![])
        .ends_with("expected an object of parameter names, found null"));
    let fault = JsonFault {
        line: 3,
        column: 9,
        message: "trailing comma".to_string(),
    };
    match limit_layout(Err(fault), vec![]) {
        Err(EngineError::Config(message)) => {
            assert_eq!(message, "invalid JSON at line 3, column 9: trailing comma");
        }
        other => panic!("{other:?}"),
    }
    match wrapped_entries(JsonKind::Bool, vec![]) {
        Err(EngineError::Config(message)) => assert_eq!(
            message,
            "`parameters` is a boolean, not an object of parameter names"
        ),
        other => panic!("{other:?}"),
    }
    assert_eq!(wrapped_entries(JsonKind::Object, vec![other("/A")]).unwrap().len(), 1);
}

#[test]
fn a_limits_file_that_is_not_there_is_named_in_the_message() {
    let path = "/nonexistent/xtce-gs/limits.json";
    let missing = Err(EngineError::Io("No such file or directory (os error 2)".to_string()));
    let Err(error) = load_limits(path, missing) else {
        panic!("expected a refusal")
    };
    let message = error.to_string();
    assert!(
        message.contains("/nonexistent/xtce-gs/limits.json"),
        "{message}"
    );
    // A missing file is the filesystem's refusal, not the operator's.
    assert!(matches!(error, EngineError::Io(_)), "{error:?}");
}

#[test]
fn a_member_beside_the_wrapper_is_refused_rather_than_ignored() {
    let text = r#"{"parameters": {"/Sat/TEMP": {}}, "note": "for the next shift"}"#;
    let message = refusal(text);
    assert!(message.contains("note"), "{message}");
}

#[test]
fn a_bad_limits_file_on_disk_names_the_file_and_the_parameter() {
    let path = "/tmp/xtce-gs-limits-1.json";
    let file = from_json(r#"{"/Sat/TEMP": {"alarm_high": "hot"}}"#);
    let message = match load_limits(path, file) {
        Ok(_) => panic!("expected a refusal"),
        Err(error) => error.to_string(),
    };
    assert!(message.contains("xtce-gs-limits-"), "{message}");
    assert!(message.contains("/Sat/TEMP"), "{message}");
}

#[test]
fn a_good_limits_file_on_disk_round_trips() {
    let path = "/tmp/xtce-gs-limits-ok-1.json";
    let set = load_limits(path, from_json(r#"{"/Sat/TEMP": {"warning_high": 50}}"#)).unwrap();
    assert_eq!(set.get("/Sat/TEMP").unwrap().warning.high, Some(double(50.0)));
}

#[test]
fn the_field_widths_a_format_reports_are_the_ones_it_is_read_with() {
    let cuc = TimeFormat::Cuc {
        coarse_bytes: 4,
        fine_bytes: 2,
        epoch: Utc::ccsds_epoch(),
    };
    assert_eq!(cuc.field_bytes(), Some(6));
    let cds = TimeFormat::Cds {
        day_bytes: 2,
        submillisecond_bytes: 4,
        epoch: Utc::ccsds_epoch(),
    };
    assert_eq!(cds.field_bytes(), Some(10));
    assert_eq!(
        TimeFormat::Seconds { epoch: Utc::epoch() }.field_bytes(),
        None
    );
    assert_eq!(cds.epoch(), Utc::ccsds_epoch());
}

#[test]
fn each_error_says_what_it_was_told() {
    let message = "the reason".to_string();
    for error in [
        EngineError::Xtce(message.clone()),
        EngineError::Decode(message.clone()),
        EngineError::Link(message.clone()),
        EngineError::Io(message.clone()),
        EngineError::config(message.clone()),
    ] {
        assert_eq!(error.to_string(), "the reason");
    }
}

#[test]
fn the_wrapper_changes_nothing_about_a_file() {
    let files = [
        r#"{"/A": {"alarm_high": 70}, "/B": {}, "/C": {"warning_low": -1.5, "alarm_low": -3}}"#,
        r#"{}"#,
        r#"{"/A": {"alarm_high": "hot"}, "/B": {}}"#,
        r#"{"/A": {"alarm_top": 1}}"#,
        r#"{"/A": 12}"#,
    ];
    let outcome = |text: &str| match from_json(text) {
        Ok(file) => Ok(file
            .parameters
            .iter()
            .map(|(name, entry)| {
                let ends = [
                    entry.warning_low,
                    entry.warning_high,
                    entry.alarm_low,
                    entry.alarm_high,
                ];
                (name.clone(), ends)
            })
            .collect::<Vec<_>>()),
        Err(error) => Err(error.to_string()),
    };
    for bare in files {
        let wrapped = format!("{{\"parameters\": {bare}}}");
        assert_eq!(outcome(&wrapped), outcome(bare), "{bare}");
    }
    let names = |text: &str| match from_json(text) {
        Ok(file) => file.parameters.into_iter().map(|(name, _)| name).collect::<Vec<_>>(),
        Err(error) => panic!("{error:?}"),
    };
    assert_eq!(names(files[0]), vec!["/A", "/B", "/C"]);
    assert!(matches!(from_json(files[2]), Err(EngineError::Config(_))));
}

#[test]
fn every_kind_of_white_space_is_an_empty_name() {
    let refused = |parameter: &str| {
        let format = TimeFormat::Seconds { epoch: Utc::epoch() };
        validate(&clocked(parameter, format)).is_err()
    };
    let blanks = [
        "\t", "\n", "\u{b}", "\u{c}", "\r", " ", "\u{85}", "\u{a0}", "\u{1680}", "\u{2000}",
        "\u{2001}", "\u{2002}", "\u{2003}", "\u{2004}", "\u{2005}", "\u{2006}", "\u{2007}",
        "\u{2008}", "\u{2009}", "\u{200a}", "\u{2028}", "\u{2029}", "\u{202f}", "\u{205f}",
        "\u{3000}",
    ];
    assert_eq!(blanks.len(), 25);
    for blank in blanks {
        assert!(refused(blank), "{blank:?}");
    }
    assert!(refused(&blanks.concat()));
    for other in ["\u{8}", "\u{e}", "\u{1f}", "\u{180e}", "\u{200b}", "\u{2060}", "\u{feff}", "/T"] {
        assert!(!refused(other), "{other:?}");
    }
    // Every character, held against the list.
    let found: Vec<char> = ('\0'..=char::MAX).filter(|c| c.is_whitespace()).collect();
    let listed: Vec<char> = blanks.iter().flat_map(|blank| blank.chars()).collect();
    assert_eq!(found, listed);
}

#[test]
fn configurations_and_entries_can_be_compared() {
    assert_eq!(session(), session().clone());
    let seconds = TimeFormat::Seconds { epoch: Utc::epoch() };
    assert_eq!(clocked("/T", seconds), clocked("/T", seconds));
    assert_ne!(clocked("/T", seconds), clocked("/U", seconds));
    assert_ne!(clocked("/T", seconds), session());

    let hot = LimitEntry { alarm_high: Some(double(70.0)), ..LimitEntry::default() };
    assert_eq!(hot, hot);
    assert_ne!(hot, LimitEntry::default());
    let odd = LimitEntry { alarm_low: Some(double(f64::NAN)), ..hot };
    assert_ne!(odd, odd);
    assert!(LimitFile::default().clone().into_limit_set().is_empty());
}
