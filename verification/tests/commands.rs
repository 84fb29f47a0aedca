//! What the command line is turned into, and what it is refused for.

use xtce_gs::args::{
    CspKind, EpochKind, ExportArgs, FramingKind, PipelineArgs, ProbeArgs, ReplayArgs, RunArgs,
    TimeArgs, TimeFormatKind, DEFAULT_FRAME_LENGTH, DEFAULT_REPLAY_RATE, DEFAULT_SOURCE,
    EXPORT_HISTORY_DEPTH,
};
use xtce_gs::cli::{report, CliError};
use xtce_gs::config::{TimeFormat, DEFAULT_EVENT_CAPACITY};
use xtce_gs::error::EngineError;
use xtce_gs::link::{CspVersion, Framing, RsConfig, SourceSpec};
use xtce_gs::time::Utc;

/// The framing flags of a command line that types none.
fn pipeline() -> PipelineArgs {
    PipelineArgs {
        framing: FramingKind::Packets,
        frame_length: DEFAULT_FRAME_LENGTH,
        rs: None,
        interleave: None,
        derandomize: false,
        fecf: false,
        ocf: false,
        insert_zone: None,
        no_asm: false,
        bit_slip: false,
        flywheel: 3,
        csp: None,
        max_packet_length: 65_542,
    }
}

fn time() -> TimeArgs {
    TimeArgs {
        parameter: None,
        format: TimeFormatKind::Seconds,
        coarse_bytes: 4,
        fine_bytes: 2,
        day_bytes: 2,
        submillisecond_bytes: 0,
        epoch: EpochKind::Ccsds,
    }
}

fn run() -> RunArgs {
    RunArgs {
        definition: "mission.xml".to_string(),
        source: DEFAULT_SOURCE.to_string(),
        pipeline: pipeline(),
        time: time(),
        history: 4096,
        limits: None,
        record: None,
        root: None,
        headless: false,
    }
}

fn replay() -> ReplayArgs {
    ReplayArgs {
        definition: "mission.xml".to_string(),
        recording: "pass.dat".to_string(),
        rate: DEFAULT_REPLAY_RATE,
        chunk: 4096,
        repeat: false,
        pipeline: pipeline(),
        time: time(),
        history: 4096,
        limits: None,
        root: None,
        headless: false,
    }
}

fn probe() -> ProbeArgs {
    ProbeArgs {
        stream: "unknown.bin".to_string(),
        pipeline: pipeline(),
        limit: None,
        sample: 16,
    }
}

fn udp() -> Result<SourceSpec, String> {
    Ok(SourceSpec::Udp("0.0.0.0:10015".to_string()))
}

#[test]
fn run_takes_a_definition_and_defaults_the_rest() {
    let args = run();
    assert_eq!(args.definition, "mission.xml");
    assert_eq!(args.source, DEFAULT_SOURCE);
    assert!(!args.headless);
    let config = args.to_session_config(udp(), Ok(())).unwrap();
    assert!(matches!(&config.source, SourceSpec::Udp(address) if address == "0.0.0.0:10015"));
    assert_eq!(config.pipeline.framing, Framing::Packets);
    assert!(config.spacecraft_time.is_none());
    assert_eq!(config.event_capacity, DEFAULT_EVENT_CAPACITY);
}

#[test]
fn a_bare_path_is_a_file_source() {
    let file = SourceSpec::File {
        path: "/tmp/pass.dat".to_string(),
        bytes_per_second: None,
        chunk: 4096,
        repeat: false,
    };
    let config = run().to_session_config(Ok(file), Ok(())).unwrap();
    let SourceSpec::File { path, repeat, .. } = &config.source else {
        panic!("not a file: {:?}", config.source);
    };
    assert_eq!(path, "/tmp/pass.dat");
    assert!(!repeat);
}

#[test]
fn a_source_the_link_cannot_read_is_refused_in_its_own_words() {
    let refused = run().to_session_config(Err("not an address".to_string()), Ok(()));
    assert!(matches!(refused, Err(CliError::Link(message)) if message == "not an address"));
}

#[test]
fn replay_builds_the_file_source_from_its_own_flags() {
    let args = ReplayArgs {
        rate: 2000,
        chunk: 512,
        repeat: true,
        ..replay()
    };
    let config = args.to_session_config(Ok(())).unwrap();
    let SourceSpec::File {
        path,
        bytes_per_second,
        chunk,
        repeat,
    } = &config.source
    else {
        panic!("not a file");
    };
    assert_eq!(path, "pass.dat");
    assert_eq!(*bytes_per_second, Some(2000));
    assert_eq!(*chunk, 512);
    assert!(*repeat);
    // A replay of a recording must not write a second copy of it.
    assert!(config.record.is_none());
}

#[test]
fn a_replay_rate_of_zero_is_no_rate_limit() {
    let args = ReplayArgs {
        rate: 0,
        ..replay()
    };
    let config = args.to_session_config(Ok(())).unwrap();
    let SourceSpec::File {
        bytes_per_second, ..
    } = &config.source
    else {
        panic!("not a file");
    };
    assert_eq!(*bytes_per_second, None);
}

#[test]
fn an_export_keeps_the_smallest_legal_history() {
    let args = ExportArgs {
        definition: "m.xml".to_string(),
        stream: "pass.dat".to_string(),
        output: Some("out.csv".to_string()),
        pipeline: pipeline(),
        time: time(),
        root: None,
        limit: None,
    };
    assert_eq!(args.output.as_deref(), Some("out.csv"));
    let config = args.to_session_config(Ok(())).unwrap();
    assert_eq!(config.history_depth, EXPORT_HISTORY_DEPTH);
    // The smallest legal value, not merely a small one.
    assert!(config.validate(Ok(())).is_ok());
    let SourceSpec::File {
        bytes_per_second, ..
    } = &config.source
    else {
        panic!("not a file");
    };
    assert_eq!(*bytes_per_second, None, "an export is not paced");
}

#[test]
fn a_probe_reads_the_file_once_at_full_speed() {
    let args = probe();
    assert_eq!(args.sample, 16);
    let SourceSpec::File {
        path,
        bytes_per_second,
        chunk,
        repeat,
    } = args.to_source_spec(4096).unwrap()
    else {
        panic!("not a file");
    };
    assert_eq!(path, "unknown.bin");
    assert_eq!(bytes_per_second, None);
    assert_eq!(chunk, 4096);
    assert!(!repeat);
}

#[test]
fn packet_framing_with_no_frame_flags_is_accepted() {
    let config = pipeline().to_pipeline_config(Ok(())).unwrap();
    assert_eq!(config.framing, Framing::Packets);
}

fn refusal(args: &PipelineArgs) -> String {
    match args.to_pipeline_config(Ok(())) {
        Ok(_) => panic!("expected a refusal"),
        Err(error) => error.to_string(),
    }
}

#[test]
fn every_frame_flag_is_refused_under_packet_framing() {
    for (flag, args) in [
        ("--rs", PipelineArgs { rs: Some(32), ..pipeline() }),
        ("--interleave", PipelineArgs { interleave: Some(5), ..pipeline() }),
        ("--derandomize", PipelineArgs { derandomize: true, ..pipeline() }),
        ("--fecf", PipelineArgs { fecf: true, ..pipeline() }),
        ("--ocf", PipelineArgs { ocf: true, ..pipeline() }),
        ("--insert-zone", PipelineArgs { insert_zone: Some(4), ..pipeline() }),
    ] {
        let message = refusal(&args);
        assert!(
            message.contains(flag),
            "the refusal of {flag} does not name it: {message}"
        );
        assert!(
            message.contains("--framing tm"),
            "the refusal of {flag} does not say what to do: {message}"
        );
        assert_eq!(args.frame_only_flags_given(), vec![flag]);
    }
}

#[test]
fn the_refusal_cites_the_document_that_defines_each_thing_it_names() {
    let message = refusal(&PipelineArgs {
        rs: Some(32),
        ..pipeline()
    });

    for (subject, document) in [
        // CCSDS 131.0-B-5 §4.3.2 and §10: the coding sublayer, around the frame.
        (
            "Reed-Solomon parity and the pseudo-randomiser",
            "CCSDS 131.0-B-5",
        ),
        // CCSDS 132.0-B-3 §4.1.1.1 d) and e): fields of the TM transfer frame.
        (
            "frame error control field and the operational control field",
            "CCSDS 132.0-B-3",
        ),
        // CCSDS 732.0-B-4 §4.1.3: an AOS field, and in no TM frame at all.
        ("insert zone", "CCSDS 732.0-B-4"),
    ] {
        let at = message
            .find(subject)
            .unwrap_or_else(|| panic!("the refusal no longer names {subject}: {message}"));
        let after = message.get(at..).unwrap_or_default();
        let cited = after
            .find("CCSDS ")
            .and_then(|start| after.get(start..start + document.len()));
        assert_eq!(
            cited,
            Some(document),
            "{subject} is attributed to the wrong document: {message}"
        );
    }
}

#[test]
fn an_explicit_interleave_of_one_is_still_refused_under_packet_framing() {
    let message = refusal(&PipelineArgs {
        interleave: Some(1),
        ..pipeline()
    });
    assert!(message.contains("--interleave"));
}

#[test]
fn the_same_flags_are_accepted_under_transfer_frames() {
    let args = PipelineArgs {
        framing: FramingKind::Tm,
        rs: Some(32),
        interleave: Some(5),
        derandomize: true,
        fecf: true,
        ocf: true,
        insert_zone: Some(4),
        bit_slip: true,
        flywheel: 8,
        ..pipeline()
    };
    let config = args.to_pipeline_config(Ok(())).unwrap();
    assert_eq!(
        config.framing,
        Framing::TmFrames {
            frame_length: DEFAULT_FRAME_LENGTH,
            attached_sync_marker: true,
            bit_slip: true,
            flywheel: 8,
            reed_solomon: Some(RsConfig {
                interleave: 5,
                parity_symbols: 32
            }),
            derandomize: true,
            has_fecf: true,
            has_ocf: true,
            insert_zone: 4,
        }
    );
    assert_eq!(args.described(), config);
}

#[test]
fn no_asm_turns_the_marker_off_and_not_on() {
    let args = PipelineArgs {
        framing: FramingKind::Tm,
        no_asm: true,
        ..pipeline()
    };
    let Framing::TmFrames {
        attached_sync_marker,
        ..
    } = args.to_pipeline_config(Ok(())).unwrap().framing
    else {
        panic!("not frames");
    };
    assert!(!attached_sync_marker);
}

#[test]
fn an_interleave_with_nothing_to_interleave_is_refused() {
    let message = refusal(&PipelineArgs {
        framing: FramingKind::Tm,
        interleave: Some(5),
        ..pipeline()
    });
    assert!(message.contains("--rs"), "{message}");
}

#[test]
fn what_the_link_refuses_is_refused_behind_the_flags() {
    let verdict = || Err("frame_length: 1115 is not 892".to_string());
    let args = PipelineArgs {
        framing: FramingKind::Tm,
        rs: Some(32),
        interleave: Some(4),
        ..pipeline()
    };
    let error = args.to_pipeline_config(verdict()).unwrap_err();
    assert!(error.to_string().contains("892"), "{error:?}");
    let flags_first = PipelineArgs {
        rs: Some(32),
        ..pipeline()
    };
    let error = flags_first.to_pipeline_config(verdict()).unwrap_err();
    assert!(error.to_string().contains("--rs"), "{error:?}");
}

#[test]
fn csp_on_a_file_source_is_refused_by_the_session() {
    let args = ReplayArgs {
        pipeline: PipelineArgs {
            csp: Some(CspKind::V1),
            ..pipeline()
        },
        ..replay()
    };
    let error = args.to_session_config(Ok(())).unwrap_err();
    assert!(error.to_string().contains("csp"), "{error:?}");
    assert!(matches!(error, CliError::Engine(EngineError::Config(_))));
}

#[test]
fn csp_on_a_probe_is_refused_because_a_file_has_no_message_boundaries() {
    let args = ProbeArgs {
        pipeline: PipelineArgs {
            csp: Some(CspKind::V1),
            ..pipeline()
        },
        ..probe()
    };
    // The plain pipeline conversion accepts it — CSP over packet framing is legal — and
    // it is the source that decides. A probe that forwarded to it would read one header.
    assert!(args.pipeline.to_pipeline_config(Ok(())).is_ok());
    let error = args.to_pipeline_config(Ok(())).unwrap_err();
    assert!(error.to_string().contains("--csp"), "{error:?}");
    assert_eq!(CspVersion::from(CspKind::V2), CspVersion::V2);
}

#[test]
fn a_named_clock_becomes_a_time_source_and_an_unnamed_one_does_not() {
    let args = RunArgs {
        time: TimeArgs {
            parameter: Some("/Sat/OBT".to_string()),
            format: TimeFormatKind::Cuc,
            coarse_bytes: 4,
            fine_bytes: 2,
            epoch: EpochKind::Gps,
            ..time()
        },
        ..run()
    };
    let source = args.time.to_time_source().expect("a named clock");
    assert_eq!(source.parameter, "/Sat/OBT");
    assert_eq!(
        source.format,
        TimeFormat::Cuc {
            coarse_bytes: 4,
            fine_bytes: 2,
            epoch: Utc::gps_epoch(),
        }
    );

    assert!(run().time.to_time_source().is_none());
}

#[test]
fn a_clock_layout_the_engine_refuses_is_refused_here() {
    let args = RunArgs {
        time: TimeArgs {
            parameter: Some("/Sat/OBT".to_string()),
            format: TimeFormatKind::Cds,
            day_bytes: 1,
            ..time()
        },
        ..run()
    };
    let error = args.to_session_config(udp(), Ok(())).unwrap_err();
    assert!(error.to_string().contains("day segment"), "{error:?}");
}

#[test]
fn a_history_of_zero_is_refused_before_anything_is_opened() {
    let args = RunArgs {
        history: 0,
        ..run()
    };
    let error = args.to_session_config(udp(), Ok(())).unwrap_err();
    assert!(error.to_string().contains("history_depth"), "{error:?}");
}

#[test]
fn every_epoch_and_format_has_its_meaning() {
    for (kind, epoch) in [
        (EpochKind::Ccsds, Utc::ccsds_epoch()),
        (EpochKind::Unix, Utc::epoch()),
        (EpochKind::Gps, Utc::gps_epoch()),
    ] {
        let args = TimeArgs {
            parameter: Some("/Sat/OBT".to_string()),
            format: TimeFormatKind::Seconds,
            epoch: kind,
            ..time()
        };
        let source = args.to_time_source().expect("a named clock");
        assert_eq!(source.format, TimeFormat::Seconds { epoch });
    }
}

#[test]
fn a_chain_of_identical_messages_is_printed_once() {
    let outer = CliError::Engine(EngineError::Link("frame_length is 0".to_string()));
    let chain = vec![outer.to_string(), "frame_length is 0".to_string()];
    assert_eq!(report(&chain), vec!["error: frame_length is 0".to_string()]);
    let chain: Vec<String> = ["a", "a", "b", "b", "a"].iter().map(|s| s.to_string()).collect();
    assert_eq!(
        report(&chain),
        vec!["error: a", "  caused by: b", "  caused by: a"]
    );
    assert!(report(&Vec::new()).is_empty());
    for error in [
        CliError::Gui("why".to_string()),
        CliError::Link("why".to_string()),
        CliError::Io("why".to_string()),
    ] {
        assert_eq!(error.to_string(), "why");
    }
}
