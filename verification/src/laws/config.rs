//! What a configuration promises: which are accepted, and what flags become.

use vstd::prelude::*;

use crate::args::{
    clock_of, command_refusal, export_config, flags_refusal, frame_flags, frame_flags_text,
    pipeline_of, pipeline_refusal, replay_config, run_config, CspKind, EpochKind, ExportArgs,
    FramingKind, PipelineArgs, ReplayArgs, RunArgs, TimeArgs, TimeFormatKind,
};
use crate::cli::{report_lines, CliErrorView};
use crate::config::{
    clock_refusal, csp_text, day_segment_text, field_width, session_refusal, submillisecond_text,
    wide_cuc_text, SessionConfig, TimeFormat, TimeSource, NO_CLOCK_PARAMETER, NO_COARSE_BYTES,
    NO_DEFINITION, NO_EVENTS, NO_HISTORY,
};
use crate::error::EngineErrorView;
use crate::laws::text::shows;
use crate::link::{source_kind_text, CspVersion, Framing, ReadFailure, SourceSpec};
use crate::text::{blank, decimal};

verus! {

/// Whether a clock's layout is one that the standards define and that can be read.
pub open spec fn is_layout(format: TimeFormat) -> bool {
    match format {
        TimeFormat::Cuc { coarse_bytes, fine_bytes, .. } => 1 <= coarse_bytes && coarse_bytes
            + fine_bytes <= 8,
        TimeFormat::Cds { day_bytes, submillisecond_bytes, .. } => 2 <= day_bytes <= 4 && (
        submillisecond_bytes == 0 || submillisecond_bytes == 2 || submillisecond_bytes == 4),
        TimeFormat::Seconds { .. } => true,
    }
}

/// A clock is accepted exactly where it names a parameter and its layout is one there is; and what
/// is wrong with it is what it is refused for, the name first.
pub proof fn a_clock_is_accepted_where_it_can_be_read(source: TimeSource)
    ensures
        clock_refusal(source) is None <==> !blank(source.parameter@) && is_layout(source.format),
        blank(source.parameter@) ==> clock_refusal(source) == Some(NO_CLOCK_PARAMETER@),
        !blank(source.parameter@) ==> match source.format {
            TimeFormat::Cuc { coarse_bytes, fine_bytes, .. } => {
                &&& coarse_bytes == 0 ==> clock_refusal(source) == Some(NO_COARSE_BYTES@)
                &&& coarse_bytes > 0 && coarse_bytes + fine_bytes > 8 ==> clock_refusal(source)
                    == Some(wide_cuc_text(coarse_bytes, fine_bytes))
            },
            TimeFormat::Cds { day_bytes, submillisecond_bytes, .. } => {
                &&& day_bytes < 2 || day_bytes > 4 ==> clock_refusal(source) == Some(
                    day_segment_text(day_bytes),
                )
                &&& 2 <= day_bytes <= 4 && !is_layout(source.format) ==> clock_refusal(source)
                    == Some(submillisecond_text(submillisecond_bytes))
            },
            TimeFormat::Seconds { .. } => true,
        },
{
}

/// A refusal of a layout shows the numbers it is refused for.
pub proof fn a_refused_layout_is_shown(coarse: u8, fine: u8, days: u8, less: u8)
    ensures
        shows(wide_cuc_text(coarse, fine), " a CUC of "@, decimal(coarse as nat), " coarse and "@),
        shows(
            wide_cuc_text(coarse, fine),
            " coarse and "@,
            decimal(fine as nat),
            " fine bytes is "@,
        ),
        shows(
            wide_cuc_text(coarse, fine),
            " fine bytes is "@,
            decimal((coarse + fine) as nat),
            " bytes wide"@,
        ),
        shows(day_segment_text(days), " day segment of "@, decimal(days as nat), " bytes"@),
        shows(submillisecond_text(less), " field of "@, decimal(less as nat), " bytes"@),
{
    reveal_strlit("spacecraft_time.format: a CUC of ");
    reveal_strlit(" a CUC of ");
    reveal_strlit(" bytes wide, and this reads at most 8");
    reveal_strlit(" bytes wide");
    reveal_strlit("spacecraft_time.format: a CDS day segment of ");
    reveal_strlit(" day segment of ");
    reveal_strlit(
        " bytes; CCSDS 301.0-B-4 section 3.3 defines 16 or 24 bits, and a fourth octet is the most a longer mission count can be",
    );
    reveal_strlit(" bytes");
    reveal_strlit("spacecraft_time.format: a CDS submillisecond field of ");
    reveal_strlit(" field of ");
    reveal_strlit(
        " bytes; CCSDS 301.0-B-4 section 3.3 defines 0, 2 (microseconds) or 4 (picoseconds)",
    );
    let none = Seq::<char>::empty();
    let (c, f, s) = (
        decimal(coarse as nat),
        decimal(fine as nat),
        decimal((coarse + fine) as nat),
    );
    let head = "spacecraft_time.format: a CUC of "@;
    let tail = " bytes wide, and this reads at most 8"@;
    assert(head =~= head.take(23) + " a CUC of "@);
    assert(tail =~= " bytes wide"@ + tail.skip(11));
    let wide = wide_cuc_text(coarse, fine);
    assert(wide =~= head.take(23) + " a CUC of "@ + c + " coarse and "@ + (f + " fine bytes is "@ + s
        + tail));
    assert(wide =~= (head + c) + " coarse and "@ + f + " fine bytes is "@ + (s + tail));
    assert(wide =~= (head + c + " coarse and "@ + f) + " fine bytes is "@ + s + " bytes wide"@
        + tail.skip(11));
    let day_head = "spacecraft_time.format: a CDS day segment of "@;
    let day_tail =
        " bytes; CCSDS 301.0-B-4 section 3.3 defines 16 or 24 bits, and a fourth octet is the most a longer mission count can be"@;
    assert(day_head =~= day_head.take(29) + " day segment of "@);
    assert(day_tail =~= " bytes"@ + day_tail.skip(6));
    assert(day_segment_text(days) =~= day_head.take(29) + " day segment of "@ + decimal(days as nat)
        + " bytes"@ + day_tail.skip(6));
    let less_head = "spacecraft_time.format: a CDS submillisecond field of "@;
    let less_tail =
        " bytes; CCSDS 301.0-B-4 section 3.3 defines 0, 2 (microseconds) or 4 (picoseconds)"@;
    assert(less_head =~= less_head.take(44) + " field of "@);
    assert(less_tail =~= " bytes"@ + less_tail.skip(6));
    assert(submillisecond_text(less) =~= less_head.take(44) + " field of "@ + decimal(less as nat)
        + " bytes"@ + less_tail.skip(6));
}

/// A field is as wide as its parts together.
pub proof fn a_field_is_as_wide_as_its_parts(format: TimeFormat)
    ensures
        match format {
            TimeFormat::Cuc { coarse_bytes, fine_bytes, .. } => field_width(format) == Some(
                coarse_bytes + fine_bytes,
            ),
            TimeFormat::Cds { day_bytes, submillisecond_bytes, .. } => field_width(format) == Some(
                day_bytes + 4 + submillisecond_bytes,
            ),
            TimeFormat::Seconds { .. } => field_width(format) is None,
        },
{
}

/// A session is accepted exactly where there is a definition to decode against, a history and a log
/// that hold something, a clock that can be read where there is one, datagrams where CSP is asked
/// for, and a framing that the link accepts.
pub proof fn a_session_is_accepted_where_it_can_run(config: SessionConfig, framing: Result<(), String>)
    ensures
        session_refusal(config, framing) is None <==> {
            &&& config.definition@.len() > 0
            &&& config.history_depth > 0
            &&& config.event_capacity > 0
            &&& config.spacecraft_time matches Some(time) ==> !blank(time.parameter@) && is_layout(
                time.format,
            )
            &&& config.pipeline.csp is Some ==> config.source is Udp
            &&& framing is Ok
        },
{
    if let Some(time) = config.spacecraft_time {
        a_clock_is_accepted_where_it_can_be_read(time);
    }
}

/// Of several mistakes the first is named: the definition, the history, the log, the clock, CSP, and
/// last what the link refuses, in its own words.
pub proof fn the_first_mistake_is_named(config: SessionConfig, framing: Result<(), String>)
    ensures
        ({
            let refusal = session_refusal(config, framing);
            let named = config.definition@.len() > 0;
            let deep = named && config.history_depth > 0;
            let logged = deep && config.event_capacity > 0;
            let clocked = logged && (config.spacecraft_time matches Some(time) ==> clock_refusal(
                time,
            ) is None);
            let carried = clocked && (config.pipeline.csp is None || config.source is Udp);
            &&& !named ==> refusal == Some(EngineErrorView::Config(NO_DEFINITION@))
            &&& named && !deep ==> refusal == Some(EngineErrorView::Config(NO_HISTORY@))
            &&& deep && !logged ==> refusal == Some(EngineErrorView::Config(NO_EVENTS@))
            &&& logged && !clocked ==> refusal == Some(
                EngineErrorView::Config(clock_refusal(config.spacecraft_time->0)->0),
            )
            &&& clocked && !carried ==> refusal == Some(
                EngineErrorView::Config(csp_text(config.source)),
            )
            &&& carried ==> (framing matches Err(reason) ==> refusal == Some(
                EngineErrorView::Link(reason@),
            ))
        }),
{
}

/// A source is named by what carries it, and a refusal of CSP names the source.
pub proof fn a_source_is_named_by_its_transport(source: SourceSpec)
    ensures
        source is Udp ==> source_kind_text(source) == seq!['U', 'D', 'P'],
        source is TcpConnect || source is TcpListen ==> source_kind_text(source) == seq![
            'T',
            'C',
            'P',
        ],
        source is File ==> source_kind_text(source) == seq!['f', 'i', 'l', 'e'],
        shows(csp_text(source), " set on a "@, source_kind_text(source), " source;"@),
{
    reveal_strlit("UDP");
    reveal_strlit("TCP");
    reveal_strlit("file");
    reveal_strlit("pipeline.csp: set on a ");
    reveal_strlit(" set on a ");
    reveal_strlit(" source;");
    reveal_strlit(
        " source; a CSP header has no length field, so a CSP stream can only be read where the message boundaries come from the transport — a UDP source",
    );
    let head = "pipeline.csp: set on a "@;
    let tail =
        " source; a CSP header has no length field, so a CSP stream can only be read where the message boundaries come from the transport — a UDP source"@;
    assert(head =~= head.take(13) + " set on a "@);
    assert(tail =~= " source;"@ + tail.skip(8));
    assert(csp_text(source) =~= head.take(13) + " set on a "@ + source_kind_text(source)
        + " source;"@ + tail.skip(8));
}

/// A failure that passes is worth another read: the peer went, or the read was interrupted, was not
/// ready or took too long. No other is.
pub proof fn a_failure_that_passes(why: ReadFailure)
    ensures
        ReadFailure::ConnectionReset.worth_another_read(),
        ReadFailure::Interrupted.worth_another_read(),
        ReadFailure::WouldBlock.worth_another_read(),
        ReadFailure::TimedOut.worth_another_read(),
        why != ReadFailure::ConnectionReset && why != ReadFailure::Interrupted && why
            != ReadFailure::WouldBlock && why != ReadFailure::TimedOut ==> !why.worth_another_read(),
{
}

/// Every flag of a transfer frame reaches the framing, the marker is off only where that is asked
/// for, and packets have none of them.
pub proof fn flags_become_a_framing(args: PipelineArgs)
    ensures
        args.framing == FramingKind::Packets ==> pipeline_of(args).framing is Packets,
        args.framing == FramingKind::Tm ==> match pipeline_of(args).framing {
            Framing::TmFrames {
                frame_length,
                attached_sync_marker,
                bit_slip,
                flywheel,
                reed_solomon,
                derandomize,
                has_fecf,
                has_ocf,
                insert_zone,
            } => {
                &&& frame_length == args.frame_length
                &&& attached_sync_marker != args.no_asm
                &&& bit_slip == args.bit_slip
                &&& flywheel == args.flywheel
                &&& derandomize == args.derandomize
                &&& has_fecf == args.fecf
                &&& has_ocf == args.ocf
                &&& args.insert_zone matches Some(zone) ==> insert_zone == zone
                &&& args.insert_zone is None ==> insert_zone == 0
                &&& args.rs is None <==> reed_solomon is None
                &&& reed_solomon matches Some(code) ==> args.rs == Some(code.parity_symbols) && (
                args.interleave matches Some(depth) ==> code.interleave == depth) && (
                args.interleave is None ==> code.interleave == 1)
            },
            Framing::Packets => false,
        },
        args.csp is None <==> pipeline_of(args).csp is None,
        args.csp == Some(CspKind::V1) ==> pipeline_of(args).csp == Some(CspVersion::V1),
        args.csp == Some(CspKind::V2) ==> pipeline_of(args).csp == Some(CspVersion::V2),
        pipeline_of(args).max_packet_length == args.max_packet_length,
{
}

/// Flags are refused exactly where they mean nothing: any flag of a frame where there are packets,
/// and interleaving without a code where there are frames. What the link refuses comes behind them,
/// in its own words.
pub proof fn flags_that_mean_nothing_are_refused(args: PipelineArgs, framing: Result<(), String>)
    ensures
        args.framing == FramingKind::Packets ==> (flags_refusal(args) is None <==> args.rs is None
            && args.interleave is None && !args.derandomize && !args.fecf && !args.ocf
            && args.insert_zone is None),
        args.framing == FramingKind::Tm ==> (flags_refusal(args) is None <==> args.interleave is None
            || args.rs is Some),
        pipeline_refusal(args, framing) is None <==> flags_refusal(args) is None && framing is Ok,
        flags_refusal(args) is Some ==> pipeline_refusal(args, framing) == flags_refusal(args),
        flags_refusal(args) is None ==> (framing matches Err(reason) ==> pipeline_refusal(
            args,
            framing,
        ) == Some(reason@)),
        args.framing == FramingKind::Packets && flags_refusal(args) is Some ==> flags_refusal(args)
            == Some(frame_flags_text(frame_flags(args))),
{
}

/// Each flag that means nothing is named, and no flag that was not given.
pub proof fn each_flag_is_named(args: PipelineArgs)
    ensures
        frame_flags(args).contains("--rs"@) <==> args.rs is Some,
        frame_flags(args).contains("--interleave"@) <==> args.interleave is Some,
        frame_flags(args).contains("--derandomize"@) <==> args.derandomize,
        frame_flags(args).contains("--fecf"@) <==> args.fecf,
        frame_flags(args).contains("--ocf"@) <==> args.ocf,
        frame_flags(args).contains("--insert-zone"@) <==> args.insert_zone is Some,
{
    reveal_strlit("--rs");
    reveal_strlit("--interleave");
    reveal_strlit("--derandomize");
    reveal_strlit("--fecf");
    reveal_strlit("--ocf");
    reveal_strlit("--insert-zone");
    let (a, b, c, d, e, f) = (
        "--rs"@,
        "--interleave"@,
        "--derandomize"@,
        "--fecf"@,
        "--ocf"@,
        "--insert-zone"@,
    );
    assert(c[2] == 'd' && f[2] == 'i');
    assert(a.len() != b.len() && a.len() != c.len() && a.len() != d.len() && a.len() != e.len()
        && a.len() != f.len());
    assert(b.len() != c.len() && b.len() != d.len() && b.len() != e.len() && b.len() != f.len());
    assert(c.len() != d.len() && c.len() != e.len() && d.len() != e.len() && d.len() != f.len()
        && e.len() != f.len());
    lemma_flag_is_named(args, a);
    lemma_flag_is_named(args, b);
    lemma_flag_is_named(args, c);
    lemma_flag_is_named(args, d);
    lemma_flag_is_named(args, e);
    lemma_flag_is_named(args, f);
}

proof fn lemma_flag_is_named(args: PipelineArgs, flag: Seq<char>)
    ensures
        frame_flags(args).contains(flag) <==> (args.rs is Some && flag == "--rs"@) || (
        args.interleave is Some && flag == "--interleave"@) || (args.derandomize && flag
            == "--derandomize"@) || (args.fecf && flag == "--fecf"@) || (args.ocf && flag
            == "--ocf"@) || (args.insert_zone is Some && flag == "--insert-zone"@),
{
    let none = Seq::<Seq<char>>::empty();
    let s1 = crate::args::with_flag(none, "--rs"@, args.rs is Some);
    let s2 = crate::args::with_flag(s1, "--interleave"@, args.interleave is Some);
    let s3 = crate::args::with_flag(s2, "--derandomize"@, args.derandomize);
    let s4 = crate::args::with_flag(s3, "--fecf"@, args.fecf);
    let s5 = crate::args::with_flag(s4, "--ocf"@, args.ocf);
    lemma_with_flag(none, "--rs"@, args.rs is Some, flag);
    lemma_with_flag(s1, "--interleave"@, args.interleave is Some, flag);
    lemma_with_flag(s2, "--derandomize"@, args.derandomize, flag);
    lemma_with_flag(s3, "--fecf"@, args.fecf, flag);
    lemma_with_flag(s4, "--ocf"@, args.ocf, flag);
    lemma_with_flag(s5, "--insert-zone"@, args.insert_zone is Some, flag);
}

proof fn lemma_with_flag(flags: Seq<Seq<char>>, flag: Seq<char>, given: bool, other: Seq<char>)
    ensures
        crate::args::with_flag(flags, flag, given).contains(other) <==> flags.contains(other) || (
        given && other == flag),
{
    let after = crate::args::with_flag(flags, flag, given);
    if given {
        if flags.contains(other) {
            let i = choose|i: int| 0 <= i < flags.len() && flags[i] == other;
            assert(after[i] == other);
        }
        if other == flag {
            assert(after[flags.len() as int] == other);
        }
        if after.contains(other) {
            let i = choose|i: int| 0 <= i < after.len() && after[i] == other;
            if i < flags.len() {
                assert(flags[i] == other);
            }
        }
    }
}

/// A clock is what its flags say: none without a parameter, and otherwise that parameter, in that
/// layout, from that epoch.
pub proof fn flags_become_a_clock(args: TimeArgs)
    ensures
        args.parameter is None <==> clock_of(args) is None,
        clock_of(args) matches Some(clock) ==> {
            let epoch = if args.epoch == EpochKind::Ccsds {
                -378_691_200_000_000_000int
            } else if args.epoch == EpochKind::Gps {
                315_964_800_000_000_000
            } else {
                0
            };
            &&& args.parameter == Some(clock.parameter)
            &&& match clock.format {
                TimeFormat::Cuc { coarse_bytes, fine_bytes, epoch: from } => args.format
                    == TimeFormatKind::Cuc && coarse_bytes == args.coarse_bytes && fine_bytes
                    == args.fine_bytes && from.nanos() == epoch,
                TimeFormat::Cds { day_bytes, submillisecond_bytes, epoch: from } => args.format
                    == TimeFormatKind::Cds && day_bytes == args.day_bytes && submillisecond_bytes
                    == args.submillisecond_bytes && from.nanos() == epoch,
                TimeFormat::Seconds { epoch: from } => args.format == TimeFormatKind::Seconds
                    && from.nanos() == epoch,
            }
        },
{
}

/// What is asked of a run is what its session is: nothing is changed, left out or made up.
pub proof fn a_run_is_what_was_asked(args: RunArgs, source: SourceSpec)
    ensures
        ({
            let config = run_config(args, source);
            &&& config.definition == args.definition
            &&& config.root_container == args.root
            &&& config.source == source
            &&& config.pipeline == pipeline_of(args.pipeline)
            &&& config.history_depth == args.history
            &&& config.limits == args.limits
            &&& config.record == args.record
            &&& config.spacecraft_time == clock_of(args.time)
            &&& config.event_capacity == 2048
        }),
{
}

/// A replay reads its recording, at its rate or as fast as it can where that is none, and records
/// nothing.
pub proof fn a_replay_is_what_was_asked(args: ReplayArgs)
    ensures
        ({
            let config = replay_config(args);
            &&& config.definition == args.definition
            &&& config.root_container == args.root
            &&& config.pipeline == pipeline_of(args.pipeline)
            &&& config.history_depth == args.history
            &&& config.limits == args.limits
            &&& config.record is None
            &&& config.spacecraft_time == clock_of(args.time)
            &&& config.event_capacity == 2048
            &&& match config.source {
                SourceSpec::File { path, bytes_per_second, chunk, repeat } => {
                    &&& path == args.recording
                    &&& args.rate > 0 ==> bytes_per_second == Some(args.rate)
                    &&& args.rate == 0 ==> bytes_per_second is None
                    &&& chunk == args.chunk
                    &&& repeat == args.repeat
                },
                _ => false,
            }
        }),
{
}

/// An export reads its stream once, as fast as it can, and keeps as little as there is.
pub proof fn an_export_is_what_was_asked(args: ExportArgs)
    ensures
        ({
            let config = export_config(args);
            &&& config.definition == args.definition
            &&& config.root_container == args.root
            &&& config.pipeline == pipeline_of(args.pipeline)
            &&& config.history_depth == 1
            &&& config.limits is None
            &&& config.record is None
            &&& config.spacecraft_time == clock_of(args.time)
            &&& match config.source {
                SourceSpec::File { path, bytes_per_second, repeat, .. } => path == args.stream
                    && bytes_per_second is None && !repeat,
                _ => false,
            }
        }),
{
}

/// A command is refused for its flags first, as the link's matter, and then for what its session is
/// refused for, as the engine's; it runs exactly where neither is.
pub proof fn a_command_is_refused_for_its_flags_first(
    pipeline: PipelineArgs,
    framing: Result<(), String>,
    config: SessionConfig,
)
    ensures
        command_refusal(pipeline, framing, config) is None <==> pipeline_refusal(
            pipeline,
            framing,
        ) is None && session_refusal(config, Ok(())) is None,
        pipeline_refusal(pipeline, framing) matches Some(reason) ==> command_refusal(
            pipeline,
            framing,
            config,
        ) == Some(CliErrorView::Link(reason)),
        pipeline_refusal(pipeline, framing) is None ==> (session_refusal(config, Ok(()))
            matches Some(error) ==> command_refusal(pipeline, framing, config) == Some(
            CliErrorView::Engine(error),
        )),
{
}

/// A chain of failures is reported from the outermost in: each is a line of its own, but for one
/// that says what the one before it said.
pub proof fn a_chain_is_reported(chain: Seq<Seq<char>>, message: Seq<char>)
    ensures
        report_lines(seq![message]) == seq!["error: "@ + message],
        chain.len() > 0 && message == chain.last() ==> report_lines(chain.push(message))
            == report_lines(chain),
        chain.len() > 0 && message != chain.last() ==> report_lines(chain.push(message))
            == report_lines(chain).push("  caused by: "@ + message),
{
    assert(chain.push(message).drop_last() =~= chain);
}

/// An error says what it was told, whatever kind it is.
pub proof fn an_error_says_what_it_was_told(message: Seq<char>, error: EngineErrorView)
    ensures
        EngineErrorView::Xtce(message).text() == message,
        EngineErrorView::Decode(message).text() == message,
        EngineErrorView::Link(message).text() == message,
        EngineErrorView::Io(message).text() == message,
        EngineErrorView::Config(message).text() == message,
        CliErrorView::Gui(message).text() == message,
        CliErrorView::Link(message).text() == message,
        CliErrorView::Io(message).text() == message,
        CliErrorView::Engine(error).text() == error.text(),
{
}

} // verus!
