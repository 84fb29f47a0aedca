//! What a session promises of what was queued.

use vstd::prelude::*;

use crate::config::SessionConfig;
use crate::decode::{accepted, refused, restarted, DecoderView};
use crate::error::{EngineError, EngineErrorView};
use crate::ids::ParamId;
use crate::limits::LimitSet;
use crate::sample::{sample_views, Batch};
use crate::sctime::{undeclared_clock, SpacecraftClock};
use crate::session::{
    are_batches_of, decoder_after, first_refusal, ingested_all, is_clock_of, start_refusal, Work,
};
use crate::store::{ingested_batch, StoreView};

verus! {

/// What was queued is worked through in its order: a packet that is described is accepted, one that
/// is not refused, and a restart restarts.
pub proof fn work_is_done_in_order(decoder: DecoderView, queued: Seq<Work>, work: Work)
    ensures
        decoder_after(decoder, Seq::<Work>::empty()) == decoder,
        work is Restart ==> decoder_after(decoder, queued.push(work)) == restarted(
            decoder_after(decoder, queued),
        ),
        work matches Work::Packet(packet, Ok(described)) ==> decoder_after(
            decoder,
            queued.push(work),
        ) == accepted(
            decoder_after(decoder, queued),
            &described,
            packet.received,
            packet.bytes@,
        ),
        work matches Work::Packet(packet, Err(_)) ==> decoder_after(decoder, queued.push(work))
            == refused(decoder_after(decoder, queued), packet.received, packet.bytes@),
{
    assert(queued.push(work).drop_last() =~= queued);
}

/// The reason given for a wake-up is that of the first packet refused in it, and there is one
/// exactly where one was refused.
pub proof fn the_first_refusal_is_the_reason(queued: Seq<Work>, place: int)
    requires
        0 <= place < queued.len(),
        queued[place] is Packet,
        queued[place]->Packet_1 is Err,
        forall|i: int|
            0 <= i < place && (#[trigger] queued[i]) is Packet ==> queued[i]->Packet_1 is Ok,
    ensures
        first_refusal(queued) == Some(queued[place]->Packet_1->Err_0.message@),
    decreases queued.len(),
{
    let rest = queued.drop_last();
    if place < rest.len() {
        assert forall|i: int|
            0 <= i < place && (#[trigger] rest[i]) is Packet implies rest[i]->Packet_1 is Ok by {
            assert(queued[i] is Packet);
        }
        the_first_refusal_is_the_reason(rest, place);
    } else {
        assert forall|i: int| 0 <= i < rest.len() && (#[trigger] rest[i]) is Packet implies (
        rest[i]->Packet_1 is Ok) by {
            assert(queued[i] is Packet);
        }
        no_refusal_is_no_reason(rest);
    }
}

/// Where nothing was refused there is no reason to give.
pub proof fn no_refusal_is_no_reason(queued: Seq<Work>)
    requires
        forall|i: int|
            0 <= i < queued.len() && (#[trigger] queued[i]) is Packet ==> queued[i]->Packet_1 is Ok,
    ensures
        first_refusal(queued) is None,
    decreases queued.len(),
{
    if queued.len() > 0 {
        let rest = queued.drop_last();
        assert forall|i: int| 0 <= i < rest.len() && (#[trigger] rest[i]) is Packet implies (
        rest[i]->Packet_1 is Ok) by {
            assert(queued[i] is Packet);
        }
        no_refusal_is_no_reason(rest);
        let last = queued[queued.len() - 1];
        assert(last is Packet ==> last->Packet_1 is Ok);
    }
}

/// Batches are filed one after the other, each at its own time.
pub proof fn batches_are_filed_in_order(store: StoreView, batches: Seq<Batch>, batch: Batch)
    ensures
        ingested_all(store, Seq::<Batch>::empty()) == store,
        batch.spacecraft matches Some(time) ==> ingested_all(store, batches.push(batch))
            == ingested_batch(ingested_all(store, batches), sample_views(batch.samples@), time),
        batch.spacecraft is None ==> ingested_all(store, batches.push(batch)) == ingested_batch(
            ingested_all(store, batches),
            sample_views(batch.samples@),
            batch.received,
        ),
{
    assert(batches.push(batch).drop_last() =~= batches);
}

/// A session starts exactly where nothing is in its way, and otherwise the first thing that is, in
/// the order they are looked at, is what it is refused for: the configuration, the definition, the
/// root container, the limits, the clock.
pub proof fn a_session_is_refused_for_the_first_thing(
    config: SessionConfig,
    framing: Result<(), String>,
    definition: Result<usize, String>,
    root: Result<(), String>,
    limits: Option<Result<LimitSet, EngineError>>,
    clock: Option<ParamId>,
)
    ensures
        ({
            let refusal = start_refusal(config, framing, definition, root, limits, clock);
            let configured = crate::config::session_refusal(config, framing);
            &&& configured is Some ==> refusal == configured
            &&& configured is None ==> {
                &&& definition matches Err(error) ==> refusal == Some(EngineErrorView::Xtce(error@))
                &&& definition is Ok ==> (root matches Err(error) ==> refusal == Some(
                    EngineErrorView::Decode(error@),
                ))
                &&& definition is Ok && root is Ok ==> (limits matches Some(Err(error)) ==> refusal
                    == Some(error@))
                &&& definition is Ok && root is Ok && !(limits matches Some(Err(_))) ==> (refusal
                    is None <==> config.spacecraft_time is None || clock is Some)
                &&& definition is Ok && root is Ok && !(limits matches Some(Err(_)))
                    && config.spacecraft_time is Some && clock is None ==> refusal == Some(
                    EngineErrorView::Config(
                        undeclared_clock(config.spacecraft_time->0.parameter@),
                    ),
                )
            }
        }),
{
}

/// A session has a clock exactly where one is configured: on the parameter that was found, in the
/// layout that was asked for.
pub proof fn a_clock_is_the_one_configured(
    clock: Option<SpacecraftClock>,
    config: SessionConfig,
    found: Option<ParamId>,
)
    requires
        is_clock_of(clock, config, found),
    ensures
        clock is Some <==> config.spacecraft_time is Some,
        clock matches Some(clock) ==> found == Some(clock.source()) && clock.layout()
            == config.spacecraft_time->0.format,
{
}

/// The batches of a wake-up are those of the packets that were described, in their order, each made
/// with the counts as they stood before it.
pub proof fn a_described_packet_is_the_last_batch(
    batches: Seq<Batch>,
    decoder: DecoderView,
    queued: Seq<Work>,
    work: Work,
)
    requires
        are_batches_of(batches, decoder, queued.push(work)),
    ensures
        work matches Work::Packet(packet, Ok(described)) ==> batches.len() > 0
            && crate::decode::is_batch_of(
            batches.last(),
            decoder_after(decoder, queued),
            &described,
            packet.received,
            packet.bytes@,
        ) && are_batches_of(batches.drop_last(), decoder, queued),
        !(work matches Work::Packet(_, Ok(_))) ==> are_batches_of(batches, decoder, queued),
{
    assert(queued.push(work).drop_last() =~= queued);
}

} // verus!
