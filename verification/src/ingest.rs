//! The ingest pipeline: from raw bytes to validated records, and the rules
//! by which the read/decode loop goes on, skips or stops.

use vstd::prelude::*;
use crate::codec::{
    checksum_matches, decode, encode_spec, ends_with_marker, flip_bit, frame_fields,
    lemma_bit_flip_is_rejected, lemma_decode_inverts_encode, DecodeFailure, CHECKSUM_SIZE,
    FRAME_SIZE, MARKER_SIZE,
};
use crate::sync::{
    frames_in, frames_of, garbage_runs, lemma_resync_finds_every_frame, lemma_run_finds_frames,
    lost_locks_in, lost_locks_of, segment_is_clean, splice, sync_run, sync_start,
    FrameSynchronizer, Segment, SyncEvent, SyncOutcome,
};
use crate::telemetry::TelemetryPacket;

verus! {

/// The records of those of `frames` that pass their checksum, in order.
pub open spec fn records_of(frames: Seq<Seq<u8>>) -> Seq<TelemetryPacket> {
    frames.filter(|frame: Seq<u8>| checksum_matches(frame)).map_values(
        |frame: Seq<u8>| frame_fields(frame),
    )
}

/// How many of `frames` fail their checksum.
pub open spec fn rejected_in(frames: Seq<Seq<u8>>) -> nat {
    frames.filter(|frame: Seq<u8>| !checksum_matches(frame)).len()
}

/// What came out of a byte stream.
#[derive(Clone, Debug, PartialEq, Eq)]
pub struct IngestReport {
    /// The records of the frames that passed their checksum, in stream order.
    pub records: Vec<TelemetryPacket>,
    /// The number of frames that failed their checksum.
    pub rejected: usize,
    /// How often the synchronizer lost lock.
    pub lost_locks: usize,
}

proof fn lemma_counts_are_bounded(outcomes: Seq<SyncOutcome>)
    ensures
        frames_in(outcomes).len() + lost_locks_in(outcomes) <= outcomes.len(),
    decreases outcomes.len(),
{
    if outcomes.len() > 0 {
        lemma_counts_are_bounded(outcomes.drop_last());
    }
}

proof fn lemma_rejected_is_bounded(frames: Seq<Seq<u8>>)
    ensures
        rejected_in(frames) <= frames.len(),
{
    frames.lemma_filter_len(|frame: Seq<u8>| !checksum_matches(frame));
}

/// What one more frame adds to the records and to the count of rejects.
proof fn lemma_one_more_frame(frames: Seq<Seq<u8>>, frame: Seq<u8>)
    ensures
        records_of(frames.push(frame)) == if checksum_matches(frame) {
            records_of(frames).push(frame_fields(frame))
        } else {
            records_of(frames)
        },
        rejected_in(frames.push(frame)) == if checksum_matches(frame) {
            rejected_in(frames)
        } else {
            rejected_in(frames) + 1
        },
{
    reveal(Seq::filter);
    assert(frames.push(frame).drop_last() =~= frames);
    if checksum_matches(frame) {
        assert(records_of(frames.push(frame)) =~= records_of(frames).push(frame_fields(frame)));
    }
}

/// Runs the fixed-width pipeline over a whole stream: synchronizes, checks
/// each frame and decodes those that pass.
pub fn ingest(stream: &[u8]) -> (report: IngestReport)
    ensures
        report.records@ == records_of(frames_of(stream@)),
        report.rejected == rejected_in(frames_of(stream@)),
        report.lost_locks == lost_locks_of(stream@),
{
    let mut sync = FrameSynchronizer::new();
    let mut records: Vec<TelemetryPacket> = Vec::new();
    let mut rejected: usize = 0;
    let mut lost_locks: usize = 0;
    let ghost mut outcomes: Seq<SyncOutcome> = Seq::empty();
    let mut i: usize = 0;
    assert(stream@.take(0) =~= Seq::<u8>::empty());
    while i < stream.len()
        invariant
            i <= stream.len(),
            sync.wf(),
            (sync@, outcomes) == sync_run(sync_start(), stream@.take(i as int)),
            outcomes.len() == i,
            records@ == records_of(frames_in(outcomes)),
            rejected == rejected_in(frames_in(outcomes)),
            lost_locks == lost_locks_in(outcomes),
        decreases stream.len() - i,
    {
        proof {
            assert(stream@.take(i + 1).drop_last() =~= stream@.take(i as int));
            lemma_counts_are_bounded(outcomes);
            lemma_rejected_is_bounded(frames_in(outcomes));
        }
        let event = sync.push(stream[i]);
        proof {
            let earlier = outcomes;
            outcomes = outcomes.push(event@);
            assert(outcomes.drop_last() =~= earlier);
        }
        match event {
            SyncEvent::Locked { frame, .. } => {
                proof {
                    lemma_one_more_frame(frames_in(outcomes.drop_last()), frame@);
                }
                match decode(&frame) {
                    Ok(packet) => {
                        records.push(packet);
                    },
                    Err(_) => {
                        rejected = rejected + 1;
                    },
                }
            },
            SyncEvent::LostLock => {
                lost_locks = lost_locks + 1;
            },
            SyncEvent::Pending => {},
        }
        i = i + 1;
    }
    proof {
        assert(stream@.take(i as int) =~= stream@);
        lemma_run_finds_frames(stream@);
    }
    IngestReport { records, rejected, lost_locks }
}

/// `packet` as it comes out of a frame: without the flag that the layout does
/// not carry.
pub open spec fn as_decoded(packet: TelemetryPacket) -> TelemetryPacket {
    TelemetryPacket { v_bus_present: false, ..packet }
}

/// The segments in which each of `packets`, laid out as a frame, follows the
/// run of garbage of the same index.
pub open spec fn framed(garbage: Seq<Seq<u8>>, packets: Seq<TelemetryPacket>) -> Seq<Segment> {
    Seq::new(
        packets.len(),
        |i: int| Segment { garbage: garbage[i], frame: encode_spec(packets[i]) },
    )
}

proof fn lemma_encoded_frame_passes(packet: TelemetryPacket)
    ensures
        checksum_matches(encode_spec(packet)),
        frame_fields(encode_spec(packet)) == as_decoded(packet),
{
    lemma_decode_inverts_encode(packet);
}

proof fn lemma_records_of_valid_frames(frames: Seq<Seq<u8>>)
    requires
        forall|i: int| 0 <= i < frames.len() ==> checksum_matches(#[trigger] frames[i]),
    ensures
        records_of(frames) == frames.map_values(|frame: Seq<u8>| frame_fields(frame)),
        rejected_in(frames) == 0,
    decreases frames.len(),
{
    let fields = frames.map_values(|frame: Seq<u8>| frame_fields(frame));
    if frames.len() == 0 {
        reveal(Seq::filter);
        assert(records_of(frames) =~= fields);
    } else {
        let earlier = frames.drop_last();
        assert forall|i: int| 0 <= i < earlier.len() implies checksum_matches(
            #[trigger] earlier[i],
        ) by {
            assert(earlier[i] == frames[i]);
        }
        lemma_records_of_valid_frames(earlier);
        assert(checksum_matches(frames[frames.len() - 1]));
        lemma_one_more_frame(earlier, frames.last());
        assert(earlier.push(frames.last()) =~= frames);
        assert(fields =~= earlier.map_values(|frame: Seq<u8>| frame_fields(frame)).push(
            frame_fields(frames.last()),
        ));
    }
}

/// What goes in comes out: when records are laid out as frames and sent
/// with garbage between them that never makes the window close with the
/// marker, the pipeline gives back every record, once, in the order in which
/// they were sent, rejects nothing and loses lock once for each run of
/// garbage.
pub proof fn lemma_ingest_recovers_every_record(
    garbage: Seq<Seq<u8>>,
    packets: Seq<TelemetryPacket>,
)
    requires
        garbage.len() == packets.len(),
        forall|i: int|
            0 <= i < packets.len() ==> segment_is_clean(#[trigger] framed(garbage, packets)[i]),
    ensures
        records_of(frames_of(splice(framed(garbage, packets)))) == packets.map_values(
            |packet: TelemetryPacket| as_decoded(packet),
        ),
        rejected_in(frames_of(splice(framed(garbage, packets)))) == 0,
        lost_locks_of(splice(framed(garbage, packets))) == garbage_runs(framed(garbage, packets)),
{
    let segments = framed(garbage, packets);
    lemma_resync_finds_every_frame(segments);
    let frames = frames_of(splice(segments));
    assert forall|i: int| 0 <= i < frames.len() implies checksum_matches(#[trigger] frames[i]) by {
        lemma_encoded_frame_passes(packets[i]);
    }
    lemma_records_of_valid_frames(frames);
    let decoded = packets.map_values(|packet: TelemetryPacket| as_decoded(packet));
    assert forall|i: int| 0 <= i < decoded.len() implies records_of(frames)[i] == decoded[i] by {
        lemma_encoded_frame_passes(packets[i]);
    }
    assert(records_of(frames) =~= decoded);
}

/// A frame in which one bit between the checksum field and the marker was
/// inverted is dropped, and the frame behind it is decoded as if nothing had
/// happened.
pub proof fn lemma_corrupt_frame_is_isolated(damaged: Seq<u8>, next: Seq<u8>, at: int, bit: u8)
    requires
        damaged.len() == FRAME_SIZE,
        next.len() == FRAME_SIZE,
        ends_with_marker(damaged),
        ends_with_marker(next),
        checksum_matches(damaged),
        checksum_matches(next),
        CHECKSUM_SIZE <= at < FRAME_SIZE - MARKER_SIZE,
        bit < 8,
    ensures
        records_of(frames_of(flip_bit(damaged, at, bit) + next)) == seq![frame_fields(next)],
        rejected_in(frames_of(flip_bit(damaged, at, bit) + next)) == 1,
        lost_locks_of(flip_bit(damaged, at, bit) + next) == 0,
{
    let flipped = flip_bit(damaged, at, bit);
    let segments = seq![
        Segment { garbage: Seq::empty(), frame: flipped },
        Segment { garbage: Seq::empty(), frame: next },
    ];
    assert(flipped.subrange(flipped.len() - 8, flipped.len() as int) =~= damaged.subrange(
        damaged.len() - 8,
        damaged.len() as int,
    ));
    assert(splice(segments) =~= flipped + next) by {
        let one = segments.drop_first();
        assert(one.len() == 1 && one[0] == segments[1]);
        assert(splice(one.drop_first()) =~= Seq::<u8>::empty());
        assert(splice(one) =~= next);
    }
    lemma_resync_finds_every_frame(segments);
    lemma_bit_flip_is_rejected(damaged, at, bit);
    let frames = frames_of(flipped + next);
    let none = Seq::<Seq<u8>>::empty();
    assert(frames =~= none.push(flipped).push(next));
    assert(records_of(none) =~= Seq::<TelemetryPacket>::empty() && rejected_in(none) == 0) by {
        reveal(Seq::filter);
    }
    lemma_one_more_frame(none, flipped);
    lemma_one_more_frame(none.push(flipped), next);
    assert(records_of(frames) =~= seq![frame_fields(next)]);
    assert(garbage_runs(segments) == 0) by {
        let one = segments.drop_first();
        assert(one.len() == 1 && one[0] == segments[1]);
        assert(garbage_runs(one.drop_first()) == 0);
        assert(garbage_runs(one) == 0);
    }
}

/// A frame whose marker lost a bit costs the lock and nothing else, provided
/// that no window closes with the marker while the synchronizer works its way
/// to the end of the frame behind it: that frame is found and decoded.
pub proof fn lemma_corrupt_marker_costs_the_lock(
    damaged: Seq<u8>,
    next: Seq<u8>,
    at: int,
    bit: u8,
)
    requires
        damaged.len() == FRAME_SIZE,
        FRAME_SIZE - MARKER_SIZE <= at < FRAME_SIZE,
        bit < 8,
        segment_is_clean(Segment { garbage: flip_bit(damaged, at, bit), frame: next }),
        checksum_matches(next),
    ensures
        records_of(frames_of(flip_bit(damaged, at, bit) + next)) == seq![frame_fields(next)],
        rejected_in(frames_of(flip_bit(damaged, at, bit) + next)) == 0,
        lost_locks_of(flip_bit(damaged, at, bit) + next) == 1,
{
    let flipped = flip_bit(damaged, at, bit);
    let segments = seq![Segment { garbage: flipped, frame: next }];
    assert(splice(segments.drop_first()) =~= Seq::<u8>::empty());
    assert(splice(segments) =~= flipped + next);
    lemma_resync_finds_every_frame(segments);
    let none = Seq::<Seq<u8>>::empty();
    assert(frames_of(flipped + next) =~= none.push(next));
    assert(records_of(none) =~= Seq::<TelemetryPacket>::empty() && rejected_in(none) == 0) by {
        reveal(Seq::filter);
    }
    lemma_one_more_frame(none, next);
    assert(records_of(frames_of(flipped + next)) =~= seq![frame_fields(next)]);
    assert(garbage_runs(segments.drop_first()) == 0);
}

/// Why the read/decode loop came to an end.
#[derive(Clone, Copy, Debug, PartialEq, Eq, Structural)]
pub enum StopReason {
    /// Nobody listens on the outbound channel any more.
    ConsumerGone,
    /// The stream ended cleanly.
    EndOfStream,
    /// The transport failed.
    TransportFailed,
}

impl StopReason {
    /// Whether the loop ended on a fault rather than in the ordinary course.
    pub open spec fn is_fault(self) -> bool {
        self == StopReason::TransportFailed
    }

    /// Whether the loop ended on a fault rather than in the ordinary course.
    #[verifier::when_used_as_spec(is_fault)]
    pub fn fault(self) -> (fault: bool)
        ensures
            fault == self.is_fault(),
    {
        match self {
            StopReason::TransportFailed => true,
            _ => false,
        }
    }
}

/// What the loop does with one unit read off the wire.
#[derive(Clone, Copy, Debug, PartialEq, Eq, Structural)]
pub enum LoopAction {
    /// Send the record down the outbound channel.
    Forward(TelemetryPacket),
    /// Drop the unit without a word and read on.
    Skip,
    /// Drop the unit, report the failure and read on.
    Report(DecodeFailure),
    /// Leave the loop.
    Stop(StopReason),
}

/// What the loop remembers between two units.
#[derive(Clone, Copy, Debug, PartialEq, Eq, Structural)]
pub struct LoopState {
    /// Whether no unit has decoded yet.
    pub seeking: bool,
    /// Why the loop ended, once it has.
    pub stopped: Option<StopReason>,
}

/// Whether the loop has to end on `failure`: the transport failed or the
/// stream is over. Every other failure costs one unit and no more.
pub open spec fn is_fatal(failure: DecodeFailure) -> bool {
    failure == DecodeFailure::Io || failure == DecodeFailure::Eof
}

/// The reason for which the loop ends on a fatal `failure`.
pub open spec fn stop_reason_of(failure: DecodeFailure) -> StopReason {
    if failure == DecodeFailure::Eof {
        StopReason::EndOfStream
    } else {
        StopReason::TransportFailed
    }
}

/// The state in which a loop starts: seeking, and running.
pub open spec fn loop_start() -> LoopState {
    LoopState { seeking: true, stopped: None }
}

/// The loop's reaction to one unit.
///
/// A record ends the seeking phase and is forwarded. A fatal failure stops
/// the loop, seeking or not. Any other failure is skipped: silently while
/// seeking, with a report afterwards. A loop that has stopped stays stopped.
pub open spec fn loop_step(state: LoopState, unit: Result<TelemetryPacket, DecodeFailure>) -> (
    LoopState,
    LoopAction,
) {
    match state.stopped {
        Some(reason) => (state, LoopAction::Stop(reason)),
        None => match unit {
            Ok(packet) => (
                LoopState { seeking: false, stopped: None },
                LoopAction::Forward(packet),
            ),
            Err(failure) => if is_fatal(failure) {
                (
                    LoopState { seeking: state.seeking, stopped: Some(stop_reason_of(failure)) },
                    LoopAction::Stop(stop_reason_of(failure)),
                )
            } else if state.seeking {
                (state, LoopAction::Skip)
            } else {
                (state, LoopAction::Report(failure))
            },
        },
    }
}

/// The loop's reaction to the outcome of a send on the outbound channel: a
/// failed send means that the consumer is gone, and ends the loop.
pub open spec fn loop_sent(state: LoopState, delivered: bool) -> LoopState {
    if state.stopped is None && !delivered {
        LoopState { seeking: state.seeking, stopped: Some(StopReason::ConsumerGone) }
    } else {
        state
    }
}

/// The decisions of the read/decode loop. Whoever owns the transport reads
/// the next unit, asks `on_unit` what to do with it, and reports back with
/// `on_sent` how a send went.
pub struct IngestLoop {
    state: LoopState,
}

impl View for IngestLoop {
    type V = LoopState;

    closed spec fn view(&self) -> LoopState {
        self.state
    }
}

impl IngestLoop {
    /// A loop that has read nothing.
    pub fn new() -> (ingest: IngestLoop)
        ensures
            ingest@ == loop_start(),
    {
        IngestLoop { state: LoopState { seeking: true, stopped: None } }
    }

    /// Whether no unit has decoded yet.
    pub fn is_seeking(&self) -> (seeking: bool)
        ensures
            seeking == self@.seeking,
    {
        self.state.seeking
    }

    /// Why the loop ended, once it has.
    pub fn stopped(&self) -> (reason: Option<StopReason>)
        ensures
            reason == self@.stopped,
    {
        self.state.stopped
    }

    /// Decides what to do with the next unit.
    pub fn on_unit(&mut self, unit: Result<TelemetryPacket, DecodeFailure>) -> (action: LoopAction)
        ensures
            (final(self)@, action) == loop_step(old(self)@, unit),
    {
        if let Some(reason) = self.state.stopped {
            return LoopAction::Stop(reason);
        }
        match unit {
            Ok(packet) => {
                self.state.seeking = false;
                LoopAction::Forward(packet)
            },
            Err(DecodeFailure::Io) => {
                self.state.stopped = Some(StopReason::TransportFailed);
                LoopAction::Stop(StopReason::TransportFailed)
            },
            Err(DecodeFailure::Eof) => {
                self.state.stopped = Some(StopReason::EndOfStream);
                LoopAction::Stop(StopReason::EndOfStream)
            },
            Err(failure) => {
                if self.state.seeking {
                    LoopAction::Skip
                } else {
                    LoopAction::Report(failure)
                }
            },
        }
    }

    /// Takes note of how the send of a forwarded record went, and says
    /// whether the loop goes on.
    pub fn on_sent(&mut self, delivered: bool) -> (goes_on: bool)
        ensures
            final(self)@ == loop_sent(old(self)@, delivered),
            goes_on == (final(self)@.stopped is None),
    {
        if self.state.stopped.is_none() && !delivered {
            self.state.stopped = Some(StopReason::ConsumerGone);
        }
        self.state.stopped.is_none()
    }
}

/// The state and the actions after the loop has seen `units` one by one.
pub open spec fn loop_run(state: LoopState, units: Seq<Result<TelemetryPacket, DecodeFailure>>) -> (
    LoopState,
    Seq<LoopAction>,
)
    decreases units.len(),
{
    if units.len() == 0 {
        (state, Seq::empty())
    } else {
        let (before, actions) = loop_run(state, units.drop_last());
        let (after, action) = loop_step(before, units.last());
        (after, actions.push(action))
    }
}

/// Whether `unit` is a failure that costs one unit and no more.
pub open spec fn is_malformed(unit: Result<TelemetryPacket, DecodeFailure>) -> bool {
    match unit {
        Ok(_) => false,
        Err(failure) => !is_fatal(failure),
    }
}

/// Before the first record, malformed units are dropped without a report,
/// however many there are, and the loop keeps seeking.
pub proof fn lemma_seeking_is_silent(
    state: LoopState,
    units: Seq<Result<TelemetryPacket, DecodeFailure>>,
)
    requires
        state.seeking,
        state.stopped is None,
        forall|i: int| 0 <= i < units.len() ==> is_malformed(#[trigger] units[i]),
    ensures
        loop_run(state, units).0 == state,
        loop_run(state, units).1.len() == units.len(),
        forall|i: int|
            0 <= i < units.len() ==> #[trigger] loop_run(state, units).1[i] == LoopAction::Skip,
    decreases units.len(),
{
    if units.len() > 0 {
        let earlier = units.drop_last();
        assert forall|i: int| 0 <= i < earlier.len() implies is_malformed(
            #[trigger] earlier[i],
        ) by {
            assert(earlier[i] == units[i]);
        }
        lemma_seeking_is_silent(state, earlier);
        assert(is_malformed(units.last()));
    }
}

/// Once a record has come through, each malformed unit is reported, once,
/// with its own failure, and the loop goes on.
pub proof fn lemma_malformed_is_reported_once_locked(
    state: LoopState,
    units: Seq<Result<TelemetryPacket, DecodeFailure>>,
)
    requires
        !state.seeking,
        state.stopped is None,
        forall|i: int| 0 <= i < units.len() ==> is_malformed(#[trigger] units[i]),
    ensures
        loop_run(state, units).0 == state,
        loop_run(state, units).1.len() == units.len(),
        forall|i: int|
            0 <= i < units.len() ==> #[trigger] loop_run(state, units).1[i] == LoopAction::Report(
                units[i]->Err_0,
            ),
    decreases units.len(),
{
    if units.len() > 0 {
        let earlier = units.drop_last();
        assert forall|i: int| 0 <= i < earlier.len() implies is_malformed(
            #[trigger] earlier[i],
        ) by {
            assert(earlier[i] == units[i]);
        }
        lemma_malformed_is_reported_once_locked(state, earlier);
        assert(is_malformed(units.last()));
    }
}

/// The records among `units`, in order.
pub open spec fn records_among(units: Seq<Result<TelemetryPacket, DecodeFailure>>) -> Seq<
    TelemetryPacket,
>
    decreases units.len(),
{
    if units.len() == 0 {
        Seq::empty()
    } else {
        match units.last() {
            Ok(packet) => records_among(units.drop_last()).push(packet),
            Err(_) => records_among(units.drop_last()),
        }
    }
}

/// The records that `actions` forward, in order.
pub open spec fn forwarded_by(actions: Seq<LoopAction>) -> Seq<TelemetryPacket>
    decreases actions.len(),
{
    if actions.len() == 0 {
        Seq::empty()
    } else {
        match actions.last() {
            LoopAction::Forward(packet) => forwarded_by(actions.drop_last()).push(packet),
            _ => forwarded_by(actions.drop_last()),
        }
    }
}

/// As long as nothing fatal happens, the loop forwards every record that is
/// decoded, once, in the order in which they are decoded, and nothing else.
pub proof fn lemma_records_are_forwarded_in_order(
    state: LoopState,
    units: Seq<Result<TelemetryPacket, DecodeFailure>>,
)
    requires
        state.stopped is None,
        forall|i: int| 0 <= i < units.len() ==> (#[trigger] units[i]) is Ok || is_malformed(units[i]),
    ensures
        loop_run(state, units).0.stopped is None,
        forwarded_by(loop_run(state, units).1) == records_among(units),
    decreases units.len(),
{
    if units.len() > 0 {
        let earlier = units.drop_last();
        assert forall|i: int| 0 <= i < earlier.len() implies (#[trigger] earlier[i]) is Ok
            || is_malformed(earlier[i]) by {
            assert(earlier[i] == units[i]);
        }
        lemma_records_are_forwarded_in_order(state, earlier);
        assert(units.last() is Ok || is_malformed(units.last()));
        let (before, actions) = loop_run(state, earlier);
        let (after, action) = loop_step(before, units.last());
        assert(loop_run(state, units).1.drop_last() =~= actions);
    }
}

/// The first record ends the seeking phase, whatever came before it.
pub proof fn lemma_first_record_ends_seeking(state: LoopState, packet: TelemetryPacket)
    requires
        state.stopped is None,
    ensures
        loop_step(state, Ok(packet)) == ((
            LoopState { seeking: false, stopped: None },
            LoopAction::Forward(packet),
        )),
{
}

/// The length of the window over which throughput is sampled.
pub const SAMPLING_MILLIS: u64 = 10_000;

/// What a throughput meter stands for.
pub struct ThroughputView {
    /// When the current window opened, in milliseconds on the caller's clock.
    pub window_start: u64,
    /// The records counted in the current window; stops counting at
    /// `u64::MAX`.
    pub count: u64,
}

/// The meter's reaction to one more record at the time `now`: the record is
/// counted, and once the window has been open for more than
/// `SAMPLING_MILLIS` its count is handed out and a new window opens at `now`.
/// A clock that runs backwards is taken to stand still.
pub open spec fn throughput_step(view: ThroughputView, now: u64) -> (ThroughputView, Option<u64>) {
    let count = if view.count < u64::MAX {
        (view.count + 1) as u64
    } else {
        view.count
    };
    if now - view.window_start > SAMPLING_MILLIS {
        (ThroughputView { window_start: now, count: 0 }, Some(count))
    } else {
        (ThroughputView { window_start: view.window_start, count }, None)
    }
}

/// Counts forwarded records by window. For observation only: nothing that the
/// loop decides depends on it.
pub struct Throughput {
    window_start: u64,
    count: u64,
}

impl View for Throughput {
    type V = ThroughputView;

    closed spec fn view(&self) -> ThroughputView {
        ThroughputView { window_start: self.window_start, count: self.count }
    }
}

impl Throughput {
    /// A meter whose first window opens at `now`.
    pub fn new(now: u64) -> (meter: Throughput)
        ensures
            meter@ == (ThroughputView { window_start: now, count: 0 }),
    {
        Throughput { window_start: now, count: 0 }
    }

    /// Counts one record at the time `now`, and hands out the count of the
    /// window if this record closes it.
    pub fn record(&mut self, now: u64) -> (sample: Option<u64>)
        ensures
            (final(self)@, sample) == throughput_step(old(self)@, now),
    {
        if self.count < u64::MAX {
            self.count = self.count + 1;
        }
        if now > self.window_start && now - self.window_start > SAMPLING_MILLIS {
            let count: u64 = self.count;
            self.count = 0;
            self.window_start = now;
            Some(count)
        } else {
            None
        }
    }
}

} // verus!
