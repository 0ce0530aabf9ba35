//! The frame synchronizer: finds frame boundaries in a raw byte stream by
//! looking for the marker at the tail of a sliding window.

use vstd::prelude::*;
use crate::codec::{ends_with_marker, has_marker, marker_bytes, FRAME_SIZE};

verus! {

/// What the synchronizer remembers between two bytes.
pub struct SyncState {
    /// The bytes collected for the current window, oldest first.
    pub window: Seq<u8>,
    /// Whether lock was lost and the window is being shifted byte by byte.
    pub seeking: bool,
    /// Bytes shifted in since lock was lost; stops counting at `u64::MAX`.
    pub shifted: u64,
}

/// What one byte made of the synchronizer, in specifications.
pub enum SyncOutcome {
    Pending,
    LostLock,
    Locked { frame: Seq<u8>, shifted: u64 },
}

/// What one byte made of the synchronizer.
#[derive(Clone, Copy, Debug, PartialEq, Eq)]
pub enum SyncEvent {
    /// The window is not complete, or still does not close with the marker.
    Pending,
    /// A window of `FRAME_SIZE` bytes was read in one piece and does not
    /// close with the marker. Reported once, on entering seek mode.
    LostLock,
    /// The window closes with the marker. `shifted` counts the bytes that
    /// had to be shifted in to get there: zero when lock was never lost.
    Locked { frame: [u8; FRAME_SIZE], shifted: u64 },
}

impl View for SyncEvent {
    type V = SyncOutcome;

    open spec fn view(&self) -> SyncOutcome {
        match *self {
            SyncEvent::Pending => SyncOutcome::Pending,
            SyncEvent::LostLock => SyncOutcome::LostLock,
            SyncEvent::Locked { frame, shifted } => SyncOutcome::Locked { frame: frame@, shifted },
        }
    }
}

/// The state in which nothing was read yet, or a frame was just handed out.
pub open spec fn sync_start() -> SyncState {
    SyncState { window: Seq::empty(), seeking: false, shifted: 0 }
}

/// `count` plus one, but never past `u64::MAX`.
pub open spec fn bump(count: u64) -> u64 {
    if count < u64::MAX {
        (count + 1) as u64
    } else {
        count
    }
}

/// The synchronizer's reaction to one byte.
///
/// While locked, bytes are collected until the window holds `FRAME_SIZE` of
/// them, and only then is its tail looked at. While seeking, the oldest byte
/// is dropped for each new one and the tail is looked at every time.
pub open spec fn sync_step(state: SyncState, byte: u8) -> (SyncState, SyncOutcome) {
    if state.seeking {
        let window = state.window.subrange(1, FRAME_SIZE as int).push(byte);
        let shifted = bump(state.shifted);
        if ends_with_marker(window) {
            (sync_start(), SyncOutcome::Locked { frame: window, shifted })
        } else {
            (SyncState { window, seeking: true, shifted }, SyncOutcome::Pending)
        }
    } else {
        let window = state.window.push(byte);
        if window.len() < FRAME_SIZE {
            (SyncState { window, seeking: false, shifted: 0 }, SyncOutcome::Pending)
        } else if ends_with_marker(window) {
            (sync_start(), SyncOutcome::Locked { frame: window, shifted: 0 })
        } else {
            (SyncState { window, seeking: true, shifted: 0 }, SyncOutcome::LostLock)
        }
    }
}

/// Whether `state` is one that the synchronizer can be in.
pub open spec fn sync_valid(state: SyncState) -> bool {
    if state.seeking {
        state.window.len() == FRAME_SIZE
    } else {
        state.window.len() < FRAME_SIZE && state.shifted == 0
    }
}

/// Finds frames in a byte stream that is fed to it one byte at a time.
pub struct FrameSynchronizer {
    window: [u8; FRAME_SIZE],
    filled: usize,
    seeking: bool,
    shifted: u64,
}

impl View for FrameSynchronizer {
    type V = SyncState;

    closed spec fn view(&self) -> SyncState {
        SyncState {
            window: self.window@.subrange(0, self.filled as int),
            seeking: self.seeking,
            shifted: self.shifted,
        }
    }
}

fn shift_in(window: &mut [u8; FRAME_SIZE], byte: u8)
    ensures
        final(window)@ == old(window)@.subrange(1, FRAME_SIZE as int).push(byte),
{
    let mut i: usize = 0;
    while i < FRAME_SIZE - 1
        invariant
            i <= FRAME_SIZE - 1,
            forall|j: int| 0 <= j < i ==> window@[j] == old(window)@[j + 1],
            forall|j: int| i <= j < FRAME_SIZE ==> window@[j] == old(window)@[j],
        decreases FRAME_SIZE - 1 - i,
    {
        window[i] = window[i + 1];
        i = i + 1;
    }
    window[FRAME_SIZE - 1] = byte;
    assert(window@ =~= old(window)@.subrange(1, FRAME_SIZE as int).push(byte));
}

impl FrameSynchronizer {
    /// Whether the value is internally consistent. Every value that this
    /// module hands out is.
    pub closed spec fn wf(&self) -> bool {
        &&& self.filled <= FRAME_SIZE
        &&& sync_valid(self@)
    }

    /// A synchronizer that has read nothing.
    pub fn new() -> (sync: FrameSynchronizer)
        ensures
            sync.wf(),
            sync@ == sync_start(),
    {
        let sync = FrameSynchronizer {
            window: [0u8; FRAME_SIZE],
            filled: 0,
            seeking: false,
            shifted: 0,
        };
        assert(sync@.window =~= Seq::<u8>::empty());
        sync
    }

    /// Whether lock is lost at the moment.
    pub fn is_seeking(&self) -> (seeking: bool)
        ensures
            seeking == self@.seeking,
    {
        self.seeking
    }

    /// How many bytes must be pushed before the tail of the window is looked
    /// at again: the rest of a frame while locked, one while seeking.
    pub fn wanted(&self) -> (count: usize)
        requires
            self.wf(),
        ensures
            count == (if self@.seeking {
                1
            } else {
                FRAME_SIZE - self@.window.len()
            }),
            1 <= count <= FRAME_SIZE,
    {
        if self.seeking {
            1
        } else {
            FRAME_SIZE - self.filled
        }
    }

    /// Takes the next byte of the stream.
    pub fn push(&mut self, byte: u8) -> (event: SyncEvent)
        requires
            old(self).wf(),
        ensures
            final(self).wf(),
            (final(self)@, event@) == sync_step(old(self)@, byte),
            event matches SyncEvent::Locked { frame, .. } ==> ends_with_marker(frame@),
    {
        if self.seeking {
            assert(self.window@.subrange(0, FRAME_SIZE as int) =~= self.window@);
            shift_in(&mut self.window, byte);
            if self.shifted < u64::MAX {
                self.shifted = self.shifted + 1;
            }
            if has_marker(&self.window) {
                let shifted: u64 = self.shifted;
                self.filled = 0;
                self.seeking = false;
                self.shifted = 0;
                assert(self@.window =~= Seq::<u8>::empty());
                SyncEvent::Locked { frame: self.window, shifted }
            } else {
                assert(self.window@.subrange(0, FRAME_SIZE as int) =~= self.window@);
                SyncEvent::Pending
            }
        } else {
            let at: usize = self.filled;
            self.window[at] = byte;
            self.filled = at + 1;
            assert(self@.window =~= old(self)@.window.push(byte));
            if self.filled < FRAME_SIZE {
                SyncEvent::Pending
            } else if has_marker(&self.window) {
                assert(self.window@.subrange(0, FRAME_SIZE as int) =~= self.window@);
                self.filled = 0;
                assert(self@.window =~= Seq::<u8>::empty());
                SyncEvent::Locked { frame: self.window, shifted: 0 }
            } else {
                assert(self.window@.subrange(0, FRAME_SIZE as int) =~= self.window@);
                self.seeking = true;
                SyncEvent::LostLock
            }
        }
    }
}

/// Whether the marker occupies the eight bytes of `stream` that end at `end`.
pub open spec fn marker_ends_at(stream: Seq<u8>, end: int) -> bool {
    8 <= end <= stream.len() && stream.subrange(end - 8, end) == marker_bytes()
}

/// The least position at or after `from` at which the marker ends. A result
/// past the end of the stream says that there is none.
pub open spec fn first_marker_end(stream: Seq<u8>, from: int) -> int
    decreases stream.len() + 1 - from,
{
    if from > stream.len() || marker_ends_at(stream, from) {
        from
    } else {
        first_marker_end(stream, from + 1)
    }
}

/// Where the frame ends that follows the boundary at `boundary`: the least
/// position at which the marker ends and that leaves room for a whole frame
/// after the boundary. A result past the end of the stream says that no frame
/// follows.
pub open spec fn next_lock(stream: Seq<u8>, boundary: int) -> int {
    first_marker_end(stream, boundary + FRAME_SIZE)
}

/// The frames of `stream` from the boundary at `boundary` on, in order.
pub open spec fn frames_from(stream: Seq<u8>, boundary: int) -> Seq<Seq<u8>>
    decreases stream.len() - boundary,
{
    let end = next_lock(stream, boundary);
    if 0 <= boundary < end <= stream.len() {
        seq![stream.subrange(end - FRAME_SIZE, end)] + frames_from(stream, end)
    } else {
        Seq::empty()
    }
}

/// The frames that a synchronizer finds in `stream` when it starts at its
/// first byte.
pub open spec fn frames_of(stream: Seq<u8>) -> Seq<Seq<u8>> {
    frames_from(stream, 0)
}

/// How often lock is lost from the boundary at `boundary` on: once for each
/// boundary that is followed by `FRAME_SIZE` bytes that do not close with the
/// marker.
pub open spec fn lost_locks_from(stream: Seq<u8>, boundary: int) -> nat
    decreases stream.len() - boundary,
{
    let end = next_lock(stream, boundary);
    let here: nat = if boundary + FRAME_SIZE <= stream.len() && end != boundary + FRAME_SIZE {
        1
    } else {
        0
    };
    if 0 <= boundary < end <= stream.len() {
        here + lost_locks_from(stream, end)
    } else {
        here
    }
}

/// How often a synchronizer loses lock on `stream` when it starts at its
/// first byte.
pub open spec fn lost_locks_of(stream: Seq<u8>) -> nat {
    lost_locks_from(stream, 0)
}

/// The state and the outcomes after `bytes` were pushed one by one.
pub open spec fn sync_run(state: SyncState, bytes: Seq<u8>) -> (SyncState, Seq<SyncOutcome>)
    decreases bytes.len(),
{
    if bytes.len() == 0 {
        (state, Seq::empty())
    } else {
        let (before, outcomes) = sync_run(state, bytes.drop_last());
        let (after, outcome) = sync_step(before, bytes.last());
        (after, outcomes.push(outcome))
    }
}

/// The frames among `outcomes`, in order.
pub open spec fn frames_in(outcomes: Seq<SyncOutcome>) -> Seq<Seq<u8>>
    decreases outcomes.len(),
{
    if outcomes.len() == 0 {
        Seq::empty()
    } else {
        match outcomes.last() {
            SyncOutcome::Locked { frame, .. } => frames_in(outcomes.drop_last()).push(frame),
            _ => frames_in(outcomes.drop_last()),
        }
    }
}

/// How many of `outcomes` report a lost lock.
pub open spec fn lost_locks_in(outcomes: Seq<SyncOutcome>) -> nat
    decreases outcomes.len(),
{
    if outcomes.len() == 0 {
        0
    } else {
        match outcomes.last() {
            SyncOutcome::LostLock => lost_locks_in(outcomes.drop_last()) + 1,
            _ => lost_locks_in(outcomes.drop_last()),
        }
    }
}

/// The position just past the last frame among `outcomes`.
spec fn boundary_after(outcomes: Seq<SyncOutcome>) -> int
    decreases outcomes.len(),
{
    if outcomes.len() == 0 {
        0
    } else {
        match outcomes.last() {
            SyncOutcome::Locked { .. } => outcomes.len() as int,
            _ => boundary_after(outcomes.drop_last()),
        }
    }
}

/// `count` as the synchronizer counts it.
spec fn clamp(count: int) -> u64 {
    if count < u64::MAX {
        count as u64
    } else {
        u64::MAX
    }
}

/// How the state of a synchronizer that has read `read` bytes of `stream`
/// relates to the stream, when the last frame it found ended at `boundary`.
spec fn tracks(stream: Seq<u8>, read: int, boundary: int, state: SyncState) -> bool {
    &&& 0 <= boundary <= read <= stream.len()
    &&& if state.seeking {
        &&& boundary + FRAME_SIZE <= read
        &&& state.window == stream.subrange(read - FRAME_SIZE, read)
        &&& state.shifted == clamp(read - boundary - FRAME_SIZE)
        &&& forall|end: int|
            boundary + FRAME_SIZE <= end <= read ==> !#[trigger] marker_ends_at(stream, end)
    } else {
        &&& read - boundary < FRAME_SIZE
        &&& state.window == stream.subrange(boundary, read)
        &&& state.shifted == 0
    }
}

proof fn lemma_first_marker_end(stream: Seq<u8>, from: int, end: int)
    requires
        from <= end,
        forall|e: int| from <= e < end ==> !#[trigger] marker_ends_at(stream, e),
    ensures
        end <= stream.len() && marker_ends_at(stream, end) ==> first_marker_end(stream, from)
            == end,
        end > stream.len() ==> first_marker_end(stream, from) > stream.len(),
    decreases end - from,
{
    if from <= stream.len() && from < end {
        lemma_first_marker_end(stream, from + 1, end);
    }
}

/// `first_marker_end` names the first position at or after `from` at which
/// the marker ends: the marker ends there, unless the position lies past the
/// end of the stream, and it ends at no position in between.
pub proof fn lemma_first_marker_end_is_first(stream: Seq<u8>, from: int)
    ensures
        first_marker_end(stream, from) >= from,
        first_marker_end(stream, from) <= stream.len() ==> marker_ends_at(
            stream,
            first_marker_end(stream, from),
        ),
        forall|end: int|
            from <= end < first_marker_end(stream, from) ==> !#[trigger] marker_ends_at(
                stream,
                end,
            ),
    decreases stream.len() + 1 - from,
{
    if !(from > stream.len() || marker_ends_at(stream, from)) {
        lemma_first_marker_end_is_first(stream, from + 1);
    }
}

proof fn lemma_window_tail(stream: Seq<u8>, end: int)
    requires
        FRAME_SIZE <= end <= stream.len(),
    ensures
        ends_with_marker(stream.subrange(end - FRAME_SIZE, end)) == marker_ends_at(stream, end),
{
    let window = stream.subrange(end - FRAME_SIZE, end);
    assert(window.subrange(window.len() - 8, window.len() as int) =~= stream.subrange(
        end - 8,
        end,
    ));
}

/// One byte keeps the synchronizer in step with the stream.
proof fn lemma_step_tracks(stream: Seq<u8>, read: int, boundary: int, state: SyncState)
    requires
        tracks(stream, read, boundary, state),
        read < stream.len(),
    ensures
        ({
            let (after, outcome) = sync_step(state, stream[read]);
            match outcome {
                SyncOutcome::Locked { frame, shifted } => {
                    &&& tracks(stream, read + 1, read + 1, after)
                    &&& next_lock(stream, boundary) == read + 1
                    &&& frame == stream.subrange(read + 1 - FRAME_SIZE, read + 1)
                    &&& shifted == clamp(read + 1 - boundary - FRAME_SIZE)
                },
                SyncOutcome::LostLock => {
                    &&& tracks(stream, read + 1, boundary, after)
                    &&& !state.seeking
                    &&& read + 1 == boundary + FRAME_SIZE
                },
                SyncOutcome::Pending => tracks(stream, read + 1, boundary, after),
            }
        }),
{
    let (after, outcome) = sync_step(state, stream[read]);
    if state.seeking {
        let window = state.window.subrange(1, FRAME_SIZE as int).push(stream[read]);
        assert(window =~= stream.subrange(read + 1 - FRAME_SIZE, read + 1));
        lemma_window_tail(stream, read + 1);
        if ends_with_marker(window) {
            lemma_first_marker_end(stream, boundary + FRAME_SIZE, read + 1);
            assert(after.window =~= stream.subrange(read + 1, read + 1));
        }
    } else {
        let window = state.window.push(stream[read]);
        assert(window =~= stream.subrange(boundary, read + 1));
        if window.len() >= FRAME_SIZE {
            lemma_window_tail(stream, read + 1);
            if ends_with_marker(window) {
                assert(after.window =~= stream.subrange(read + 1, read + 1));
            }
        }
    }
}

/// What is known after the first `read` bytes of `stream` went through a
/// fresh synchronizer.
proof fn lemma_run_tracks(stream: Seq<u8>, read: int)
    requires
        0 <= read <= stream.len(),
    ensures
        ({
            let (state, outcomes) = sync_run(sync_start(), stream.take(read));
            let boundary = boundary_after(outcomes);
            &&& outcomes.len() == read
            &&& tracks(stream, read, boundary, state)
            &&& frames_in(outcomes) + frames_from(stream, boundary) == frames_of(stream)
            &&& lost_locks_in(outcomes) + lost_locks_from(stream, boundary) == lost_locks_of(stream)
                + if state.seeking {
                1nat
            } else {
                0nat
            }
        }),
    decreases read,
{
    let (state, outcomes) = sync_run(sync_start(), stream.take(read));
    if read == 0 {
        assert(stream.take(0).len() == 0);
        assert(state.window =~= stream.subrange(0, 0));
        assert(frames_in(outcomes) + frames_from(stream, 0) =~= frames_of(stream));
    } else {
        let before_len = read - 1;
        lemma_run_tracks(stream, before_len);
        assert(stream.take(read).drop_last() =~= stream.take(before_len));
        assert(stream.take(read).last() == stream[before_len]);
        let (before, earlier) = sync_run(sync_start(), stream.take(before_len));
        let boundary = boundary_after(earlier);
        lemma_step_tracks(stream, before_len, boundary, before);
        let (after, outcome) = sync_step(before, stream[before_len]);
        assert(state == after && outcomes == earlier.push(outcome));
        assert(outcomes.drop_last() =~= earlier);
        assert(outcomes.last() == outcome);
        match outcome {
            SyncOutcome::Locked { frame, shifted } => {
                assert(frames_in(outcomes) + frames_from(stream, read) =~= frames_in(earlier)
                    + frames_from(stream, boundary));
            },
            SyncOutcome::LostLock => {},
            SyncOutcome::Pending => {},
        }
    }
}

/// Pushing a stream through a fresh synchronizer byte by byte hands out
/// exactly the frames of the stream, in order, and reports a lost lock
/// exactly as often as the stream loses it.
pub proof fn lemma_run_finds_frames(stream: Seq<u8>)
    ensures
        frames_in(sync_run(sync_start(), stream).1) == frames_of(stream),
        lost_locks_in(sync_run(sync_start(), stream).1) == lost_locks_of(stream),
{
    lemma_run_tracks(stream, stream.len() as int);
    assert(stream.take(stream.len() as int) =~= stream);
    let (state, outcomes) = sync_run(sync_start(), stream);
    let boundary = boundary_after(outcomes);
    if state.seeking {
        lemma_first_marker_end(stream, boundary + FRAME_SIZE, (stream.len() + 1) as int);
    }
    assert(frames_from(stream, boundary) =~= Seq::<Seq<u8>>::empty());
    assert(frames_in(outcomes) + Seq::<Seq<u8>>::empty() =~= frames_in(outcomes));
}

/// A run of bytes that belong to no frame, possibly empty, and the frame
/// that follows it.
pub struct Segment {
    pub garbage: Seq<u8>,
    pub frame: Seq<u8>,
}

/// The stream in which the segments follow one another.
pub open spec fn splice(segments: Seq<Segment>) -> Seq<u8>
    decreases segments.len(),
{
    if segments.len() == 0 {
        Seq::empty()
    } else {
        segments[0].garbage + segments[0].frame + splice(segments.drop_first())
    }
}

/// Whether the frame of `segment` is a window of `FRAME_SIZE` bytes that
/// closes with the marker, and none of the windows that a synchronizer looks
/// at while it works through the garbage does.
pub open spec fn segment_is_clean(segment: Segment) -> bool {
    &&& segment.frame.len() == FRAME_SIZE
    &&& ends_with_marker(segment.frame)
    &&& forall|end: int|
        FRAME_SIZE <= end < segment.garbage.len() + FRAME_SIZE ==> !#[trigger] marker_ends_at(
            segment.garbage + segment.frame,
            end,
        )
}

/// How many of the segments open with at least one byte of garbage.
pub open spec fn garbage_runs(segments: Seq<Segment>) -> nat
    decreases segments.len(),
{
    if segments.len() == 0 {
        0
    } else {
        garbage_runs(segments.drop_first()) + if segments[0].garbage.len() > 0 {
            1nat
        } else {
            0nat
        }
    }
}

proof fn lemma_marker_shift(prefix: Seq<u8>, rest: Seq<u8>, end: int)
    requires
        8 <= end,
    ensures
        marker_ends_at(prefix + rest, prefix.len() + end) == marker_ends_at(rest, end),
{
    if end <= rest.len() {
        assert((prefix + rest).subrange(prefix.len() + end - 8, prefix.len() + end)
            =~= rest.subrange(end - 8, end));
    }
}

proof fn lemma_first_marker_shift(prefix: Seq<u8>, rest: Seq<u8>, from: int)
    requires
        8 <= from,
    ensures
        first_marker_end(prefix + rest, prefix.len() + from) == prefix.len() + first_marker_end(
            rest,
            from,
        ),
    decreases rest.len() + 1 - from,
{
    lemma_marker_shift(prefix, rest, from);
    if from <= rest.len() && !marker_ends_at(rest, from) {
        lemma_first_marker_shift(prefix, rest, from + 1);
    }
}

proof fn lemma_frames_shift(prefix: Seq<u8>, rest: Seq<u8>, boundary: int)
    requires
        0 <= boundary,
    ensures
        frames_from(prefix + rest, prefix.len() + boundary) == frames_from(rest, boundary),
        lost_locks_from(prefix + rest, prefix.len() + boundary) == lost_locks_from(rest, boundary),
    decreases rest.len() - boundary,
{
    let stream = prefix + rest;
    lemma_first_marker_shift(prefix, rest, boundary + FRAME_SIZE);
    let end = next_lock(rest, boundary);
    lemma_first_marker_end_is_first(rest, boundary + FRAME_SIZE);
    if boundary < end <= rest.len() {
        lemma_frames_shift(prefix, rest, end);
        assert(stream.subrange(prefix.len() + end - FRAME_SIZE, prefix.len() + end)
            =~= rest.subrange(end - FRAME_SIZE, end));
    }
}

proof fn lemma_marker_in_prefix(head: Seq<u8>, rest: Seq<u8>, end: int)
    requires
        end <= head.len(),
    ensures
        marker_ends_at(head + rest, end) == marker_ends_at(head, end),
{
    if 8 <= end {
        assert((head + rest).subrange(end - 8, end) =~= head.subrange(end - 8, end));
    }
}

/// On a stream in which frames alternate with garbage that never makes the
/// window close with the marker, the synchronizer locks onto every frame and
/// onto nothing else, and loses lock once for each run of garbage.
pub proof fn lemma_resync_finds_every_frame(segments: Seq<Segment>)
    requires
        forall|i: int| 0 <= i < segments.len() ==> segment_is_clean(#[trigger] segments[i]),
    ensures
        frames_of(splice(segments)) == segments.map_values(|segment: Segment| segment.frame),
        lost_locks_of(splice(segments)) == garbage_runs(segments),
    decreases segments.len(),
{
    let frames = segments.map_values(|segment: Segment| segment.frame);
    if segments.len() == 0 {
        assert(frames_of(splice(segments)) =~= frames);
    } else {
        let first = segments[0];
        let head = first.garbage + first.frame;
        let others = segments.drop_first();
        let rest = splice(others);
        let stream = head + rest;
        let lock = first.garbage.len() + FRAME_SIZE;
        assert(segment_is_clean(first));
        assert(forall|i: int| 0 <= i < others.len() ==> segment_is_clean(#[trigger] others[i]))
            by {
            assert forall|i: int| 0 <= i < others.len() implies segment_is_clean(
                #[trigger] others[i],
            ) by {
                assert(others[i] == segments[i + 1]);
            }
        }
        lemma_resync_finds_every_frame(others);
        assert forall|end: int| FRAME_SIZE <= end < lock implies !#[trigger] marker_ends_at(
            stream,
            end,
        ) by {
            lemma_marker_in_prefix(head, rest, end);
        }
        assert(marker_ends_at(stream, lock)) by {
            lemma_marker_in_prefix(head, rest, lock);
            assert(head.subrange(lock - 8, lock) =~= first.frame.subrange(
                first.frame.len() - 8,
                first.frame.len() as int,
            ));
        }
        lemma_first_marker_end(stream, FRAME_SIZE as int, lock);
        assert(next_lock(stream, 0) == lock);
        lemma_frames_shift(head, rest, 0);
        assert(stream.subrange(lock - FRAME_SIZE, lock) =~= first.frame);
        assert(frames_of(stream) =~= frames) by {
            let tail_frames = others.map_values(|segment: Segment| segment.frame);
            assert(frames_of(stream) == seq![first.frame] + tail_frames);
            assert forall|i: int| 0 <= i < frames.len() implies (seq![first.frame]
                + tail_frames)[i] == frames[i] by {
                if i > 0 {
                    assert(others[i - 1] == segments[i]);
                }
            }
        }
    }
}

} // verus!
