//! The session manager: the life cycle of the one session that a device can
//! have, the store that belongs to it and the subscribers that listen to it.
//!
//! The manager decides; it neither opens a transport nor runs a loop. Whoever
//! does reports back: `connect` hands out what to open, `opened` takes the
//! outcome, `on_record` takes each record that comes out of the channel, and
//! `ingest_stopped` takes the end of the loop.

use vstd::prelude::*;
use crate::ingest::StopReason;
use crate::store::{is_range_of, TelemetryStore};
use crate::telemetry::TelemetryPacket;

verus! {

/// Where a device slot stands.
#[derive(Clone, Copy, Debug, PartialEq, Eq, Structural)]
pub enum SessionState {
    /// No session.
    Idle,
    /// A transport is being opened.
    Connecting,
    /// The ingest loop runs.
    Active,
    /// The loop was told to stop, or stopped in the ordinary course, and has
    /// not been seen to end yet.
    Disconnecting,
    /// The loop ended on a fault. A slot passes through this state on its way
    /// to `Idle` and never rests in it.
    Faulted,
}

/// Why a session could not be set up.
#[derive(Clone, Copy, Debug, PartialEq, Eq, Structural)]
pub enum ConnectError {
    /// The slot has a session already, or is about to.
    AlreadyActive,
    /// The device name is empty.
    EmptyDeviceName,
    /// The transport could not be opened in time.
    PortUnavailable,
    /// The outcome of an attempt was reported, but none is under way.
    NotConnecting,
}

/// The timeout of reads on the transport where the caller names none.
pub const DEFAULT_TIMEOUT_MILLIS: u64 = 1000;

/// The baud rate where the caller names none. The device is a USB CDC one, to
/// which the rate means nothing.
pub const DEFAULT_BAUD_RATE: u32 = 0;

/// What a caller may say of how to open the transport.
#[derive(Clone, Copy, Debug, PartialEq, Eq, Structural)]
pub struct ConnectOptions {
    pub timeout_millis: Option<u64>,
    pub baud_rate: Option<u32>,
}

/// The transport that is to be opened.
#[derive(Clone, Debug, PartialEq, Eq)]
pub struct OpenRequest {
    pub port_name: String,
    pub timeout_millis: u64,
    pub baud_rate: u32,
}

/// What a manager stands for.
pub struct SessionView {
    pub state: SessionState,
    /// Whether the last session ended on a fault.
    pub fault: bool,
    pub store: Map<u64, TelemetryPacket>,
    /// The subscribers, in the order in which they came.
    pub subscribers: Seq<u64>,
    /// The id that the next subscriber gets.
    pub next_subscriber: u64,
}

/// Whether an ingest loop runs while the slot is in `state`.
pub open spec fn loop_runs(state: SessionState) -> bool {
    state == SessionState::Active || state == SessionState::Disconnecting
}

/// Whether `view` is one that a manager can stand for.
pub open spec fn session_valid(view: SessionView) -> bool {
    &&& view.state != SessionState::Faulted
    &&& forall|i: int, j: int|
        0 <= i < j < view.subscribers.len() ==> view.subscribers[i] < view.subscribers[j]
    &&& forall|i: int|
        0 <= i < view.subscribers.len() ==> (#[trigger] view.subscribers[i])
            < view.next_subscriber
}

/// A manager to which nothing has happened.
pub open spec fn session_start() -> SessionView {
    SessionView {
        state: SessionState::Idle,
        fault: false,
        store: Map::empty(),
        subscribers: Seq::empty(),
        next_subscriber: 0,
    }
}

/// What a request to connect to the device named `port_name` meets with.
pub open spec fn connect_outcome(view: SessionView, port_name: Seq<char>) -> Result<
    (),
    ConnectError,
> {
    if view.state != SessionState::Idle {
        Err(ConnectError::AlreadyActive)
    } else if port_name.len() == 0 {
        Err(ConnectError::EmptyDeviceName)
    } else {
        Ok(())
    }
}

/// The manager after a request to connect.
pub open spec fn after_connect(view: SessionView, port_name: Seq<char>) -> SessionView {
    if connect_outcome(view, port_name) is Ok {
        SessionView { state: SessionState::Connecting, ..view }
    } else {
        view
    }
}

/// What the report that the transport was opened, or was not, meets with.
pub open spec fn opened_outcome(view: SessionView, success: bool) -> Result<(), ConnectError> {
    if view.state != SessionState::Connecting {
        Err(ConnectError::NotConnecting)
    } else if success {
        Ok(())
    } else {
        Err(ConnectError::PortUnavailable)
    }
}

/// The manager after such a report. A session starts with an empty store
/// and without a fault.
pub open spec fn after_opened(view: SessionView, success: bool) -> SessionView {
    if view.state != SessionState::Connecting {
        view
    } else if success {
        SessionView { state: SessionState::Active, fault: false, store: Map::empty(), ..view }
    } else {
        SessionView { state: SessionState::Idle, ..view }
    }
}

/// The subscribers to which a record goes that arrives now.
pub open spec fn recipients(view: SessionView) -> Seq<u64> {
    if view.state == SessionState::Active {
        view.subscribers
    } else {
        Seq::empty()
    }
}

/// The manager after a record came out of the channel.
pub open spec fn after_record(view: SessionView, record: TelemetryPacket) -> SessionView {
    if view.state == SessionState::Active {
        SessionView { store: view.store.insert(record.running_us, record), ..view }
    } else {
        view
    }
}

/// The manager after one more subscriber came, if there is an id left.
pub open spec fn after_subscribe(view: SessionView) -> SessionView {
    if view.next_subscriber < u64::MAX {
        SessionView {
            subscribers: view.subscribers.push(view.next_subscriber),
            next_subscriber: (view.next_subscriber + 1) as u64,
            ..view
        }
    } else {
        view
    }
}

/// `ids` without `id`, in the same order.
pub open spec fn without(ids: Seq<u64>, id: u64) -> Seq<u64> {
    ids.filter(|other: u64| other != id)
}

/// The manager without the subscriber `id`.
pub open spec fn after_unsubscribe(view: SessionView, id: u64) -> SessionView {
    SessionView { subscribers: without(view.subscribers, id), ..view }
}

/// The manager after a request to disconnect: a running loop is to be
/// stopped, an attempt to connect is given up, and nothing else changes.
pub open spec fn after_disconnect(view: SessionView) -> SessionView {
    match view.state {
        SessionState::Active => SessionView { state: SessionState::Disconnecting, ..view },
        SessionState::Connecting => SessionView { state: SessionState::Idle, ..view },
        _ => view,
    }
}

/// The state through which the slot goes when its loop ends for `reason`.
pub open spec fn passes_through(view: SessionView, reason: StopReason) -> SessionState {
    match view.state {
        SessionState::Active => if reason.is_fault() {
            SessionState::Faulted
        } else {
            SessionState::Disconnecting
        },
        state => state,
    }
}

/// The manager after its loop ended for `reason`. Only a loop that ends on a
/// fault while nobody asked it to stop leaves a fault behind.
pub open spec fn after_stopped(view: SessionView, reason: StopReason) -> SessionView {
    match view.state {
        SessionState::Active => SessionView {
            state: SessionState::Idle,
            fault: reason.is_fault(),
            ..view
        },
        SessionState::Disconnecting => SessionView { state: SessionState::Idle, ..view },
        _ => view,
    }
}

/// Enforces that a device has one session at most, owns the store of that
/// session and knows who listens.
pub struct SessionManager {
    state: SessionState,
    fault: bool,
    store: TelemetryStore,
    subscribers: Vec<u64>,
    next_subscriber: u64,
}

impl View for SessionManager {
    type V = SessionView;

    closed spec fn view(&self) -> SessionView {
        SessionView {
            state: self.state,
            fault: self.fault,
            store: self.store@,
            subscribers: self.subscribers@,
            next_subscriber: self.next_subscriber,
        }
    }
}

impl SessionManager {
    /// Whether the value is internally consistent. Every value that this
    /// module hands out is.
    pub closed spec fn wf(&self) -> bool {
        &&& self.store.wf()
        &&& session_valid(self@)
    }

    /// A manager without a session, a record or a subscriber.
    pub fn new() -> (manager: SessionManager)
        ensures
            manager.wf(),
            manager@ == session_start(),
    {
        SessionManager {
            state: SessionState::Idle,
            fault: false,
            store: TelemetryStore::new(),
            subscribers: Vec::new(),
            next_subscriber: 0,
        }
    }

    /// Where the slot stands.
    pub fn state(&self) -> (state: SessionState)
        ensures
            state == self@.state,
    {
        self.state
    }

    /// Whether the last session ended on a fault.
    pub fn fault(&self) -> (fault: bool)
        ensures
            fault == self@.fault,
    {
        self.fault
    }

    /// Asks for a session with the device named `port_name`. On success the
    /// slot is `Connecting`, and the caller opens what the request names and
    /// reports with `opened`.
    pub fn connect(&mut self, port_name: &str, options: ConnectOptions) -> (result: Result<
        OpenRequest,
        ConnectError,
    >)
        requires
            old(self).wf(),
        ensures
            final(self).wf(),
            final(self)@ == after_connect(old(self)@, port_name@),
            match result {
                Ok(request) => {
                    &&& connect_outcome(old(self)@, port_name@) is Ok
                    &&& request.port_name@ == port_name@
                    &&& request.timeout_millis == match options.timeout_millis {
                        Some(millis) => millis,
                        None => DEFAULT_TIMEOUT_MILLIS,
                    }
                    &&& request.baud_rate == match options.baud_rate {
                        Some(rate) => rate,
                        None => DEFAULT_BAUD_RATE,
                    }
                },
                Err(error) => connect_outcome(old(self)@, port_name@) == Err::<(), ConnectError>(
                    error,
                ),
            },
    {
        match self.state {
            SessionState::Idle => {},
            _ => {
                return Err(ConnectError::AlreadyActive);
            },
        }
        if port_name.is_empty() {
            return Err(ConnectError::EmptyDeviceName);
        }
        self.state = SessionState::Connecting;
        Ok(
            OpenRequest {
                port_name: port_name.to_owned(),
                timeout_millis: match options.timeout_millis {
                    Some(millis) => millis,
                    None => DEFAULT_TIMEOUT_MILLIS,
                },
                baud_rate: match options.baud_rate {
                    Some(rate) => rate,
                    None => DEFAULT_BAUD_RATE,
                },
            },
        )
    }

    /// Takes the outcome of the attempt to open the transport. On `Ok` the
    /// session is `Active`, and the caller starts the one ingest loop.
    pub fn opened(&mut self, success: bool) -> (result: Result<(), ConnectError>)
        requires
            old(self).wf(),
        ensures
            final(self).wf(),
            final(self)@ == after_opened(old(self)@, success),
            result == opened_outcome(old(self)@, success),
            result is Ok ==> !loop_runs(old(self)@.state) && final(self)@.state
                == SessionState::Active,
    {
        match self.state {
            SessionState::Connecting => {},
            _ => {
                return Err(ConnectError::NotConnecting);
            },
        }
        if success {
            self.store.clear();
            self.fault = false;
            self.state = SessionState::Active;
            Ok(())
        } else {
            self.state = SessionState::Idle;
            Err(ConnectError::PortUnavailable)
        }
    }

    /// Takes a record that came out of the channel: files it in the store
    /// and names the subscribers to which it goes, in the order in which
    /// they came. A record that arrives while no session is `Active` is
    /// dropped.
    pub fn on_record(&mut self, record: TelemetryPacket) -> (deliver_to: Vec<u64>)
        requires
            old(self).wf(),
        ensures
            final(self).wf(),
            final(self)@ == after_record(old(self)@, record),
            deliver_to@ == recipients(old(self)@),
    {
        match self.state {
            SessionState::Active => {},
            _ => {
                return Vec::new();
            },
        }
        self.store.insert(record);
        let mut deliver_to: Vec<u64> = Vec::new();
        let mut i: usize = 0;
        while i < self.subscribers.len()
            invariant
                i <= self.subscribers.len(),
                deliver_to@ == self.subscribers@.take(i as int),
            decreases self.subscribers.len() - i,
        {
            deliver_to.push(self.subscribers[i]);
            assert(self.subscribers@.take(i + 1) =~= self.subscribers@.take(i as int).push(
                self.subscribers@[i as int],
            ));
            i = i + 1;
        }
        assert(self.subscribers@.take(i as int) =~= self.subscribers@);
        deliver_to
    }

    /// Registers one more subscriber and hands out its id, or `None` when
    /// every id is taken.
    pub fn subscribe(&mut self) -> (id: Option<u64>)
        requires
            old(self).wf(),
        ensures
            final(self).wf(),
            final(self)@ == after_subscribe(old(self)@),
            id == if old(self)@.next_subscriber < u64::MAX {
                Some(old(self)@.next_subscriber)
            } else {
                None
            },
    {
        if self.next_subscriber == u64::MAX {
            return None;
        }
        let id: u64 = self.next_subscriber;
        self.subscribers.push(id);
        self.next_subscriber = id + 1;
        Some(id)
    }

    /// Strikes the subscriber `id` off, as after a failed delivery, and says
    /// whether it was there. The session and the other subscribers are left
    /// as they are.
    #[verifier::loop_isolation(false)]
    pub fn unsubscribe(&mut self, id: u64) -> (found: bool)
        requires
            old(self).wf(),
        ensures
            final(self).wf(),
            final(self)@ == after_unsubscribe(old(self)@, id),
            found == old(self)@.subscribers.contains(id),
    {
        let ghost before = self.subscribers@;
        let mut i: usize = 0;
        while i < self.subscribers.len()
            invariant
                i <= self.subscribers.len(),
                *self == *old(self),
                forall|j: int| 0 <= j < i ==> before[j] != id,
            decreases self.subscribers.len() - i,
        {
            if self.subscribers[i] == id {
                self.subscribers.remove(i);
                proof {
                    lemma_filter_removes(before, i as int, id);
                }
                return true;
            }
            i = i + 1;
        }
        proof {
            lemma_filter_keeps_all(before, id);
        }
        false
    }

    /// Asks for the session to end, and says whether there is a loop to stop
    /// and to wait for. Where there is, the caller reports with
    /// `ingest_stopped` once the loop has ended.
    pub fn disconnect(&mut self) -> (stop_loop: bool)
        requires
            old(self).wf(),
        ensures
            final(self).wf(),
            final(self)@ == after_disconnect(old(self)@),
            stop_loop == (old(self)@.state == SessionState::Active),
    {
        match self.state {
            SessionState::Active => {
                self.state = SessionState::Disconnecting;
                true
            },
            SessionState::Connecting => {
                self.state = SessionState::Idle;
                false
            },
            _ => false,
        }
    }

    /// Takes the end of the ingest loop, and names the state through which
    /// the slot went on its way to `Idle`.
    pub fn ingest_stopped(&mut self, reason: StopReason) -> (through: SessionState)
        requires
            old(self).wf(),
        ensures
            final(self).wf(),
            final(self)@ == after_stopped(old(self)@, reason),
            through == passes_through(old(self)@, reason),
            loop_runs(old(self)@.state) ==> final(self)@.state == SessionState::Idle,
    {
        match self.state {
            SessionState::Active => {
                self.state = SessionState::Idle;
                if reason.fault() {
                    self.fault = true;
                    SessionState::Faulted
                } else {
                    self.fault = false;
                    SessionState::Disconnecting
                }
            },
            SessionState::Disconnecting => {
                self.state = SessionState::Idle;
                SessionState::Disconnecting
            },
            state => state,
        }
    }

    /// Every record of the session whose timestamp is at least `start` and
    /// less than `end`, by rising timestamp.
    pub fn range_query(&self, start: u64, end: u64) -> (found: Vec<TelemetryPacket>)
        requires
            self.wf(),
        ensures
            is_range_of(found@, self@.store, start, end),
    {
        self.store.range_query(start, end)
    }
}

proof fn lemma_filter_removes(ids: Seq<u64>, at: int, id: u64)
    requires
        0 <= at < ids.len(),
        ids[at] == id,
        forall|i: int, j: int| 0 <= i < j < ids.len() ==> ids[i] < ids[j],
    ensures
        without(ids, id) == ids.remove(at),
    decreases ids.len(),
{
    reveal(Seq::filter);
    if at == ids.len() - 1 {
        assert forall|i: int| 0 <= i < ids.drop_last().len() implies ids.drop_last()[i] != id by {
            assert(ids[i] < ids[at]);
        }
        lemma_filter_keeps_all(ids.drop_last(), id);
        assert(ids.remove(at) =~= ids.drop_last());
    } else {
        lemma_filter_removes(ids.drop_last(), at, id);
        assert(ids[at] < ids.last());
        assert(ids.remove(at) =~= ids.drop_last().remove(at).push(ids.last()));
    }
}

proof fn lemma_filter_keeps_all(ids: Seq<u64>, id: u64)
    requires
        forall|i: int| 0 <= i < ids.len() ==> ids[i] != id,
    ensures
        without(ids, id) == ids,
        !ids.contains(id),
    decreases ids.len(),
{
    reveal(Seq::filter);
    if ids.len() > 0 {
        lemma_filter_keeps_all(ids.drop_last(), id);
        assert(ids.drop_last().push(ids.last()) =~= ids);
    }
}

/// One thing that can happen to a manager.
pub enum SessionOp {
    Connect(Seq<char>),
    Opened(bool),
    Record(TelemetryPacket),
    Subscribe,
    Unsubscribe(u64),
    Disconnect,
    Stopped(StopReason),
}

/// The manager after `op`.
pub open spec fn apply(view: SessionView, op: SessionOp) -> SessionView {
    match op {
        SessionOp::Connect(port_name) => after_connect(view, port_name),
        SessionOp::Opened(success) => after_opened(view, success),
        SessionOp::Record(record) => after_record(view, record),
        SessionOp::Subscribe => after_subscribe(view),
        SessionOp::Unsubscribe(id) => after_unsubscribe(view, id),
        SessionOp::Disconnect => after_disconnect(view),
        SessionOp::Stopped(reason) => after_stopped(view, reason),
    }
}

/// The manager after `ops`, one after the other.
pub open spec fn apply_all(view: SessionView, ops: Seq<SessionOp>) -> SessionView
    decreases ops.len(),
{
    if ops.len() == 0 {
        view
    } else {
        apply(apply_all(view, ops.drop_last()), ops.last())
    }
}

/// Whether `op` has the caller start an ingest loop: `opened` answers `Ok`.
pub open spec fn starts_loop(view: SessionView, op: SessionOp) -> bool {
    op matches SessionOp::Opened(success) && opened_outcome(view, success) is Ok
}

/// Whether `op` reports the end of a loop that ran.
pub open spec fn ends_loop(view: SessionView, op: SessionOp) -> bool {
    op is Stopped && loop_runs(view.state)
}

/// The number of ingest loops that run after `ops`: those that ran before,
/// plus those started, less those whose end was reported.
pub open spec fn live_loops(view: SessionView, ops: Seq<SessionOp>) -> int
    decreases ops.len(),
{
    if ops.len() == 0 {
        if loop_runs(view.state) {
            1
        } else {
            0
        }
    } else {
        let before = apply_all(view, ops.drop_last());
        live_loops(view, ops.drop_last()) + if starts_loop(before, ops.last()) {
            1int
        } else {
            0int
        } - if ends_loop(before, ops.last()) {
            1int
        } else {
            0int
        }
    }
}

/// Whether `op` can take a slot out of a session or out of an attempt to
/// connect: a disconnect, the end of the loop, or a transport that did not
/// open.
pub open spec fn releases(op: SessionOp) -> bool {
    op is Disconnect || op is Stopped || op == SessionOp::Opened(false)
}

/// Every operation leaves a manager that is valid.
pub proof fn lemma_apply_keeps_valid(view: SessionView, op: SessionOp)
    requires
        session_valid(view),
    ensures
        session_valid(apply(view, op)),
{
    match op {
        SessionOp::Unsubscribe(id) => {
            lemma_without_is_ascending(view.subscribers, id, view.next_subscriber);
        },
        _ => {},
    }
}

proof fn lemma_without_is_ascending(ids: Seq<u64>, id: u64, bound: u64)
    requires
        forall|i: int, j: int| 0 <= i < j < ids.len() ==> ids[i] < ids[j],
        forall|i: int| 0 <= i < ids.len() ==> (#[trigger] ids[i]) < bound,
    ensures
        forall|i: int, j: int|
            0 <= i < j < without(ids, id).len() ==> without(ids, id)[i] < without(ids, id)[j],
        forall|i: int| 0 <= i < without(ids, id).len() ==> (#[trigger] without(ids, id)[i]) < bound,
        forall|i: int|
            0 <= i < without(ids, id).len() ==> ids.contains(#[trigger] without(ids, id)[i]),
        ids.len() > 0 && without(ids, id).len() > 0 ==> without(ids, id).last() <= ids.last(),
    decreases ids.len(),
{
    reveal(Seq::filter);
    if ids.len() > 0 {
        let earlier = ids.drop_last();
        lemma_without_is_ascending(earlier, id, bound);
        let kept = without(earlier, id);
        assert forall|i: int| 0 <= i < kept.len() implies ids.contains(#[trigger] kept[i]) && kept[i]
            < ids.last() by {
            assert(earlier.contains(kept[i]));
            let k = choose|k: int| 0 <= k < earlier.len() && earlier[k] == kept[i];
            assert(ids[k] == kept[i]);
            assert(ids[k] < ids[ids.len() - 1]);
        }
        if ids.last() != id {
            assert(without(ids, id) =~= kept.push(ids.last()));
            assert(ids[ids.len() - 1] == ids.last());
        } else {
            assert(without(ids, id) =~= kept);
        }
    }
}

/// A slot has one session at most: once a connect was accepted, every
/// further connect is refused as `AlreadyActive`, whatever else happens in
/// between, until the slot is released.
pub proof fn lemma_second_connect_is_refused(
    view: SessionView,
    first: Seq<char>,
    between: Seq<SessionOp>,
    second: Seq<char>,
)
    requires
        connect_outcome(view, first) is Ok,
        forall|i: int| 0 <= i < between.len() ==> !releases(#[trigger] between[i]),
    ensures
        connect_outcome(apply_all(after_connect(view, first), between), second) == Err::<
            (),
            ConnectError,
        >(ConnectError::AlreadyActive),
    decreases between.len(),
{
    let connecting = after_connect(view, first);
    lemma_stays_engaged(connecting, between);
}

proof fn lemma_stays_engaged(view: SessionView, ops: Seq<SessionOp>)
    requires
        view.state == SessionState::Connecting || view.state == SessionState::Active,
        forall|i: int| 0 <= i < ops.len() ==> !releases(#[trigger] ops[i]),
    ensures
        apply_all(view, ops).state == SessionState::Connecting || apply_all(view, ops).state
            == SessionState::Active,
    decreases ops.len(),
{
    if ops.len() > 0 {
        let earlier = ops.drop_last();
        assert forall|i: int| 0 <= i < earlier.len() implies !releases(#[trigger] earlier[i]) by {
            assert(earlier[i] == ops[i]);
        }
        lemma_stays_engaged(view, earlier);
        assert(!releases(ops.last()));
    }
}

/// No more than one ingest loop runs at any time: whatever happens to a
/// manager, the loops that were started and whose end was not reported yet
/// number one while the slot is `Active` or `Disconnecting`, and none
/// otherwise. A loop is started only while none runs.
pub proof fn lemma_one_loop_at_most(view: SessionView, ops: Seq<SessionOp>)
    ensures
        live_loops(view, ops) == if loop_runs(apply_all(view, ops).state) {
            1int
        } else {
            0int
        },
        forall|op: SessionOp| #[trigger]
            starts_loop(apply_all(view, ops), op) ==> live_loops(view, ops) == 0,
    decreases ops.len(),
{
    if ops.len() > 0 {
        lemma_one_loop_at_most(view, ops.drop_last());
    }
}

/// The mapping after `records` were filed one after the other.
pub open spec fn insert_all(store: Map<u64, TelemetryPacket>, records: Seq<TelemetryPacket>) -> Map<
    u64,
    TelemetryPacket,
>
    decreases records.len(),
{
    if records.len() == 0 {
        store
    } else {
        insert_all(store, records.drop_last()).insert(records.last().running_us, records.last())
    }
}

/// The manager after `records` came out of the channel one after the other.
pub open spec fn after_records(view: SessionView, records: Seq<TelemetryPacket>) -> SessionView
    decreases records.len(),
{
    if records.len() == 0 {
        view
    } else {
        after_record(after_records(view, records.drop_last()), records.last())
    }
}

/// One delivery of `record` to each of `ids`, in their order.
pub open spec fn fan_out(ids: Seq<u64>, record: TelemetryPacket) -> Seq<(u64, TelemetryPacket)> {
    Seq::new(ids.len(), |i: int| (ids[i], record))
}

/// Every delivery that `records` give rise to, in the order in which the
/// manager asks for them.
pub open spec fn deliveries(view: SessionView, records: Seq<TelemetryPacket>) -> Seq<
    (u64, TelemetryPacket),
>
    decreases records.len(),
{
    if records.len() == 0 {
        Seq::empty()
    } else {
        deliveries(view, records.drop_last()) + fan_out(
            recipients(after_records(view, records.drop_last())),
            records.last(),
        )
    }
}

/// What the subscriber `id` gets to see of `log`, in order.
pub open spec fn seen_by(log: Seq<(u64, TelemetryPacket)>, id: u64) -> Seq<TelemetryPacket>
    decreases log.len(),
{
    if log.len() == 0 {
        Seq::empty()
    } else if log.last().0 == id {
        seen_by(log.drop_last(), id).push(log.last().1)
    } else {
        seen_by(log.drop_last(), id)
    }
}

proof fn lemma_seen_by_add(a: Seq<(u64, TelemetryPacket)>, b: Seq<(u64, TelemetryPacket)>, id: u64)
    ensures
        seen_by(a + b, id) == seen_by(a, id) + seen_by(b, id),
    decreases b.len(),
{
    if b.len() == 0 {
        assert(a + b =~= a);
        assert(seen_by(a, id) + seen_by(b, id) =~= seen_by(a, id));
    } else {
        lemma_seen_by_add(a, b.drop_last(), id);
        assert((a + b).drop_last() =~= a + b.drop_last());
        assert((a + b).last() == b.last());
        if b.last().0 == id {
            assert(seen_by(a, id) + seen_by(b, id) =~= (seen_by(a, id) + seen_by(
                b.drop_last(),
                id,
            )).push(b.last().1));
        }
    }
}

proof fn lemma_seen_by_fan_out(ids: Seq<u64>, record: TelemetryPacket, id: u64)
    requires
        forall|i: int, j: int| 0 <= i < j < ids.len() ==> ids[i] < ids[j],
    ensures
        seen_by(fan_out(ids, record), id) == if ids.contains(id) {
            seq![record]
        } else {
            Seq::<TelemetryPacket>::empty()
        },
    decreases ids.len(),
{
    let log = fan_out(ids, record);
    if ids.len() > 0 {
        let earlier = ids.drop_last();
        lemma_seen_by_fan_out(earlier, record, id);
        assert(log.drop_last() =~= fan_out(earlier, record));
        assert(log.last() == (ids.last(), record));
        if ids.last() == id {
            assert(!earlier.contains(id)) by {
                if earlier.contains(id) {
                    let k = choose|k: int| 0 <= k < earlier.len() && earlier[k] == id;
                    assert(ids[k] < ids[ids.len() - 1]);
                }
            }
            assert(ids[ids.len() - 1] == id);
            assert(seen_by(log, id) =~= seq![record]);
        } else {
            if earlier.contains(id) {
                let k = choose|k: int| 0 <= k < earlier.len() && earlier[k] == id;
                assert(ids[k] == id);
            }
            if ids.contains(id) {
                let k = choose|k: int| 0 <= k < ids.len() && ids[k] == id;
                assert(earlier[k] == id);
            }
        }
    }
}

/// Records reach the store and every subscriber in the order in which they
/// come out of the channel: while a session is `Active`, the store is what
/// filing them one after the other makes of it, and each subscriber is
/// handed exactly these records, each once, in that order.
pub proof fn lemma_records_keep_their_order(
    view: SessionView,
    records: Seq<TelemetryPacket>,
    id: u64,
)
    requires
        session_valid(view),
        view.state == SessionState::Active,
        view.subscribers.contains(id),
    ensures
        after_records(view, records).store == insert_all(view.store, records),
        after_records(view, records).state == SessionState::Active,
        after_records(view, records).subscribers == view.subscribers,
        seen_by(deliveries(view, records), id) == records,
    decreases records.len(),
{
    if records.len() > 0 {
        let earlier = records.drop_last();
        lemma_records_keep_their_order(view, earlier, id);
        lemma_seen_by_add(
            deliveries(view, earlier),
            fan_out(recipients(after_records(view, earlier)), records.last()),
            id,
        );
        lemma_seen_by_fan_out(view.subscribers, records.last(), id);
        assert(earlier + seq![records.last()] =~= records);
    } else {
        assert(seen_by(deliveries(view, records), id) =~= records);
    }
}

/// Losing one subscriber costs the others nothing: the session stays as it
/// is, the store too, and every other subscriber stays where it was and goes
/// on getting each record.
pub proof fn lemma_unsubscribe_is_isolated(view: SessionView, gone: u64, other: u64)
    requires
        session_valid(view),
        view.subscribers.contains(other),
        other != gone,
    ensures
        after_unsubscribe(view, gone).state == view.state,
        after_unsubscribe(view, gone).fault == view.fault,
        after_unsubscribe(view, gone).store == view.store,
        after_unsubscribe(view, gone).subscribers.contains(other),
        !after_unsubscribe(view, gone).subscribers.contains(gone),
        view.state == SessionState::Active ==> recipients(after_unsubscribe(view, gone)).contains(
            other,
        ),
{
    let kept = without(view.subscribers, gone);
    let at = choose|k: int| 0 <= k < view.subscribers.len() && view.subscribers[k] == other;
    view.subscribers.lemma_filter_contains(|other: u64| other != gone, at);
    if kept.contains(gone) {
        let k = choose|k: int| 0 <= k < kept.len() && kept[k] == gone;
        view.subscribers.lemma_filter_pred(|other: u64| other != gone, k);
    }
}

/// A loop that ends in the ordinary course leaves the slot `Idle` without a
/// fault; one that ends on a fault while the session is `Active` leaves it
/// `Idle` with the fault noted.
pub proof fn lemma_fault_is_noted(view: SessionView, reason: StopReason)
    requires
        view.state == SessionState::Active,
    ensures
        after_stopped(view, reason).state == SessionState::Idle,
        after_stopped(view, reason).fault == (reason == StopReason::TransportFailed),
        passes_through(view, reason) == if reason == StopReason::TransportFailed {
            SessionState::Faulted
        } else {
            SessionState::Disconnecting
        },
{
}

} // verus!
