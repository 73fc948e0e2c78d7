//! The device listener's control state and what it does with each event.
//!
//! The listener owns four flags: whether the device is grabbed and whether it
//! should be, whether forwarding is paused and whether it should be. Two keys
//! of the device itself toggle the two targets. On every round the listener
//! first brings the actual flags to their targets, then works through the
//! batch of events that the device hands it: its own LED echoes are ignored,
//! the two control keys are absorbed, and everything else is framed and
//! published unless forwarding is paused or nobody listens.
//!
//! Talking to the device is left to the caller, which reports back how a grab
//! went and hands over each batch.

use vstd::prelude::*;
use crate::bus::{lemma_publish_keeps_table, BusError, BusView, EventBus};
use crate::event::{LedCommand, RawEvent, EV_KEY, EV_LED, LED_CAPSL, LED_SCROLLL};
use crate::frame::{encode, Frame};
use crate::wire::{frame_bytes, lemma_frame_bytes_injective};

verus! {

/// The codes of the two keys that steer the listener.
#[derive(Clone, Copy, Debug, PartialEq, Eq, Structural)]
pub struct ControlKeys {
    /// Releasing this key toggles the grab.
    pub escape: u16,
    /// Releasing this key toggles the pause.
    pub pause: u16,
}

/// What an event is to the listener.
#[derive(Clone, Copy, Debug, PartialEq, Eq, Structural)]
pub enum EventClass {
    /// An LED event, the echo of an indicator that was written to the device.
    Indicator,
    /// A key event of the escape key.
    GrabKey,
    /// A key event of the pause key.
    PauseKey,
    /// Anything else: an event to forward.
    Payload,
}

/// The call to the operating system that is due.
#[derive(Clone, Copy, Debug, PartialEq, Eq, Structural)]
pub enum GrabRequest {
    /// Take the device for this process alone.
    Acquire,
    /// Let the device go.
    Release,
}

/// What became of one event.
#[derive(Clone, Copy, Debug, PartialEq, Eq, Structural)]
pub enum Outcome {
    /// It was an indicator echo and was skipped.
    Ignored,
    /// It was a control key and was absorbed.
    Absorbed,
    /// It was not framed, because forwarding is paused or nobody listens.
    Suppressed,
    /// Its frame reached every subscriber.
    Published,
    /// Its frame was dropped for every subscriber.
    Dropped(BusError),
    /// It could not be framed.
    EncodeFailed,
}

/// What became of a batch of events.
#[derive(Clone, Copy, Debug, PartialEq, Eq, Structural)]
pub struct BatchReport {
    /// How many frames reached the subscribers.
    pub published: usize,
    /// How many frames were dropped by the bus.
    pub dropped: usize,
}

/// The listener's control state.
#[derive(Clone, Copy, Debug, PartialEq, Eq, Structural)]
pub struct ListenerState {
    /// Whether the device is grabbed.
    pub grabbed: bool,
    /// Whether the device should be grabbed.
    pub grab_target: bool,
    /// Whether forwarding is paused.
    pub paused: bool,
    /// Whether forwarding should be paused.
    pub pause_target: bool,
}

/// What working through a batch comes to: the state and the bus after it,
/// the frames that reached the subscribers, in order, and the number of
/// frames that the bus dropped.
pub struct Run {
    pub state: ListenerState,
    pub bus: BusView,
    pub stream: Seq<Seq<u8>>,
    pub dropped: nat,
}

/// What to do after the device failed to hand over a batch.
#[derive(Clone, Copy, Debug, PartialEq, Eq, Structural)]
pub enum FetchVerdict {
    /// The failure may pass: start the next round.
    Retry,
    /// The device is taken for lost: stop listening.
    GiveUp,
}

/// How many failures to read from the device in a row are borne. A failure
/// is never fatal by itself, since the device may recover; only a run of more
/// than `limit` failures without one success between them is taken for the
/// loss of the device.
#[derive(Clone, Copy, Debug, PartialEq, Eq, Structural)]
pub struct RetryBudget {
    /// The longest run of failures that is borne.
    pub limit: u32,
    /// The length of the current run of failures, counted up to `limit + 1`.
    pub failures: u32,
}

impl RetryBudget {
    /// A budget that bears `limit` failures in a row, with none counted yet.
    pub fn new(limit: u32) -> (budget: RetryBudget)
        ensures
            budget == (RetryBudget { limit, failures: 0 }),
    {
        RetryBudget { limit, failures: 0 }
    }

    /// The budget after a batch was read: the run of failures is over.
    pub open spec fn after_success(self) -> RetryBudget {
        RetryBudget { failures: 0, ..self }
    }

    /// The budget after a read failed: the run is one longer, but is not
    /// counted beyond the first failure that goes over the limit. With the
    /// largest limit there is the budget never runs out.
    pub open spec fn after_failure(self) -> RetryBudget {
        if self.failures > self.limit || self.failures == u32::MAX {
            self
        } else {
            RetryBudget { failures: (self.failures + 1) as u32, ..self }
        }
    }

    /// Whether the run of failures has gone over the limit.
    pub open spec fn exhausted(self) -> bool {
        self.failures > self.limit
    }

    /// Takes note of a batch that was read.
    pub fn record_success(&mut self)
        ensures
            *final(self) == old(self).after_success(),
            !final(self).exhausted(),
    {
        self.failures = 0;
    }

    /// Takes note of a failed read and says whether to go on.
    pub fn record_failure(&mut self) -> (verdict: FetchVerdict)
        ensures
            *final(self) == old(self).after_failure(),
            verdict == if final(self).exhausted() {
                FetchVerdict::GiveUp
            } else {
                FetchVerdict::Retry
            },
    {
        if self.failures <= self.limit && self.failures < u32::MAX {
            self.failures = self.failures + 1;
        }
        if self.failures > self.limit {
            FetchVerdict::GiveUp
        } else {
            FetchVerdict::Retry
        }
    }
}

/// What `event` is to a listener with the control keys `keys`. Only key
/// events are control keys, and the escape key wins where both codes are the
/// same.
pub open spec fn classify_spec(event: RawEvent, keys: ControlKeys) -> EventClass {
    if event.event_type == EV_LED {
        EventClass::Indicator
    } else if event.event_type == EV_KEY && event.code == keys.escape {
        EventClass::GrabKey
    } else if event.event_type == EV_KEY && event.code == keys.pause {
        EventClass::PauseKey
    } else {
        EventClass::Payload
    }
}

/// What `event` is to a listener with the control keys `keys`.
#[verifier::when_used_as_spec(classify_spec)]
pub fn classify(event: RawEvent, keys: ControlKeys) -> (class: EventClass)
    ensures
        class == classify_spec(event, keys),
{
    if event.event_type == EV_LED {
        EventClass::Indicator
    } else if event.event_type == EV_KEY && event.code == keys.escape {
        EventClass::GrabKey
    } else if event.event_type == EV_KEY && event.code == keys.pause {
        EventClass::PauseKey
    } else {
        EventClass::Payload
    }
}

impl ListenerState {
    /// The state in which a listener starts: not grabbed but meant to be,
    /// paused but meant not to be. The first round therefore grabs the device
    /// and starts forwarding.
    pub open spec fn initial() -> ListenerState {
        ListenerState { grabbed: false, grab_target: true, paused: true, pause_target: false }
    }

    /// The state in which a listener starts.
    pub fn new() -> (state: ListenerState)
        ensures
            state == ListenerState::initial(),
    {
        ListenerState { grabbed: false, grab_target: true, paused: true, pause_target: false }
    }

    /// The grab or release that is due, if the device is not as it should be.
    pub open spec fn due_grab(self) -> Option<GrabRequest> {
        if self.grabbed == self.grab_target {
            None
        } else if self.grab_target {
            Some(GrabRequest::Acquire)
        } else {
            Some(GrabRequest::Release)
        }
    }

    /// The state after the due grab or release was tried. On success the
    /// device is as it should be. On failure the target snaps back to what
    /// the device is, so that the call is not tried again.
    pub open spec fn after_grab(self, succeeded: bool) -> ListenerState {
        if self.grabbed == self.grab_target {
            self
        } else if succeeded {
            ListenerState { grabbed: self.grab_target, ..self }
        } else {
            ListenerState { grab_target: self.grabbed, ..self }
        }
    }

    /// The indicator to show after the due grab or release was tried: the
    /// scroll-lock LED, lit while the device is grabbed, and only where the
    /// grab state changed.
    pub open spec fn grab_indicator(self, succeeded: bool) -> Option<LedCommand> {
        if self.grabbed != self.grab_target && succeeded {
            Some(LedCommand { code: LED_SCROLLL, on: self.grab_target })
        } else {
            None
        }
    }

    /// The state after forwarding was brought to its target.
    pub open spec fn after_pause_sync(self) -> ListenerState {
        ListenerState { paused: self.pause_target, ..self }
    }

    /// The indicator to show after forwarding was brought to its target: the
    /// caps-lock LED, lit while forwarding is paused, and only where the
    /// pause state changed.
    pub open spec fn pause_indicator(self) -> Option<LedCommand> {
        if self.paused != self.pause_target {
            Some(LedCommand { code: LED_CAPSL, on: self.pause_target })
        } else {
            None
        }
    }

    /// Whether the device and the forwarding are as they should be.
    pub open spec fn settled(self) -> bool {
        self.grabbed == self.grab_target && self.paused == self.pause_target
    }

    /// The state after `event` was seen: the release of a control key flips
    /// its target, and nothing else changes anything.
    pub open spec fn after_event(self, event: RawEvent, keys: ControlKeys) -> ListenerState {
        match classify_spec(event, keys) {
            EventClass::GrabKey => if event.value == 0 {
                ListenerState { grab_target: !self.grab_target, ..self }
            } else {
                self
            },
            EventClass::PauseKey => if event.value == 0 {
                ListenerState { pause_target: !self.pause_target, ..self }
            } else {
                self
            },
            _ => self,
        }
    }

    /// Whether `event` is framed and offered to the bus: it is a payload
    /// event, forwarding is not paused, and somebody listens.
    pub open spec fn forwards(self, event: RawEvent, keys: ControlKeys, bus: BusView) -> bool {
        classify_spec(event, keys) == EventClass::Payload && !self.paused && bus.subscribers() >= 1
    }

    /// What becomes of `event`.
    pub open spec fn outcome(self, event: RawEvent, keys: ControlKeys, bus: BusView) -> Outcome {
        match classify_spec(event, keys) {
            EventClass::Indicator => Outcome::Ignored,
            EventClass::GrabKey => Outcome::Absorbed,
            EventClass::PauseKey => Outcome::Absorbed,
            EventClass::Payload => if self.paused || bus.subscribers() == 0 {
                Outcome::Suppressed
            } else if bus.closed {
                Outcome::Dropped(BusError::Closed)
            } else if bus.full() {
                Outcome::Dropped(BusError::Full)
            } else {
                Outcome::Published
            },
        }
    }

    /// The bus after `event` was seen.
    pub open spec fn bus_after_event(self, event: RawEvent, keys: ControlKeys, bus: BusView)
        -> BusView {
        if self.forwards(event, keys, bus) {
            bus.publish(frame_bytes(event))
        } else {
            bus
        }
    }

    /// The batch `events` worked through in order, starting from this state
    /// and the bus `bus`.
    pub open spec fn run(self, keys: ControlKeys, bus: BusView, events: Seq<RawEvent>) -> Run
        decreases events.len(),
    {
        if events.len() == 0 {
            Run { state: self, bus, stream: Seq::empty(), dropped: 0 }
        } else {
            let first = events[0];
            let rest = self.after_event(first, keys).run(
                keys,
                self.bus_after_event(first, keys, bus),
                events.skip(1),
            );
            let what = self.outcome(first, keys, bus);
            Run {
                state: rest.state,
                bus: rest.bus,
                stream: if what == Outcome::Published {
                    seq![frame_bytes(first)] + rest.stream
                } else {
                    rest.stream
                },
                dropped: if what is Dropped {
                    rest.dropped + 1
                } else {
                    rest.dropped
                },
            }
        }
    }

    /// The grab or release that is due, if the device is not as it should be.
    pub fn pending_grab(&self) -> (request: Option<GrabRequest>)
        ensures
            request == self.due_grab(),
    {
        if self.grabbed == self.grab_target {
            None
        } else if self.grab_target {
            Some(GrabRequest::Acquire)
        } else {
            Some(GrabRequest::Release)
        }
    }

    /// Takes note of how the due grab or release went and returns the
    /// indicator to show, if the grab state changed. Afterwards the device is
    /// as it should be, whichever way the call went.
    pub fn grab_outcome(&mut self, succeeded: bool) -> (indicator: Option<LedCommand>)
        ensures
            *final(self) == old(self).after_grab(succeeded),
            indicator == old(self).grab_indicator(succeeded),
            final(self).grabbed == final(self).grab_target,
            final(self).due_grab() is None,
    {
        if self.grabbed == self.grab_target {
            None
        } else if succeeded {
            self.grabbed = self.grab_target;
            Some(LedCommand { code: LED_SCROLLL, on: self.grabbed })
        } else {
            self.grab_target = self.grabbed;
            None
        }
    }

    /// Brings forwarding to its target and returns the indicator to show, if
    /// the pause state changed.
    pub fn sync_pause(&mut self) -> (indicator: Option<LedCommand>)
        ensures
            *final(self) == old(self).after_pause_sync(),
            indicator == old(self).pause_indicator(),
            final(self).paused == final(self).pause_target,
    {
        if self.paused != self.pause_target {
            self.paused = self.pause_target;
            Some(LedCommand { code: LED_CAPSL, on: self.paused })
        } else {
            None
        }
    }

    /// Handles one event: skips an indicator echo, absorbs a control key and
    /// lets its release flip the target, and frames and publishes anything
    /// else unless forwarding is paused or nobody listens. A frame that the
    /// bus does not take is dropped and not offered again.
    pub fn process_event(&mut self, event: RawEvent, keys: ControlKeys, bus: &mut EventBus) -> (what:
        Outcome)
        ensures
            *final(self) == old(self).after_event(event, keys),
            final(bus)@ == old(self).bus_after_event(event, keys, old(bus)@),
            what == old(self).outcome(event, keys, old(bus)@),
    {
        match classify(event, keys) {
            EventClass::Indicator => {
                Outcome::Ignored
            },
            EventClass::GrabKey => {
                if event.value == 0 {
                    self.grab_target = !self.grab_target;
                }
                Outcome::Absorbed
            },
            EventClass::PauseKey => {
                if event.value == 0 {
                    self.pause_target = !self.pause_target;
                }
                Outcome::Absorbed
            },
            EventClass::Payload => {
                if self.paused || bus.subscriber_count() == 0 {
                    return Outcome::Suppressed;
                }
                let mut frame = Frame::new();
                match encode(event, &mut frame) {
                    Ok(_) => match bus.publish(frame) {
                        Ok(()) => Outcome::Published,
                        Err(error) => Outcome::Dropped(error),
                    },
                    Err(_) => Outcome::EncodeFailed,
                }
            },
        }
    }

    /// Works through a batch of events in order and reports how many frames
    /// reached the subscribers and how many the bus dropped.
    pub fn process_batch(&mut self, events: &[RawEvent], keys: ControlKeys, bus: &mut EventBus) -> (report:
        BatchReport)
        ensures
            *final(self) == old(self).run(keys, old(bus)@, events@).state,
            final(bus)@ == old(self).run(keys, old(bus)@, events@).bus,
            report.published == old(self).run(keys, old(bus)@, events@).stream.len(),
            report.dropped == old(self).run(keys, old(bus)@, events@).dropped,
    {
        let ghost whole = self.run(keys, bus@, events@);
        let len: usize = events.len();
        let mut published: usize = 0;
        let mut dropped: usize = 0;
        let mut i: usize = 0;
        assert(events@.skip(0) =~= events@);
        while i < len
            invariant
                i <= len,
                len == events@.len(),
                published + dropped <= i,
                whole.state == self.run(keys, bus@, events@.skip(i as int)).state,
                whole.bus == self.run(keys, bus@, events@.skip(i as int)).bus,
                whole.stream.len() == published + self.run(
                    keys,
                    bus@,
                    events@.skip(i as int),
                ).stream.len(),
                whole.dropped == dropped + self.run(keys, bus@, events@.skip(i as int)).dropped,
            decreases len - i,
        {
            let event: RawEvent = events[i];
            proof {
                assert(events@.skip(i as int)[0] == event);
                assert(events@.skip(i as int).skip(1) =~= events@.skip(i as int + 1));
            }
            match self.process_event(event, keys, bus) {
                Outcome::Published => {
                    published += 1;
                },
                Outcome::Dropped(_) => {
                    dropped += 1;
                },
                _ => {},
            }
            i += 1;
        }
        BatchReport { published, dropped }
    }
}

/// Whether `frame` is the frame of a payload event of `events`.
pub open spec fn from_payload(frame: Seq<u8>, events: Seq<RawEvent>, keys: ControlKeys) -> bool {
    exists|i: int|
        0 <= i < events.len() && classify_spec(#[trigger] events[i], keys) == EventClass::Payload
            && frame == frame_bytes(events[i])
}

/// A batch changes the targets only: whether the device is grabbed and
/// whether forwarding is paused stay as they are until the next round.
pub proof fn lemma_run_keeps_actual(
    state: ListenerState,
    keys: ControlKeys,
    bus: BusView,
    events: Seq<RawEvent>,
)
    ensures
        state.run(keys, bus, events).state.grabbed == state.grabbed,
        state.run(keys, bus, events).state.paused == state.paused,
    decreases events.len(),
{
    if events.len() > 0 {
        lemma_run_keeps_actual(
            state.after_event(events[0], keys),
            keys,
            state.bus_after_event(events[0], keys, bus),
            events.skip(1),
        );
    }
}

/// Pause suppresses forwarding. While forwarding is paused a batch reaches no
/// subscriber: the bus is left as it was.
pub proof fn lemma_paused_forwards_nothing(
    state: ListenerState,
    keys: ControlKeys,
    bus: BusView,
    events: Seq<RawEvent>,
)
    requires
        state.paused,
    ensures
        state.run(keys, bus, events).bus == bus,
        state.run(keys, bus, events).stream == Seq::<Seq<u8>>::empty(),
        state.run(keys, bus, events).dropped == 0,
    decreases events.len(),
{
    if events.len() > 0 {
        lemma_paused_forwards_nothing(state.after_event(events[0], keys), keys, bus, events.skip(1));
    }
}

/// Without a subscriber nothing is framed or published.
pub proof fn lemma_unheard_forwards_nothing(
    state: ListenerState,
    keys: ControlKeys,
    bus: BusView,
    events: Seq<RawEvent>,
)
    requires
        bus.subscribers() == 0,
    ensures
        state.run(keys, bus, events).bus == bus,
        state.run(keys, bus, events).stream == Seq::<Seq<u8>>::empty(),
        state.run(keys, bus, events).dropped == 0,
    decreases events.len(),
{
    if events.len() > 0 {
        lemma_unheard_forwards_nothing(
            state.after_event(events[0], keys),
            keys,
            bus,
            events.skip(1),
        );
    }
}

/// What a batch adds to a subscriber's queue is the batch's stream, and
/// nothing else.
pub proof fn lemma_run_appends_stream(
    state: ListenerState,
    keys: ControlKeys,
    bus: BusView,
    events: Seq<RawEvent>,
    id: int,
)
    requires
        bus.live(id),
    ensures
        state.run(keys, bus, events).bus.live(id),
        state.run(keys, bus, events).bus.pending(id) == bus.pending(id) + state.run(
            keys,
            bus,
            events,
        ).stream,
    decreases events.len(),
{
    if events.len() == 0 {
        assert(bus.pending(id) + Seq::<Seq<u8>>::empty() =~= bus.pending(id));
    } else {
        let first = events[0];
        let next = state.bus_after_event(first, keys, bus);
        lemma_publish_keeps_table(bus, frame_bytes(first));
        lemma_run_appends_stream(state.after_event(first, keys), keys, next, events.skip(1), id);
        let rest = state.after_event(first, keys).run(keys, next, events.skip(1));
        if state.outcome(first, keys, bus) == Outcome::Published {
            assert(bus.pending(id).push(frame_bytes(first)) + rest.stream =~= bus.pending(id) + (
            seq![frame_bytes(first)] + rest.stream));
        }
    }
}

/// Every frame of a batch's stream is the frame of a payload event of the
/// batch, and none comes while forwarding is paused.
pub proof fn lemma_stream_is_payload(
    state: ListenerState,
    keys: ControlKeys,
    bus: BusView,
    events: Seq<RawEvent>,
)
    ensures
        forall|k: int|
            0 <= k < state.run(keys, bus, events).stream.len() ==> from_payload(
                #[trigger] state.run(keys, bus, events).stream[k],
                events,
                keys,
            ),
        state.run(keys, bus, events).stream.len() > 0 ==> !state.paused,
    decreases events.len(),
{
    if events.len() > 0 {
        let first = events[0];
        let tail = events.skip(1);
        let next_state = state.after_event(first, keys);
        let next_bus = state.bus_after_event(first, keys, bus);
        let rest = next_state.run(keys, next_bus, tail);
        let whole = state.run(keys, bus, events);
        lemma_stream_is_payload(next_state, keys, next_bus, tail);
        let shift: int = if state.outcome(first, keys, bus) == Outcome::Published {
            1
        } else {
            0
        };
        assert forall|k: int| 0 <= k < whole.stream.len() implies from_payload(
            #[trigger] whole.stream[k],
            events,
            keys,
        ) by {
            if k < shift {
                assert(classify_spec(events[0], keys) == EventClass::Payload);
            } else {
                assert(whole.stream[k] == rest.stream[k - shift]);
                assert(from_payload(rest.stream[k - shift], tail, keys));
                let i = choose|i: int|
                    0 <= i < tail.len() && classify_spec(#[trigger] tail[i], keys)
                        == EventClass::Payload && rest.stream[k - shift] == frame_bytes(tail[i]);
                assert(events[i + 1] == tail[i]);
            }
        }
    }
}

/// Control keys are absorbed. The frame of an escape-key or pause-key event,
/// and that of an indicator echo, is in no batch's stream, whatever the grab
/// and pause state: no subscriber ever receives it from the listener.
pub proof fn lemma_control_keys_absorbed(
    state: ListenerState,
    keys: ControlKeys,
    bus: BusView,
    events: Seq<RawEvent>,
    event: RawEvent,
)
    requires
        classify_spec(event, keys) != EventClass::Payload,
    ensures
        !state.run(keys, bus, events).stream.contains(frame_bytes(event)),
{
    let stream = state.run(keys, bus, events).stream;
    lemma_stream_is_payload(state, keys, bus, events);
    if stream.contains(frame_bytes(event)) {
        let k = choose|k: int| 0 <= k < stream.len() && stream[k] == frame_bytes(event);
        assert(from_payload(stream[k], events, keys));
        let i = choose|i: int|
            0 <= i < events.len() && classify_spec(#[trigger] events[i], keys)
                == EventClass::Payload && stream[k] == frame_bytes(events[i]);
        lemma_frame_bytes_injective(event, events[i]);
    }
}

/// Every round settles the listener. Whichever way the due grab or release
/// went, after its outcome was noted and forwarding was brought to its target
/// the device and the forwarding are as they should be, and no call to the
/// operating system is due.
pub proof fn lemma_round_settles(state: ListenerState, succeeded: bool)
    ensures
        state.after_grab(succeeded).after_pause_sync().settled(),
        state.after_grab(succeeded).after_pause_sync().due_grab() is None,
        state.after_grab(succeeded).grabbed == state.grabbed || succeeded,
{
}

/// Control keys are absorbed, as the subscriber sees it. Whatever a batch
/// adds to the queue of a subscriber is the frame of a payload event of that
/// batch: never that of a control key, whatever the grab and pause state.
pub proof fn lemma_subscriber_sees_payload_only(
    state: ListenerState,
    keys: ControlKeys,
    bus: BusView,
    events: Seq<RawEvent>,
    id: int,
)
    requires
        bus.live(id),
    ensures
        state.run(keys, bus, events).bus.live(id),
        bus.pending(id).is_prefix_of(state.run(keys, bus, events).bus.pending(id)),
        forall|k: int|
            bus.pending(id).len() <= k < state.run(keys, bus, events).bus.pending(id).len()
                ==> from_payload(
                #[trigger] state.run(keys, bus, events).bus.pending(id)[k],
                events,
                keys,
            ),
{
    let run = state.run(keys, bus, events);
    lemma_run_appends_stream(state, keys, bus, events, id);
    lemma_stream_is_payload(state, keys, bus, events);
    assert forall|k: int| bus.pending(id).len() <= k < run.bus.pending(id).len() implies from_payload(
        #[trigger] run.bus.pending(id)[k],
        events,
        keys,
    ) by {
        assert(run.bus.pending(id)[k] == run.stream[k - bus.pending(id).len()]);
    }
}

} // verus!
