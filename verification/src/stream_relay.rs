//! Relaying a logical stream of a session that carries several.
//!
//! Such a session goes on whatever becomes of one stream, so a failure ends at the stream: it
//! closes, and the others do not notice. The two directions of the relay are independent. Each
//! runs until it ends or fails, and then ends what it was writing to.
use crate::relay::RelayEvent;
use vstd::prelude::*;

verus! {

/// One thing to do once it is known whether the destination of a stream can be reached.
#[derive(Debug)]
pub enum StreamConnectStep {
    /// Tell the client that the destination was reached.
    ReportSuccess,
    /// Relay bytes between the client and the destination.
    Relay,
    /// Close the stream.
    CloseStream,
    /// Fail with this error.
    Fail(String),
}

/// The mathematical value of a [`StreamConnectStep`].
pub enum StreamConnectStepView {
    ReportSuccess,
    Relay,
    CloseStream,
    Fail(Seq<char>),
}

impl View for StreamConnectStep {
    type V = StreamConnectStepView;

    open spec fn view(&self) -> StreamConnectStepView {
        match self {
            StreamConnectStep::ReportSuccess => StreamConnectStepView::ReportSuccess,
            StreamConnectStep::Relay => StreamConnectStepView::Relay,
            StreamConnectStep::CloseStream => StreamConnectStepView::CloseStream,
            StreamConnectStep::Fail(reason) => StreamConnectStepView::Fail(reason@),
        }
    }
}

/// What to do, in this order, once it is known whether the destination can be reached, and if
/// not, why.
pub open spec fn stream_connect_steps(failure: Option<Seq<char>>) -> Seq<StreamConnectStepView> {
    match failure {
        None => seq![StreamConnectStepView::ReportSuccess, StreamConnectStepView::Relay],
        Some(reason) => seq![
            StreamConnectStepView::CloseStream,
            StreamConnectStepView::Fail(reason),
        ],
    }
}

/// What to do about the outcome of connecting to the destination of a stream. Success is
/// reported before anything is relayed. A failure is not reported: the stream closes and the
/// error is handed on.
pub fn on_stream_connect(outcome: Result<(), String>) -> (steps: Vec<StreamConnectStep>)
    ensures
        steps@.map_values(|s: StreamConnectStep| s@) == stream_connect_steps(
            match outcome {
                Ok(_) => None,
                Err(reason) => Some(reason@),
            },
        ),
{
    let mut steps: Vec<StreamConnectStep> = Vec::new();
    match outcome {
        Ok(()) => {
            steps.push(StreamConnectStep::ReportSuccess);
            steps.push(StreamConnectStep::Relay);
        },
        Err(reason) => {
            steps.push(StreamConnectStep::CloseStream);
            steps.push(StreamConnectStep::Fail(reason));
        },
    }
    steps
}

/// What to do next.
#[derive(Debug, Clone, Copy, PartialEq, Eq, Structural)]
pub enum StreamRelayAction {
    /// Nothing.
    Ignore,
    /// Write the bytes to the destination.
    WriteOutbound,
    /// Write the bytes to the client.
    WriteClient,
    /// Close this side's half of the connection to the destination.
    ShutdownOutbound,
    /// Close the stream.
    CloseStream,
}

/// Which directions of a relay are running.
#[derive(Debug, Clone, Copy, PartialEq, Eq, Structural)]
pub struct StreamRelay {
    /// From the client to the destination.
    pub up: bool,
    /// From the destination to the client.
    pub down: bool,
}

/// Whether an event ends the direction from the client to the destination.
pub open spec fn ends_up(event: RelayEvent) -> bool {
    event is ClientEnd || event is ClientFailed || event is OutboundWriteFailed
}

/// Whether an event ends the direction from the destination to the client.
pub open spec fn ends_down(event: RelayEvent) -> bool {
    event is OutboundEnd || event is OutboundFailed || event is ClientWriteFailed
}

/// What an event comes to. An event of a direction that has stopped means nothing.
pub open spec fn stream_relay_step(r: StreamRelay, event: RelayEvent) -> (
    StreamRelay,
    StreamRelayAction,
) {
    if r.up && event is ClientData {
        (r, StreamRelayAction::WriteOutbound)
    } else if r.up && ends_up(event) {
        (StreamRelay { up: false, ..r }, StreamRelayAction::ShutdownOutbound)
    } else if r.down && event is OutboundData {
        (r, StreamRelayAction::WriteClient)
    } else if r.down && ends_down(event) {
        (StreamRelay { down: false, ..r }, StreamRelayAction::CloseStream)
    } else {
        (r, StreamRelayAction::Ignore)
    }
}

impl StreamRelay {
    /// A relay of which both directions are running.
    pub fn new() -> (r: StreamRelay)
        ensures
            r.up && r.down,
    {
        StreamRelay { up: true, down: true }
    }

    /// What to do about `event`.
    pub fn on_event(&mut self, event: RelayEvent) -> (action: StreamRelayAction)
        ensures
            (*final(self), action) == stream_relay_step(*old(self), event),
    {
        match event {
            RelayEvent::ClientData => {
                if self.up {
                    StreamRelayAction::WriteOutbound
                } else {
                    StreamRelayAction::Ignore
                }
            },
            RelayEvent::ClientEnd | RelayEvent::ClientFailed | RelayEvent::OutboundWriteFailed => {
                if self.up {
                    self.up = false;
                    StreamRelayAction::ShutdownOutbound
                } else {
                    StreamRelayAction::Ignore
                }
            },
            RelayEvent::OutboundData => {
                if self.down {
                    StreamRelayAction::WriteClient
                } else {
                    StreamRelayAction::Ignore
                }
            },
            RelayEvent::OutboundEnd | RelayEvent::OutboundFailed
            | RelayEvent::ClientWriteFailed => {
                if self.down {
                    self.down = false;
                    StreamRelayAction::CloseStream
                } else {
                    StreamRelayAction::Ignore
                }
            },
        }
    }

    /// Whether both directions have stopped.
    pub fn is_finished(&self) -> (b: bool)
        ensures
            b == (!self.up && !self.down),
    {
        !self.up && !self.down
    }
}

/// What several events come to, one after the other.
pub open spec fn stream_relay_run(r: StreamRelay, events: Seq<RelayEvent>) -> (
    StreamRelay,
    Seq<StreamRelayAction>,
)
    decreases events.len(),
{
    if events.len() == 0 {
        (r, Seq::empty())
    } else {
        let (earlier, actions) = stream_relay_run(r, events.drop_last());
        let (last, action) = stream_relay_step(earlier, events.last());
        (last, actions.push(action))
    }
}

/// How often `action` is taken.
pub open spec fn times(actions: Seq<StreamRelayAction>, action: StreamRelayAction) -> nat
    decreases actions.len(),
{
    if actions.len() == 0 {
        0
    } else {
        times(actions.drop_last(), action) + if actions.last() == action {
            1nat
        } else {
            0nat
        }
    }
}

/// The directions are independent: each runs until an event of its own ends it, and neither the
/// end nor a failure of the other one touches it.
pub proof fn directions_are_independent(r: StreamRelay, events: Seq<RelayEvent>)
    ensures
        ({
            let after = stream_relay_run(r, events).0;
            &&& after.up <==> r.up && forall|i: int|
                0 <= i < events.len() ==> !ends_up(#[trigger] events[i])
            &&& after.down <==> r.down && forall|i: int|
                0 <= i < events.len() ==> !ends_down(#[trigger] events[i])
        }),
    decreases events.len(),
{
    if events.len() > 0 {
        let front = events.drop_last();
        directions_are_independent(r, front);
        assert(events[events.len() - 1] == events.last());
        assert forall|i: int| 0 <= i < front.len() implies #[trigger] front[i] == events[i] by {}
        assert forall|i: int| 0 <= i < front.len() implies front[i] == #[trigger] events[i] by {}
    }
}

/// The connection to the destination is shut down once, when the direction to it stops, and the
/// stream is closed once, when the direction from the destination stops. So once both have
/// stopped, both have been told.
pub proof fn every_end_is_told_once(r: StreamRelay, events: Seq<RelayEvent>)
    ensures
        ({
            let (after, actions) = stream_relay_run(r, events);
            &&& times(actions, StreamRelayAction::ShutdownOutbound) == if r.up && !after.up {
                1nat
            } else {
                0nat
            }
            &&& times(actions, StreamRelayAction::CloseStream) == if r.down && !after.down {
                1nat
            } else {
                0nat
            }
            &&& after.up ==> r.up
            &&& after.down ==> r.down
        }),
    decreases events.len(),
{
    if events.len() > 0 {
        every_end_is_told_once(r, events.drop_last());
        let actions = stream_relay_run(r, events).1;
        assert(actions.drop_last() =~= stream_relay_run(r, events.drop_last()).1);
    }
}

/// Once the destination was reached, the client is told and then bytes are relayed. If it was
/// not, the stream closes and then the reason is handed on.
pub proof fn stream_outcomes_are_handed_on(failure: Option<Seq<char>>)
    ensures
        ({
            let steps = stream_connect_steps(failure);
            &&& steps.len() == 2
            &&& failure is None ==> steps[0] is ReportSuccess && steps[1] is Relay
            &&& failure matches Some(reason) ==> steps[0] is CloseStream && steps[1]
                == StreamConnectStepView::Fail(reason)
        }),
{
}

/// What arrives on one side of a running direction is written to the other, and the direction
/// goes on. Whatever ends the direction to the destination shuts the destination down, and
/// whatever ends the direction to the client closes the stream; the other direction goes on as
/// it was.
pub proof fn stream_directions_pass_on_what_arrives(r: StreamRelay, event: RelayEvent)
    ensures
        ({
            let (after, action) = stream_relay_step(r, event);
            let up = event is ClientEnd || event is ClientFailed || event is OutboundWriteFailed;
            let down = event is OutboundEnd || event is OutboundFailed || event is ClientWriteFailed;
            &&& r.up && event is ClientData ==> after == r && action is WriteOutbound
            &&& r.up && up ==> !after.up && after.down == r.down && action is ShutdownOutbound
            &&& r.down && event is OutboundData ==> after == r && action is WriteClient
            &&& r.down && down ==> !after.down && after.up == r.up && action is CloseStream
            &&& !r.up && (up || event is ClientData) ==> after == r && action is Ignore
            &&& !r.down && (down || event is OutboundData) ==> after == r && action is Ignore
        }),
{
}

} // verus!
