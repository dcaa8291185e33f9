//! Relaying a logical stream to its TCP destination and back.
//!
//! Before anything is relayed, the client is told whether the destination could be reached. Then
//! the two directions run side by side. An orderly end stops one direction and leaves the other
//! running; a failure stops both.
use vstd::prelude::*;

verus! {

/// One thing to do once it is known whether the destination of a stream can be reached.
#[derive(Debug)]
pub enum ConnectStep {
    /// Tell the client that the destination was reached.
    ReportSuccess,
    /// Tell the client why the destination was not reached.
    ReportFailure(String),
    /// Relay bytes between the client and the destination.
    Relay,
    /// End the session.
    Terminate,
    /// Fail with this error.
    Fail(String),
}

/// The mathematical value of a [`ConnectStep`].
pub enum ConnectStepView {
    ReportSuccess,
    ReportFailure(Seq<char>),
    Relay,
    Terminate,
    Fail(Seq<char>),
}

impl View for ConnectStep {
    type V = ConnectStepView;

    open spec fn view(&self) -> ConnectStepView {
        match self {
            ConnectStep::ReportSuccess => ConnectStepView::ReportSuccess,
            ConnectStep::ReportFailure(reason) => ConnectStepView::ReportFailure(reason@),
            ConnectStep::Relay => ConnectStepView::Relay,
            ConnectStep::Terminate => ConnectStepView::Terminate,
            ConnectStep::Fail(reason) => ConnectStepView::Fail(reason@),
        }
    }
}

/// What to do, in this order, once it is known whether the destination can be reached, and if
/// not, why.
pub open spec fn connect_steps(failure: Option<Seq<char>>) -> Seq<ConnectStepView> {
    match failure {
        None => seq![ConnectStepView::ReportSuccess, ConnectStepView::Relay],
        Some(reason) => seq![
            ConnectStepView::ReportFailure(reason),
            ConnectStepView::Terminate,
            ConnectStepView::Fail(reason),
        ],
    }
}

/// What to do about the outcome of connecting to the destination of a stream. The client is told
/// about it first, whatever it is: only then bytes are relayed, or the session ends and the
/// error is handed on.
pub fn on_connect(outcome: Result<(), String>) -> (steps: Vec<ConnectStep>)
    ensures
        steps@.map_values(|s: ConnectStep| s@) == connect_steps(
            match outcome {
                Ok(_) => None,
                Err(reason) => Some(reason@),
            },
        ),
{
    let mut steps: Vec<ConnectStep> = Vec::new();
    match outcome {
        Ok(()) => {
            steps.push(ConnectStep::ReportSuccess);
            steps.push(ConnectStep::Relay);
        },
        Err(reason) => {
            steps.push(ConnectStep::ReportFailure(reason.clone()));
            steps.push(ConnectStep::Terminate);
            steps.push(ConnectStep::Fail(reason));
        },
    }
    steps
}

/// The client is told about the outcome once, and before anything else: nothing is relayed and
/// nothing ends before it. Bytes are relayed if and only if the destination was reached, and
/// the session ends if and only if it was not.
pub proof fn the_client_is_told_first(failure: Option<Seq<char>>)
    ensures
        ({
            let steps = connect_steps(failure);
            &&& steps[0] == match failure {
                None => ConnectStepView::ReportSuccess,
                Some(reason) => ConnectStepView::ReportFailure(reason),
            }
            &&& forall|i: int|
                0 < i < steps.len() ==> !((#[trigger] steps[i]) is ReportSuccess)
                    && !(steps[i] is ReportFailure)
            &&& steps.contains(ConnectStepView::Relay) <==> failure is None
            &&& steps.contains(ConnectStepView::Terminate) <==> failure is Some
        }),
{
    let steps = connect_steps(failure);
    match failure {
        None => {
            assert(steps[1] == ConnectStepView::Relay);
        },
        Some(_) => {
            assert(steps[1] == ConnectStepView::Terminate);
        },
    }
}

/// What happens to a relay.
#[derive(Debug, Clone, Copy, PartialEq, Eq, Structural)]
pub enum RelayEvent {
    /// Bytes arrived from the client.
    ClientData,
    /// The client has ended its half of the stream.
    ClientEnd,
    /// Reading from the client failed.
    ClientFailed,
    /// Writing to the destination failed.
    OutboundWriteFailed,
    /// Bytes arrived from the destination.
    OutboundData,
    /// The destination has closed its half of the connection.
    OutboundEnd,
    /// Reading from the destination failed.
    OutboundFailed,
    /// Writing to the client failed.
    ClientWriteFailed,
}

/// What to do next.
#[derive(Debug, Clone, Copy, PartialEq, Eq, Structural)]
pub enum RelayAction {
    /// Nothing.
    Ignore,
    /// Write the bytes to the destination.
    WriteOutbound,
    /// Write the bytes to the client.
    WriteClient,
    /// Close this side's half of the connection to the destination.
    ShutdownOutbound,
    /// Tell the client about the end and end this side's half of the stream.
    SendFin,
}

/// Which directions of a relay are running.
#[derive(Debug, Clone, Copy, PartialEq, Eq, Structural)]
pub struct Relay {
    /// From the client to the destination.
    pub up: bool,
    /// From the destination to the client.
    pub down: bool,
}

/// What an event comes to. An event of a direction that has stopped means nothing.
pub open spec fn relay_step(r: Relay, event: RelayEvent) -> (Relay, RelayAction) {
    let stopped = Relay { up: false, down: false };
    if r.up && event is ClientData {
        (r, RelayAction::WriteOutbound)
    } else if r.up && event is ClientEnd {
        (Relay { up: false, ..r }, RelayAction::ShutdownOutbound)
    } else if r.up && (event is ClientFailed || event is OutboundWriteFailed) {
        (stopped, RelayAction::ShutdownOutbound)
    } else if r.down && event is OutboundData {
        (r, RelayAction::WriteClient)
    } else if r.down && event is OutboundEnd {
        (Relay { down: false, ..r }, RelayAction::SendFin)
    } else if r.down && (event is OutboundFailed || event is ClientWriteFailed) {
        (stopped, RelayAction::Ignore)
    } else {
        (r, RelayAction::Ignore)
    }
}

impl Relay {
    /// A relay of which both directions are running.
    pub fn new() -> (r: Relay)
        ensures
            r.up && r.down,
    {
        Relay { up: true, down: true }
    }

    /// What to do about `event`.
    pub fn on_event(&mut self, event: RelayEvent) -> (action: RelayAction)
        ensures
            (*final(self), action) == relay_step(*old(self), event),
    {
        match event {
            RelayEvent::ClientData => {
                if self.up {
                    RelayAction::WriteOutbound
                } else {
                    RelayAction::Ignore
                }
            },
            RelayEvent::ClientEnd => {
                if self.up {
                    self.up = false;
                    RelayAction::ShutdownOutbound
                } else {
                    RelayAction::Ignore
                }
            },
            RelayEvent::ClientFailed | RelayEvent::OutboundWriteFailed => {
                if self.up {
                    self.up = false;
                    self.down = false;
                    RelayAction::ShutdownOutbound
                } else {
                    RelayAction::Ignore
                }
            },
            RelayEvent::OutboundData => {
                if self.down {
                    RelayAction::WriteClient
                } else {
                    RelayAction::Ignore
                }
            },
            RelayEvent::OutboundEnd => {
                if self.down {
                    self.down = false;
                    RelayAction::SendFin
                } else {
                    RelayAction::Ignore
                }
            },
            RelayEvent::OutboundFailed | RelayEvent::ClientWriteFailed => {
                if self.down {
                    self.up = false;
                    self.down = false;
                }
                RelayAction::Ignore
            },
        }
    }

    /// Whether both directions have stopped.
    pub fn is_finished(&self) -> (b: bool)
        ensures
            b == (!self.up && !self.down),
    {
        !self.up && !self.down
    }
}

/// What several events come to, one after the other.
pub open spec fn relay_run(r: Relay, events: Seq<RelayEvent>) -> (Relay, Seq<RelayAction>)
    decreases events.len(),
{
    if events.len() == 0 {
        (r, Seq::empty())
    } else {
        let (middle, action) = relay_step(r, events[0]);
        let (last, actions) = relay_run(middle, events.skip(1));
        (last, seq![action] + actions)
    }
}

/// A direction that has stopped stays stopped and does nothing more: the destination is shut
/// down only by the running direction to it, and the client is told about the end only by the
/// running direction from it. So each happens at most once.
pub proof fn stopped_directions_stay_stopped(r: Relay, events: Seq<RelayEvent>)
    ensures
        ({
            let (after, actions) = relay_run(r, events);
            &&& !r.up ==> !after.up && !actions.contains(RelayAction::WriteOutbound)
                && !actions.contains(RelayAction::ShutdownOutbound)
            &&& !r.down ==> !after.down && !actions.contains(RelayAction::WriteClient)
                && !actions.contains(RelayAction::SendFin)
        }),
    decreases events.len(),
{
    if events.len() > 0 {
        let (middle, action) = relay_step(r, events[0]);
        stopped_directions_stay_stopped(middle, events.skip(1));
        let (after, actions) = relay_run(r, events);
        let rest = relay_run(middle, events.skip(1)).1;
        assert forall|x: RelayAction| actions.contains(x) implies x == action || rest.contains(
            x,
        ) by {
            let i = choose|i: int| 0 <= i < actions.len() && actions[i] == x;
            if i > 0 {
                assert(rest[i - 1] == x);
            }
        }
    }
}

/// The step that shuts the destination down or tells the client about the end stops the
/// direction that did it.
pub proof fn ends_stop_their_direction(r: Relay, event: RelayEvent)
    ensures
        ({
            let (after, action) = relay_step(r, event);
            &&& action is ShutdownOutbound ==> r.up && !after.up
            &&& action is SendFin ==> r.down && !after.down
        }),
{
}

/// A failure of a running direction finishes the relay; an orderly end leaves the other
/// direction as it is.
pub proof fn failures_stop_both_directions(r: Relay)
    ensures
        r.up ==> relay_step(r, RelayEvent::ClientFailed).0 == (Relay { up: false, down: false }),
        r.up ==> relay_step(r, RelayEvent::OutboundWriteFailed).0 == (Relay {
            up: false,
            down: false,
        }),
        r.down ==> relay_step(r, RelayEvent::OutboundFailed).0 == (Relay {
            up: false,
            down: false,
        }),
        r.down ==> relay_step(r, RelayEvent::ClientWriteFailed).0 == (Relay {
            up: false,
            down: false,
        }),
        relay_step(r, RelayEvent::ClientEnd).0.down == r.down,
        relay_step(r, RelayEvent::OutboundEnd).0.up == r.up,
{
}

/// Once the destination was reached, bytes are relayed as soon as the client has been told. If it
/// was not, the session ends as soon as the client has been told, and then the reason is handed
/// on.
pub proof fn outcomes_are_handed_on(failure: Option<Seq<char>>)
    ensures
        ({
            let steps = connect_steps(failure);
            &&& failure is None ==> steps.len() == 2 && steps[1] is Relay
            &&& failure matches Some(reason) ==> steps.len() == 3 && steps[1] is Terminate
                && steps[2] == ConnectStepView::Fail(reason)
        }),
{
}

/// What arrives on one side of a running direction is written to the other, and the direction
/// goes on. An end is passed on to the other side and stops the direction. A failure on the way to
/// the destination shuts the destination down; one on the way back is told to nobody.
pub proof fn directions_pass_on_what_arrives(r: Relay)
    ensures
        r.up ==> {
            &&& relay_step(r, RelayEvent::ClientData) == (r, RelayAction::WriteOutbound)
            &&& relay_step(r, RelayEvent::ClientEnd) == (
                Relay { up: false, down: r.down },
                RelayAction::ShutdownOutbound,
            )
            &&& relay_step(r, RelayEvent::ClientFailed).1 is ShutdownOutbound
            &&& relay_step(r, RelayEvent::OutboundWriteFailed).1 is ShutdownOutbound
        },
        r.down ==> {
            &&& relay_step(r, RelayEvent::OutboundData) == (r, RelayAction::WriteClient)
            &&& relay_step(r, RelayEvent::OutboundEnd) == (
                Relay { up: r.up, down: false },
                RelayAction::SendFin,
            )
            &&& relay_step(r, RelayEvent::OutboundFailed).1 is Ignore
            &&& relay_step(r, RelayEvent::ClientWriteFailed).1 is Ignore
        },
{
}

/// Whatever happens to a direction that has stopped changes nothing and is not answered.
pub proof fn stopped_directions_are_not_heard(r: Relay, event: RelayEvent)
    ensures
        !r.up && (event is ClientData || event is ClientEnd || event is ClientFailed
            || event is OutboundWriteFailed) ==> relay_step(r, event) == (r, RelayAction::Ignore),
        !r.down && (event is OutboundData || event is OutboundEnd || event is OutboundFailed
            || event is ClientWriteFailed) ==> relay_step(r, event) == (r, RelayAction::Ignore),
{
}

} // verus!
