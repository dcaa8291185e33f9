//! What the frames of a session are for: what each of them does to the side that receives it.
use crate::assoc::{keys, lookup, put};
use crate::engine;
use crate::engine::{
    peers_agree_on_the_version, server_settings_frame, settings_frame, synack_frame, ActionView,
};
use crate::error::ErrorKind;
use crate::frame::{frames_of, remainder, FrameView};
use crate::pipe::{PipeItemView, PipeView};
use crate::session::{
    and_then, apply, apply_all, draining_processes_the_frames, handshake_outcome,
    mark_local_stream_closed, new_session, on_frame, opened_here, process, receive, reported,
    terminate, EffectView, SessionView, Step,
};
use crate::settings::{
    settings_bytes, settings_of, settings_round_trip, version_value, writable, Settings,
};
use crate::state::{new_state, PaddingView, StateView};
use crate::text::{
    decimal, decimal_round_trip, decimal_spells_its_number, is_digit, position_bounds, position_is,
    utf8_lossy,
};
use crate::writer::WriterView;
use vstd::prelude::*;
use vstd::utf8::{
    encode_utf8, encode_utf8_decode_utf8, encode_utf8_valid_utf8, is_ascii_chars_encode_utf8,
};

verus! {

proof fn one_action(s: SessionView, a: ActionView)
    ensures
        apply_all(s, seq![a]) == apply(s, a),
{
    let rest = seq![a].skip(1);
    assert(rest =~= Seq::<ActionView>::empty());
    let first = apply(s, a);
    if first.error is None {
        assert(and_then(first, apply_all(first.session, rest)) =~= first);
    }
}

proof fn two_actions(s: SessionView, a: ActionView, b: ActionView)
    requires
        apply(s, a).error is None,
    ensures
        apply_all(s, seq![a, b]) == and_then(apply(s, a), apply(apply(s, a).session, b)),
{
    assert(seq![a, b].skip(1) =~= seq![b]);
    one_action(apply(s, a).session, b);
}

/// `p` with one item more to read.
pub open spec fn with_item(p: PipeView, item: PipeItemView) -> PipeView {
    PipeView { queue: p.queue.push(item), ..p }
}

/// The end of the peer's half, on a client as on a server: the half is over, the reader finds
/// one end of the stream behind what it has not read yet, and whoever waits for the session to
/// be idle is woken exactly if the local half is over already.
pub proof fn fin_ends_the_half_of_the_peer(s: SessionView, f: FrameView)
    requires
        f.cmd == 3,
        f.sid == 1,
        s.remote_open,
    ensures
        ({
            let step = on_frame(s, f);
            &&& step.error is None
            &&& step.session == (SessionView {
                remote_open: false,
                pipe: with_item(s.pipe, PipeItemView::End(None)),
                ..s
            })
            &&& step.effects == if s.local_open {
                Seq::empty()
            } else {
                seq![EffectView::NotifyIdle]
            }
        }),
{
    one_action(s, ActionView::CloseLocalStream { sid: f.sid });
    assert(SessionView { state: s.state, ..s } == s);
    assert(on_frame(s, f) =~= apply(s, ActionView::CloseLocalStream { sid: f.sid }));
}

/// A half that is over does not end again, and the session itself has no half that could end.
pub proof fn fin_means_nothing_without_an_open_half(s: SessionView, f: FrameView)
    requires
        f.cmd == 3,
        f.sid == 0 || f.sid == 1 && !s.remote_open,
    ensures
        on_frame(s, f) == (Step { session: s, effects: Seq::empty(), error: None }),
{
    one_action(s, ActionView::CloseLocalStream { sid: f.sid });
    assert(SessionView { state: s.state, ..s } == s);
    assert(on_frame(s, f) =~= apply(s, ActionView::CloseLocalStream { sid: f.sid }));
}

/// The end of the local half: the half is over, nothing else changes, and whoever waits for the
/// session to be idle is woken exactly if the peer's half is over already.
pub proof fn ending_the_local_half(s: SessionView)
    requires
        s.local_open,
    ensures
        ({
            let step = mark_local_stream_closed(s, 1);
            &&& step.error is None
            &&& step.session == (SessionView { local_open: false, ..s })
            &&& step.effects == if s.remote_open {
                Seq::empty()
            } else {
                seq![EffectView::NotifyIdle]
            }
        }),
{
}

/// A local half that is over does not end again, and there is no half of another stream.
pub proof fn the_local_half_ends_once(s: SessionView, sid: u32)
    requires
        !s.local_open || sid != 1,
    ensures
        mark_local_stream_closed(s, sid) == (Step {
            session: s,
            effects: Seq::empty(),
            error: None,
        }),
{
}

/// What is left of a session of which a stream is opened by the peer: both halves are open, and
/// the handler was started at least once.
pub open spec fn opened_by_peer(s: SessionView) -> SessionView {
    SessionView { local_open: true, remote_open: true, handler_started: true, ..s }
}

/// What opening a stream causes: the first one starts the handler, if there is one.
pub open spec fn opening_effects(s: SessionView) -> Seq<EffectView> {
    if s.has_handler && !s.handler_started {
        seq![EffectView::StartHandler]
    } else {
        Seq::empty()
    }
}

/// Payload is put behind what the reader has not read yet, all of it and as it is. If no stream
/// is open, it opens one; if one is open in any direction, it changes no half.
pub proof fn payload_is_delivered(s: SessionView, f: FrameView)
    requires
        f.cmd == 2,
        f.sid == 1,
        f.data.len() > 0,
        !s.pipe.closed,
    ensures
        ({
            let step = on_frame(s, f);
            let fresh = !s.local_open && !s.remote_open;
            let before = if fresh {
                opened_by_peer(s)
            } else {
                s
            };
            &&& step.error is None
            &&& step.session == (SessionView {
                pipe: with_item(s.pipe, PipeItemView::Data(f.data)),
                ..before
            })
            &&& step.effects == if fresh {
                opening_effects(s)
            } else {
                Seq::empty()
            }
        }),
{
    let fresh = !s.local_open && !s.remote_open;
    let before = if fresh {
        opened_by_peer(s)
    } else {
        s
    };
    one_action(before, ActionView::PushStreamData { sid: f.sid, data: f.data });
    assert(SessionView { state: before.state, ..before } == before);
    assert(on_frame(s, f).effects =~= if fresh {
        opening_effects(s)
    } else {
        Seq::empty()
    });
}

/// Payload for a session whose reader is gone is an error.
pub proof fn payload_without_a_reader_is_an_error(s: SessionView, f: FrameView)
    requires
        f.cmd == 2,
        f.sid == 1,
        f.data.len() > 0,
        s.pipe.closed,
    ensures
        ({
            let step = on_frame(s, f);
            let fresh = !s.local_open && !s.remote_open;
            &&& step.error == Some((ErrorKind::BrokenPipe, "Pipe closed"@))
            &&& step.session == if fresh {
                opened_by_peer(s)
            } else {
                s
            }
            &&& step.effects == if fresh {
                opening_effects(s)
            } else {
                Seq::empty()
            }
        }),
{
    let fresh = !s.local_open && !s.remote_open;
    let before = if fresh {
        opened_by_peer(s)
    } else {
        s
    };
    one_action(before, ActionView::PushStreamData { sid: f.sid, data: f.data });
    assert(SessionView { state: before.state, ..before } == before);
}

/// A frame for payload that brings none opens a stream all the same, if none is open.
pub proof fn empty_payload_opens_a_stream(s: SessionView, f: FrameView)
    requires
        f.cmd == 2,
        f.sid == 1,
        f.data.len() == 0,
        !s.local_open,
        !s.remote_open,
    ensures
        on_frame(s, f) == (Step {
            session: opened_by_peer(s),
            effects: opening_effects(s),
            error: None,
        }),
{
    assert(SessionView { state: s.state, ..opened_by_peer(s) } == opened_by_peer(s));
    assert(on_frame(s, f).effects =~= opening_effects(s));
}

/// The session itself is no stream: it can be neither opened nor written to.
pub proof fn the_session_is_no_stream(s: SessionView, f: FrameView)
    requires
        f.sid == 0,
        f.cmd == 2 || f.cmd == 1 && (s.is_client || s.state.received_settings_from_client),
    ensures
        on_frame(s, f) == (Step { session: s, effects: Seq::empty(), error: None }),
{
    one_action(s, ActionView::PushStreamData { sid: 0, data: f.data });
    one_action(s, ActionView::EnsureIncomingStream { sid: 0 });
    assert(SessionView { state: s.state, ..s } == s);
    assert(on_frame(s, f).effects =~= Seq::<EffectView>::empty());
}

/// A client that has introduced itself opens a stream on a server, unless one is open: both
/// halves are open, and the first stream starts the handler.
pub proof fn syn_opens_a_stream(s: SessionView, f: FrameView)
    requires
        f.cmd == 1,
        f.sid == 1,
        !s.is_client,
        s.state.received_settings_from_client,
    ensures
        ({
            let step = on_frame(s, f);
            let fresh = !s.local_open && !s.remote_open;
            &&& step.error is None
            &&& step.session == if fresh {
                opened_by_peer(s)
            } else {
                s
            }
            &&& step.effects == if fresh {
                opening_effects(s)
            } else {
                Seq::empty()
            }
        }),
{
    one_action(s, ActionView::EnsureIncomingStream { sid: f.sid });
    assert(SessionView { state: s.state, ..s } == s);
    assert(on_frame(s, f) =~= apply(s, ActionView::EnsureIncomingStream { sid: f.sid }));
}

/// A client that opens a stream before it has introduced itself is told so and dropped.
pub proof fn syn_before_settings_ends_the_session(s: SessionView, f: FrameView)
    requires
        f.cmd == 1,
        f.sid == 0 || f.sid == 1,
        !s.is_client,
        !s.state.received_settings_from_client,
    ensures
        ({
            let step = on_frame(s, f);
            let message = "client did not send its settings"@;
            &&& step.error == Some((ErrorKind::Other, message))
            &&& step.session == s
            &&& step.effects == seq![
                EffectView::SendAlert(
                    (FrameView { cmd: 5, sid: 0, data: encode_utf8(message) }),
                ),
            ]
        }),
{
    let a = ActionView::AlertAndFail { message: "client did not send its settings"@ };
    one_action(s, a);
    assert(SessionView { state: s.state, ..s } == s);
    assert(on_frame(s, f) =~= apply(s, a));
}

/// A frame for a stream that the session cannot carry is answered with an alert that names the
/// stream, and ends the session.
pub proof fn other_streams_end_the_session(s: SessionView, f: FrameView)
    requires
        f.sid > 1,
    ensures
        ({
            let step = on_frame(s, f);
            let message = "unsupported sid "@ + decimal(f.sid as nat);
            &&& step.session == s
            &&& step.error == Some((ErrorKind::Other, message))
            &&& step.effects == seq![
                EffectView::SendAlert(
                    (FrameView { cmd: 5, sid: 0, data: encode_utf8(message) }),
                ),
            ]
        }),
{
}

/// An alert of the peer ends the session and changes nothing.
pub proof fn alerts_end_the_session(s: SessionView, f: FrameView)
    requires
        f.cmd == 5,
        f.sid == 0 || f.sid == 1,
    ensures
        on_frame(s, f) == (Step {
            session: s,
            effects: Seq::empty(),
            error: Some((ErrorKind::Other, "Alert received"@)),
        }),
{
    assert(on_frame(s, f).effects =~= Seq::<EffectView>::empty());
}

/// A heartbeat is answered on the stream on which it came, and changes nothing.
pub proof fn heartbeats_are_answered(s: SessionView, f: FrameView)
    requires
        f.cmd == 8,
        f.sid == 0 || f.sid == 1,
    ensures
        on_frame(s, f) == (Step {
            session: s,
            effects: seq![
                EffectView::SendFrame(
                    (FrameView { cmd: 9, sid: f.sid, data: Seq::empty() }),
                ),
            ],
            error: None,
        }),
{
    let a = ActionView::SendFrame(FrameView { cmd: 9, sid: f.sid, data: Seq::empty() });
    one_action(s, a);
    assert(SessionView { state: s.state, ..s } == s);
    assert(on_frame(s, f) =~= apply(s, a));
}

/// Padding, an answer to a heartbeat, a command that does not exist, a frame that lacks the
/// payload that it needs, and a frame that only the other side may send mean nothing.
pub proof fn other_frames_mean_nothing(s: SessionView, f: FrameView)
    requires
        f.sid == 0 || f.sid == 1,
        ({
            ||| f.cmd == 0 || f.cmd == 9 || f.cmd > 10
            ||| f.cmd == 1 && s.is_client
            ||| f.cmd == 2 && f.data.len() == 0 && (f.sid == 0 || s.local_open || s.remote_open)
            ||| f.cmd == 4 && (s.is_client || f.data.len() == 0)
            ||| f.cmd == 6 && (!s.is_client || f.data.len() == 0)
            ||| f.cmd == 10 && (!s.is_client || f.data.len() == 0)
        }),
    ensures
        on_frame(s, f) == (Step { session: s, effects: Seq::empty(), error: None }),
{
    assert(SessionView { state: s.state, ..s } == s);
    assert(on_frame(s, f).effects =~= Seq::<EffectView>::empty());
}

/// The answer to a stream that a client opened: the client knows from then on that the stream is
/// open, or why it is not, and whoever waits for that is woken. A refusal also ends the session:
/// the reader sees the reason behind what it has not read yet.
pub proof fn clients_learn_how_their_stream_was_opened(s: SessionView, reason: Seq<char>)
    requires
        s.is_client,
    ensures
        ({
            let step = on_frame(s, synack_frame(1, reason));
            let cancel = EffectView::CancelSynackTimeout { sid: 1 };
            &&& step.error is None
            &&& if reason.len() == 0 {
                &&& step.session == (SessionView { handshake: Some(Ok(())), ..s })
                &&& step.effects == seq![EffectView::NotifyHandshake, cancel]
            } else {
                &&& step.session == (SessionView {
                    handshake: Some(Err(reason)),
                    local_open: false,
                    remote_open: false,
                    closed: true,
                    pipe: PipeView {
                        closed: true,
                        read_error: Some((ErrorKind::Other, "remote: "@ + reason)),
                        ..s.pipe
                    },
                    ..s
                })
                &&& step.effects == seq![
                    EffectView::NotifyHandshake,
                    cancel,
                    EffectView::NotifyIdle,
                ]
            }
        }),
{
    let f = synack_frame(1, reason);
    let a = ActionView::CancelSynackTimeout { sid: 1 };
    encode_utf8_valid_utf8(reason);
    encode_utf8_decode_utf8(reason);
    assert(utf8_lossy(f.data) == reason);
    if reason.len() == 0 {
        assert(f.data.len() == 0);
        let noted = SessionView { handshake: Some(Ok(())), ..s };
        one_action(noted, a);
        assert(SessionView { state: noted.state, ..noted } == noted);
    } else {
        assert(f.data.len() > 0) by {
            if f.data.len() == 0 {
                assert(encode_utf8(Seq::<char>::empty()) =~= f.data);
                encode_utf8_decode_utf8(Seq::<char>::empty());
            }
        }
        let noted = SessionView { handshake: Some(Err(reason)), ..s };
        two_actions(noted, a, ActionView::CloseRemoteStream { sid: 1, message: reason });
        assert(SessionView { state: noted.state, ..noted } == noted);
    }
    assert(on_frame(s, f).effects =~= if reason.len() == 0 {
        seq![EffectView::NotifyHandshake, EffectView::CancelSynackTimeout { sid: 1 }]
    } else {
        seq![
            EffectView::NotifyHandshake,
            EffectView::CancelSynackTimeout { sid: 1 },
            EffectView::NotifyIdle,
        ]
    });
}

/// An acknowledgement ends the wait for it, on either side. One that brings bytes refuses the
/// stream and ends the session: the reader sees them, as text, behind what it has not read yet.
/// A client remembers how its stream was opened, and wakes whoever waits for that. One that names
/// no stream does nothing but end the wait.
pub proof fn acknowledgements_end_the_wait(s: SessionView, f: FrameView)
    requires
        f.cmd == 7,
        f.sid == 0 || f.sid == 1,
    ensures
        ({
            let step = on_frame(s, f);
            let refused = f.sid == 1 && f.data.len() > 0;
            let noted = s.is_client && f.sid == 1;
            let reason = utf8_lossy(f.data);
            let told = SessionView {
                handshake: if !noted {
                    s.handshake
                } else if refused {
                    Some(Err(reason))
                } else {
                    Some(Ok(()))
                },
                ..s
            };
            &&& step.error is None
            &&& step.session == if refused {
                SessionView {
                    local_open: false,
                    remote_open: false,
                    closed: true,
                    pipe: PipeView {
                        closed: true,
                        read_error: Some((ErrorKind::Other, "remote: "@ + reason)),
                        ..s.pipe
                    },
                    ..told
                }
            } else {
                told
            }
            &&& step.effects == (if noted {
                seq![EffectView::NotifyHandshake]
            } else {
                Seq::empty()
            }) + seq![EffectView::CancelSynackTimeout { sid: f.sid }] + (if refused {
                seq![EffectView::NotifyIdle]
            } else {
                Seq::empty()
            })
        }),
{
    let noted = s.is_client && f.sid == 1;
    let reason = utf8_lossy(f.data);
    let told = SessionView {
        handshake: if !noted {
            s.handshake
        } else if f.data.len() > 0 {
            Some(Err(reason))
        } else {
            Some(Ok(()))
        },
        ..s
    };
    let cancel = ActionView::CancelSynackTimeout { sid: f.sid };
    let refusal = ActionView::CloseRemoteStream { sid: f.sid, message: reason };
    one_action(told, cancel);
    two_actions(told, cancel, refusal);
    assert(SessionView { state: told.state, ..told } == told);
    let first = if noted {
        seq![EffectView::NotifyHandshake]
    } else {
        Seq::empty()
    };
    let last = if f.sid == 1 && f.data.len() > 0 {
        seq![EffectView::NotifyIdle]
    } else {
        Seq::empty()
    };
    assert(on_frame(s, f).effects =~= first + seq![
        EffectView::CancelSynackTimeout { sid: f.sid },
    ] + last);
}

/// A stream is opened on a session that has none, in both directions, and how that came out is
/// not known until the peer has answered: then it is what the peer said. If the session ends
/// before, it has failed.
pub proof fn openings_are_answered(s: SessionView, reason: Seq<char>)
    requires
        s.is_client,
        !s.closed,
    ensures
        s.local_open || s.remote_open ==> opened_here(s) is None,
        !s.local_open && !s.remote_open ==> {
            let opened = opened_here(s)->0;
            let answered = on_frame(opened, synack_frame(1, reason)).session;
            let ended = terminate(opened).session;
            &&& opened_here(s) == Some(
                SessionView { local_open: true, remote_open: true, handshake: None, ..s },
            )
            &&& handshake_outcome(opened, false) is None
            &&& handshake_outcome(answered, false) == Some(
                if reason.len() == 0 {
                    Ok(())
                } else {
                    Err((ErrorKind::Other, reason))
                },
            )
            &&& forall|queue_closed: bool|
                ended.closed && (#[trigger] handshake_outcome(ended, queue_closed)) == Some(
                    Err::<(), _>(
                        (
                            ErrorKind::BrokenPipe,
                            "Session terminated before handshake completed"@,
                        ),
                    ),
                )
            &&& handshake_outcome(opened, true) == handshake_outcome(ended, false)
        },
{
    if !s.local_open && !s.remote_open {
        clients_learn_how_their_stream_was_opened(opened_here(s)->0, reason);
    }
}

/// How a stream was opened is reported once, to a peer that speaks version 2 or later, and the
/// report tells the client that opened the stream just what was reported.
pub proof fn openings_are_reported_once(
    server: SessionView,
    client: SessionView,
    reason: Seq<char>,
    later: Seq<char>,
)
    requires
        client.is_client,
    ensures
        ({
            let (after, report) = reported(server, reason);
            &&& after == (SessionView { reported: true, ..server })
            &&& report is Some <==> !server.reported && server.state.peer_version >= 2
            &&& reported(after, later).1 is None
            &&& report matches Some(f) ==> on_frame(client, f).session.handshake == Some(
                if reason.len() == 0 {
                    Ok(())
                } else {
                    Err(reason)
                },
            )
        }),
{
    clients_learn_how_their_stream_was_opened(client, reason);
}

/// Settings change what is known of the peer and nothing else, and what is said in answer to them
/// is sent at once, in order.
pub proof fn settings_change_what_is_known(s: SessionView, f: FrameView)
    requires
        f.sid == 0 || f.sid == 1,
        f.cmd == 4 && !s.is_client || f.cmd == 10 && s.is_client,
        f.data.len() > 0,
    ensures
        ({
            let step = on_frame(s, f);
            let (state, actions) = engine::on_frame(s.state, s.is_client, f)->Ok_0;
            &&& engine::on_frame(s.state, s.is_client, f) is Ok
            &&& step.error is None
            &&& step.session == (SessionView { state, ..s })
            &&& step.effects.len() == actions.len()
            &&& actions.len() <= 2
            &&& f.cmd == 10 ==> actions.len() == 0
            &&& forall|i: int|
                0 <= i < actions.len() ==> ((#[trigger] actions[i]) matches ActionView::SendFrameSync(
                    g,
                ) && step.effects[i] == EffectView::SendFrameSync(g))
        }),
{
    let (state, actions) = engine::on_frame(s.state, s.is_client, f)->Ok_0;
    let after = SessionView { state, ..s };
    let step = on_frame(s, f);
    if f.cmd == 4 {
        let none = Seq::<ActionView>::empty();
        assert(forall|i: int| 0 <= i < actions.len() ==> (#[trigger] actions[i]) is SendFrameSync);
        if actions.len() == 1 {
            one_action(after, actions[0]);
            assert(actions =~= seq![actions[0]]);
        } else if actions.len() == 2 {
            two_actions(after, actions[0], actions[1]);
            assert(actions =~= seq![actions[0], actions[1]]);
        }
    }
}

/// A writer that is released holds nothing back any more; what it has held back stays with it,
/// and nothing else changes.
pub proof fn released_writers_keep_what_they_held(s: SessionView)
    ensures
        apply(s, ActionView::ReleaseWriteBuffering) == (Step {
            session: SessionView { writer: WriterView { buffering: false, ..s.writer }, ..s },
            effects: Seq::empty(),
            error: None,
        }),
{
}

/// A frame is processed, and then those behind it on the session that it leaves. What they cause
/// comes behind what it causes. If it ends the session, those behind it are not looked at.
pub proof fn frames_are_processed_in_turn(s: SessionView, f: FrameView, behind: Seq<FrameView>)
    ensures
        process(s, Seq::empty()) == (Step { session: s, effects: Seq::empty(), error: None }),
        ({
            let first = on_frame(s, f);
            let later = process(first.session, behind);
            let all = process(s, seq![f] + behind);
            &&& first.error is Some ==> all == first
            &&& first.error is None ==> all.session == later.session && all.error == later.error
                && all.effects == first.effects + later.effects
        }),
{
    assert((seq![f] + behind).skip(1) =~= behind);
}

/// A session starts with nothing open, nothing said and nothing known of the peer, and frames are
/// not held back. The packets of a client are padded, those of a server are not.
pub proof fn sessions_start_blank(id: u64, is_client: bool, has_handler: bool, padding: PaddingView)
    ensures
        ({
            let s = new_session(id, is_client, has_handler, new_state(padding));
            &&& s.id == id
            &&& s.is_client == is_client
            &&& s.has_handler == has_handler
            &&& !s.local_open && !s.remote_open
            &&& !s.closed && !s.started && !s.handler_started && !s.reported
            &&& s.handshake is None
            &&& s.state.padding == padding
            &&& s.state.peer_version == 0
            &&& !s.state.received_settings_from_client
            &&& s.writer.send_padding == is_client
            &&& !s.writer.buffering
            &&& s.writer.pending.len() == 0
            &&& s.writer.pkt_counter == 0
            &&& s.pipe.buffer.len() == 0 && s.pipe.queue.len() == 0
            &&& !s.pipe.closed && !s.pipe.reading
        }),
{
}

/// Ending a session: it is over, the reader sees a plain end behind what it has not read yet,
/// and everyone who waits is woken. A session ends once.
pub proof fn ending_a_session(s: SessionView)
    ensures
        ({
            let step = terminate(s);
            &&& step.error is None
            &&& if s.closed {
                step.session == s && step.effects == Seq::<EffectView>::empty()
            } else {
                &&& step.session == (SessionView {
                    closed: true,
                    pipe: PipeView { closed: true, read_error: None, ..s.pipe },
                    ..s
                })
                &&& step.effects == seq![EffectView::NotifyIdle, EffectView::NotifyHandshake]
            }
        }),
{
}

/// A padding scheme that the server hands over reaches the runtime of the client byte for byte,
/// and changes nothing else.
pub proof fn padding_schemes_are_handed_on(s: SessionView, f: FrameView)
    requires
        f.cmd == 6,
        f.sid == 0 || f.sid == 1,
        s.is_client,
        f.data.len() > 0,
    ensures
        on_frame(s, f) == (Step {
            session: s,
            effects: seq![EffectView::UpdatePaddingScheme { data: f.data }],
            error: None,
        }),
{
    let a = ActionView::UpdatePaddingScheme { data: f.data };
    one_action(s, a);
    assert(SessionView { state: s.state, ..s } == s);
    assert(on_frame(s, f) =~= apply(s, a));
}

/// What a session does about received bytes: it does what the complete frames in them ask for,
/// in order, and keeps the rest. No bytes mean that the connection is closed.
pub proof fn received_bytes_are_frames(s: SessionView, pending: Seq<u8>, chunk: Seq<u8>)
    ensures
        chunk.len() > 0 ==> receive(s, pending, chunk).0 == process(s, frames_of(pending + chunk)),
        chunk.len() > 0 && receive(s, pending, chunk).0.error is None ==> receive(
            s,
            pending,
            chunk,
        ).1 == remainder(pending + chunk),
        chunk.len() == 0 ==> receive(s, pending, chunk) == (
            (Step {
                session: s,
                effects: Seq::empty(),
                error: Some((ErrorKind::UnexpectedEof, "Connection closed"@)),
            }),
            pending,
        ),
{
    draining_processes_the_frames(s, pending + chunk);
}

/// The line for a key is the key, `=` and the value, and a line feed stands between two lines.
pub proof fn settings_are_lines(m: Settings, key: Seq<u8>, value: Seq<u8>)
    ensures
        settings_bytes(Settings::empty()) == Seq::<u8>::empty(),
        settings_bytes(m.push((key, value))) == settings_bytes(m) + (if m.len() > 0 {
            seq![10u8]
        } else {
            Seq::empty()
        }) + key + seq![61u8] + value,
    decreases m.len(),
{
    let all = m.push((key, value));
    if m.len() == 0 {
        assert(settings_bytes(all) =~= key + seq![61u8] + value);
        assert(settings_bytes(m) + Seq::<u8>::empty() + key + seq![61u8] + value =~= key + seq![
            61u8,
        ] + value);
    } else {
        settings_are_lines(m.skip(1), key, value);
        assert(all.skip(1) =~= m.skip(1).push((key, value)));
        if m.len() == 1 {
            assert(m.skip(1) =~= Settings::empty());
        }
        assert(settings_bytes(all) =~= settings_bytes(m) + seq![10u8] + key + seq![61u8] + value);
    }
}

/// The keys that peers know, as bytes.
pub open spec fn key(name: Seq<char>) -> Seq<u8> {
    encode_utf8(name)
}

proof fn digits_are_ascii(c: char)
    requires
        is_digit(c),
    ensures
        '\0' <= c <= '\u{7f}',
{
}

proof fn versions_are_read(n: u8)
    ensures
        version_value(encode_utf8(decimal(n as nat))) == Some(n),
{
    let text = decimal(n as nat);
    decimal_spells_its_number(n as nat);
    decimal_round_trip(n as nat, 255);
    assert forall|i: int| 0 <= i < text.len() implies '\0' <= #[trigger] text[i] <= '\u{7f}' by {
        digits_are_ascii(text[i]);
    }
    is_ascii_chars_encode_utf8(text);
    assert(encode_utf8(text).map_values(|b: u8| b as char) =~= text);
}

/// What a server does about the settings `m` of a client that speaks version `version`: it
/// remembers that the client has introduced itself, hands its own padding scheme over exactly if
/// the client has another one, and from version 2 on remembers the version and answers with its
/// own.
pub proof fn servers_answer_settings(s: StateView, m: Settings, version: u8)
    requires
        writable(m),
        lookup(m, key("v"@)) == Some(encode_utf8(decimal(version as nat))),
    ensures
        ({
            let f = FrameView { cmd: 4, sid: 0, data: settings_bytes(m) };
            let update = FrameView { cmd: 6, sid: 0, data: s.padding.raw_scheme };
            let reply = FrameView { cmd: 10, sid: 0, data: encode_utf8("v=2"@) };
            let same = lookup(m, key("padding-md5"@)) == Some(encode_utf8(s.padding.md5));
            engine::on_frame(s, false, f) == Ok::<
                (StateView, Seq<ActionView>),
                (ErrorKind, Seq<char>),
            >(
                (
                    StateView {
                        received_settings_from_client: true,
                        peer_version: if version >= 2 {
                            version
                        } else {
                            s.peer_version
                        },
                        ..s
                    },
                    (if same {
                        Seq::empty()
                    } else {
                        seq![ActionView::SendFrameSync(update)]
                    }) + (if version >= 2 {
                        seq![ActionView::SendFrameSync(reply)]
                    } else {
                        Seq::empty()
                    }),
                ),
            )
        }),
{
    let f = FrameView { cmd: 4, sid: 0, data: settings_bytes(m) };
    settings_round_trip(m);
    versions_are_read(version);
    answers_announce_the_version();
    if settings_bytes(m).len() == 0 {
        assert(settings_bytes(m) =~= Seq::<u8>::empty());
        assert(settings_of(Seq::<u8>::empty()) =~= Settings::empty());
    }
    let none = Seq::<ActionView>::empty();
    assert(none + none =~= none);
    let update = seq![ActionView::SendFrameSync(
        FrameView { cmd: 6, sid: 0, data: s.padding.raw_scheme },
    )];
    assert(update + none =~= update);
}

proof fn answers_announce_the_version()
    ensures
        server_settings_frame() == (FrameView { cmd: 10, sid: 0, data: encode_utf8("v=2"@) }),
{
    reveal_strlit("v");
    reveal_strlit("2");
    reveal_strlit("v=2");
    is_ascii_chars_encode_utf8("v"@);
    is_ascii_chars_encode_utf8("2"@);
    is_ascii_chars_encode_utf8("v=2"@);
    let none = Settings::empty();
    let v = encode_utf8("v"@);
    assert(keys(none) =~= Seq::<Seq<u8>>::empty());
    position_bounds(keys(none), v);
    assert(put(none, v, encode_utf8("2"@)) =~= none.push((v, encode_utf8("2"@))));
    settings_are_lines(none, v, encode_utf8("2"@));
    assert(server_settings_frame().data =~= encode_utf8("v=2"@));
}

/// Settings that announce no version that can be read make a server answer with nothing but its
/// padding scheme, where the client has another one.
pub proof fn servers_do_not_guess_versions(s: StateView, m: Settings)
    requires
        writable(m),
        m.len() > 0,
        lookup(m, key("v"@)) is None,
    ensures
        ({
            let f = FrameView { cmd: 4, sid: 0, data: settings_bytes(m) };
            let update = FrameView { cmd: 6, sid: 0, data: s.padding.raw_scheme };
            engine::on_frame(s, false, f) == Ok::<
                (StateView, Seq<ActionView>),
                (ErrorKind, Seq<char>),
            >(
                (
                    StateView { received_settings_from_client: true, ..s },
                    if lookup(m, key("padding-md5"@)) == Some(encode_utf8(s.padding.md5)) {
                        Seq::empty()
                    } else {
                        seq![ActionView::SendFrameSync(update)]
                    },
                ),
            )
        }),
{
    settings_round_trip(m);
    settings_are_lines(m.drop_last(), m.last().0, m.last().1);
    assert(m.drop_last().push((m.last().0, m.last().1)) =~= m);
}

/// What a client does about the settings of a server that speaks version `version`: it
/// remembers the version.
pub proof fn clients_remember_the_version(s: StateView, m: Settings, version: u8)
    requires
        writable(m),
        lookup(m, key("v"@)) == Some(encode_utf8(decimal(version as nat))),
    ensures
        engine::on_frame(
            s,
            true,
            (FrameView { cmd: 10, sid: 0, data: settings_bytes(m) }),
        ) == Ok::<(StateView, Seq<ActionView>), (ErrorKind, Seq<char>)>(
            (StateView { peer_version: version, ..s }, Seq::empty()),
        ),
{
    settings_round_trip(m);
    versions_are_read(version);
    if settings_bytes(m).len() == 0 {
        assert(settings_bytes(m) =~= Seq::<u8>::empty());
        assert(settings_of(Seq::<u8>::empty()) =~= Settings::empty());
    }
}

/// What a client tells the server about itself: the version of the protocol, its own name and
/// the digest of its padding scheme.
pub proof fn clients_introduce_themselves(s: StateView)
    ensures
        settings_frame(s) == (FrameView {
            cmd: 4,
            sid: 0,
            data: encode_utf8("v=2\nclient=anytls/0.3.0\npadding-md5="@) + encode_utf8(
                s.padding.md5,
            ),
        }),
{
    reveal_strlit("v");
    reveal_strlit("2");
    reveal_strlit("client");
    reveal_strlit("anytls/0.3.0");
    reveal_strlit("padding-md5");
    reveal_strlit("v=2\nclient=anytls/0.3.0\npadding-md5=");
    is_ascii_chars_encode_utf8("v"@);
    is_ascii_chars_encode_utf8("2"@);
    is_ascii_chars_encode_utf8("client"@);
    is_ascii_chars_encode_utf8("anytls/0.3.0"@);
    is_ascii_chars_encode_utf8("padding-md5"@);
    is_ascii_chars_encode_utf8("v=2\nclient=anytls/0.3.0\npadding-md5="@);
    let none = Settings::empty();
    let v = encode_utf8("v"@);
    let client = encode_utf8("client"@);
    let md5 = encode_utf8("padding-md5"@);
    assert(v.len() == 1 && client.len() == 6 && md5.len() == 11);
    let one = none.push((v, encode_utf8("2"@)));
    let two = one.push((client, encode_utf8("anytls/0.3.0"@)));
    let three = two.push((md5, encode_utf8(s.padding.md5)));
    assert(keys(none) =~= Seq::<Seq<u8>>::empty());
    position_bounds(keys(none), v);
    assert(put(none, v, encode_utf8("2"@)) =~= one);
    assert(keys(one) =~= seq![v]);
    position_is(keys(one), client, 1);
    assert(put(one, client, encode_utf8("anytls/0.3.0"@)) =~= two);
    assert(keys(two) =~= seq![v, client]);
    position_is(keys(two), md5, 2);
    assert(put(two, md5, encode_utf8(s.padding.md5)) =~= three);
    settings_are_lines(none, v, encode_utf8("2"@));
    settings_are_lines(one, client, encode_utf8("anytls/0.3.0"@));
    settings_are_lines(two, md5, encode_utf8(s.padding.md5));
    assert(settings_frame(s).data =~= encode_utf8("v=2\nclient=anytls/0.3.0\npadding-md5="@)
        + encode_utf8(s.padding.md5));
}

/// A client goes on with the padding scheme of the server: if the digests of their schemes
/// differ, the server answers the settings of the client with a frame, and that frame makes the
/// client use exactly the bytes of the server's scheme. If they are the same, the server sends
/// none. The digest of a padding scheme has no line feed in it.
pub proof fn clients_take_over_the_padding_scheme(client: StateView, server: StateView)
    requires
        !encode_utf8(client.padding.md5).contains(10u8),
        server.padding.raw_scheme.len() > 0,
    ensures
        ({
            let answer = engine::on_frame(server, false, settings_frame(client));
            &&& answer is Ok
            &&& client.padding.md5 != server.padding.md5 ==> answer->Ok_0.1.len() == 2 && (
            answer->Ok_0.1[0] matches ActionView::SendFrameSync(f) && engine::on_frame(
                client,
                true,
                f,
            ) == Ok::<(StateView, Seq<ActionView>), (ErrorKind, Seq<char>)>(
                (
                    client,
                    seq![ActionView::UpdatePaddingScheme { data: server.padding.raw_scheme }],
                ),
            ))
            &&& client.padding.md5 == server.padding.md5 ==> forall|i: int|
                0 <= i < answer->Ok_0.1.len() ==> !(
                #[trigger] answer->Ok_0.1[i] matches ActionView::SendFrameSync(f) && f.cmd == 6)
        }),
{
    peers_agree_on_the_version(client, server);
}

} // verus!
