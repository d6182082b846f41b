use sync_server::session::{
    connect_step, session_step, ConnectStep, FrameKind, Inbound, SessionEvent, StopReason,
};

#[test]
fn connect_step_parses_text_and_binary() {
    assert_eq!(connect_step(Inbound::Frame(FrameKind::Text)), ConnectStep::Parse);
    assert_eq!(connect_step(Inbound::Frame(FrameKind::Binary)), ConnectStep::Parse);
    assert_eq!(connect_step(Inbound::Frame(FrameKind::Other)), ConnectStep::Skip);
}

#[test]
fn connect_step_stops_on_end_error_and_close() {
    assert_eq!(connect_step(Inbound::Ended), ConnectStep::Stop(StopReason::StreamClosed));
    assert_eq!(connect_step(Inbound::Failed), ConnectStep::Stop(StopReason::StreamFailed));
    assert_eq!(
        connect_step(Inbound::Frame(FrameKind::Close)),
        ConnectStep::Stop(StopReason::CloseFrame)
    );
}

#[test]
fn session_goes_on_while_events_flow() {
    assert_eq!(session_step(SessionEvent::Forwarded(3)), None);
    assert_eq!(session_step(SessionEvent::Received(Inbound::Frame(FrameKind::Text))), None);
    assert_eq!(session_step(SessionEvent::Received(Inbound::Frame(FrameKind::Other))), None);
}

#[test]
fn session_ends_on_each_terminating_event() {
    assert_eq!(session_step(SessionEvent::Forwarded(0)), Some(StopReason::QueueClosed));
    assert_eq!(session_step(SessionEvent::ForwardFailed), Some(StopReason::SendFailed));
    assert_eq!(session_step(SessionEvent::Received(Inbound::Ended)), Some(StopReason::StreamClosed));
    assert_eq!(session_step(SessionEvent::Received(Inbound::Failed)), Some(StopReason::StreamFailed));
    assert_eq!(
        session_step(SessionEvent::Received(Inbound::Frame(FrameKind::Close))),
        Some(StopReason::CloseFrame)
    );
}
