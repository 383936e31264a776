use rust_note::client::{step, ClientAction, ClientEvent, Message, Phase, UpgradeOutcome};

#[test]
fn server_down_retries() {
    let (p, a) = step(Phase::Disconnected, ClientEvent::StatusChecked { reachable: false });
    assert_eq!(p, Phase::Disconnected);
    assert_eq!(a, vec![ClientAction::EmitServerDown, ClientAction::Backoff, ClientAction::ProbeStatus]);
}

#[test]
fn reachable_server_gets_upgrade_request() {
    let (p, a) = step(Phase::Disconnected, ClientEvent::StatusChecked { reachable: true });
    assert_eq!(p, Phase::Connecting);
    assert_eq!(a, vec![ClientAction::AttemptUpgrade]);
}

#[test]
fn refused_credential_is_reported_distinctly() {
    let (p, a) = step(Phase::Connecting, ClientEvent::Upgraded(UpgradeOutcome::Unauthorized));
    assert_eq!(p, Phase::Disconnected);
    assert!(a.contains(&ClientAction::EmitIncorrectPassword));
    assert!(!a.contains(&ClientAction::EmitDisconnected));
    let (_, b) = step(Phase::Connecting, ClientEvent::Upgraded(UpgradeOutcome::Failed));
    assert!(b.contains(&ClientAction::EmitDisconnected));
    assert!(!b.contains(&ClientAction::EmitIncorrectPassword));
}

#[test]
fn accepted_upgrade_connects() {
    let (p, a) = step(Phase::Connecting, ClientEvent::Upgraded(UpgradeOutcome::Accepted));
    assert_eq!(p, Phase::Connected);
    assert_eq!(a, vec![ClientAction::EmitConnected]);
}

#[test]
fn connected_traffic() {
    assert_eq!(step(Phase::Connected, ClientEvent::Received { text: true }).1, vec![ClientAction::EmitMessage]);
    assert!(step(Phase::Connected, ClientEvent::Received { text: false }).1.is_empty());
    assert_eq!(step(Phase::Connected, ClientEvent::Outbound).1, vec![ClientAction::Send]);
}

#[test]
fn transport_failure_disconnects() {
    let (p, a) = step(Phase::Connected, ClientEvent::ReceiveFailed);
    assert_eq!(p, Phase::Disconnected);
    assert_eq!(a[0], ClientAction::EmitDisconnected);
    let (q, _) = step(Phase::Connected, ClientEvent::SendFailed);
    assert_eq!(q, Phase::Disconnected);
}

#[test]
fn graceful_close_sends_close_frame_first() {
    let (p, a) = step(Phase::Connected, ClientEvent::CloseRequested);
    assert_eq!(p, Phase::Disconnected);
    assert_eq!(a, vec![ClientAction::SendClose, ClientAction::EmitDisconnected]);
}

#[test]
fn stray_events_change_nothing() {
    let (p, a) = step(Phase::Disconnected, ClientEvent::Outbound);
    assert_eq!(p, Phase::Disconnected);
    assert!(a.is_empty());
}

#[test]
fn messages() {
    assert!(Message::new("").is_none());
    assert_eq!(Message::new("hi").unwrap().as_str(), "hi");
    assert_eq!(Message::connected().as_str(), "Connected successfully!");
    assert_eq!(Message::disconnected().as_str(), "Connection lost... Retrying...");
    assert_eq!(Message::CloseConnection.as_str(), "Closing Connection");
}
