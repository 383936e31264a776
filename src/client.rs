use vstd::prelude::*;

verus! {

/// Where a client's connection stands.
#[derive(Clone, Copy, Debug, PartialEq, Eq, Structural)]
pub enum Phase {
    Disconnected,
    Connecting,
    Connected,
}

/// How an authenticated upgrade request ended.
#[derive(Clone, Copy, Debug, PartialEq, Eq, Structural)]
pub enum UpgradeOutcome {
    Accepted,
    Unauthorized,
    Failed,
}

/// What happened outside since the last step.
#[derive(Clone, Copy, Debug, PartialEq, Eq, Structural)]
pub enum ClientEvent {
    /// The health check answered, or did not.
    StatusChecked { reachable: bool },
    /// The upgrade request came back.
    Upgraded(UpgradeOutcome),
    /// A message arrived; `text` tells a text message from the others.
    Received { text: bool },
    /// Reading from the connection failed.
    ReceiveFailed,
    /// The embedder queued a message to send.
    Outbound,
    /// Sending on the connection failed.
    SendFailed,
    /// The embedder asked to close.
    CloseRequested,
}

/// What the driver of the state machine does next.
#[derive(Clone, Copy, Debug, PartialEq, Eq, Structural)]
pub enum ClientAction {
    /// Ask the server whether it is up.
    ProbeStatus,
    /// Send the authenticated upgrade request.
    AttemptUpgrade,
    /// Wait the fixed backoff before the next attempt.
    Backoff,
    /// Tell the embedder the server is down.
    EmitServerDown,
    /// Tell the embedder the credential was refused.
    EmitIncorrectPassword,
    /// Hand the embedder a connection to send on.
    EmitConnected,
    /// Tell the embedder the connection is gone.
    EmitDisconnected,
    /// Hand the embedder the message that arrived.
    EmitMessage,
    /// Send the queued message.
    Send,
    /// Send a close frame.
    SendClose,
}

pub open spec fn step_spec(phase: Phase, event: ClientEvent) -> (Phase, Seq<ClientAction>) {
    match (phase, event) {
        (Phase::Disconnected, ClientEvent::StatusChecked { reachable }) => if reachable {
            (Phase::Connecting, seq![ClientAction::AttemptUpgrade])
        } else {
            (Phase::Disconnected, seq![ClientAction::EmitServerDown, ClientAction::Backoff, ClientAction::ProbeStatus])
        },
        (Phase::Connecting, ClientEvent::Upgraded(o)) => match o {
            UpgradeOutcome::Accepted => (Phase::Connected, seq![ClientAction::EmitConnected]),
            UpgradeOutcome::Unauthorized => (
                Phase::Disconnected,
                seq![ClientAction::Backoff, ClientAction::EmitIncorrectPassword, ClientAction::ProbeStatus],
            ),
            UpgradeOutcome::Failed => (
                Phase::Disconnected,
                seq![ClientAction::Backoff, ClientAction::EmitDisconnected, ClientAction::ProbeStatus],
            ),
        },
        (Phase::Connected, ClientEvent::Received { text }) => if text {
            (Phase::Connected, seq![ClientAction::EmitMessage])
        } else {
            (Phase::Connected, Seq::empty())
        },
        (Phase::Connected, ClientEvent::ReceiveFailed) => (
            Phase::Disconnected,
            seq![ClientAction::EmitDisconnected, ClientAction::ProbeStatus],
        ),
        (Phase::Connected, ClientEvent::SendFailed) => (
            Phase::Disconnected,
            seq![ClientAction::EmitDisconnected, ClientAction::ProbeStatus],
        ),
        (Phase::Connected, ClientEvent::Outbound) => (Phase::Connected, seq![ClientAction::Send]),
        (Phase::Connected, ClientEvent::CloseRequested) => (
            Phase::Disconnected,
            seq![ClientAction::SendClose, ClientAction::EmitDisconnected],
        ),
        _ => (phase, Seq::empty()),
    }
}

/// One transition of the client: the next phase and the actions to take,
/// in order. An event that does not belong to the phase changes nothing.
pub fn step(phase: Phase, event: ClientEvent) -> (r: (Phase, Vec<ClientAction>))
    ensures
        r.0 == step_spec(phase, event).0,
        r.1@ == step_spec(phase, event).1,
{
    match (phase, event) {
        (Phase::Disconnected, ClientEvent::StatusChecked { reachable }) => if reachable {
            (Phase::Connecting, vec![ClientAction::AttemptUpgrade])
        } else {
            (Phase::Disconnected, vec![ClientAction::EmitServerDown, ClientAction::Backoff, ClientAction::ProbeStatus])
        },
        (Phase::Connecting, ClientEvent::Upgraded(o)) => match o {
            UpgradeOutcome::Accepted => (Phase::Connected, vec![ClientAction::EmitConnected]),
            UpgradeOutcome::Unauthorized => (
                Phase::Disconnected,
                vec![ClientAction::Backoff, ClientAction::EmitIncorrectPassword, ClientAction::ProbeStatus],
            ),
            UpgradeOutcome::Failed => (
                Phase::Disconnected,
                vec![ClientAction::Backoff, ClientAction::EmitDisconnected, ClientAction::ProbeStatus],
            ),
        },
        (Phase::Connected, ClientEvent::Received { text }) => if text {
            (Phase::Connected, vec![ClientAction::EmitMessage])
        } else {
            (Phase::Connected, Vec::new())
        },
        (Phase::Connected, ClientEvent::ReceiveFailed) => (
            Phase::Disconnected,
            vec![ClientAction::EmitDisconnected, ClientAction::ProbeStatus],
        ),
        (Phase::Connected, ClientEvent::SendFailed) => (
            Phase::Disconnected,
            vec![ClientAction::EmitDisconnected, ClientAction::ProbeStatus],
        ),
        (Phase::Connected, ClientEvent::Outbound) => (Phase::Connected, vec![ClientAction::Send]),
        (Phase::Connected, ClientEvent::CloseRequested) => (
            Phase::Disconnected,
            vec![ClientAction::SendClose, ClientAction::EmitDisconnected],
        ),
        _ => (phase, Vec::new()),
    }
}

/// A refused credential is reported apart from any other failure.
pub proof fn lemma_refusal_is_distinct(o: UpgradeOutcome)
    ensures
        step_spec(Phase::Connecting, ClientEvent::Upgraded(o)).1.contains(
            ClientAction::EmitIncorrectPassword,
        ) <==> o == UpgradeOutcome::Unauthorized,
{
    let acts = step_spec(Phase::Connecting, ClientEvent::Upgraded(o)).1;
    if o == UpgradeOutcome::Unauthorized {
        assert(acts[1] == ClientAction::EmitIncorrectPassword);
    }
}

/// A message between the client and its embedder.
#[derive(Clone, Debug)]
pub enum Message {
    Connected,
    Disconnected,
    User(String),
    CloseConnection,
}

pub open spec fn message_text(m: Message) -> Seq<char> {
    match m {
        Message::Connected => "Connected successfully!"@,
        Message::Disconnected => "Connection lost... Retrying..."@,
        Message::User(s) => s@,
        Message::CloseConnection => "Closing Connection"@,
    }
}

impl Message {
    /// A message typed by the user; none for empty text.
    pub fn new(message: &str) -> (r: Option<Message>)
        ensures
            message@.len() == 0 ==> r is None,
            message@.len() > 0 ==> (r matches Some(Message::User(s)) && s@ == message@),
    {
        if message.unicode_len() == 0 {
            None
        } else {
            Some(Message::User(message.to_owned()))
        }
    }

    pub fn connected() -> (r: Message)
        ensures
            r is Connected,
    {
        Message::Connected
    }

    pub fn disconnected() -> (r: Message)
        ensures
            r is Disconnected,
    {
        Message::Disconnected
    }

    /// The text shown for the message.
    pub fn as_str(&self) -> (r: &str)
        ensures
            r@ == message_text(*self),
    {
        match self {
            Message::Connected => "Connected successfully!",
            Message::Disconnected => "Connection lost... Retrying...",
            Message::User(message) => message.as_str(),
            Message::CloseConnection => "Closing Connection",
        }
    }
}

} // verus!
