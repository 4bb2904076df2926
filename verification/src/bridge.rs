//! The decisions of a one-shot WebSocket exchange: connect, send one
//! message, and settle with the first answer or the first failure.
//!
//! The browser side runs the socket and owns the promise; this module says
//! what each thing that happens to the socket leads to.

use vstd::prelude::*;

verus! {

/// Something that happened to the socket.
#[derive(Debug, PartialEq, Eq)]
pub enum SocketEvent {
    /// The socket could not be created.
    ConnectFailed,
    /// The connection is open.
    Opened,
    /// The message could not be handed to the open socket.
    SendFailed,
    /// A text message arrived.
    Text(String),
    /// A message arrived that is not text.
    NotText,
    /// The socket reported an error, with its message.
    Failed(String),
}

/// What the bridge does next.
#[derive(Debug, PartialEq, Eq)]
pub enum Step {
    /// Send the caller's message.
    Send,
    /// Settle the exchange with the answer.
    Resolve(String),
    /// Settle the exchange with a reason for its failure.
    Reject(String),
}

/// A `Step` with its text as a sequence of characters.
pub enum StepView {
    Send,
    Resolve(Seq<char>),
    Reject(Seq<char>),
}

impl View for Step {
    type V = StepView;

    open spec fn view(&self) -> StepView {
        match *self {
            Step::Send => StepView::Send,
            Step::Resolve(text) => StepView::Resolve(text@),
            Step::Reject(reason) => StepView::Reject(reason@),
        }
    }
}

/// The step that an event leads to: an open connection sends; a text
/// message is the answer; everything else fails the exchange, a socket
/// error with its own message.
pub open spec fn step_for(event: SocketEvent) -> StepView {
    match event {
        SocketEvent::ConnectFailed => StepView::Reject("Rust: Failed to create WebSocket"@),
        SocketEvent::Opened => StepView::Send,
        SocketEvent::SendFailed => StepView::Reject("Rust: Failed to send message"@),
        SocketEvent::Text(text) => StepView::Resolve(text@),
        SocketEvent::NotText => StepView::Reject("Rust: Received non-text message"@),
        SocketEvent::Failed(reason) => StepView::Reject(reason@),
    }
}

/// Decides what follows an event.
pub fn on_event(event: SocketEvent) -> (step: Step)
    ensures
        step@ == step_for(event),
{
    match event {
        SocketEvent::ConnectFailed => Step::Reject("Rust: Failed to create WebSocket".to_owned()),
        SocketEvent::Opened => Step::Send,
        SocketEvent::SendFailed => Step::Reject("Rust: Failed to send message".to_owned()),
        SocketEvent::Text(text) => Step::Resolve(text),
        SocketEvent::NotText => Step::Reject("Rust: Received non-text message".to_owned()),
        SocketEvent::Failed(reason) => Step::Reject(reason),
    }
}

} // verus!
