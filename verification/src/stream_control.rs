use vstd::prelude::*;

use crate::types::OutputData;

verus! {

/// How one round of the stream's processing ended.
#[derive(Clone, Copy, Debug, PartialEq, Eq, Structural)]
pub enum ProcessOutcome {
    /// A message was handled.
    Processed,
    /// The input channel had dropped this many messages.
    Lagged(u64),
    /// The input channel is closed.
    Closed,
    /// Handling the message failed in another way.
    Failed,
}

/// Whether the processing loop goes on.
#[derive(Clone, Copy, Debug, PartialEq, Eq, Structural)]
pub enum LoopControl {
    Continue,
    Stop,
}

/// The processing loop stops only when its input channel is closed: handled
/// messages, dropped messages and failures are logged and the loop goes on.
pub fn management_step(outcome: ProcessOutcome) -> (next: LoopControl)
    ensures
        next == (if outcome is Closed {
            LoopControl::Stop
        } else {
            LoopControl::Continue
        }),
{
    match outcome {
        ProcessOutcome::Closed => LoopControl::Stop,
        _ => LoopControl::Continue,
    }
}

/// What happened to one item that the socket reader took from the socket.
#[derive(Clone, Copy, Debug, PartialEq, Eq, Structural)]
pub enum ReaderEvent {
    /// A message was read and passed on to the processing loop.
    Forwarded,
    /// Reading from the socket failed.
    ReadFailed,
    /// The message could not be passed on: no one listens any more.
    ForwardFailed,
}

/// The socket reader stops when nothing listens to what it passes on; a
/// failed read is logged and reading goes on. (It also ends with the socket.)
pub fn reader_step(event: ReaderEvent) -> (next: LoopControl)
    ensures
        next == (if event is ForwardFailed {
            LoopControl::Stop
        } else {
            LoopControl::Continue
        }),
{
    match event {
        ReaderEvent::ForwardFailed => LoopControl::Stop,
        _ => LoopControl::Continue,
    }
}

/// A message read from the feed's web socket.
#[derive(Clone, Debug)]
pub enum IncomingMessage {
    Text(String),
    Binary(Vec<u8>),
    Ping(Vec<u8>),
    Pong(Vec<u8>),
    Close,
}

/// What is done with a message of the feed.
#[derive(Clone, Debug)]
pub enum MessageAction {
    /// Read the block in the text and pass its rates on.
    Decode(String),
    /// Answer a ping with a pong that carries the same payload.
    SendPong(Vec<u8>),
    /// Warn that the server closed the connection.
    WarnClose,
    /// Warn that an unrequested pong came.
    WarnPong,
    /// Warn that binary data came.
    WarnBinary,
}

/// The action for each kind of message: a text is a block to read, a ping
/// is answered, the rest is only reported.
pub fn plan_message(message: IncomingMessage) -> (action: MessageAction)
    ensures
        match message {
            IncomingMessage::Text(t) => action matches MessageAction::Decode(d) && d@ == t@,
            IncomingMessage::Ping(p) => action matches MessageAction::SendPong(q) && q@ == p@,
            IncomingMessage::Pong(_) => action is WarnPong,
            IncomingMessage::Binary(_) => action is WarnBinary,
            IncomingMessage::Close => action is WarnClose,
        },
{
    match message {
        IncomingMessage::Text(t) => MessageAction::Decode(t),
        IncomingMessage::Ping(p) => MessageAction::SendPong(p),
        IncomingMessage::Pong(_) => MessageAction::WarnPong,
        IncomingMessage::Binary(_) => MessageAction::WarnBinary,
        IncomingMessage::Close => MessageAction::WarnClose,
    }
}

/// A block's rates are passed on to the front end only when there are some.
pub fn should_forward(output: &OutputData) -> (forward: bool)
    ensures
        forward <==> output.luna_exch_rates@ != Map::<Seq<char>, crate::types::ExchangeRate>::empty(),
{
    !output.luna_exch_rates.is_empty()
}

} // verus!
