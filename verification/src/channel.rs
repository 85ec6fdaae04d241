//! The channels that carry tasks to the workers and results back, as far as
//! the library needs to know them.
//!
//! A task queue is the sending end of a `std::sync::mpsc` channel; a result
//! comes back on a `oneshot` channel of its own. Both are shared with other
//! threads, so what a call returns is decided by what those threads did:
//! nothing is claimed of any result here, and the code that calls these
//! functions is proved for whatever comes back.

use std::sync::mpsc;
use vstd::prelude::*;

verus! {

/// The sending end of a `oneshot` channel. Nothing is known of one but that
/// it can be moved.
#[verifier::external_type_specification]
#[verifier::external_body]
#[verifier::reject_recursive_types(T)]
pub struct ExReplySender<T>(oneshot::Sender<T>);

/// The receiving end of a `oneshot` channel.
#[verifier::external_type_specification]
#[verifier::external_body]
#[verifier::reject_recursive_types(T)]
pub struct ExReplyReceiver<T>(oneshot::Receiver<T>);

/// What `oneshot::Sender::send` returns where the receiving end is gone.
#[verifier::external_type_specification]
#[verifier::external_body]
#[verifier::reject_recursive_types(T)]
pub struct ExReplySendError<T>(oneshot::SendError<T>);

/// What `oneshot::Receiver::recv` returns where the sending end is gone.
#[verifier::external_type_specification]
#[verifier::external_body]
pub struct ExReplyRecvError(oneshot::RecvError);

/// The sending end of a worker's task queue.
#[verifier::external_type_specification]
#[verifier::external_body]
#[verifier::reject_recursive_types(T)]
pub struct ExQueueSender<T>(mpsc::Sender<T>);

/// What `mpsc::Sender::send` returns where the worker is gone.
#[verifier::external_type_specification]
#[verifier::external_body]
#[verifier::reject_recursive_types(T)]
pub struct ExQueueSendError<T>(mpsc::SendError<T>);

/// `oneshot::channel`: a fresh channel for one message. Nothing is claimed
/// of its two ends.
#[verifier::external_body]
pub(crate) fn open_channel<T>() -> (ends: (oneshot::Sender<T>, oneshot::Receiver<T>)) {
    oneshot::channel()
}

/// `oneshot::Sender::send`: hands `message` to the channel without blocking.
/// Whether it is delivered depends on whether the receiving end is still
/// there, so nothing is claimed of the result.
#[verifier::external_body]
pub(crate) fn send_reply<T>(sender: oneshot::Sender<T>, message: T) -> (r: Result<
    (),
    oneshot::SendError<T>,
>) {
    sender.send(message)
}

/// `oneshot::Receiver::recv`: waits until the message has been sent or the
/// sending end has been dropped. What comes back is whatever the holder of
/// the sending end did, so nothing is claimed of the result.
#[verifier::external_body]
pub(crate) fn await_reply<T>(receiver: oneshot::Receiver<T>) -> (r: Result<T, oneshot::RecvError>) {
    receiver.recv()
}

/// `mpsc::Sender::send`: appends `message` to the queue without blocking.
/// Whether it is accepted depends on whether the queue's receiver is still
/// there, so nothing is claimed of the result.
#[verifier::external_body]
pub(crate) fn enqueue<T>(queue: &mpsc::Sender<T>, message: T) -> (r: Result<(), mpsc::SendError<T>>) {
    queue.send(message)
}

} // verus!
