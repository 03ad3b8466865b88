use vstd::prelude::*;

use std::sync::mpsc::{Receiver, Sender};

verus! {

#[verifier::external_type_specification]
#[verifier::external_body]
#[verifier::reject_recursive_types(T)]
pub struct ExReceiver<T>(Receiver<T>);

#[verifier::external_type_specification]
#[verifier::external_body]
#[verifier::reject_recursive_types(T)]
pub struct ExSender<T>(Sender<T>);

/// A source of events, pulled one at a time by the dispatch loop; `None`
/// means that no event will come any more.
pub trait EventListener {
    fn listen(&self) -> Option<String>;
}

/// Relies on std::sync::mpsc::channel: a new channel, the sending end first.
#[verifier::external_body]
fn open_channel() -> (Sender<String>, Receiver<String>) {
    std::sync::mpsc::channel()
}

/// Relies on std::sync::mpsc::Receiver::recv: blocks until a message comes,
/// or yields `None` once every sender is gone and the channel is empty.
#[verifier::external_body]
fn next_message(receiver: &Receiver<String>) -> Option<String> {
    receiver.recv().ok()
}

/// Events fed through a channel: producers send names on the `Sender` that
/// `new` hands out, and the listener yields them in the order they were sent.
pub struct SimpleEventListener {
    receiver: Receiver<String>,
}

impl SimpleEventListener {
    pub fn new() -> (SimpleEventListener, Sender<String>) {
        let (sender, receiver) = open_channel();
        (SimpleEventListener { receiver }, sender)
    }
}

impl EventListener for SimpleEventListener {
    fn listen(&self) -> Option<String> {
        next_message(&self.receiver)
    }
}

} // verus!
