use std::sync::mpsc::{channel, Receiver, Sender};
use vstd::prelude::*;

use crate::sys::{bullet, control};

verus! {

#[verifier::external_type_specification]
#[verifier::external_body]
#[verifier::reject_recursive_types(T)]
pub struct ExSender<T>(Sender<T>);

#[verifier::external_type_specification]
#[verifier::external_body]
#[verifier::reject_recursive_types(T)]
pub struct ExReceiver<T>(Receiver<T>);

/// Relies on `std::sync::mpsc::channel`: a new queue, as its sending and its
/// receiving end.
#[verifier::external_body]
fn open_channel<T>() -> (Sender<T>, Receiver<T>) {
    channel()
}

/// The receiving ends of the input queues, drained once per tick.
pub type ReceiverHub = (Receiver<control::Event>, Receiver<bullet::Event>);

/// The sending ends of the input queues, one for steering and one for shooting.
pub struct SenderHub {
    pub control: Sender<control::Event>,
    pub bullet: Sender<bullet::Event>,
}

impl SenderHub {
    /// Opens the two input queues.
    pub fn new() -> (SenderHub, ReceiverHub) {
        let (sc, rc) = open_channel();
        let (sb, rb) = open_channel();
        (SenderHub { control: sc, bullet: sb }, (rc, rb))
    }
}

} // verus!
