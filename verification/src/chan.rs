//! Declarations and wrappers for the bounded message channels the core
//! communicates through. Background tasks run outside the library; the
//! core only ever performs non-blocking sends and receives, so nothing can
//! be promised about an outcome — it depends on the tasks at the other
//! end. Every decision taken on a received value is made by verified code
//! that takes the value as an argument.

use vstd::prelude::*;

use tokio::sync::mpsc::{Receiver, Sender};

use crate::gateway::GatewayMessage;
use crate::media::{LoadWork, MediaMessage};

verus! {

/// tokio's bounded-channel sending half, declared so it can stand in
/// fields and signatures; its values are opaque to the proofs.
#[verifier::external_type_specification]
#[verifier::external_body]
#[verifier::reject_recursive_types(T)]
pub struct ExSender<T>(Sender<T>);

/// tokio's bounded-channel receiving half, declared so it can stand in
/// fields and signatures; its values are opaque to the proofs.
#[verifier::external_type_specification]
#[verifier::external_body]
#[verifier::reject_recursive_types(T)]
pub struct ExReceiver<T>(Receiver<T>);

/// Relies on tokio's `Sender::try_send`: hands the work item to the
/// channel and reports whether it was accepted; a full or closed channel
/// refuses it. Which outcome occurs depends on the channel's receivers,
/// so nothing is stated of it.
#[verifier::external_body]
pub(crate) fn try_send_work(tx: &Sender<LoadWork>, work: LoadWork) -> (sent: bool) {
    tx.try_send(work).is_ok()
}

/// Relies on tokio's `Receiver::try_recv`: returns a message if one is
/// waiting, without blocking. What arrives depends on the sending tasks,
/// so nothing is stated of it.
#[verifier::external_body]
pub(crate) fn try_recv_gateway(rx: &mut Receiver<GatewayMessage>) -> (m: Option<GatewayMessage>) {
    rx.try_recv().ok()
}

/// Relies on tokio's `Receiver::try_recv`: returns a message if one is
/// waiting, without blocking. What arrives depends on the sending tasks,
/// so nothing is stated of it.
#[verifier::external_body]
pub(crate) fn try_recv_media(rx: &mut Receiver<MediaMessage>) -> (m: Option<MediaMessage>) {
    rx.try_recv().ok()
}

} // verus!
