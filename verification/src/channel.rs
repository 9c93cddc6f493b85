//! The engine's only outward channel: flush requests are emitted onto an
//! unbounded tokio sender owned by the flush worker.

use vstd::prelude::*;
use crate::compaction::FlushReq;

verus! {

#[verifier::external_type_specification]
#[verifier::external_body]
#[verifier::reject_recursive_types(T)]
pub struct ExUnboundedSender<T>(tokio::sync::mpsc::UnboundedSender<T>);

/// Relies on tokio's `UnboundedSender::send`: hands the request to the
/// receiver if it still listens. Whether the receiver is still there depends
/// on the process state, so nothing is promised of the outcome.
#[verifier::external_body]
pub(crate) fn send_flush_req(
    sender: &tokio::sync::mpsc::UnboundedSender<FlushReq>,
    req: FlushReq,
) -> (r: bool) {
    sender.send(req).is_ok()
}

/// Relies on tokio's `Clone` impl for `UnboundedSender`: the clone feeds the
/// same channel. The handle is opaque, so nothing is stated of the value.
#[verifier::external_body]
pub(crate) fn clone_flush_sender(
    sender: &tokio::sync::mpsc::UnboundedSender<FlushReq>,
) -> (r: tokio::sync::mpsc::UnboundedSender<FlushReq>) {
    sender.clone()
}

} // verus!
