//! How the RPC endpoint answers each inbound message: which messages it serves, and the
//! status and body of each reply.

use vstd::prelude::*;
use crate::types::{Deployment, InvokePayload, InvokeResultPayload, Resource, WorkerMessage};
use crate::session::LoadError;

verus! {

/// The body of a reply: a message, or an error text.
#[derive(Debug)]
pub enum RpcBody {
    Message(WorkerMessage),
    Error(String),
}

/// A reply of the RPC endpoint: an HTTP status and its body.
#[derive(Debug)]
pub struct RpcReply {
    pub status: u16,
    pub body: RpcBody,
}

/// What the endpoint does with an inbound message.
#[derive(Debug)]
pub enum Inbound {
    /// Load the functions of a resource.
    Load(Resource),
    /// Call a loaded function.
    Invoke(InvokePayload),
    /// Answer at once with this reply.
    Refused(RpcReply),
}

/// The text of a reply's error, where it carries one.
pub open spec fn error_text(reply: RpcReply) -> Option<Seq<char>> {
    match reply.body {
        RpcBody::Error(text) => Some(text@),
        RpcBody::Message(_) => None,
    }
}

/// Sorts an inbound message: a request to load functions or to call one is served; the
/// messages the endpoint only ever sends (metadata, invocation results) are refused with
/// status 400 and the error `This message type is outbound-only`.
pub fn route_message(message: WorkerMessage) -> (inbound: Inbound)
    ensures
        match message {
            WorkerMessage::Load(resource) => inbound == Inbound::Load(resource),
            WorkerMessage::Invoke(payload) => inbound == Inbound::Invoke(payload),
            WorkerMessage::MetaData(_) | WorkerMessage::InvokeResult(_) => {
                &&& inbound matches Inbound::Refused(reply)
                &&& reply.status == 400
                &&& error_text(reply) == Some("This message type is outbound-only"@)
            },
        },
{
    match message {
        WorkerMessage::Load(resource) => Inbound::Load(resource),
        WorkerMessage::Invoke(payload) => Inbound::Invoke(payload),
        WorkerMessage::MetaData(_) | WorkerMessage::InvokeResult(_) => Inbound::Refused(
            RpcReply {
                status: 400,
                body: RpcBody::Error("This message type is outbound-only".to_string()),
            },
        ),
    }
}

/// The reply to a load: status 200 with the deployment as a metadata message, or status 500
/// with the text of the error that stopped it.
pub fn load_reply(outcome: Result<Deployment, LoadError>) -> (reply: RpcReply)
    ensures
        match outcome {
            Ok(deployment) => {
                &&& reply.status == 200
                &&& reply.body == RpcBody::Message(WorkerMessage::MetaData(deployment))
            },
            Err(error) => {
                &&& reply.status == 500
                &&& error_text(reply) == Some(error.message_text())
            },
        },
{
    match outcome {
        Ok(deployment) => RpcReply {
            status: 200,
            body: RpcBody::Message(WorkerMessage::MetaData(deployment)),
        },
        Err(error) => RpcReply { status: 500, body: RpcBody::Error(error.message()) },
    }
}

/// The reply to a call: status 200 with its result.
pub fn invoke_reply(result: InvokeResultPayload) -> (reply: RpcReply)
    ensures
        reply.status == 200,
        reply.body == RpcBody::Message(WorkerMessage::InvokeResult(result)),
{
    RpcReply { status: 200, body: RpcBody::Message(WorkerMessage::InvokeResult(result)) }
}

/// The reply when the registry's lock is poisoned: status 500 with the error
/// `Internal registry lock failure`.
pub fn lock_failure_reply() -> (reply: RpcReply)
    ensures
        reply.status == 500,
        error_text(reply) == Some("Internal registry lock failure"@),
{
    RpcReply { status: 500, body: RpcBody::Error("Internal registry lock failure".to_string()) }
}

} // verus!
