use metassr_api_handler::faas::FaasState;
use metassr_api_handler::rpc::{
    invoke_reply, load_reply, lock_failure_reply, route_message, Inbound, RpcBody,
};
use metassr_api_handler::session::LoadError;
use metassr_api_handler::types::{
    Deployment, DeploymentStatus, InvokePayload, InvokeResultPayload, Resource, WorkerMessage,
};

fn deployment() -> Deployment {
    Deployment {
        status: DeploymentStatus::Ready,
        prefix: "localhost".to_string(),
        suffix: "r".to_string(),
        version: "v1".to_string(),
        packages: vec![],
    }
}

#[test]
fn load_and_invoke_messages_are_served() {
    let res = Resource { id: "r".to_string(), path: "/p".to_string(), jsons: vec![], runners: vec![] };
    match route_message(WorkerMessage::Load(res.clone())) {
        Inbound::Load(r) => assert_eq!(r, res),
        other => panic!("unexpected {:?}", other),
    }
    let payload = InvokePayload { id: "1".to_string(), name: "f".to_string(), args: vec![] };
    match route_message(WorkerMessage::Invoke(payload)) {
        Inbound::Invoke(p) => {
            assert_eq!(p.id, "1");
            assert_eq!(p.name, "f");
        }
        other => panic!("unexpected {:?}", other),
    }
}

#[test]
fn outbound_messages_are_refused() {
    let refused = [
        WorkerMessage::MetaData(deployment()),
        WorkerMessage::InvokeResult(InvokeResultPayload {
            id: "1".to_string(),
            result: serde_json::Value::Null,
        }),
    ];
    for message in refused {
        match route_message(message) {
            Inbound::Refused(reply) => {
                assert_eq!(reply.status, 400);
                match reply.body {
                    RpcBody::Error(text) => assert_eq!(text, "This message type is outbound-only"),
                    other => panic!("unexpected {:?}", other),
                }
            }
            other => panic!("unexpected {:?}", other),
        }
    }
}

#[test]
fn a_finished_load_is_answered_with_metadata() {
    let reply = load_reply(Ok(deployment()));
    assert_eq!(reply.status, 200);
    match reply.body {
        RpcBody::Message(WorkerMessage::MetaData(d)) => assert_eq!(d, deployment()),
        other => panic!("unexpected {:?}", other),
    }
}

#[test]
fn a_failed_load_is_answered_with_its_error() {
    let error = LoadError::ScriptRejected { path: "/x.js".to_string(), detail: "FromFileFailure".to_string() };
    let reply = load_reply(Err(error));
    assert_eq!(reply.status, 500);
    match reply.body {
        RpcBody::Error(text) => assert_eq!(text, "MetaCall failed to load '/x.js': FromFileFailure"),
        other => panic!("unexpected {:?}", other),
    }
}

#[test]
fn an_invocation_result_is_answered_with_status_200() {
    let result = InvokeResultPayload { id: "7".to_string(), result: serde_json::Value::Bool(true) };
    let reply = invoke_reply(result);
    assert_eq!(reply.status, 200);
    match reply.body {
        RpcBody::Message(WorkerMessage::InvokeResult(r)) => assert_eq!(r.id, "7"),
        other => panic!("unexpected {:?}", other),
    }
}

#[test]
fn a_poisoned_lock_is_an_internal_error() {
    let reply = lock_failure_reply();
    assert_eq!(reply.status, 500);
    match reply.body {
        RpcBody::Error(text) => assert_eq!(text, "Internal registry lock failure"),
        other => panic!("unexpected {:?}", other),
    }
}

#[test]
fn a_new_state_holds_a_usable_registry() {
    let state = FaasState::new();
    let registry = state.registry.lock().unwrap();
    assert!(!registry.is_loaded(&"/a.js".to_string()));
    drop(registry);
    let other = FaasState::default();
    assert!(!other.registry.lock().unwrap().is_loaded(&"/a.js".to_string()));
}
