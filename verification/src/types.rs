//! API request and response types of the FaaS endpoint, and the deployment description
//! that answers a request to load functions.

use vstd::prelude::*;
use std::collections::HashMap;

verus! {

/// A JSON document. The library only carries such values from one side to the other.
#[verifier::external_type_specification]
#[verifier::external_body]
pub struct ExJsonValue(serde_json::Value);

/// Headers of a request or response, by name.
pub type Headers = HashMap<String, String>;

/// An incoming API request handed to a handler function.
#[derive(Debug, Clone)]
pub struct ApiRequest {
    /// The URL path of the request.
    pub url: String,
    /// HTTP headers as key-value pairs.
    pub headers: Headers,
    /// HTTP method (GET, POST, ...).
    pub method: String,
    /// Request body, if any.
    pub body: Option<String>,
    /// URL path parameters (from dynamic routes).
    pub params: HashMap<String, String>,
    /// Query string parameters.
    pub query: HashMap<String, String>,
}

/// An API response returned by a handler function.
#[derive(Debug)]
pub struct ApiResponse {
    /// HTTP status code.
    pub status: u16,
    /// Response headers.
    pub headers: Headers,
    /// Response body, a JSON document.
    pub body: serde_json::Value,
}

/// A language whose scripts the runtime can load.
#[derive(Debug, Clone, Copy, PartialEq, Eq, Hash, Structural)]
pub enum LanguageId {
    Node,
    Py,
    Rb,
    Ts,
}

/// The type of a value the runtime exchanges with a script.
#[derive(Debug, Clone, Copy, PartialEq, Eq, Structural)]
pub enum ValueId {
    MetacallBool,
    MetacallChar,
    MetacallShort,
    MetacallInt,
    MetacallLong,
    MetacallFloat,
    MetacallDouble,
    MetacallString,
    MetacallBuffer,
    MetacallArray,
    MetacallMap,
    MetacallPtr,
    MetacallFuture,
    MetacallFunction,
    MetacallNull,
    MetacallClass,
    MetacallObject,
    MetacallSize,
    MetacallInvalid,
}

/// One group of scripts of a single language, under a directory of the resource.
#[derive(Debug, Clone, PartialEq, Eq)]
pub struct MetaCallJSON {
    pub language_id: LanguageId,
    pub path: String,
    pub scripts: Vec<String>,
}

/// A set of functions to load: where they lie and how they are grouped.
#[derive(Debug, Clone, PartialEq, Eq)]
pub struct Resource {
    pub id: String,
    pub path: String,
    pub jsons: Vec<MetaCallJSON>,
    pub runners: Vec<String>,
}

#[derive(Debug, Clone, PartialEq, Eq)]
pub struct MetaCallType {
    pub name: String,
    pub id: ValueId,
}

#[derive(Debug, Clone, PartialEq, Eq)]
pub struct Return {
    pub type_info: MetaCallType,
}

#[derive(Debug, Clone, PartialEq, Eq)]
pub struct Argument {
    pub name: String,
    pub type_info: MetaCallType,
}

#[derive(Debug, Clone, PartialEq, Eq)]
pub struct Signature {
    pub ret: Return,
    pub args: Vec<Argument>,
}

#[derive(Debug, Clone, PartialEq, Eq)]
pub struct Func {
    pub name: String,
    pub signature: Signature,
    pub async_func: bool,
}

#[derive(Debug, Clone, PartialEq, Eq)]
pub struct Scope {
    pub name: String,
    pub funcs: Vec<Func>,
}

/// What a deployment reports of one loaded script.
#[derive(Debug, Clone, PartialEq, Eq)]
pub struct Handle {
    pub name: String,
    pub scope: Scope,
}

#[derive(Debug, Clone, Copy, PartialEq, Eq, Structural)]
pub enum DeploymentStatus {
    Create,
    Ready,
    Fail,
}

/// The description of a loaded resource.
///
/// `packages` maps each language that has loaded scripts to their handles; no language
/// occurs in it twice.
#[derive(Debug, Clone, PartialEq, Eq)]
pub struct Deployment {
    pub status: DeploymentStatus,
    pub prefix: String,
    pub suffix: String,
    pub version: String,
    pub packages: Vec<(LanguageId, Vec<Handle>)>,
}

/// A request to call a loaded function with JSON arguments.
#[derive(Debug)]
pub struct InvokePayload {
    pub id: String,
    pub name: String,
    pub args: Vec<serde_json::Value>,
}

/// The answer to an [`InvokePayload`] with the same `id`.
#[derive(Debug)]
pub struct InvokeResultPayload {
    pub id: String,
    pub result: serde_json::Value,
}

/// A message on the worker RPC channel.
#[derive(Debug)]
pub enum WorkerMessage {
    Load(Resource),
    MetaData(Deployment),
    Invoke(InvokePayload),
    InvokeResult(InvokeResultPayload),
}

} // verus!
