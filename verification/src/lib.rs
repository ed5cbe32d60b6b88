//! The function registry behind the FaaS endpoint: which scripts were handed to the
//! polyglot runtime, under which language, and the deployment description built from them.

pub mod types;
pub mod paths;
pub mod registry;
pub mod plan;
pub mod deployment;
pub mod session;
pub mod faas;
pub mod rpc;
