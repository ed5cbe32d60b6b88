//! The state the FaaS endpoint shares between requests: one registry, behind a lock.

use vstd::prelude::*;
use std::sync::{Arc, Mutex};
use crate::registry::FunctionRegistry;

verus! {

/// A lock guarding a value shared between threads.
#[verifier::external_type_specification]
#[verifier::external_body]
#[verifier::reject_recursive_types(T)]
pub struct ExMutex<T: ?Sized>(Mutex<T>);

/// `std::sync::Mutex::new`: a lock around `t`. Nothing is stated of the lock: its contents
/// are out of the verifier's sight.
pub assume_specification<T>[ Mutex::<T>::new ](t: T) -> Mutex<T>;

/// The state of the FaaS endpoint: the registry all requests load into.
#[derive(Clone)]
pub struct FaasState {
    pub registry: Arc<Mutex<FunctionRegistry>>,
}

impl FaasState {
    /// A state holding a new, empty registry.
    pub fn new() -> Self {
        FaasState { registry: Arc::new(Mutex::new(FunctionRegistry::new())) }
    }
}

impl Default for FaasState {
    fn default() -> Self {
        Self::new()
    }
}

} // verus!
