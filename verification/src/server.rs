//! The services that run in the background, by name.
//!
//! A handle that is handed out belongs to a service that is to end: its holder cancels it and
//! waits for its task.

use vstd::prelude::*;

use crate::table::{keys_differ, rows_map, Table};

pub mod laws;

verus! {

/// The cancellation token of the `tokio-util` crate.
#[verifier::external_type_specification]
#[verifier::external_body]
pub struct ExCancellationToken(tokio_util::sync::CancellationToken);

/// The handle of a task of the `tokio` crate.
#[verifier::external_type_specification]
#[verifier::external_body]
#[verifier::reject_recursive_types(T)]
pub struct ExJoinHandle<T>(tokio::task::JoinHandle<T>);

/// The error with which a task of the `tokio` crate ends; its handle's outcome may be one.
#[verifier::external_type_specification]
#[verifier::external_body]
pub struct ExJoinError(tokio::task::JoinError);

/// A service that runs: what cancels it, and its task.
pub struct ServiceHandle {
    pub cancel: tokio_util::sync::CancellationToken,
    pub task: tokio::task::JoinHandle<()>,
}

/// Why a service was not added.
#[derive(Debug, Clone, Copy, PartialEq, Eq, Structural)]
pub enum AddServiceError {
    AlreadyExists,
}

/// The services that run.
pub struct Server {
    services: Table<String, ServiceHandle>,
}

impl View for Server {
    type V = Map<Seq<char>, ServiceHandle>;

    closed spec fn view(&self) -> Map<Seq<char>, ServiceHandle> {
        self.services@
    }
}

impl Server {
    /// No services.
    pub fn new() -> (r: Self)
        ensures
            r@ == Map::<Seq<char>, ServiceHandle>::empty(),
    {
        Server { services: Table::new() }
    }

    /// Adds a service, unless there is one with its name.
    pub fn add_service(&mut self, name: String, service: ServiceHandle) -> (r: Result<
        (),
        AddServiceError,
    >)
        ensures
            (match r {
                Ok(()) => !old(self)@.contains_key(name@) && final(self)@ == old(self)@.insert(
                    name@,
                    service,
                ),
                Err(AddServiceError::AlreadyExists) => old(self)@.contains_key(name@)
                    && final(self)@ == old(self)@,
            }),
    {
        if self.services.contains_key(name.as_str()) {
            return Err(AddServiceError::AlreadyExists);
        }
        self.services.insert(name, service);
        Ok(())
    }

    /// Adds a service, and hands out the one that it replaces.
    pub fn upsert_service(&mut self, name: String, service: ServiceHandle) -> (r: Option<
        ServiceHandle,
    >)
        ensures
            final(self)@ == old(self)@.insert(name@, service),
            (match r {
                Some(replaced) => old(self)@.contains_key(name@) && old(self)@[name@] == replaced,
                None => !old(self)@.contains_key(name@),
            }),
    {
        self.services.insert(name, service)
    }

    /// Takes out a service.
    pub fn remove_service(&mut self, name: &str) -> (r: Option<ServiceHandle>)
        ensures
            final(self)@ == old(self)@.remove(name@),
            (match r {
                Some(removed) => old(self)@.contains_key(name@) && old(self)@[name@] == removed,
                None => !old(self)@.contains_key(name@),
            }),
    {
        self.services.remove(name)
    }

    /// Takes out every service.
    pub fn stop_all(&mut self) -> (r: Vec<(String, ServiceHandle)>)
        ensures
            final(self)@ == Map::<Seq<char>, ServiceHandle>::empty(),
            keys_differ(r@),
            rows_map(r@) == old(self)@,
    {
        self.services.take_rows()
    }
}

} // verus!
