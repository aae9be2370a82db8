//! The services that run in the background.

use tokio_util::sync::CancellationToken;

use neemata_proxy::server::{AddServiceError, Server, ServiceHandle};

fn runtime() -> tokio::runtime::Runtime {
    tokio::runtime::Builder::new_current_thread().build().unwrap()
}

fn service(runtime: &tokio::runtime::Runtime) -> ServiceHandle {
    let cancel = CancellationToken::new();
    let child = cancel.clone();
    let task = runtime.spawn(async move { child.cancelled().await });
    ServiceHandle { cancel, task }
}

fn end(runtime: &tokio::runtime::Runtime, handle: ServiceHandle) {
    handle.cancel.cancel();
    runtime.block_on(handle.task).unwrap();
}

#[test]
fn service_is_added_once() {
    let runtime = runtime();
    let mut server = Server::new();
    assert!(server.add_service("a".to_string(), service(&runtime)).is_ok());
    assert_eq!(
        server.add_service("a".to_string(), service(&runtime)),
        Err(AddServiceError::AlreadyExists)
    );
    end(&runtime, server.remove_service("a").unwrap());
    assert!(server.remove_service("a").is_none());
}

#[test]
fn upsert_hands_out_what_it_replaces() {
    let runtime = runtime();
    let mut server = Server::new();
    let first = service(&runtime);
    let token = first.cancel.clone();
    assert!(server.upsert_service("a".to_string(), first).is_none());
    let old = server.upsert_service("a".to_string(), service(&runtime)).unwrap();
    assert!(!token.is_cancelled());
    end(&runtime, old);
    assert!(token.is_cancelled());
    assert_eq!(server.stop_all().len(), 1);
}

#[test]
fn stop_all_hands_out_every_service() {
    let runtime = runtime();
    let mut server = Server::new();
    server.upsert_service("a".to_string(), service(&runtime));
    server.upsert_service("b".to_string(), service(&runtime));
    let all = server.stop_all();
    let mut names: Vec<String> = all.iter().map(|(name, _)| name.clone()).collect();
    names.sort();
    assert_eq!(names, vec!["a".to_string(), "b".to_string()]);
    for (_, handle) in all {
        end(&runtime, handle);
    }
    assert!(server.stop_all().is_empty());
}
