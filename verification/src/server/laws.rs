//! What holds of the services that run, call by call.

use vstd::prelude::*;

use super::{AddServiceError, Server, ServiceHandle};

verus! {

/// A service that is added runs under its name, beside those that ran before. One with a name that
/// is taken is not added, and then nothing changes.
pub proof fn law_added_services_run(
    server: &mut Server,
    name: String,
    service: ServiceHandle,
    r: Result<(), AddServiceError>,
    other: Seq<char>,
)
    requires
        call_ensures(Server::add_service, (server, name, service), r),
        other != name@,
    ensures
        r is Ok <==> !old(server)@.contains_key(name@),
        r is Ok ==> final(server)@.contains_key(name@) && final(server)@[name@] == service,
        r is Err ==> final(server)@ == old(server)@,
        final(server)@.contains_key(other) == old(server)@.contains_key(other),
        old(server)@.contains_key(other) ==> final(server)@[other] == old(server)@[other],
{
}

/// A service takes the place of the one with its name, which is handed out to be ended, and of no
/// other.
pub proof fn law_services_are_replaced(
    server: &mut Server,
    name: String,
    service: ServiceHandle,
    r: Option<ServiceHandle>,
    other: Seq<char>,
)
    requires
        call_ensures(Server::upsert_service, (server, name, service), r),
        other != name@,
    ensures
        final(server)@.contains_key(name@) && final(server)@[name@] == service,
        r is Some <==> old(server)@.contains_key(name@),
        r is Some ==> r->0 == old(server)@[name@],
        final(server)@.contains_key(other) == old(server)@.contains_key(other),
        old(server)@.contains_key(other) ==> final(server)@[other] == old(server)@[other],
{
}

/// A service that is removed no longer runs and is handed out to be ended; the others run on.
pub proof fn law_removed_services_end(
    server: &mut Server,
    name: &str,
    r: Option<ServiceHandle>,
    other: Seq<char>,
)
    requires
        call_ensures(Server::remove_service, (server, name), r),
        other != name@,
    ensures
        !final(server)@.contains_key(name@),
        r is Some <==> old(server)@.contains_key(name@),
        r is Some ==> r->0 == old(server)@[name@],
        final(server)@.contains_key(other) == old(server)@.contains_key(other),
        old(server)@.contains_key(other) ==> final(server)@[other] == old(server)@[other],
{
}

/// Stopping all leaves no service, and hands out each that ran, once, to be ended.
pub proof fn law_all_services_end(
    server: &mut Server,
    r: Vec<(String, ServiceHandle)>,
    name: Seq<char>,
)
    requires
        call_ensures(Server::stop_all, (server,), r),
    ensures
        !final(server)@.contains_key(name),
        old(server)@.contains_key(name) <==> exists|i: int|
            0 <= i < r@.len() && (#[trigger] r@[i]).0@ == name,
        forall|i: int, j: int|
            0 <= i < j < r@.len() ==> (#[trigger] r@[i]).0@ != (#[trigger] r@[j]).0@,
        forall|i: int|
            0 <= i < r@.len() ==> old(server)@[(#[trigger] r@[i]).0@] == r@[i].1,
{
    crate::table::lemma_rows(r@);
    if old(server)@.contains_key(name) {
        assert(crate::table::rows_map(r@).contains_key(name));
        let i = choose|i: int| crate::table::row_has(r@, i, name);
        assert(r@[i].0@ == name);
    }
}

} // verus!
