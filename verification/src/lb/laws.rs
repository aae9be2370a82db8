//! What holds of sets of backends.

use vstd::prelude::*;

use super::BackendSet;

verus! {

/// A set of backends holds the addresses that were put into it, and no others.
pub proof fn law_backends(
    set: &mut BackendSet,
    address: String,
    asked: &BackendSet,
    other: &str,
    r: bool,
)
    requires
        call_ensures(BackendSet::insert, (set, address), ()),
        asked@ == final(set)@,
        call_ensures(BackendSet::contains, (asked, other), r),
    ensures
        r <==> other@ == address@ || old(set)@.contains(other@),
{
}

/// A new set of backends is empty.
pub proof fn law_no_backends(set: &BackendSet, address: &str, r: bool)
    requires
        call_ensures(BackendSet::new, (), *set),
        call_ensures(BackendSet::contains, (set, address), r),
    ensures
        !r,
{
}

} // verus!
