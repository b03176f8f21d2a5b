//! The handlers behind the service's three endpoints.
//!
//! Each handler works on the shared [`Counter`] and produces the [`Response`]
//! body the endpoint returns: the counter's value after the operation. The
//! surrounding service owns the route table, the lock around the counter and
//! the serialization of the response; after a mutation it also persists the
//! counter's snapshot bytes to the primary file.

use vstd::prelude::*;

use crate::counter::Counter;

verus! {

/// The body of every endpoint's response: the counter's current value.
pub struct Response {
    /// The counter value after the requested operation.
    pub value: i32,
}

/// Handler of the read endpoint: report the current value. No side effects.
pub fn get_value(counter: &Counter) -> (r: Response)
    ensures
        r.value as int == counter.spec_value(),
{
    Response { value: counter.get() }
}

/// Handler of the increment endpoint: add one to the counter and report the
/// new value.
pub fn increment(counter: &mut Counter) -> (r: Response)
    requires
        old(counter).spec_value() < i32::MAX,
    ensures
        final(counter).spec_value() == old(counter).spec_value() + 1,
        r.value as int == final(counter).spec_value(),
        final(counter).same_paths(old(counter)),
{
    counter.increment();
    Response { value: counter.get() }
}

/// Handler of the decrement endpoint: subtract one from the counter and
/// report the new value.
pub fn decrement(counter: &mut Counter) -> (r: Response)
    requires
        old(counter).spec_value() > i32::MIN,
    ensures
        final(counter).spec_value() == old(counter).spec_value() - 1,
        r.value as int == final(counter).spec_value(),
        final(counter).same_paths(old(counter)),
{
    counter.decrement();
    Response { value: counter.get() }
}

} // verus!
