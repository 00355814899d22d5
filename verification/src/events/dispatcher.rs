//! Dispatching events of one type to a list of handlers.
use vstd::prelude::*;

use crate::events::Handler;
use crate::text::push_str;

verus! {

/// The messages of the failed results, in order.
pub open spec fn errors_of(rs: Seq<Result<(), String>>) -> Seq<Seq<char>>
    decreases rs.len(),
{
    if rs.len() == 0 {
        Seq::empty()
    } else {
        match rs.last() {
            Ok(()) => errors_of(rs.drop_last()),
            Err(m) => errors_of(rs.drop_last()).push(m@),
        }
    }
}

/// Messages joined with `", "`.
pub open spec fn joined(ms: Seq<Seq<char>>) -> Seq<char>
    decreases ms.len(),
{
    if ms.len() == 0 {
        Seq::empty()
    } else if ms.len() == 1 {
        ms[0]
    } else {
        joined(ms.drop_last()) + ", "@ + ms.last()
    }
}

/// The outcome of a dispatch from the results of its handlers: success
/// when none failed, otherwise the messages of the failures joined with
/// `", "`.
pub fn combine_results(results: &Vec<Result<(), String>>) -> (r: Result<(), String>)
    ensures
        errors_of(results@).len() == 0 ==> r is Ok,
        errors_of(results@).len() > 0 ==> (r matches Err(m) && m@ == joined(errors_of(results@))),
{
    let mut message = String::new();
    let mut failed: usize = 0;
    let mut i: usize = 0;
    while i < results.len()
        invariant
            i <= results@.len(),
            failed == errors_of(results@.take(i as int)).len(),
            failed <= i,
            message@ == joined(errors_of(results@.take(i as int))),
        decreases results@.len() - i,
    {
        let ghost before = errors_of(results@.take(i as int));
        assert(results@.take(i + 1).drop_last() == results@.take(i as int));
        match &results[i] {
            Ok(()) => {},
            Err(m) => {
                if failed > 0 {
                    push_str(&mut message, ", ");
                }
                push_str(&mut message, m.as_str());
                assert(errors_of(results@.take(i + 1)) == before.push(m@));
                assert(before.push(m@).drop_last() == before);
                failed = failed + 1;
            },
        }
        i = i + 1;
    }
    assert(results@.take(results@.len() as int) == results@);
    if failed == 0 {
        Ok(())
    } else {
        Err(message)
    }
}

/// Dispatches events of type `E` to its handlers, in the order they were
/// added.
pub struct Dispatcher<E, H: Handler<E>> {
    handlers: Vec<H>,
    marker: std::marker::PhantomData<E>,
}

impl<E, H: Handler<E>> Dispatcher<E, H> {
    /// The handlers, in the order they were added.
    pub closed spec fn spec_handlers(&self) -> Seq<H> {
        self.handlers@
    }

    /// A dispatcher without handlers.
    pub fn new() -> (r: Self)
        ensures
            r.spec_handlers().len() == 0,
    {
        Dispatcher { handlers: Vec::new(), marker: std::marker::PhantomData }
    }

    /// Adds a handler after the others.
    pub fn add_handler(&mut self, handler: H) -> (r: Result<(), String>)
        ensures
            r is Ok,
            final(self).spec_handlers() == old(self).spec_handlers().push(handler),
    {
        self.handlers.push(handler);
        Ok(())
    }

    /// Adds a handler after the others (as `add_handler`).
    pub fn on(&mut self, handler: H) -> (r: Result<(), String>)
        ensures
            r is Ok,
            final(self).spec_handlers() == old(self).spec_handlers().push(handler),
    {
        self.add_handler(handler)
    }

    /// Gives the event to every handler, in order, whatever the others
    /// returned: the outcome is `Ok` when every handler returned `Ok`, and
    /// otherwise the messages of the failures, in order, joined with `", "`.
    pub fn dispatch(&self, event: &E) -> (r: Result<(), String>)
        ensures
            exists|rs: Seq<Result<(), String>>|
                {
                    &&& rs.len() == self.spec_handlers().len()
                    &&& forall|i: int|
                        0 <= i < rs.len() ==> call_ensures(
                            H::handle,
                            (&self.spec_handlers()[i], event),
                            #[trigger] rs[i],
                        )
                    &&& (errors_of(rs).len() == 0 ==> r is Ok)
                    &&& (errors_of(rs).len() > 0 ==> (r matches Err(m) && m@ == joined(errors_of(rs))))
                },
    {
        let mut results: Vec<Result<(), String>> = Vec::new();
        let mut i: usize = 0;
        while i < self.handlers.len()
            invariant
                i <= self.handlers@.len(),
                results@.len() == i,
                forall|k: int|
                    0 <= k < i ==> call_ensures(H::handle, (&self.handlers@[k], event), #[trigger] results@[k]),
            decreases self.handlers@.len() - i,
        {
            let outcome = self.handlers[i].handle(event);
            results.push(outcome);
            i = i + 1;
        }
        let r = combine_results(&results);
        assert(results@.len() == self.spec_handlers().len());
        r
    }

    /// Removes all handlers.
    pub fn clear(&mut self) -> (r: Result<(), String>)
        ensures
            r is Ok,
            final(self).spec_handlers().len() == 0,
    {
        self.handlers.clear();
        Ok(())
    }
}

impl<E, H: Handler<E>> Default for Dispatcher<E, H> {
    fn default() -> (r: Self)
        ensures
            r.spec_handlers().len() == 0,
    {
        Dispatcher::new()
    }
}

} // verus!
