//! Emitting events to the handlers registered for their type.
use vstd::prelude::*;
use std::any::TypeId;

use crate::events::{same_type, type_of};

verus! {

/// Something called with emitted events.
pub trait EmitterHandler {
    /// Handles an event of type `E`.
    fn call<E: 'static>(&self, event: &E);
}

/// Handlers, each registered for one type of event, called in the order
/// they were registered when an event of their type is emitted.
pub struct EventEmitter<H> {
    handlers: Vec<(TypeId, H)>,
}

impl<H: EmitterHandler> EventEmitter<H> {
    /// The handlers, in the order they were registered.
    pub closed spec fn spec_handlers(&self) -> Seq<H> {
        self.handlers@.map_values(|p: (TypeId, H)| p.1)
    }

    /// An emitter without handlers.
    pub fn new() -> (r: Self)
        ensures
            r.spec_handlers().len() == 0,
    {
        let r = EventEmitter { handlers: Vec::new() };
        assert(r.spec_handlers() =~= Seq::<H>::empty());
        r
    }

    /// Registers a handler for events of type `E`.
    pub fn on<E: 'static>(&mut self, handler: H) -> (r: Result<(), String>)
        ensures
            r is Ok,
            final(self).spec_handlers() == old(self).spec_handlers().push(handler),
    {
        let entry = (type_of::<E>(), handler);
        self.handlers.push(entry);
        assert(self.spec_handlers() =~= old(self).spec_handlers().push(handler));
        Ok(())
    }

    /// Calls, in order, the handlers registered for events of type `E`.
    /// Which handlers those are is not stated: `TypeId::of` takes no
    /// argument that a name for its result could be tied to.
    pub fn emit<E: 'static>(&self, event: &E) -> (r: Result<(), String>)
        ensures
            r is Ok,
    {
        let kind = type_of::<E>();
        let mut i: usize = 0;
        while i < self.handlers.len()
            invariant
                i <= self.handlers@.len(),
            decreases self.handlers@.len() - i,
        {
            if same_type(&self.handlers[i].0, &kind) {
                self.handlers[i].1.call(event);
            }
            i = i + 1;
        }
        Ok(())
    }

    /// Removes all handlers.
    pub fn clear(&mut self) -> (r: Result<(), String>)
        ensures
            r is Ok,
            final(self).spec_handlers().len() == 0,
    {
        self.handlers.clear();
        assert(self.spec_handlers() =~= Seq::<H>::empty());
        Ok(())
    }
}

impl<H: EmitterHandler> Default for EventEmitter<H> {
    fn default() -> (r: Self)
        ensures
            r.spec_handlers().len() == 0,
    {
        EventEmitter::new()
    }
}

} // verus!
