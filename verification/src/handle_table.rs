//! The bindless handle table: which GPU handle stands for which logical id.

use std::collections::HashMap;
use vstd::prelude::*;

verus! {

/// The token the renderer hands out for a registered image. Only the
/// renderer knows what it means.
#[derive(Clone, Copy, Debug, PartialEq, Eq, Hash)]
pub struct BindlessImageHandle(pub u32);

/// Maps logical ids to bindless handles. An entry is written once and then
/// stays as it is: nothing is updated or removed.
pub struct BindlessHandleTable {
    handles: HashMap<usize, BindlessImageHandle>,
}

impl View for BindlessHandleTable {
    type V = Map<usize, BindlessImageHandle>;

    closed spec fn view(&self) -> Map<usize, BindlessImageHandle> {
        self.handles@
    }
}

impl BindlessHandleTable {
    /// A table without entries.
    pub fn new() -> (table: Self)
        ensures
            table@ == Map::<usize, BindlessImageHandle>::empty(),
    {
        BindlessHandleTable { handles: HashMap::new() }
    }

    /// Whether `id` has a handle.
    pub fn is_registered(&self, id: usize) -> (registered: bool)
        ensures
            registered == self@.contains_key(id),
    {
        self.handles.contains_key(&id)
    }

    /// Records `handle` for `id` and returns the handle that `id` now
    /// stands for. An id that has a handle already keeps it.
    pub fn register(&mut self, id: usize, handle: BindlessImageHandle) -> (bound:
        BindlessImageHandle)
        ensures
            final(self)@ == if old(self)@.contains_key(id) {
                old(self)@
            } else {
                old(self)@.insert(id, handle)
            },
            bound == final(self)@[id],
    {
        match self.handles.get(&id) {
            Some(existing) => *existing,
            None => {
                self.handles.insert(id, handle);
                handle
            },
        }
    }

    /// The handle of `id`, which must have been registered.
    pub fn resolve(&self, id: usize) -> (handle: BindlessImageHandle)
        requires
            self@.contains_key(id),
        ensures
            handle == self@[id],
    {
        match self.handles.get(&id) {
            Some(existing) => *existing,
            None => vstd::pervasive::unreached(),
        }
    }
}

} // verus!
