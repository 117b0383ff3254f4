//! The async-handle table of the event loop: pending completions, each under
//! a key that is handed out once and never again.

use std::collections::HashMap;
use vstd::prelude::*;

verus! {

/// The target of an asynchronous completion, holding the durable VM reference
/// that delivers it.
pub enum AsyncHandle<P, F> {
    /// A promise, settled through its resolver.
    Promise(P),
    /// A callback function, invoked on completion.
    Callback(F),
}

/// Pending completions by key. The table owns each VM reference from enrolment
/// until the completion is taken out for delivery.
pub struct HandleTable<P, F> {
    handles: HashMap<usize, AsyncHandle<P, F>>,
    next_key: usize,
}

impl<P, F> HandleTable<P, F> {
    /// The pending completions.
    pub closed spec fn view(&self) -> Map<usize, AsyncHandle<P, F>> {
        self.handles@
    }

    /// How many keys were ever handed out; also the next key.
    pub closed spec fn issued(&self) -> usize {
        self.next_key
    }

    /// Every pending key was handed out before.
    pub open spec fn wf(&self) -> bool {
        forall|k: usize| #[trigger] self@.contains_key(k) ==> k < self.issued()
    }

    /// An empty table whose first key is 0.
    pub fn new() -> (t: HandleTable<P, F>)
        ensures
            t@ == Map::<usize, AsyncHandle<P, F>>::empty(),
            t.issued() == 0,
            t.wf(),
    {
        HandleTable { handles: HashMap::new(), next_key: 0 }
    }

    /// Number of pending completions.
    pub fn len(&self) -> (n: usize)
        ensures
            n == self@.len(),
    {
        self.handles.len()
    }

    /// Whether no completion is pending.
    pub fn is_empty(&self) -> (b: bool)
        ensures
            b == (self@.len() == 0),
    {
        self.handles.len() == 0
    }

    /// Whether `key` is pending.
    pub fn contains(&self, key: usize) -> (b: bool)
        ensures
            b == self@.contains_key(key),
    {
        self.handles.contains_key(&key)
    }

    /// Whether a key is left to hand out.
    pub fn can_enroll(&self) -> (b: bool)
        ensures
            b == (self.issued() < usize::MAX),
    {
        self.next_key < usize::MAX
    }

    /// Enrols `handle` under a fresh key: the number of keys handed out so
    /// far, which no pending and no earlier completion carries.
    pub fn enroll(&mut self, handle: AsyncHandle<P, F>) -> (key: usize)
        requires
            old(self).wf(),
            old(self).issued() < usize::MAX,
        ensures
            key == old(self).issued(),
            !old(self)@.contains_key(key),
            final(self)@ == old(self)@.insert(key, handle),
            final(self).issued() == old(self).issued() + 1,
            final(self).wf(),
    {
        let key: usize = self.next_key;
        self.handles.insert(key, handle);
        self.next_key = key + 1;
        proof {
            assert forall|k: usize| #[trigger] self@.contains_key(k) implies k < self.issued() by {
                if k != key {
                    assert(old(self)@.contains_key(k));
                }
            }
        }
        key
    }

    /// Takes the completion under `key` out for delivery, if it is pending.
    /// Keys already handed out stay used.
    pub fn take(&mut self, key: usize) -> (handle: Option<AsyncHandle<P, F>>)
        requires
            old(self).wf(),
        ensures
            handle == (if old(self)@.contains_key(key) {
                Some(old(self)@[key])
            } else {
                None
            }),
            final(self)@ == old(self)@.remove(key),
            final(self).issued() == old(self).issued(),
            final(self).wf(),
    {
        self.handles.remove(&key)
    }
}

} // verus!
