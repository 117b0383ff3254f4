//! The binding registry: the native objects that script code can ask for,
//! each under its name. It is filled once, when the runtime is built.

use crate::errors::{is_generic, ErrorKind, JsError};
use vstd::prelude::*;

verus! {

/// What `entries` holds under `name`: the last entry of that name, as in a
/// map built from the list.
pub open spec fn registered<B>(entries: Seq<(String, B)>, name: Seq<char>) -> Option<B>
    decreases entries.len(),
{
    if entries.len() == 0 {
        None
    } else if entries.last().0@ == name {
        Some(entries.last().1)
    } else {
        registered(entries.drop_last(), name)
    }
}

/// The initializers of the native bindings by name.
pub struct BindingRegistry<B> {
    entries: Vec<(String, B)>,
}

impl<B> BindingRegistry<B> {
    /// The entries that the registry was built from.
    pub closed spec fn view(&self) -> Seq<(String, B)> {
        self.entries@
    }

    /// The registry of `entries`.
    pub fn new(entries: Vec<(String, B)>) -> (r: BindingRegistry<B>)
        ensures
            r@ == entries@,
    {
        BindingRegistry { entries }
    }

    /// The initializer registered under exactly `name`. An unknown name is a
    /// configuration error whose message is the name.
    pub fn lookup(&self, name: &str) -> (r: Result<&B, JsError>)
        ensures
            match registered(self@, name@) {
                Some(b) => r is Ok && *r->Ok_0 == b,
                None => r is Err && is_generic(r->Err_0, ErrorKind::Configuration, name@),
            },
    {
        let wanted: String = name.to_owned();
        let mut i: usize = self.entries.len();
        assert(self.entries@.take(i as int) =~= self.entries@);
        while i > 0
            invariant
                i <= self.entries@.len(),
                wanted@ == name@,
                registered(self.entries@, name@) == registered(self.entries@.take(i as int), name@),
            decreases i,
        {
            proof {
                assert(self.entries@.take(i as int).drop_last() =~= self.entries@.take(i - 1));
            }
            i -= 1;
            if self.entries[i].0 == wanted {
                return Ok(&self.entries[i].1);
            }
        }
        Err(JsError::generic(ErrorKind::Configuration, name))
    }
}

} // verus!
