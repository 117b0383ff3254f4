//! The module map, which holds one record for each canonical identifier, and
//! the loader that walks a module graph depth first without visiting a module
//! twice.

use crate::errors::ResolutionError;
use crate::resolve::{resolve, resolve_import};
use vstd::prelude::*;

verus! {

/// The identifiers that a list of strings spells.
pub open spec fn spelled(v: Seq<String>) -> Seq<Seq<char>> {
    Seq::new(v.len(), |i: int| v[i]@)
}

/// The compiled modules by canonical identifier, in the order of insertion.
pub struct ModuleMap<M> {
    names: Vec<String>,
    records: Vec<M>,
}

impl<M> ModuleMap<M> {
    /// The identifiers in the map, in the order of insertion.
    pub closed spec fn ids(&self) -> Seq<Seq<char>> {
        spelled(self.names@)
    }

    /// The records in the map: `records()[i]` belongs to `ids()[i]`.
    pub closed spec fn records(&self) -> Seq<M> {
        self.records@
    }

    /// Each identifier has one record, and no identifier stands twice.
    pub open spec fn wf(&self) -> bool {
        &&& self.ids().len() == self.records().len()
        &&& self.ids().no_duplicates()
    }

    /// Whether the map holds a record for `id`.
    pub open spec fn has(&self, id: Seq<char>) -> bool {
        self.ids().contains(id)
    }

    /// An empty map.
    pub fn new() -> (m: ModuleMap<M>)
        ensures
            m.ids() == Seq::<Seq<char>>::empty(),
            m.records() == Seq::<M>::empty(),
            m.wf(),
    {
        let m = ModuleMap { names: Vec::new(), records: Vec::new() };
        assert(m.ids() =~= Seq::<Seq<char>>::empty());
        m
    }

    /// Number of modules in the map.
    pub fn len(&self) -> (n: usize)
        ensures
            n == self.ids().len(),
    {
        self.names.len()
    }

    /// The identifier at position `i`.
    pub fn id_at(&self, i: usize) -> (id: &String)
        requires
            i < self.ids().len(),
        ensures
            id@ == self.ids()[i as int],
    {
        &self.names[i]
    }

    /// The record at position `i`.
    pub fn record_at(&self, i: usize) -> (record: &M)
        requires
            self.wf(),
            i < self.ids().len(),
        ensures
            *record == self.records()[i as int],
    {
        &self.records[i]
    }

    /// The first position of `id` in the map, if it is there.
    pub fn find(&self, id: &String) -> (r: Option<usize>)
        ensures
            match r {
                Some(i) => {
                    &&& i < self.ids().len()
                    &&& self.ids()[i as int] == id@
                    &&& forall|j: int| 0 <= j < i ==> self.ids()[j] != id@
                },
                None => !self.has(id@),
            },
    {
        let mut i: usize = 0;
        while i < self.names.len()
            invariant
                i <= self.names@.len(),
                forall|j: int| 0 <= j < i ==> self.names@[j]@ != id@,
            decreases self.names@.len() - i,
        {
            if self.names[i] == *id {
                return Some(i);
            }
            i += 1;
        }
        None
    }

    /// Whether the map holds a record for `id`.
    pub fn contains(&self, id: &String) -> (b: bool)
        ensures
            b == self.has(id@),
    {
        self.find(id).is_some()
    }

    /// The record of `id`, if the map holds one: the same record for every
    /// importer that asks.
    pub fn get(&self, id: &String) -> (r: Option<&M>)
        requires
            self.wf(),
        ensures
            r is Some == self.has(id@),
            r is Some ==> *r->Some_0 == self.records()[self.ids().index_of(id@)],
    {
        match self.find(id) {
            Some(i) => {
                proof {
                    let k = self.ids().index_of(id@);
                    assert(self.ids()[k] == id@);
                }
                Some(&self.records[i])
            },
            None => None,
        }
    }

    /// The record that linking hands to the module `referrer` for its import
    /// `specifier`: that of the identifier which the import resolves to.
    /// Every importer of a module is handed the same record. `None` where the
    /// import does not resolve or names a module that was never fetched.
    pub fn linked(&self, referrer: &str, specifier: &str) -> (r: Option<&M>)
        requires
            self.wf(),
        ensures
            match resolve(Some(referrer@), specifier@) {
                Some(id) => r is Some == self.has(id) && (r is Some ==> *r->Some_0
                    == self.records()[self.ids().index_of(id)]),
                None => r is None,
            },
    {
        match resolve_import(Some(referrer), specifier) {
            Ok(id) => self.get(&id),
            Err(_) => None,
        }
    }

    /// Puts `record` under `id` unless the map holds one for `id` already;
    /// says whether it did. A record once in the map is never replaced.
    pub fn insert(&mut self, id: String, record: M) -> (added: bool)
        requires
            old(self).wf(),
        ensures
            final(self).wf(),
            added == !old(self).has(id@),
            added ==> final(self).ids() == old(self).ids().push(id@) && final(self).records()
                == old(self).records().push(record),
            !added ==> final(self).ids() == old(self).ids() && final(self).records() == old(
                self,
            ).records(),
    {
        if self.contains(&id) {
            return false;
        }
        let ghost before = self.ids();
        self.names.push(id);
        self.records.push(record);
        assert(self.ids() =~= before.push(id@));
        true
    }
}

/// In a well-formed map two positions with the same identifier are one
/// position: a module has a single record, whoever imports it.
pub proof fn lemma_single_record<M>(m: ModuleMap<M>, i: int, j: int)
    requires
        m.wf(),
        0 <= i < m.ids().len(),
        0 <= j < m.ids().len(),
        m.ids()[i] == m.ids()[j],
    ensures
        i == j,
        m.records()[i] == m.records()[j],
{
}

/// A module that the walk of a graph still has to visit, as a value of the
/// model: its identifier, and the import that asked for it.
pub struct Want {
    /// The canonical identifier of the module.
    pub id: Seq<char>,
    /// The specifier as the importer wrote it; for an entry module, the name
    /// as the host gave it.
    pub specifier: Seq<char>,
    /// The identifier of the importing module, absent for an entry module.
    pub referrer: Option<Seq<char>>,
}

/// A module that the walk of a graph still has to visit.
#[derive(Debug)]
pub struct Wanted {
    /// The canonical identifier of the module.
    pub id: String,
    /// The specifier as the importer wrote it; for an entry module, the name
    /// as the host gave it.
    pub specifier: String,
    /// The identifier of the importing module, absent for an entry module.
    pub referrer: Option<String>,
}

impl Wanted {
    /// What this value spells.
    pub open spec fn want(&self) -> Want {
        Want {
            id: self.id@,
            specifier: self.specifier@,
            referrer: match self.referrer {
                Some(by) => Some(by@),
                None => None,
            },
        }
    }

    /// A second value that spells the same.
    pub fn duplicate(&self) -> (w: Wanted)
        ensures
            w.want() == self.want(),
    {
        Wanted {
            id: self.id.clone(),
            specifier: self.specifier.clone(),
            referrer: match &self.referrer {
                Some(by) => Some(by.clone()),
                None => None,
            },
        }
    }

    /// The failure to report where there is no module under the identifier:
    /// it names the specifier as written and the importer.
    pub fn missing(&self) -> (e: ResolutionError)
        ensures
            e.specifier@ == self.want().specifier,
            e.referrer is Some == self.want().referrer is Some,
            e.referrer is Some ==> e.referrer->Some_0@ == self.want().referrer->Some_0,
    {
        ResolutionError {
            specifier: self.specifier.clone(),
            referrer: match &self.referrer {
                Some(by) => Some(by.clone()),
                None => None,
            },
        }
    }
}

/// What a list of wanted modules spells.
pub open spec fn wants(v: Seq<Wanted>) -> Seq<Want> {
    Seq::new(v.len(), |i: int| v[i].want())
}

/// Whether the first `n` of `specifiers` resolve when `referrer` imports them.
pub open spec fn resolve_upto(referrer: Seq<char>, specifiers: Seq<String>, n: int) -> bool {
    forall|i: int| 0 <= i < n ==> resolve(Some(referrer), #[trigger] specifiers[i]@) is Some
}

/// The modules that `referrer` wants when it imports `specifiers`, all of
/// which resolve: for each specifier the identifier it resolves to, the
/// specifier itself and `referrer`.
pub open spec fn imports_of(referrer: Seq<char>, specifiers: Seq<String>) -> Seq<Want> {
    Seq::new(
        specifiers.len(),
        |i: int|
            Want {
                id: resolve(Some(referrer), specifiers[i]@)->Some_0,
                specifier: specifiers[i]@,
                referrer: Some(referrer),
            },
    )
}

/// Resolves the imports of the module `referrer`, in source order. Gives the
/// wanted modules, one for each specifier, or the failure of the first
/// specifier that does not resolve.
pub fn resolve_imports(referrer: &str, specifiers: &Vec<String>) -> (r: Result<
    Vec<Wanted>,
    ResolutionError,
>)
    ensures
        match r {
            Ok(imports) => {
                &&& resolve_upto(referrer@, specifiers@, specifiers@.len() as int)
                &&& wants(imports@) == imports_of(referrer@, specifiers@)
            },
            Err(e) => exists|k: int|
                {
                    &&& 0 <= k < specifiers@.len()
                    &&& resolve_upto(referrer@, specifiers@, k)
                    &&& resolve(Some(referrer@), #[trigger] specifiers@[k]@) is None
                    &&& e.specifier@ == specifiers@[k]@
                    &&& e.referrer is Some
                    &&& e.referrer->Some_0@ == referrer@
                },
        },
{
    let mut imports: Vec<Wanted> = Vec::new();
    let mut i: usize = 0;
    while i < specifiers.len()
        invariant
            i <= specifiers@.len(),
            imports@.len() == i,
            resolve_upto(referrer@, specifiers@, i as int),
            forall|j: int|
                0 <= j < i ==> (#[trigger] imports@[j]).want() == imports_of(
                    referrer@,
                    specifiers@,
                )[j],
        decreases specifiers@.len() - i,
    {
        match resolve_import(Some(referrer), specifiers[i].as_str()) {
            Ok(id) => {
                imports.push(
                    Wanted {
                        id,
                        specifier: specifiers[i].clone(),
                        referrer: Some(referrer.to_owned()),
                    },
                );
            },
            Err(e) => {
                assert(resolve(Some(referrer@), specifiers@[i as int]@) is None);
                return Err(e);
            },
        }
        i += 1;
    }
    assert(wants(imports@) =~= imports_of(referrer@, specifiers@));
    Ok(imports)
}

/// What is left of a stack of wanted modules, top last, once those whose
/// identifier is known are dropped from the top.
pub open spec fn skip_known(stack: Seq<Want>, known: Seq<Seq<char>>) -> Seq<Want>
    decreases stack.len(),
{
    if stack.len() > 0 && known.contains(stack.last().id) {
        skip_known(stack.drop_last(), known)
    } else {
        stack
    }
}

/// The stack with `imports` on top, the first import topmost.
pub open spec fn push_reversed(stack: Seq<Want>, imports: Seq<Want>) -> Seq<Want>
    decreases imports.len(),
{
    if imports.len() == 0 {
        stack
    } else {
        push_reversed(stack.push(imports.last()), imports.drop_last())
    }
}

/// What is left on top once the known modules are dropped is not known.
pub proof fn lemma_skip_known_top_unknown(stack: Seq<Want>, known: Seq<Seq<char>>)
    ensures
        skip_known(stack, known).len() > 0 ==> !known.contains(skip_known(stack, known).last().id),
        skip_known(stack, known).len() <= stack.len(),
    decreases stack.len(),
{
    if stack.len() > 0 && known.contains(stack.last().id) {
        lemma_skip_known_top_unknown(stack.drop_last(), known);
    }
}

/// The stack with imports pushed is the stack followed by the imports in
/// reverse: the first import is visited first, the last one last.
pub proof fn lemma_push_reversed(stack: Seq<Want>, imports: Seq<Want>)
    ensures
        push_reversed(stack, imports) == stack + imports.reverse(),
    decreases imports.len(),
{
    if imports.len() == 0 {
        assert(stack + imports.reverse() =~= stack);
    } else {
        lemma_push_reversed(stack.push(imports.last()), imports.drop_last());
        assert(stack.push(imports.last()) + imports.drop_last().reverse() =~= stack
            + imports.reverse());
    }
}

/// Imports that the map already knows add no work: this is what ends the walk
/// of a graph in which modules import each other.
pub proof fn lemma_known_imports_add_nothing(
    stack: Seq<Want>,
    imports: Seq<Want>,
    known: Seq<Seq<char>>,
)
    requires
        forall|i: int| 0 <= i < imports.len() ==> known.contains((#[trigger] imports[i]).id),
    ensures
        skip_known(push_reversed(stack, imports), known) == skip_known(stack, known),
    decreases imports.len(),
{
    if imports.len() > 0 {
        let top = imports.last();
        let rest = imports.drop_last();
        assert forall|i: int| 0 <= i < rest.len() implies known.contains(
            (#[trigger] rest[i]).id,
        ) by {
            assert(rest[i] == imports[i]);
        }
        lemma_known_imports_add_nothing(stack.push(top), rest, known);
        assert(stack.push(top).drop_last() =~= stack);
        assert(known.contains(imports[imports.len() - 1].id));
    }
}

/// Two modules that import each other are each visited at most once,
/// whatever the map held before: when the first is in the map, its import of
/// the second asks for the second exactly if the map does not hold it; and
/// when both are in the map, the second's import of the first asks for
/// nothing.
pub proof fn lemma_mutual_imports_end(known: Seq<Seq<char>>, a: Want, b: Want)
    requires
        known.contains(a.id),
    ensures
        skip_known(push_reversed(Seq::<Want>::empty(), seq![b]), known) == if known.contains(
            b.id,
        ) {
            Seq::<Want>::empty()
        } else {
            seq![b]
        },
        skip_known(push_reversed(Seq::<Want>::empty(), seq![a]), known.push(b.id)).len() == 0,
{
    let none = Seq::<Want>::empty();
    reveal_with_fuel(push_reversed, 2);
    reveal_with_fuel(skip_known, 2);
    assert(seq![b].drop_last() =~= none);
    assert(seq![a].drop_last() =~= none);
    assert(push_reversed(none, seq![b]) =~= seq![b]);
    assert(push_reversed(none, seq![a]) =~= seq![a]);
    let i = choose|i: int| 0 <= i < known.len() && known[i] == a.id;
    assert(known.push(b.id)[i] == a.id);
    assert(known.push(b.id).contains(a.id));
}

/// The depth-first walk of a module graph, as a stack of modules still to
/// visit.
pub struct ModuleLoader {
    wanted: Vec<Wanted>,
}

impl ModuleLoader {
    /// The modules still to visit, the next one last.
    pub closed spec fn pending(&self) -> Seq<Want> {
        wants(self.wanted@)
    }

    /// A walk that starts at `entry`.
    pub fn new(entry: Wanted) -> (l: ModuleLoader)
        ensures
            l.pending() == seq![entry.want()],
    {
        let mut wanted: Vec<Wanted> = Vec::new();
        wanted.push(entry);
        let l = ModuleLoader { wanted };
        assert(l.pending() =~= seq![entry.want()]);
        l
    }

    /// The next module to fetch and compile: the topmost wanted module whose
    /// identifier `map` does not hold yet, with the import that asked for it.
    /// Known ones above it are dropped. `None` when nothing is left to visit.
    pub fn next<M>(&mut self, map: &ModuleMap<M>) -> (r: Option<Wanted>)
        ensures
            match r {
                Some(w) => {
                    let rest = skip_known(old(self).pending(), map.ids());
                    &&& rest.len() > 0
                    &&& w.want() == rest.last()
                    &&& !map.has(w.id@)
                    &&& final(self).pending() == rest.drop_last()
                },
                None => {
                    &&& skip_known(old(self).pending(), map.ids()).len() == 0
                    &&& final(self).pending().len() == 0
                },
            },
    {
        loop
            invariant
                skip_known(self.pending(), map.ids()) == skip_known(old(self).pending(), map.ids()),
            decreases self.wanted@.len(),
        {
            let ghost before = self.pending();
            match self.wanted.pop() {
                None => {
                    return None;
                },
                Some(w) => {
                    assert(self.pending() =~= before.drop_last());
                    assert(w.want() == before.last());
                    if !map.contains(&w.id) {
                        return Some(w);
                    }
                },
            }
        }
    }

    /// Records that the module `id` was compiled to `record` and wants the
    /// modules `imports`, in source order. The record enters the map before
    /// any import is visited, so that a module which imports `id` in turn
    /// finds it there. The imports go on top of the stack, the first one
    /// topmost. Says whether the record entered the map: not if the map held
    /// `id` already, and then nothing changes.
    pub fn compiled<M>(
        &mut self,
        map: &mut ModuleMap<M>,
        id: String,
        record: M,
        imports: Vec<Wanted>,
    ) -> (added: bool)
        requires
            old(map).wf(),
        ensures
            final(map).wf(),
            added == !old(map).has(id@),
            added ==> {
                &&& final(map).ids() == old(map).ids().push(id@)
                &&& final(map).records() == old(map).records().push(record)
                &&& final(self).pending() == push_reversed(old(self).pending(), wants(imports@))
            },
            !added ==> {
                &&& final(map).ids() == old(map).ids()
                &&& final(map).records() == old(map).records()
                &&& final(self).pending() == old(self).pending()
            },
    {
        if !map.insert(id, record) {
            return false;
        }
        let mut rest = imports;
        let ghost all = wants(imports@);
        loop
            invariant
                all == wants(imports@),
                map.wf(),
                !old(map).has(id@),
                map.ids() == old(map).ids().push(id@),
                map.records() == old(map).records().push(record),
                push_reversed(self.pending(), wants(rest@)) == push_reversed(
                    old(self).pending(),
                    all,
                ),
            decreases rest@.len(),
        {
            let ghost stack = self.pending();
            let ghost left = wants(rest@);
            match rest.pop() {
                None => {
                    assert(left.len() == 0);
                    return true;
                },
                Some(w) => {
                    self.wanted.push(w);
                    assert(self.pending() =~= stack.push(left.last()));
                    assert(wants(rest@) =~= left.drop_last());
                },
            }
        }
    }
}

} // verus!
