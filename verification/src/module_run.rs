//! The run of a module graph, step by step: fetch and compile every module
//! of the graph once, link the graph, evaluate it. The run decides; the host
//! does what it is asked and reports what came of it.

use crate::engine::{evaluation_result, finish_evaluation};
use crate::errors::{names_import, ErrorKind, Exception, JsError};
use crate::modules::{
    imports_of, lemma_skip_known_top_unknown, push_reversed, resolve_imports, resolve_upto,
    skip_known, ModuleLoader, ModuleMap, Want, Wanted,
};
use crate::resolve::resolve;
use vstd::prelude::*;

verus! {

/// Where a run stands.
#[derive(Clone, Copy, Debug, PartialEq, Eq, Structural)]
pub enum ModulePhase {
    /// A module is being fetched and compiled.
    Compiling,
    /// Every module of the graph is compiled; the graph is being linked.
    Linking,
    /// The graph is linked and is being evaluated.
    Evaluating,
    /// The run is over.
    Finished,
}

/// What the host is asked to do next.
pub enum ModuleAction {
    /// Fetch the source of the module with this identifier and compile it.
    Compile(String),
    /// Link the graph under the entry module. Every import is looked up in
    /// the module map, which by now holds the whole graph.
    Instantiate,
    /// Evaluate the entry module.
    Evaluate,
}

/// What came of the action that the host was asked for.
pub enum ModuleEvent<M, V> {
    /// The module compiled to `record`; `specifiers` are its static imports
    /// in source order.
    Compiled { record: M, specifiers: Vec<String> },
    /// There is no module under the identifier that was asked for.
    Missing,
    /// The module did not compile.
    CompileFailed(Exception),
    /// The graph is linked.
    Instantiated,
    /// Linking failed.
    InstantiateFailed(Exception),
    /// Evaluation ended. `errored` holds the exception recorded on the
    /// module if it ended in the errored state, `value` what evaluation
    /// handed back, if anything.
    Evaluated { errored: Option<Exception>, value: Option<V> },
}

/// How a run goes on.
pub enum ModuleStep<V> {
    /// With this action.
    Next(ModuleAction),
    /// Not at all: this is its result.
    Done(Result<V, JsError>),
}

/// The run of one module graph.
pub struct ModuleRun {
    entry: String,
    phase: ModulePhase,
    current: Wanted,
    loader: ModuleLoader,
}

impl ModuleRun {
    /// The entry module: the one whose graph is run, and which is linked and
    /// evaluated.
    pub closed spec fn entry(&self) -> Seq<char> {
        self.entry@
    }

    /// Where the run stands.
    pub closed spec fn phase(&self) -> ModulePhase {
        self.phase
    }

    /// The module that was last asked for, with the import that asked for it.
    pub closed spec fn current(&self) -> Want {
        self.current.want()
    }

    /// The modules still to visit, the next one last.
    pub closed spec fn pending(&self) -> Seq<Want> {
        self.loader.pending()
    }

    /// Whether `event` can come of the action that the run asked for last.
    pub open spec fn expects<M, V>(&self, event: ModuleEvent<M, V>) -> bool {
        match event {
            ModuleEvent::Compiled { .. } => self.phase() == ModulePhase::Compiling,
            ModuleEvent::Missing => self.phase() == ModulePhase::Compiling,
            ModuleEvent::CompileFailed(_) => self.phase() == ModulePhase::Compiling,
            ModuleEvent::Instantiated => self.phase() == ModulePhase::Linking,
            ModuleEvent::InstantiateFailed(_) => self.phase() == ModulePhase::Linking,
            ModuleEvent::Evaluated { .. } => self.phase() == ModulePhase::Evaluating,
        }
    }

    /// Whether the run, with `wanted` to visit and `known` in the map, has
    /// turned to its next action: to compile the topmost wanted module that
    /// is not known, or to link where none is left.
    pub open spec fn turned(
        &self,
        wanted: Seq<Want>,
        known: Seq<Seq<char>>,
        action: ModuleAction,
    ) -> bool {
        let rest = skip_known(wanted, known);
        if rest.len() == 0 {
            &&& action is Instantiate
            &&& self.phase() == ModulePhase::Linking
            &&& self.pending().len() == 0
        } else {
            &&& action is Compile
            &&& action->Compile_0@ == rest.last().id
            &&& self.phase() == ModulePhase::Compiling
            &&& self.current() == rest.last()
            &&& self.pending() == rest.drop_last()
        }
    }

    /// Whether the run is over and failed with the exception `x` in the
    /// class `kind`.
    pub open spec fn failed<V>(&self, s: ModuleStep<V>, kind: ErrorKind, x: Exception) -> bool {
        &&& self.phase() == ModulePhase::Finished
        &&& s == ModuleStep::Done(Err::<V, JsError>(JsError { kind, exception: x }))
    }

    /// The identifier of the entry module.
    pub fn entry_id(&self) -> (id: &String)
        ensures
            id@ == self.entry(),
    {
        &self.entry
    }

    /// Where the run stands.
    pub fn get_phase(&self) -> (p: ModulePhase)
        ensures
            p == self.phase(),
    {
        self.phase
    }

    /// Whether `event` can come of the action that the run asked for last.
    pub fn accepts<M, V>(&self, event: &ModuleEvent<M, V>) -> (b: bool)
        ensures
            b == self.expects(*event),
    {
        match event {
            ModuleEvent::Compiled { .. } => self.phase == ModulePhase::Compiling,
            ModuleEvent::Missing => self.phase == ModulePhase::Compiling,
            ModuleEvent::CompileFailed(_) => self.phase == ModulePhase::Compiling,
            ModuleEvent::Instantiated => self.phase == ModulePhase::Linking,
            ModuleEvent::InstantiateFailed(_) => self.phase == ModulePhase::Linking,
            ModuleEvent::Evaluated { .. } => self.phase == ModulePhase::Evaluating,
        }
    }

    fn turn<M>(&mut self, map: &ModuleMap<M>) -> (action: ModuleAction)
        ensures
            final(self).turned(old(self).pending(), map.ids(), action),
            final(self).entry() == old(self).entry(),
    {
        match self.loader.next(map) {
            Some(w) => {
                let id = w.id.clone();
                self.current = w;
                self.phase = ModulePhase::Compiling;
                ModuleAction::Compile(id)
            },
            None => {
                self.phase = ModulePhase::Linking;
                ModuleAction::Instantiate
            },
        }
    }

    /// Starts the run of the graph under `entry`: asks for `entry` to be
    /// compiled, or for the graph to be linked where `map` holds `entry`
    /// already.
    pub fn start<M>(entry: Wanted, map: &ModuleMap<M>) -> (r: (ModuleRun, ModuleAction))
        ensures
            r.0.entry() == entry.want().id,
            r.0.turned(seq![entry.want()], map.ids(), r.1),
    {
        let current = entry.duplicate();
        let id = entry.id.clone();
        let mut run = ModuleRun {
            entry: id,
            phase: ModulePhase::Compiling,
            current,
            loader: ModuleLoader::new(entry),
        };
        let action = run.turn(map);
        (run, action)
    }

    /// Takes the run one step on. A compiled module enters the map before
    /// any of its imports is visited; its imports are resolved from it and
    /// visited depth first, the first import first, each module once. The
    /// first import that does not resolve, a missing module and a module
    /// that does not compile end the run, as a resolution error or a compile
    /// error. The resolution error of a missing module names the specifier as
    /// it was written and the module that imported it; for the entry module,
    /// the name as the host gave it. When no module is left the graph is linked, then evaluated; a
    /// failed link ends the run as a link error, and evaluation ends it with
    /// its result.
    pub fn step<M, V>(&mut self, map: &mut ModuleMap<M>, event: ModuleEvent<M, V>) -> (s: ModuleStep<
        V,
    >)
        requires
            old(map).wf(),
            old(self).expects(event),
        ensures
            final(map).wf(),
            final(self).entry() == old(self).entry(),
            step_of(*old(self), *old(map), event, *final(self), *final(map), s),
    {
        match event {
            ModuleEvent::Compiled { record, specifiers } => {
                match resolve_imports(self.current.id.as_str(), &specifiers) {
                    Ok(imports) => {
                        let id = self.current.id.clone();
                        self.loader.compiled(map, id, record, imports);
                        ModuleStep::Next(self.turn(map))
                    },
                    Err(e) => {
                        self.phase = ModulePhase::Finished;
                        ModuleStep::Done(Err(JsError::from_resolution(e)))
                    },
                }
            },
            ModuleEvent::Missing => {
                self.phase = ModulePhase::Finished;
                ModuleStep::Done(Err(JsError::from_resolution(self.current.missing())))
            },
            ModuleEvent::CompileFailed(x) => {
                self.phase = ModulePhase::Finished;
                ModuleStep::Done(Err(JsError::from_exception(ErrorKind::Compile, x)))
            },
            ModuleEvent::Instantiated => {
                self.phase = ModulePhase::Evaluating;
                ModuleStep::Next(ModuleAction::Evaluate)
            },
            ModuleEvent::InstantiateFailed(x) => {
                self.phase = ModulePhase::Finished;
                ModuleStep::Done(Err(JsError::from_exception(ErrorKind::Link, x)))
            },
            ModuleEvent::Evaluated { errored, value } => {
                self.phase = ModulePhase::Finished;
                ModuleStep::Done(finish_evaluation(errored, value))
            },
        }
    }

    /// Takes the run one step on where `event` can come of the action that
    /// the run asked for last, as `step` does; else gives `None` and leaves
    /// the run and the map as they were.
    pub fn try_step<M, V>(&mut self, map: &mut ModuleMap<M>, event: ModuleEvent<M, V>) -> (r:
        Option<ModuleStep<V>>)
        requires
            old(map).wf(),
        ensures
            final(map).wf(),
            final(self).entry() == old(self).entry(),
            match r {
                Some(s) => old(self).expects(event) && step_of(
                    *old(self),
                    *old(map),
                    event,
                    *final(self),
                    *final(map),
                    s,
                ),
                None => !old(self).expects(event) && *final(self) == *old(self) && *final(map)
                    == *old(map),
            },
    {
        if self.accepts(&event) {
            Some(self.step(map, event))
        } else {
            None
        }
    }
}

/// Whether the run `before`, with the modules `known`, on `event` becomes
/// the run `after`, with the modules `grown`, and goes on as `s` says.
pub open spec fn step_of<M, V>(
    before: ModuleRun,
    known: ModuleMap<M>,
    event: ModuleEvent<M, V>,
    after: ModuleRun,
    grown: ModuleMap<M>,
    s: ModuleStep<V>,
) -> bool {
    match event {
        ModuleEvent::Compiled { record, specifiers } => {
            let by = before.current().id;
            if resolve_upto(by, specifiers@, specifiers@.len() as int) {
                let fresh = !known.has(by);
                &&& grown.ids() == if fresh {
                    known.ids().push(by)
                } else {
                    known.ids()
                }
                &&& grown.records() == if fresh {
                    known.records().push(record)
                } else {
                    known.records()
                }
                &&& s is Next
                &&& after.turned(
                    if fresh {
                        push_reversed(before.pending(), imports_of(by, specifiers@))
                    } else {
                        before.pending()
                    },
                    grown.ids(),
                    s->Next_0,
                )
            } else {
                &&& grown.ids() == known.ids()
                &&& grown.records() == known.records()
                &&& after.phase() == ModulePhase::Finished
                &&& s is Done
                &&& s->Done_0 is Err
                &&& exists|k: int|
                    {
                        &&& 0 <= k < specifiers@.len()
                        &&& resolve_upto(by, specifiers@, k)
                        &&& resolve(Some(by), #[trigger] specifiers@[k]@) is None
                        &&& names_import(s->Done_0->Err_0, specifiers@[k]@, Some(by))
                    }
            }
        },
        ModuleEvent::Missing => {
            &&& grown.ids() == known.ids()
            &&& grown.records() == known.records()
            &&& after.phase() == ModulePhase::Finished
            &&& s is Done
            &&& s->Done_0 is Err
            &&& names_import(
                s->Done_0->Err_0,
                before.current().specifier,
                before.current().referrer,
            )
        },
        ModuleEvent::CompileFailed(x) => {
            &&& grown.ids() == known.ids()
            &&& grown.records() == known.records()
            &&& after.failed(s, ErrorKind::Compile, x)
        },
        ModuleEvent::Instantiated => {
            &&& grown.ids() == known.ids()
            &&& grown.records() == known.records()
            &&& after.phase() == ModulePhase::Evaluating
            &&& s is Next
            &&& s->Next_0 is Evaluate
        },
        ModuleEvent::InstantiateFailed(x) => {
            &&& grown.ids() == known.ids()
            &&& grown.records() == known.records()
            &&& after.failed(s, ErrorKind::Link, x)
        },
        ModuleEvent::Evaluated { errored, value } => {
            &&& grown.ids() == known.ids()
            &&& grown.records() == known.records()
            &&& after.phase() == ModulePhase::Finished
            &&& s is Done
            &&& evaluation_result(errored, value, s->Done_0)
        },
    }
}

/// A run asks for a module to be compiled only if the map does not hold it:
/// since a compiled module enters the map, no module is compiled twice.
pub proof fn lemma_compiles_only_unknown(
    run: ModuleRun,
    wanted: Seq<Want>,
    known: Seq<Seq<char>>,
    action: ModuleAction,
)
    requires
        run.turned(wanted, known, action),
        action is Compile,
    ensures
        !known.contains(action->Compile_0@),
        run.phase() == ModulePhase::Compiling,
        run.current().id == action->Compile_0@,
{
    lemma_skip_known_top_unknown(wanted, known);
}

/// The order of a run, whatever the map holds: the graph is linked only when
/// no module is left to compile, it is evaluated only after it was linked,
/// and a value is handed back only after it was evaluated. So no module's
/// code runs before every module of the graph is compiled and linked.
pub proof fn lemma_link_before_evaluate<M, V>(
    before: ModuleRun,
    known: ModuleMap<M>,
    event: ModuleEvent<M, V>,
    after: ModuleRun,
    grown: ModuleMap<M>,
    s: ModuleStep<V>,
)
    requires
        before.expects(event),
        step_of(before, known, event, after, grown, s),
    ensures
        s is Next && s->Next_0 is Instantiate ==> event is Compiled && before.phase()
            == ModulePhase::Compiling && after.phase() == ModulePhase::Linking
            && after.pending().len() == 0,
        s is Next && s->Next_0 is Evaluate ==> event is Instantiated && before.phase()
            == ModulePhase::Linking && after.phase() == ModulePhase::Evaluating,
        s is Done && s->Done_0 is Ok ==> event is Evaluated && before.phase()
            == ModulePhase::Evaluating,
        s is Done ==> after.phase() == ModulePhase::Finished,
        s is Next && s->Next_0 is Compile ==> event is Compiled && !grown.has(
            s->Next_0->Compile_0@,
        ),
{
    if event is Compiled && s is Next {
        let by = before.current().id;
        let specifiers = event->Compiled_specifiers;
        let wanted = if !known.has(by) {
            push_reversed(before.pending(), imports_of(by, specifiers@))
        } else {
            before.pending()
        };
        lemma_skip_known_top_unknown(wanted, grown.ids());
    }
}

} // verus!
