//! The runtime: the state that belongs to one VM instance, and the entry
//! points through which the host runs code and the event loop takes its turns.

use crate::bindings::BindingRegistry;
use crate::engine::{finish_script, script_result, ScriptOutcome};
use crate::errors::{names_import, JsError};
use crate::handles::{AsyncHandle, HandleTable};
use crate::module_run::{step_of, ModuleAction, ModuleEvent, ModuleRun, ModuleStep};
use crate::modules::{ModuleMap, Want, Wanted};
use crate::resolve::{resolve, resolve_import};
use crate::timers::{
    due_count, lemma_due_split, ordered, with_entry, TimerEntry, TimerQueue, Timeout,
};
use vstd::prelude::*;

verus! {

/// The state kept for one VM instance. `C` is the durable handle of the
/// global context, `B` an initializer of a native binding, `M` a compiled
/// module, `P` a promise resolver and `F` a callback function.
pub struct JsRuntimeState<C, B, M, P, F> {
    /// The global context in which all code runs.
    pub context: C,
    /// The compiled modules, one for each canonical identifier.
    pub modules: ModuleMap<M>,
    /// The native bindings.
    pub bindings: BindingRegistry<B>,
    /// The pending timers.
    pub timers: TimerQueue,
    /// The pending asynchronous completions.
    pub async_handles: HandleTable<P, F>,
}

impl<C, B, M, P, F> JsRuntimeState<C, B, M, P, F> {
    /// The collections of the state keep their invariants.
    pub open spec fn wf(&self) -> bool {
        &&& self.modules.wf()
        &&& self.timers.wf()
        &&& self.async_handles.wf()
    }
}

/// The completions that are left pending once those of the timers `due`
/// were taken out.
pub open spec fn left_pending<P, F>(
    table: Map<usize, AsyncHandle<P, F>>,
    due: Seq<TimerEntry>,
) -> Map<usize, AsyncHandle<P, F>>
    decreases due.len(),
{
    if due.len() == 0 {
        table
    } else {
        left_pending(table, due.drop_last()).remove(due.last().timeout.handle)
    }
}

/// The completion that the `i`-th of the timers `due` delivers: what is
/// pending under its handle when the timers before it have taken theirs.
pub open spec fn completion_of<P, F>(
    table: Map<usize, AsyncHandle<P, F>>,
    due: Seq<TimerEntry>,
    i: int,
) -> Option<AsyncHandle<P, F>> {
    let pending = left_pending(table, due.take(i));
    let key = due[i].timeout.handle;
    if pending.contains_key(key) {
        Some(pending[key])
    } else {
        None
    }
}

/// A runtime around one VM instance, whose state it owns.
pub struct JsRuntime<C, B, M, P, F> {
    /// The state of the instance.
    pub state: JsRuntimeState<C, B, M, P, F>,
}

impl<C, B, M, P, F> JsRuntime<C, B, M, P, F> {
    /// A runtime for the context `context` with the native bindings
    /// `bindings`: no module is loaded, no timer and no completion pending.
    pub fn new(context: C, bindings: Vec<(String, B)>) -> (runtime: Self)
        ensures
            runtime.state.context == context,
            runtime.state.bindings@ == bindings@,
            runtime.state.modules.ids() == Seq::<Seq<char>>::empty(),
            runtime.state.modules.records() == Seq::<M>::empty(),
            runtime.state.timers@ == Seq::<TimerEntry>::empty(),
            runtime.state.timers.enrolled() == 0,
            runtime.state.async_handles@ == Map::<usize, AsyncHandle<P, F>>::empty(),
            runtime.state.async_handles.issued() == 0,
            runtime.state.wf(),
    {
        JsRuntime {
            state: JsRuntimeState {
                context,
                modules: ModuleMap::new(),
                bindings: BindingRegistry::new(bindings),
                timers: TimerQueue::new(),
                async_handles: HandleTable::new(),
            },
        }
    }

    /// The result of running a classic script, from how far the run got: the
    /// value of a completed run, a compile error for source that did not
    /// compile, a runtime error for a script that threw.
    pub fn execute_script<V>(&mut self, outcome: ScriptOutcome<V>) -> (r: Result<V, JsError>)
        ensures
            script_result(outcome, r),
            *final(self) == *old(self),
    {
        finish_script(outcome)
    }

    /// The identifier under which an entry module is loaded: `filename` as it
    /// stands for a module whose source is supplied in memory, else what
    /// `filename` resolves to without a referrer.
    pub fn module_entry(&self, filename: &str, inline: bool) -> (r: Result<String, JsError>)
        ensures
            inline ==> r is Ok && r->Ok_0@ == filename@,
            !inline ==> match resolve(None, filename@) {
                Some(id) => r is Ok && r->Ok_0@ == id,
                None => r is Err && names_import(r->Err_0, filename@, None),
            },
    {
        if inline {
            return Ok(filename.to_owned());
        }
        match resolve_import(None, filename) {
            Ok(id) => Ok(id),
            Err(e) => Err(JsError::from_resolution(e)),
        }
    }

    /// Starts the run of the module graph under `filename`, which is taken
    /// as it stands where the module's source is supplied in memory and is
    /// resolved without a referrer else. Gives the run and its first action,
    /// or the resolution error of a name that does not resolve. The entry
    /// module is wanted under `filename` as given and has no referrer.
    pub fn begin_module(&self, filename: &str, inline: bool) -> (r: Result<
        (ModuleRun, ModuleAction),
        JsError,
    >)
        ensures
            match (if inline {
                Some(filename@)
            } else {
                resolve(None, filename@)
            }) {
                Some(id) => r is Ok && r->Ok_0.0.entry() == id && r->Ok_0.0.turned(
                    seq![(Want { id, specifier: filename@, referrer: None })],
                    self.state.modules.ids(),
                    r->Ok_0.1,
                ),
                None => r is Err && names_import(r->Err_0, filename@, None),
            },
    {
        match self.module_entry(filename, inline) {
            Ok(id) => {
                let entry = Wanted { id, specifier: filename.to_owned(), referrer: None };
                Ok(ModuleRun::start(entry, &self.state.modules))
            },
            Err(e) => Err(e),
        }
    }

    /// Takes the run of a module graph one step on, with what came of the
    /// action that the run asked for last: see `ModuleRun::step`. The modules
    /// of the graph enter this runtime's module map; nothing else changes.
    pub fn execute_module<V>(&mut self, run: &mut ModuleRun, event: ModuleEvent<M, V>) -> (s:
        ModuleStep<V>)
        requires
            old(self).state.wf(),
            old(run).expects(event),
        ensures
            final(self).state.wf(),
            final(run).entry() == old(run).entry(),
            step_of(*old(run), old(self).state.modules, event, *final(run), final(self).state.modules, s),
            final(self).state.timers == old(self).state.timers,
            final(self).state.async_handles == old(self).state.async_handles,
            final(self).state.bindings == old(self).state.bindings,
            final(self).state.context == old(self).state.context,
    {
        run.step(&mut self.state.modules, event)
    }

    /// The state of the given runtime.
    pub fn state(runtime: &Self) -> (s: &JsRuntimeState<C, B, M, P, F>)
        ensures
            *s == runtime.state,
    {
        &runtime.state
    }

    /// The state of this runtime.
    pub fn get_state(&self) -> (s: &JsRuntimeState<C, B, M, P, F>)
        ensures
            *s == self.state,
    {
        Self::state(self)
    }

    /// The global context of this runtime.
    pub fn context(&self) -> (c: &C)
        ensures
            *c == self.state.context,
    {
        &self.state.context
    }

    /// Enrols a completion with the event loop and returns its key, which is
    /// fresh: the number of completions enrolled before.
    pub fn ev_enroll_async_handle(&mut self, handle: AsyncHandle<P, F>) -> (key: usize)
        requires
            old(self).state.wf(),
            old(self).state.async_handles.issued() < usize::MAX,
        ensures
            final(self).state.wf(),
            key == old(self).state.async_handles.issued(),
            !old(self).state.async_handles@.contains_key(key),
            final(self).state.async_handles@ == old(self).state.async_handles@.insert(key, handle),
            final(self).state.async_handles.issued() == key + 1,
            final(self).state.timers == old(self).state.timers,
            final(self).state.modules == old(self).state.modules,
            final(self).state.bindings == old(self).state.bindings,
            final(self).state.context == old(self).state.context,
    {
        self.state.async_handles.enroll(handle)
    }

    /// Enrols `handle` unless the keys are used up; `None` then, with the
    /// runtime as it was.
    pub fn ev_try_enroll_async_handle(&mut self, handle: AsyncHandle<P, F>) -> (key: Option<usize>)
        requires
            old(self).state.wf(),
        ensures
            final(self).state.wf(),
            match key {
                Some(k) => {
                    &&& k == old(self).state.async_handles.issued()
                    &&& k < usize::MAX
                    &&& final(self).state.async_handles@ == old(self).state.async_handles@.insert(
                        k,
                        handle,
                    )
                    &&& final(self).state.async_handles.issued() == k + 1
                },
                None => {
                    &&& old(self).state.async_handles.issued() == usize::MAX
                    &&& final(self).state.async_handles == old(self).state.async_handles
                },
            },
            final(self).state.timers == old(self).state.timers,
            final(self).state.modules == old(self).state.modules,
            final(self).state.bindings == old(self).state.bindings,
            final(self).state.context == old(self).state.context,
    {
        if self.state.async_handles.can_enroll() {
            Some(self.ev_enroll_async_handle(handle))
        } else {
            None
        }
    }

    /// Takes the completion under `key` out of the event loop for delivery.
    pub fn ev_take_async_handle(&mut self, key: usize) -> (handle: Option<AsyncHandle<P, F>>)
        requires
            old(self).state.wf(),
        ensures
            final(self).state.wf(),
            handle == (if old(self).state.async_handles@.contains_key(key) {
                Some(old(self).state.async_handles@[key])
            } else {
                None
            }),
            final(self).state.async_handles@ == old(self).state.async_handles@.remove(key),
            final(self).state.async_handles.issued() == old(self).state.async_handles.issued(),
            final(self).state.timers == old(self).state.timers,
            final(self).state.modules == old(self).state.modules,
            final(self).state.bindings == old(self).state.bindings,
            final(self).state.context == old(self).state.context,
    {
        self.state.async_handles.take(key)
    }

    /// Enrols `timeout` at time `now`, in milliseconds: it fires at
    /// `now + timeout.delay`, behind every timer that fires at that time or
    /// earlier.
    pub fn ev_enroll_timeout(&mut self, now: u64, timeout: Timeout)
        requires
            old(self).state.wf(),
            now + timeout.delay <= u64::MAX,
            old(self).state.timers.next_number() < u64::MAX,
        ensures
            final(self).state.wf(),
            final(self).state.timers.enrolled() == old(self).state.timers.next_number() + 1,
            final(self).state.timers@.len() == old(self).state.timers@.len() + 1,
            final(self).state.timers@ == with_entry(
                old(self).state.timers@,
                (now + timeout.delay) as u64,
                old(self).state.timers.next_number(),
                timeout,
            ),
            final(self).state.async_handles == old(self).state.async_handles,
            final(self).state.modules == old(self).state.modules,
            final(self).state.bindings == old(self).state.bindings,
            final(self).state.context == old(self).state.context,
    {
        self.state.timers.enroll(now, timeout)
    }

    /// Enrols `timeout` at time `now` unless its fire time or the enrolment
    /// counter would not fit in 64 bits; says whether it did, and leaves the
    /// runtime as it was where it did not.
    pub fn ev_try_enroll_timeout(&mut self, now: u64, timeout: Timeout) -> (done: bool)
        requires
            old(self).state.wf(),
        ensures
            final(self).state.wf(),
            done == (now + timeout.delay <= u64::MAX && old(self).state.timers.next_number()
                < u64::MAX),
            done ==> final(self).state.timers.enrolled() == old(self).state.timers.next_number() + 1
                && final(self).state.timers@.len() == old(self).state.timers@.len() + 1
                && final(self).state.timers@ == with_entry(
                old(self).state.timers@,
                (now + timeout.delay) as u64,
                old(self).state.timers.next_number(),
                timeout,
            ),
            !done ==> final(self).state.timers == old(self).state.timers,
            final(self).state.async_handles == old(self).state.async_handles,
            final(self).state.modules == old(self).state.modules,
            final(self).state.bindings == old(self).state.bindings,
            final(self).state.context == old(self).state.context,
    {
        if self.state.timers.can_enroll(now, &timeout) {
            self.ev_enroll_timeout(now, timeout);
            true
        } else {
            false
        }
    }

    /// One turn of the event loop at time `now`: takes out the timers that
    /// fire at `now` or earlier and hands them back in the order in which
    /// their completions are to be delivered, by fire time and, where fire
    /// times are equal, by enrolment. Later timers stay pending.
    pub fn ev_run_timers(&mut self, now: u64) -> (due: Vec<TimerEntry>)
        requires
            old(self).state.wf(),
        ensures
            final(self).state.wf(),
            due@ == old(self).state.timers@.take(due_count(old(self).state.timers@, now) as int),
            final(self).state.timers@ == old(self).state.timers@.skip(
                due_count(old(self).state.timers@, now) as int,
            ),
            final(self).state.timers.enrolled() == old(self).state.timers.enrolled(),
            ordered(due@),
            forall|i: int| 0 <= i < due@.len() ==> (#[trigger] due@[i]).fire_time <= now,
            forall|i: int|
                0 <= i < final(self).state.timers@.len() ==> (
                #[trigger] final(self).state.timers@[i]).fire_time > now,
            final(self).state.async_handles == old(self).state.async_handles,
            final(self).state.modules == old(self).state.modules,
            final(self).state.bindings == old(self).state.bindings,
            final(self).state.context == old(self).state.context,
    {
        self.state.timers.take_due(now)
    }

    /// One turn of the event loop at time `now`: takes out the timers that
    /// fire at `now` or earlier, and for each of them, in firing order, the
    /// completion that is pending under its handle. The host delivers them in
    /// this order. A timer whose completion is no longer pending delivers
    /// nothing. Later timers and other completions stay pending.
    pub fn ev_run_turn(&mut self, now: u64) -> (fired: Vec<(TimerEntry, Option<AsyncHandle<P, F>>)>)
        requires
            old(self).state.wf(),
        ensures
            final(self).state.wf(),
            fired@.len() == due_count(old(self).state.timers@, now),
            forall|i: int|
                0 <= i < fired@.len() ==> (#[trigger] fired@[i]).0 == old(self).state.timers@[i]
                    && fired@[i].1 == completion_of(
                    old(self).state.async_handles@,
                    old(self).state.timers@.take(due_count(old(self).state.timers@, now) as int),
                    i,
                ),
            final(self).state.timers@ == old(self).state.timers@.skip(
                due_count(old(self).state.timers@, now) as int,
            ),
            final(self).state.timers.enrolled() == old(self).state.timers.enrolled(),
            final(self).state.async_handles@ == left_pending(
                old(self).state.async_handles@,
                old(self).state.timers@.take(due_count(old(self).state.timers@, now) as int),
            ),
            final(self).state.async_handles.issued() == old(self).state.async_handles.issued(),
            final(self).state.modules == old(self).state.modules,
            final(self).state.bindings == old(self).state.bindings,
            final(self).state.context == old(self).state.context,
    {
        let ghost table = self.state.async_handles@;
        let ghost queue = self.state.timers@;
        proof {
            lemma_due_split(queue, now);
        }
        let due = self.state.timers.take_due(now);
        let mut fired: Vec<(TimerEntry, Option<AsyncHandle<P, F>>)> = Vec::new();
        let mut i: usize = 0;
        assert(due@.take(0) =~= Seq::<TimerEntry>::empty());
        while i < due.len()
            invariant
                i <= due@.len(),
                fired@.len() == i,
                self.state.wf(),
                self.state.async_handles@ == left_pending(table, due@.take(i as int)),
                self.state.async_handles.issued() == old(self).state.async_handles.issued(),
                due@ == queue.take(due_count(queue, now) as int),
                due_count(queue, now) <= queue.len(),
                self.state.timers@ == queue.skip(due_count(queue, now) as int),
                self.state.timers.enrolled() == old(self).state.timers.enrolled(),
                self.state.modules == old(self).state.modules,
                self.state.bindings == old(self).state.bindings,
                self.state.context == old(self).state.context,
                forall|j: int|
                    0 <= j < i ==> (#[trigger] fired@[j]).0 == due@[j] && fired@[j].1
                        == completion_of(table, due@, j),
            decreases due@.len() - i,
        {
            let entry = due[i];
            let handle = self.state.async_handles.take(entry.timeout.handle);
            proof {
                assert(due@.take(i + 1).drop_last() =~= due@.take(i as int));
                assert(due@.take(i + 1).last() == due@[i as int]);
            }
            fired.push((entry, handle));
            i += 1;
        }
        assert(due@.take(i as int) =~= due@);
        fired
    }

    /// Whether the event loop has nothing pending: no timer and no completion.
    pub fn ev_is_idle(&self) -> (idle: bool)
        ensures
            idle == (self.state.timers@.len() == 0 && self.state.async_handles@.len() == 0),
    {
        self.state.timers.is_empty() && self.state.async_handles.is_empty()
    }
}

} // verus!
