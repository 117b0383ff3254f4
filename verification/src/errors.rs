//! The structured error that every failure of the engine is turned into.

use vstd::prelude::*;

verus! {

/// The classes of failure.
#[derive(Clone, Copy, Debug, PartialEq, Eq, Structural)]
pub enum ErrorKind {
    /// A module specifier is invalid or names nothing reachable.
    Resolution,
    /// Source text did not compile.
    Compile,
    /// An import or export could not be satisfied while linking.
    Link,
    /// Script or module code threw while it ran.
    Runtime,
    /// Execution was aborted from outside before it gave a result.
    EngineTerminated,
    /// The runtime was set up wrongly: an unknown binding, a broken bootstrap.
    Configuration,
}

/// An exception as the VM reported it, in plain values.
#[derive(Clone, Debug)]
pub struct Exception {
    /// The exception's message.
    pub message: String,
    /// Name of the script or module it arose in.
    pub resource_name: String,
    /// Line of the position, counted from 1.
    pub line: u64,
    /// Column of the position.
    pub column: u64,
    /// The stack frames, innermost first.
    pub stack: Vec<String>,
}

/// A failed import: the specifier that did not resolve and who asked for it.
#[derive(Clone, Debug)]
pub struct ResolutionError {
    /// The offending specifier.
    pub specifier: String,
    /// The importing module, absent for an entry module.
    pub referrer: Option<String>,
}

/// A failure of the engine: its class and the diagnostic that came with it.
#[derive(Clone, Debug)]
pub struct JsError {
    /// The class of the failure.
    pub kind: ErrorKind,
    /// Message, source name, position and stack.
    pub exception: Exception,
}

/// Message of the failure reported when evaluation ends with neither a value
/// nor an exception.
pub open spec fn terminated_message() -> Seq<char> {
    "Cannot evaluate module, because JavaScript execution has been terminated."@
}

/// Whether `e` is the failure of class `kind` that carries `message` and
/// nothing else: no source name, no position, no stack.
pub open spec fn is_generic(e: JsError, kind: ErrorKind, message: Seq<char>) -> bool {
    &&& e.kind == kind
    &&& e.exception.message@ == message
    &&& e.exception.resource_name@ == Seq::<char>::empty()
    &&& e.exception.line == 0
    &&& e.exception.column == 0
    &&& e.exception.stack@ == Seq::<String>::empty()
}

/// Whether `e` reports that `specifier`, imported by `referrer`, did not
/// resolve: a resolution failure whose message is the specifier and whose
/// source name is the referrer, empty for an entry module.
pub open spec fn names_import(e: JsError, specifier: Seq<char>, referrer: Option<Seq<char>>) -> bool {
    &&& e.kind == ErrorKind::Resolution
    &&& e.exception.message@ == specifier
    &&& e.exception.resource_name@ == match referrer {
        Some(by) => by,
        None => Seq::<char>::empty(),
    }
    &&& e.exception.line == 0
    &&& e.exception.column == 0
    &&& e.exception.stack@ == Seq::<String>::empty()
}

/// Whether `e` reports the failed import `r`.
pub open spec fn reports_import(e: JsError, r: ResolutionError) -> bool {
    names_import(
        e,
        r.specifier@,
        match r.referrer {
            Some(by) => Some(by@),
            None => None,
        },
    )
}

impl JsError {
    /// The failure of class `kind` that the VM reported as `exception`.
    pub fn from_exception(kind: ErrorKind, exception: Exception) -> (e: JsError)
        ensures
            e == (JsError { kind, exception }),
    {
        JsError { kind, exception }
    }

    /// A failure of class `kind` that carries a message and nothing else.
    pub fn generic(kind: ErrorKind, message: &str) -> (e: JsError)
        ensures
            is_generic(e, kind, message@),
    {
        JsError {
            kind,
            exception: Exception {
                message: message.to_owned(),
                resource_name: String::new(),
                line: 0,
                column: 0,
                stack: Vec::new(),
            },
        }
    }

    /// The resolution failure that reports the failed import `r`.
    pub fn from_resolution(r: ResolutionError) -> (e: JsError)
        ensures
            reports_import(e, r),
    {
        let resource_name = match r.referrer {
            Some(by) => by,
            None => String::new(),
        };
        JsError {
            kind: ErrorKind::Resolution,
            exception: Exception {
                message: r.specifier,
                resource_name,
                line: 0,
                column: 0,
                stack: Vec::new(),
            },
        }
    }
}

} // verus!
