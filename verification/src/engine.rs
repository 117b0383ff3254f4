//! How a run of the VM becomes a result: which value is handed back, and
//! which class of failure each way of going wrong belongs to.

use crate::errors::{is_generic, terminated_message, ErrorKind, Exception, JsError};
use vstd::prelude::*;

verus! {

/// How far the run of a classic script got.
pub enum ScriptOutcome<V> {
    /// The source did not compile; the VM caught this.
    CompileFailed(Exception),
    /// The script compiled and threw while it ran.
    RunFailed(Exception),
    /// The script ran to completion with this value.
    Completed(V),
}

/// The result of a script run.
pub open spec fn script_result<V>(outcome: ScriptOutcome<V>, r: Result<V, JsError>) -> bool {
    match outcome {
        ScriptOutcome::CompileFailed(x) => r == Err::<V, JsError>(
            JsError { kind: ErrorKind::Compile, exception: x },
        ),
        ScriptOutcome::RunFailed(x) => r == Err::<V, JsError>(
            JsError { kind: ErrorKind::Runtime, exception: x },
        ),
        ScriptOutcome::Completed(v) => r == Ok::<V, JsError>(v),
    }
}

/// The result of evaluating a module graph. `errored` is the exception
/// recorded on the module if it ended in the errored state, `value` what
/// evaluation handed back. An errored module fails with its exception even
/// where evaluation handed something back; an evaluation without value and
/// without exception was terminated from outside.
pub open spec fn evaluation_result<V>(
    errored: Option<Exception>,
    value: Option<V>,
    r: Result<V, JsError>,
) -> bool {
    match (errored, value) {
        (Some(x), _) => r == Err::<V, JsError>(JsError { kind: ErrorKind::Runtime, exception: x }),
        (None, Some(v)) => r == Ok::<V, JsError>(v),
        (None, None) => r is Err && is_generic(
            r->Err_0,
            ErrorKind::EngineTerminated,
            terminated_message(),
        ),
    }
}

/// Turns the outcome of a script run into the caller's result.
pub fn finish_script<V>(outcome: ScriptOutcome<V>) -> (r: Result<V, JsError>)
    ensures
        script_result(outcome, r),
{
    match outcome {
        ScriptOutcome::CompileFailed(x) => Err(JsError::from_exception(ErrorKind::Compile, x)),
        ScriptOutcome::RunFailed(x) => Err(JsError::from_exception(ErrorKind::Runtime, x)),
        ScriptOutcome::Completed(v) => Ok(v),
    }
}

/// Turns what evaluation left behind into the caller's result.
pub fn finish_evaluation<V>(errored: Option<Exception>, value: Option<V>) -> (r: Result<
    V,
    JsError,
>)
    ensures
        evaluation_result(errored, value, r),
{
    match errored {
        Some(x) => Err(JsError::from_exception(ErrorKind::Runtime, x)),
        None => match value {
            Some(v) => Ok(v),
            None => Err(
                JsError::generic(
                    ErrorKind::EngineTerminated,
                    "Cannot evaluate module, because JavaScript execution has been terminated.",
                ),
            ),
        },
    }
}

} // verus!
