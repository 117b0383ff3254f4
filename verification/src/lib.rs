//! The scheduling and bridging core of an embedded JavaScript runtime: the
//! timer queue and completion table of the event loop, the module map and its
//! loader, and the rules by which the outcome of a VM run becomes a result.

pub mod bindings;
pub mod engine;
pub mod errors;
pub mod handles;
pub mod module_run;
pub mod modules;
pub mod resolve;
pub mod runtime;
pub mod timers;
