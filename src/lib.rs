//! An interpreter for a self-describing object language whose values,
//! functions, implementations and test cases are all terms: strings, maps
//! keyed by identifiers, and arrays. The evaluator resolves references
//! through a read-only object store, dispatches function calls, puts
//! arguments into compositions and runs a few built-ins; each step is proved
//! against a specification of the language over the terms' mathematical
//! values.

pub mod composition_tool;
pub mod data_entry;
pub mod describe;
pub mod evaluation_error;
pub mod global_datas;
pub mod parse_tool;
pub mod reference;
pub mod reify;
pub mod runner;

pub use composition_tool::recurse_and_replace_placeholder;
pub use data_entry::{DataEntry, IdMap, Term};
pub use evaluation_error::{EvaluationError, EvaluationErrorKind, Fault, TraceInfo};
pub use global_datas::{GlobalDatas, StoreError};
pub use parse_tool::{
    MaybeOwned, PotentialReference, WfFunction, WfFunctionCall, WfImplementation, WfKey, WfParse,
    WfPersistentObject, WfTestCase, WfType, WfTypedList, WfUntyped,
};
pub use reference::{Reference, Zid, ZidParseError};
pub use runner::{Provenance, Runner, RunnerOption};
