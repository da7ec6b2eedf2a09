//! An interactive debugger core for a deterministic constraint-checking
//! stack machine: a replay-based stepping engine, a state-snapshot builder
//! that derives pre- and post-mutation state slots, and a typed stack
//! decoder that renders raw machine words as structured values.

pub mod auto;
pub mod builder;
pub mod decode;
pub mod model;
pub mod session;
pub mod snapshot;
pub mod source;
pub mod store;
pub mod text;
pub mod vm;

pub use auto::Auto;
pub use builder::StateBuilder;
pub use decode::{get_size, get_total_size, parse_type};
pub use model::{Directive, Mutation, Predicate, PredicateAddress, SolutionData, SolutionModel};
pub use session::{
    classify_end_stack, end, help_msg, types_msg, ConstraintDebugger, EndStatus, Outcome, Session,
    SessionError,
};
pub use snapshot::{Slots, SnapshotBuild};
pub use source::{show_code, ShowOutput, Source};
pub use store::Store;

