//! Splits one source file into several modules by the imports its functions use.
//!
//! Functions are grouped by their usage set, the set of imported names that their
//! bodies reference; each group becomes a module file, and the entry function is
//! reassembled into an entry file with the original imports and the module wiring.
pub mod imports;
pub mod laws;
pub mod plan;
pub mod split;
pub mod syntax;
pub mod table;
pub mod text;
pub mod unit;

pub use imports::{introduced_names, UseTreeList, UseTreeNode};
pub use plan::{split_unit, ModuleArtifact, SplitOutput};
pub use split::{split_source, SplitError};
pub use table::{lookup, usage_set};
pub use text::sanitize_filename;
pub use unit::{FunctionUnit, ImportStmt, Unit};
