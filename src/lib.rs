//! Extraction of ZIP archives: the policy that turns archive entries into
//! filesystem steps, proved against its contracts, and a model of the tree
//! those steps leave behind.
pub mod archive;
pub mod path;
pub mod plan;
pub mod tree;

pub use archive::{read_archive, ExtractError, ReadOutcome};
pub use path::{destination, is_dir_name, is_safe_name, parent_dir};
pub use plan::{plan_entries, plan_entry, Action, EntryRecord, Step};
