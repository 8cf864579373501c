//! Selecting the stale snapshots of a ZFS pool and destroying them in
//! batches, one dataset at a time.

pub mod destroy;
pub mod enums;
pub mod parse;
pub mod plan;
pub mod run;
pub mod select;
pub mod structs;
pub mod testing;
pub mod text;
pub mod traits;

pub use destroy::{build_and_destroy, build_list_to_delete, destroy_snapshots};
pub use parse::{get_parsed_snapshots, get_snapshots, get_snapshots_base, parse_snapshot};
pub use plan::{get_datasets, plan_batches};
pub use run::{next_action, Action};
pub use select::{
    get_excluded_snapshots, get_relevant_snapshots, get_snapshots_for, get_stale_snapshots,
    remove_excluded_snapshots, resolve_exclusions,
};
pub use structs::{get_cutoff_date, Config, Snapshot, Timestamp, SNAPSHOT_FORMAT};
