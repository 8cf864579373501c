//! A storage stand-in that answers from memory, and shorthands for building
//! values, for use in tests.

use crate::enums::{ConfigError, SystemResult};
use crate::structs::{
    days_before, parse_date, snapshot_time, Config, Snapshot, SnapshotView, Timestamp,
    DEFAULT_CUTOFF,
};
use crate::text::{lemma_tokens, split, texts, tokens};
use crate::traits::Communicator;
use vstd::prelude::*;

verus! {

/// A communicator that touches nothing: it lists four fixed snapshots, names
/// two of them as excluded, and takes every destroy call as done.
pub struct FakeCommunicator {
    does_file_exist: bool,
}

impl FakeCommunicator {
    /// What this communicator says of every file: that it exists, or that
    /// it does not.
    pub closed spec fn finds_files(&self) -> bool {
        self.does_file_exist
    }

    pub fn new(does_file_exist: bool) -> (r: FakeCommunicator)
        ensures
            r.finds_files() == does_file_exist,
    {
        FakeCommunicator { does_file_exist }
    }
}

impl Communicator for FakeCommunicator {
    fn get_snapshots(&self) -> (r: SystemResult)
        ensures
            r matches Ok(listing) && listing@ == "boot@2020-08-12-1237-49-CHECKPOINT\n\
                backup/tank/gentoo/home@2020-07-13-2354-09-CHECKPOINT\n\
                tank/gentoo/os@2020-07-13-2354-09-CHECKPOINT\n\
                tank/gentoo/os@2020-08-13-2354-09-CHECKPOINT\n"@,
    {
        Ok(
            String::from_str(
                "boot@2020-08-12-1237-49-CHECKPOINT\n\
                backup/tank/gentoo/home@2020-07-13-2354-09-CHECKPOINT\n\
                tank/gentoo/os@2020-07-13-2354-09-CHECKPOINT\n\
                tank/gentoo/os@2020-08-13-2354-09-CHECKPOINT\n",
            ),
        )
    }

    fn destroy_snapshots(&self, snapshots: String) -> (r: SystemResult)
        ensures
            r == Ok::<String, crate::enums::SystemError>(snapshots),
    {
        Ok(snapshots)
    }

    fn get_excluded_snapshots(&self, _exclude_file: &str) -> (r: SystemResult)
        ensures
            r matches Ok(listing) && listing@ == "boot@2020-08-12-1237-49-CHECKPOINT\n\
            tank/gentoo/os@2020-07-13-2354-09-CHECKPOINT\n"@,
    {
        Ok(
            String::from_str(
                "boot@2020-08-12-1237-49-CHECKPOINT\n\
            tank/gentoo/os@2020-07-13-2354-09-CHECKPOINT\n",
            ),
        )
    }

    fn does_file_exist(&self, _filename: &str) -> (r: bool)
        ensures
            r == self.finds_files(),
    {
        self.does_file_exist
    }
}

/// A configuration for `pool`, with the cutoff `date` and the label filter
/// `label`; no exclude file, nothing shown, a hundred snapshots to a batch,
/// and no confirmation asked.
pub fn get_fake_config(pool: &str, date: &str, label: &str) -> (r: Result<Config, ConfigError>)
    ensures
        r == Err::<Config, ConfigError>(ConfigError::EmptyPool) <==> pool@.len() == 0,
        !(r == Err::<Config, ConfigError>(ConfigError::MissingExcludeFile)),
        r matches Ok(c) ==> {
            &&& c@.pool == pool@
            &&& date@.len() > 0 ==> snapshot_time(date@) == Some(c@.date)
            &&& date@.len() == 0 ==> exists|now: Timestamp| #[trigger]
                days_before(now, DEFAULT_CUTOFF as int) == Some(c@.date)
            &&& c@.exclude_file.len() == 0
            &&& !c@.show_queued && !c@.show_excluded && !c@.dry_run && !c@.show_config
            &&& c@.iteration_count == 100
            &&& c@.no_confirm
            &&& c@.label == label@
        },
{
    let r = Config::new(
        &FakeCommunicator::new(true),
        pool,
        date,
        "",
        false,
        false,
        false,
        100,
        true,
        label,
        false,
    );
    proof {
        reveal_strlit("");
    }
    r
}

/// The snapshot of `dataset` taken at `time`, a date in the snapshot format,
/// and labelled `label`. The pool is what stands before the dataset's first
/// `/`. There is none where `time` is no such date, or one that the local
/// time zone skips or has twice.
pub fn create_snapshot(dataset: &str, time: &str, label: &str) -> (r: Option<Snapshot>)
    ensures
        r matches Some(s) ==> snapshot_time(time@) is Some && s@ == (SnapshotView {
            pool: tokens(dataset@, '/')[0],
            dataset: dataset@,
            date: snapshot_time(time@).unwrap(),
            label: label@,
        }),
        snapshot_time(time@) is None ==> r is None,
{
    let splinters = split(dataset, '/');
    proof {
        lemma_tokens(dataset@, '/');
        assert(texts(splinters@)[0] == splinters[0]@);
    }
    match parse_date(time) {
        None => None,
        Some(date) => Snapshot::new(splinters[0].as_str(), dataset, date, label),
    }
}

} // verus!
