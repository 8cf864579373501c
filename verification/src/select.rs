//! Which snapshots are to go: those of the pool and label in question that
//! are older than the cutoff and that no exclusion names.

use crate::enums::SystemError;
use crate::parse::{
    get_parsed_snapshots, get_snapshots, get_snapshots_base, is_sublist, lemma_sublist_filter,
    listed, parsed_all,
};
use crate::text::{lines_of, texts};
use crate::structs::{views, Config, Snapshot, SnapshotView, Timestamp};
use crate::traits::Communicator;
use vstd::prelude::*;

verus! {

/// Whether a snapshot belongs to the pool and carries the label. An empty
/// label admits every label.
pub open spec fn in_scope(s: SnapshotView, pool: Seq<char>, label: Seq<char>) -> bool {
    s.pool == pool && (label.len() == 0 || s.label == label)
}

/// The snapshots of the pool and label, in their order.
pub open spec fn scoped(snapshots: Seq<SnapshotView>, pool: Seq<char>, label: Seq<char>) -> Seq<
    SnapshotView,
> {
    snapshots.filter(|s: SnapshotView| in_scope(s, pool, label))
}

/// The snapshots taken strictly before the cutoff, in their order.
pub open spec fn stale(snapshots: Seq<SnapshotView>, cutoff: Timestamp) -> Seq<SnapshotView> {
    snapshots.filter(|s: SnapshotView| s.date.is_before(cutoff))
}

/// The snapshots that `excluded` does not hold, in their order.
pub open spec fn without(snapshots: Seq<SnapshotView>, excluded: Seq<SnapshotView>) -> Seq<
    SnapshotView,
> {
    snapshots.filter(|s: SnapshotView| !excluded.contains(s))
}

/// The snapshots that a run removes: those in scope, stale, and not
/// excluded. The exclusions are taken out last.
pub open spec fn relevant(
    snapshots: Seq<SnapshotView>,
    pool: Seq<char>,
    label: Seq<char>,
    cutoff: Timestamp,
    excluded: Seq<SnapshotView>,
) -> Seq<SnapshotView> {
    without(stale(scoped(snapshots, pool, label), cutoff), excluded)
}

/// Keeps the snapshots of `pool`, and among them, where `label` is not
/// empty, those labelled `label`.
pub fn get_snapshots_for(pool: &str, label: &str, snapshots: Vec<Snapshot>) -> (r: Vec<Snapshot>)
    ensures
        views(r@) == scoped(views(snapshots@), pool@, label@),
{
    let pool_name = String::from_str(pool);
    let label_name = String::from_str(label);
    let any_label = label.is_empty();
    let ghost all = views(snapshots@);
    let ghost wanted = |s: SnapshotView| in_scope(s, pool@, label@);
    let mut kept: Vec<Snapshot> = Vec::new();
    for snapshot in it: snapshots
        invariant
            views(it.seq()) == all,
            pool_name@ == pool@,
            label_name@ == label@,
            any_label == (label@.len() == 0),
            wanted == |s: SnapshotView| in_scope(s, pool@, label@),
            views(kept@) == all.take(it.index()).filter(wanted),
    {
        proof {
            assert(all.take(it.index() + 1) =~= all.take(it.index()).push(snapshot@));
            all.take(it.index()).lemma_filter_push(snapshot@, wanted);
        }
        let ghost before = views(kept@);
        if *snapshot.pool() == pool_name && (any_label || *snapshot.label() == label_name) {
            kept.push(snapshot);
            assert(views(kept@) =~= before.push(snapshot@));
        }
    }
    proof {
        assert(all.take(all.len() as int) =~= all);
    }
    kept
}

/// Keeps the snapshots taken strictly before the cutoff. A snapshot taken at
/// the cutoff itself is not kept.
pub fn get_stale_snapshots(snapshots: Vec<Snapshot>, cutoff_date: &Timestamp) -> (r: Vec<Snapshot>)
    ensures
        views(r@) == stale(views(snapshots@), *cutoff_date),
        forall|i: int| 0 <= i < r.len() ==> (#[trigger] r[i])@.date != *cutoff_date,
{
    let ghost all = views(snapshots@);
    let ghost old_enough = |s: SnapshotView| s.date.is_before(*cutoff_date);
    let mut kept: Vec<Snapshot> = Vec::new();
    for snapshot in it: snapshots
        invariant
            views(it.seq()) == all,
            old_enough == |s: SnapshotView| s.date.is_before(*cutoff_date),
            views(kept@) == all.take(it.index()).filter(old_enough),
            forall|i: int| 0 <= i < kept.len() ==> (#[trigger] kept[i])@.date != *cutoff_date,
    {
        proof {
            assert(all.take(it.index() + 1) =~= all.take(it.index()).push(snapshot@));
            all.take(it.index()).lemma_filter_push(snapshot@, old_enough);
        }
        let ghost before = views(kept@);
        if snapshot.is_stale(cutoff_date) {
            kept.push(snapshot);
            assert(views(kept@) =~= before.push(snapshot@));
        }
    }
    proof {
        assert(all.take(all.len() as int) =~= all);
    }
    kept
}

/// Whether `excluded` holds a snapshot that is the same as `snapshot`.
pub fn is_excluded(snapshot: &Snapshot, excluded: &Vec<Snapshot>) -> (r: bool)
    ensures
        r == views(excluded@).contains(snapshot@),
{
    let mut i: usize = 0;
    while i < excluded.len()
        invariant
            i <= excluded.len(),
            forall|j: int| 0 <= j < i ==> views(excluded@)[j] != snapshot@,
        decreases excluded.len() - i,
    {
        if snapshot.same_as(&excluded[i]) {
            assert(views(excluded@)[i as int] == snapshot@);
            return true;
        }
        i += 1;
    }
    false
}

/// Takes out of `snapshots` every snapshot that is the same as one of
/// `excluded_snapshots`. None of the excluded is left, whatever its date.
pub fn remove_excluded_snapshots(
    snapshots: Vec<Snapshot>,
    excluded_snapshots: &Vec<Snapshot>,
) -> (r: Vec<Snapshot>)
    ensures
        views(r@) == without(views(snapshots@), views(excluded_snapshots@)),
        forall|i: int|
            0 <= i < r.len() ==> !views(excluded_snapshots@).contains((#[trigger] r[i])@),
{
    let ghost all = views(snapshots@);
    let ghost excluded = views(excluded_snapshots@);
    let ghost spared = |s: SnapshotView| !excluded.contains(s);
    let mut kept: Vec<Snapshot> = Vec::new();
    for snapshot in it: snapshots
        invariant
            views(it.seq()) == all,
            excluded == views(excluded_snapshots@),
            spared == |s: SnapshotView| !excluded.contains(s),
            views(kept@) == all.take(it.index()).filter(spared),
            forall|i: int| 0 <= i < kept.len() ==> !excluded.contains((#[trigger] kept[i])@),
    {
        proof {
            assert(all.take(it.index() + 1) =~= all.take(it.index()).push(snapshot@));
            all.take(it.index()).lemma_filter_push(snapshot@, spared);
        }
        let ghost before = views(kept@);
        if !is_excluded(&snapshot, excluded_snapshots) {
            kept.push(snapshot);
            assert(views(kept@) =~= before.push(snapshot@));
        }
    }
    proof {
        assert(all.take(all.len() as int) =~= all);
    }
    kept
}

/// Of the snapshots read from a listing, those that the run described by
/// `config` removes: in scope, stale, and not excluded.
pub fn relevant_among(
    parsed: Vec<Snapshot>,
    config: &Config,
    excluded_snapshots: &Vec<Snapshot>,
) -> (r: Vec<Snapshot>)
    ensures
        views(r@) == relevant(
            views(parsed@),
            config@.pool,
            config@.label,
            config@.date,
            views(excluded_snapshots@),
        ),
{
    let snapshots = get_snapshots_for(config.pool().as_str(), config.label().as_str(), parsed);
    let stale_snapshots = get_stale_snapshots(snapshots, config.date());
    remove_excluded_snapshots(stale_snapshots, excluded_snapshots)
}

/// Every snapshot that a run removes is in scope and stale, and none of
/// them is excluded: an exclusion wins whatever the snapshot's date.
pub proof fn lemma_relevant(
    snapshots: Seq<SnapshotView>,
    pool: Seq<char>,
    label: Seq<char>,
    cutoff: Timestamp,
    excluded: Seq<SnapshotView>,
)
    ensures
        forall|i: int|
            0 <= i < relevant(snapshots, pool, label, cutoff, excluded).len() ==> {
                let s = #[trigger] relevant(snapshots, pool, label, cutoff, excluded)[i];
                &&& snapshots.contains(s)
                &&& in_scope(s, pool, label)
                &&& s.date.is_before(cutoff)
                &&& s.date != cutoff
                &&& !excluded.contains(s)
            },
{
    let a = scoped(snapshots, pool, label);
    let b = stale(a, cutoff);
    let c = without(b, excluded);
    assert forall|i: int| 0 <= i < c.len() implies {
        let s = #[trigger] c[i];
        &&& snapshots.contains(s)
        &&& in_scope(s, pool, label)
        &&& s.date.is_before(cutoff)
        &&& s.date != cutoff
        &&& !excluded.contains(s)
    } by {
        let s = c[i];
        b.lemma_filter_pred(|s: SnapshotView| !excluded.contains(s), i);
        assert(c.contains(s));
        b.lemma_filter_contains_rev(|s: SnapshotView| !excluded.contains(s), s);
        let j = choose|j: int| 0 <= j < b.len() && b[j] == s;
        a.lemma_filter_pred(|s: SnapshotView| s.date.is_before(cutoff), j);
        a.lemma_filter_contains_rev(|s: SnapshotView| s.date.is_before(cutoff), s);
        let k = choose|k: int| 0 <= k < a.len() && a[k] == s;
        snapshots.lemma_filter_pred(|s: SnapshotView| in_scope(s, pool, label), k);
        snapshots.lemma_filter_contains_rev(|s: SnapshotView| in_scope(s, pool, label), s);
    }
}

/// A snapshot taken at the cutoff itself is never stale.
pub proof fn lemma_cutoff_is_not_stale(snapshots: Seq<SnapshotView>, cutoff: Timestamp)
    ensures
        forall|i: int|
            0 <= i < stale(snapshots, cutoff).len() ==> (#[trigger] stale(
                snapshots,
                cutoff,
            )[i]).date != cutoff,
{
    assert forall|i: int| 0 <= i < stale(snapshots, cutoff).len() implies (#[trigger] stale(
        snapshots,
        cutoff,
    )[i]).date != cutoff by {
        snapshots.lemma_filter_pred(|s: SnapshotView| s.date.is_before(cutoff), i);
    }
}

/// Taking the same exclusions out a second time changes nothing.
pub proof fn lemma_exclusion_is_idempotent(
    snapshots: Seq<SnapshotView>,
    excluded: Seq<SnapshotView>,
)
    ensures
        without(without(snapshots, excluded), excluded) == without(snapshots, excluded),
    decreases snapshots.len(),
{
    let spared = |s: SnapshotView| !excluded.contains(s);
    reveal(Seq::filter);
    if snapshots.len() > 0 {
        let rest = snapshots.drop_last();
        lemma_exclusion_is_idempotent(rest, excluded);
        if spared(snapshots.last()) {
            rest.filter(spared).lemma_filter_push(snapshots.last(), spared);
        }
    }
}

/// The snapshots that the exclude file names, as far as they belong to the
/// pool and label of the run. The communicator is asked for the file's
/// contents; its failure is handed on. What comes back on success is taken
/// from the snapshots that the lines of those contents stand for: those in
/// scope, in their order, without the ones whose time the local time zone
/// refuses.
pub fn get_excluded_snapshots<T: Communicator>(communicator: &T, config: &Config) -> (r: Result<
    Vec<Snapshot>,
    SystemError,
>)
    ensures
        r matches Ok(found) ==> forall|i: int|
            0 <= i < found.len() ==> in_scope((#[trigger] found[i])@, config@.pool, config@.label),
        r matches Ok(found) ==> exists|contents: Seq<char>|
            is_sublist(
                views(found@),
                scoped(#[trigger] listed(contents), config@.pool, config@.label),
            ),
{
    let results = communicator.get_excluded_snapshots(config.exclude_file().as_str());
    let ghost given = results;
    match get_snapshots_base(results) {
        Err(e) => Err(e),
        Ok(names) => {
            let ghost raws = texts(names@);
            let parsed = get_parsed_snapshots(names);
            let ghost read = views(parsed@);
            let found = get_snapshots_for(
                config.pool().as_str(),
                config.label().as_str(),
                parsed,
            );
            proof {
                let wanted = |s: SnapshotView| in_scope(s, config@.pool, config@.label);
                let contents = given.unwrap()@;
                assert(raws == lines_of(contents));
                lemma_sublist_filter(read, listed(contents), wanted);
                assert(is_sublist(
                    views(found@),
                    scoped(listed(contents), config@.pool, config@.label),
                ));
                assert forall|i: int| 0 <= i < found.len() implies in_scope(
                    (#[trigger] found[i])@,
                    config@.pool,
                    config@.label,
                ) by {
                    read.lemma_filter_pred(wanted, i);
                    assert(views(found@)[i] == found[i]@);
                }
            }
            Ok(found)
        },
    }
}

/// The exclusions of a run: none where the configuration names no exclude
/// file, and the communicator is not asked then; else what
/// `get_excluded_snapshots` finds in the file's contents.
pub fn resolve_exclusions<T: Communicator>(communicator: &T, config: &Config) -> (r: Result<
    Vec<Snapshot>,
    SystemError,
>)
    ensures
        config@.exclude_file.len() == 0 ==> (r matches Ok(found) && found.len() == 0),
        r matches Ok(found) ==> forall|i: int|
            0 <= i < found.len() ==> in_scope((#[trigger] found[i])@, config@.pool, config@.label),
        config@.exclude_file.len() > 0 ==> (r matches Ok(found) ==> exists|contents: Seq<char>|
            is_sublist(
                views(found@),
                scoped(#[trigger] listed(contents), config@.pool, config@.label),
            )),
{
    if config.exclude_file().as_str().is_empty() {
        Ok(Vec::new())
    } else {
        get_excluded_snapshots(communicator, config)
    }
}

/// The snapshots that the run removes. The communicator is asked for the
/// listing, and its failure is handed on; of the snapshots read from the
/// listing, `relevant_among` keeps those to remove. What comes back on
/// success is taken from the snapshots that the lines of the listing stand
/// for: those in scope, stale and not excluded, in their order, without the
/// ones whose time the local time zone refuses.
pub fn get_relevant_snapshots<T: Communicator>(
    communicator: &T,
    config: &Config,
    excluded_snapshots: &Vec<Snapshot>,
) -> (r: Result<Vec<Snapshot>, SystemError>)
    ensures
        r matches Ok(found) ==> forall|i: int|
            0 <= i < found.len() ==> {
                let s = (#[trigger] found[i])@;
                &&& in_scope(s, config@.pool, config@.label)
                &&& s.date.is_before(config@.date)
                &&& s.date != config@.date
                &&& !views(excluded_snapshots@).contains(s)
            },
        r matches Ok(found) ==> exists|listing: Seq<char>|
            is_sublist(
                views(found@),
                relevant(
                    #[trigger] listed(listing),
                    config@.pool,
                    config@.label,
                    config@.date,
                    views(excluded_snapshots@),
                ),
            ),
{
    match get_snapshots(communicator) {
        Err(e) => Err(e),
        Ok(unparsed_snapshots) => {
            let ghost raws = texts(unparsed_snapshots@);
            let parsed_snapshots = get_parsed_snapshots(unparsed_snapshots);
            let ghost all = views(parsed_snapshots@);
            let found = relevant_among(parsed_snapshots, config, excluded_snapshots);
            proof {
                let listing = choose|listing: Seq<char>| raws == #[trigger] lines_of(listing);
                lemma_relevant_of_sublist(
                    all,
                    listed(listing),
                    config@.pool,
                    config@.label,
                    config@.date,
                    views(excluded_snapshots@),
                );
                lemma_relevant(
                    all,
                    config@.pool,
                    config@.label,
                    config@.date,
                    views(excluded_snapshots@),
                );
                assert forall|i: int| 0 <= i < found.len() implies {
                    let s = (#[trigger] found[i])@;
                    &&& in_scope(s, config@.pool, config@.label)
                    &&& s.date.is_before(config@.date)
                    &&& s.date != config@.date
                    &&& !views(excluded_snapshots@).contains(s)
                } by {
                    assert(views(found@)[i] == found[i]@);
                }
            }
            Ok(found)
        },
    }
}

/// Of fewer snapshots, fewer are removed: leaving snapshots out before the
/// selection leaves out some of what is selected, and adds nothing.
pub proof fn lemma_relevant_of_sublist(
    fewer: Seq<SnapshotView>,
    snapshots: Seq<SnapshotView>,
    pool: Seq<char>,
    label: Seq<char>,
    cutoff: Timestamp,
    excluded: Seq<SnapshotView>,
)
    requires
        is_sublist(fewer, snapshots),
    ensures
        is_sublist(
            relevant(fewer, pool, label, cutoff, excluded),
            relevant(snapshots, pool, label, cutoff, excluded),
        ),
{
    lemma_sublist_filter(fewer, snapshots, |s: SnapshotView| in_scope(s, pool, label));
    lemma_sublist_filter(
        scoped(fewer, pool, label),
        scoped(snapshots, pool, label),
        |s: SnapshotView| s.date.is_before(cutoff),
    );
    lemma_sublist_filter(
        stale(scoped(fewer, pool, label), cutoff),
        stale(scoped(snapshots, pool, label), cutoff),
        |s: SnapshotView| !excluded.contains(s),
    );
}

} // verus!
