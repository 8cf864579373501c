//! Destroying snapshots: the argument of a destroy call, and the run that
//! makes one call for each batch of the plan.

use crate::enums::{SystemError, SystemResult};
use crate::plan::{
    batch_views, grouped, is_batch, lemma_batches_share_dataset, lemma_grouping_is_permutation,
    lemma_plan_is_grouping, plan_batches, planned_batches,
};
use crate::structs::{ref_views, views, Snapshot, SnapshotView};
use crate::text::joined;
use crate::traits::Communicator;
use vstd::prelude::*;

verus! {

/// Whether every snapshot has a date that can be written in the snapshot
/// format, as every `Snapshot` has.
pub open spec fn all_dated(batch: Seq<SnapshotView>) -> bool {
    forall|j: int| 0 <= j < batch.len() ==> (#[trigger] batch[j]).date.text() is Some
}

/// The suffixes of the snapshots, in their order.
pub open spec fn suffixes(batch: Seq<SnapshotView>) -> Seq<Seq<char>> {
    batch.map_values(|s: SnapshotView| s.suffix())
}

/// The argument of the destroy call for a batch: the dataset of the first
/// snapshot, an `@`, and the suffixes of all of them with commas between,
/// `dataset@suffix,suffix,...`. For no snapshots it is empty.
pub open spec fn destroy_command(batch: Seq<SnapshotView>) -> Seq<char> {
    if batch.len() == 0 {
        Seq::empty()
    } else {
        batch[0].dataset + seq!['@'] + joined(suffixes(batch), ',')
    }
}

/// Whether `text` is the argument of a destroy call for some batch.
pub open spec fn is_destroy_argument(text: Seq<char>) -> bool {
    exists|batch: Seq<SnapshotView>|
        #[trigger] is_batch(batch) && all_dated(batch) && text == destroy_command(batch)
}

/// The argument of the destroy call for these snapshots: the full name of
/// the first, then the suffixes of the others, with commas between.
pub fn build_list_to_delete(snapshots: &Vec<&Snapshot>) -> (r: String)
    ensures
        r@ == destroy_command(ref_views(snapshots@)),
        all_dated(ref_views(snapshots@)),
{
    let ghost batch = ref_views(snapshots@);
    let mut names = String::new();
    let mut index: usize = 0;
    while index < snapshots.len()
        invariant
            index <= snapshots.len(),
            batch == ref_views(snapshots@),
            names@ == destroy_command(batch.take(index as int)),
            all_dated(batch.take(index as int)),
        decreases snapshots.len() - index,
    {
        let ghost seen = batch.take(index as int);
        let ghost longer = batch.take(index + 1);
        proof {
            assert(longer.last() == snapshots[index as int]@);
            assert(suffixes(longer).drop_last() =~= suffixes(seen));
        }
        if index == 0 {
            names = snapshots[index].to_string();
            assert(names@ =~= destroy_command(longer));
        } else {
            let ghost before = names@;
            names.push(',');
            names.append(snapshots[index].suffix().as_str());
            assert(names@ =~= before + seq![','] + snapshots[index as int]@.suffix());
            assert(names@ =~= destroy_command(longer)) by {
                assert(seen[0] == longer[0]);
            }
        }
        assert(all_dated(longer)) by {
            assert forall|j: int| 0 <= j < longer.len() implies (#[trigger] longer[j]).date.text()
                is Some by {
                if j < index {
                    assert(longer[j] == seen[j]);
                }
            }
        }
        index += 1;
    }
    proof {
        assert(batch.take(snapshots.len() as int) =~= batch);
    }
    names
}

/// What a destroy call for `snapshots` has deleted, given what the call
/// answered: all of them where it succeeded, and its failure otherwise.
pub fn deleted_by<'a>(snapshots: &Vec<&'a Snapshot>, outcome: SystemResult) -> (r: Result<
    Vec<&'a Snapshot>,
    SystemError,
>)
    ensures
        match outcome {
            Ok(_) => r matches Ok(deleted) && deleted@ == snapshots@,
            Err(e) => r == Err::<Vec<&'a Snapshot>, SystemError>(e),
        },
{
    match outcome {
        Err(e) => Err(e),
        Ok(_) => {
            let mut deleted_snapshots: Vec<&'a Snapshot> = Vec::new();
            let mut i: usize = 0;
            while i < snapshots.len()
                invariant
                    i <= snapshots.len(),
                    deleted_snapshots@ == snapshots@.take(i as int),
                decreases snapshots.len() - i,
            {
                deleted_snapshots.push(snapshots[i]);
                assert(deleted_snapshots@ =~= snapshots@.take(i + 1));
                i += 1;
            }
            assert(snapshots@.take(snapshots.len() as int) =~= snapshots@);
            Ok(deleted_snapshots)
        },
    }
}

/// Builds the argument for one batch and has the communicator destroy it
/// with one call. A destroy call names one dataset, so the batch must be of
/// one dataset and not empty. Where the call succeeds, the batch is what was
/// deleted; its failure is handed on.
pub fn build_and_destroy<'a, T: Communicator>(
    communicator: &T,
    snapshots: &Vec<&'a Snapshot>,
) -> (r: Result<Vec<&'a Snapshot>, SystemError>)
    requires
        is_batch(ref_views(snapshots@)),
    ensures
        r matches Ok(deleted) ==> deleted@ == snapshots@,
{
    let names = build_list_to_delete(snapshots);
    assert(is_destroy_argument(names@)) by {
        assert(is_batch(ref_views(snapshots@)));
    }
    let outcome = communicator.destroy_snapshots(names);
    deleted_by(snapshots, outcome)
}

/// Destroys the snapshots, batch by batch as `plan_batches` lays them out,
/// with one call of the communicator for each batch. The first call that
/// fails ends the run with its failure. Where every call succeeds, every
/// snapshot has been destroyed once, and they come back dataset by dataset.
/// With no snapshots there is no batch and no call, and the run succeeds.
pub fn destroy_snapshots<'a, T: Communicator>(
    communicator: &T,
    snapshots: &'a Vec<Snapshot>,
    iteration_amount: u32,
) -> (r: Result<Vec<&'a Snapshot>, SystemError>)
    requires
        iteration_amount > 0,
    ensures
        r matches Ok(deleted) ==> {
            &&& ref_views(deleted@) == grouped(views(snapshots@))
            &&& ref_views(deleted@).to_multiset() == views(snapshots@).to_multiset()
            &&& deleted.len() == snapshots.len()
        },
        snapshots.len() == 0 ==> r is Ok,
{
    let plan = plan_batches(snapshots, iteration_amount);
    let ghost planned = batch_views(plan@);
    let mut deleted_snapshots: Vec<&'a Snapshot> = Vec::new();
    let mut i: usize = 0;
    while i < plan.len()
        invariant
            i <= plan.len(),
            iteration_amount > 0,
            planned == batch_views(plan@),
            planned == planned_batches(views(snapshots@), iteration_amount as nat),
            ref_views(deleted_snapshots@) == planned.take(i as int).flatten(),
        decreases plan.len() - i,
    {
        let ghost before = ref_views(deleted_snapshots@);
        proof {
            lemma_batches_share_dataset(views(snapshots@), iteration_amount as nat);
            assert(planned[i as int] == ref_views(plan[i as int]@));
        }
        match build_and_destroy(communicator, &plan[i]) {
            Err(e) => {
                return Err(e);
            },
            Ok(mut deleted) => {
                let ghost added = ref_views(deleted@);
                deleted_snapshots.append(&mut deleted);
                proof {
                    assert(added == planned[i as int]);
                    assert(ref_views(deleted_snapshots@) =~= before + added);
                    assert(planned.take(i + 1) =~= planned.take(i as int).push(added));
                    planned.take(i as int).lemma_flatten_push(added);
                }
            },
        }
        i += 1;
    }
    proof {
        assert(planned.take(plan.len() as int) =~= planned);
        lemma_plan_is_grouping(views(snapshots@), iteration_amount as nat);
        lemma_grouping_is_permutation(views(snapshots@));
        vstd::seq_lib::to_multiset_len(ref_views(deleted_snapshots@));
        vstd::seq_lib::to_multiset_len(views(snapshots@));
    }
    Ok(deleted_snapshots)
}

} // verus!
