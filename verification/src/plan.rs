//! The plan of a run: which snapshots go with which destroy call. The
//! snapshots are taken dataset by dataset, the datasets in the order in
//! which they first appear, and the snapshots of a dataset are cut into
//! batches of a given size.

use crate::structs::{ref_views, views, Snapshot, SnapshotView};
use crate::text::texts;
use vstd::prelude::*;

verus! {

/// The datasets of the snapshots, each once, in the order in which they
/// first appear.
pub open spec fn datasets_of(snapshots: Seq<SnapshotView>) -> Seq<Seq<char>>
    decreases snapshots.len(),
{
    if snapshots.len() == 0 {
        Seq::empty()
    } else {
        let before = datasets_of(snapshots.drop_last());
        if before.contains(snapshots.last().dataset) {
            before
        } else {
            before.push(snapshots.last().dataset)
        }
    }
}

/// The snapshots of one dataset, in their order.
pub open spec fn of_dataset(snapshots: Seq<SnapshotView>, dataset: Seq<char>) -> Seq<SnapshotView> {
    snapshots.filter(|s: SnapshotView| s.dataset == dataset)
}

/// `snapshots` cut into runs of `size`; the last run holds what is left and
/// may be shorter.
pub open spec fn batches(snapshots: Seq<SnapshotView>, size: nat) -> Seq<Seq<SnapshotView>>
    decreases snapshots.len(),
{
    if snapshots.len() == 0 || size == 0 {
        Seq::empty()
    } else if snapshots.len() <= size {
        seq![snapshots]
    } else {
        seq![snapshots.take(size as int)] + batches(snapshots.skip(size as int), size)
    }
}

/// The batches in which the snapshots are destroyed: for each dataset in
/// turn, its snapshots cut into runs of `size`.
pub open spec fn planned_batches(snapshots: Seq<SnapshotView>, size: nat) -> Seq<
    Seq<SnapshotView>,
> {
    datasets_of(snapshots).map_values(
        |dataset: Seq<char>| batches(of_dataset(snapshots, dataset), size),
    ).flatten()
}

/// The snapshots of the datasets `names`, dataset by dataset.
pub open spec fn grouped_by(snapshots: Seq<SnapshotView>, names: Seq<Seq<char>>) -> Seq<
    SnapshotView,
> {
    names.map_values(|dataset: Seq<char>| of_dataset(snapshots, dataset)).flatten()
}

/// The snapshots put in the order in which they are destroyed: dataset by
/// dataset, the datasets in the order in which they first appear.
pub open spec fn grouped(snapshots: Seq<SnapshotView>) -> Seq<SnapshotView> {
    grouped_by(snapshots, datasets_of(snapshots))
}

/// Whether a batch holds snapshots of the dataset `dataset`.
pub open spec fn is_batch_of(batch: Seq<SnapshotView>, dataset: Seq<char>) -> bool {
    batch.len() > 0 && batch[0].dataset == dataset
}

/// Whether the snapshots can go with one destroy call: there is at least
/// one, and all are of one dataset.
pub open spec fn is_batch(batch: Seq<SnapshotView>) -> bool {
    &&& batch.len() > 0
    &&& forall|j: int| 0 <= j < batch.len() ==> (#[trigger] batch[j]).dataset == batch[0].dataset
}

/// The views of a sequence of batches.
pub open spec fn batch_views(v: Seq<Vec<&Snapshot>>) -> Seq<Seq<SnapshotView>> {
    v.map_values(|batch: Vec<&Snapshot>| ref_views(batch@))
}

/// Cutting loses and adds nothing: the batches put end to end are the
/// snapshots, no batch is empty, and none is longer than `size`.
pub proof fn lemma_batches(snapshots: Seq<SnapshotView>, size: nat)
    requires
        size > 0,
    ensures
        batches(snapshots, size).flatten() == snapshots,
        forall|i: int|
            0 <= i < batches(snapshots, size).len() ==> 0 < (#[trigger] batches(
                snapshots,
                size,
            )[i]).len() <= size,
        forall|i: int, j: int|
            0 <= i < batches(snapshots, size).len() && 0 <= j < batches(snapshots, size)[i].len()
                ==> snapshots.contains(#[trigger] batches(snapshots, size)[i][j]),
        0 < snapshots.len() <= size ==> batches(snapshots, size) == seq![snapshots],
    decreases snapshots.len(),
{
    let cut = batches(snapshots, size);
    if snapshots.len() == 0 {
    } else if snapshots.len() <= size {
        cut.lemma_flatten_singleton();
        assert forall|i: int, j: int|
            0 <= i < cut.len() && 0 <= j < cut[i].len() implies snapshots.contains(
            #[trigger] cut[i][j],
        ) by {
            assert(snapshots[j] == cut[i][j]);
        }
    } else {
        let head = snapshots.take(size as int);
        let tail = snapshots.skip(size as int);
        lemma_batches(tail, size);
        let rest = batches(tail, size);
        assert(cut.first() == head);
        assert(cut.drop_first() =~= rest);
        assert(cut.flatten() =~= head + tail);
        assert(head + tail =~= snapshots);
        assert forall|i: int| 0 <= i < cut.len() implies 0 < (#[trigger] cut[i]).len() <= size by {
            if i > 0 {
                assert(cut[i] == rest[i - 1]);
            }
        }
        assert forall|i: int, j: int|
            0 <= i < cut.len() && 0 <= j < cut[i].len() implies snapshots.contains(
            #[trigger] cut[i][j],
        ) by {
            if i > 0 {
                assert(cut[i] == rest[i - 1]);
                assert(tail.contains(rest[i - 1][j]));
                let k = choose|k: int| 0 <= k < tail.len() && tail[k] == rest[i - 1][j];
                assert(snapshots[k + size] == cut[i][j]);
            } else {
                assert(snapshots[j] == cut[i][j]);
            }
        }
    }
}

/// `datasets_of` names nothing twice, names the dataset of every snapshot,
/// and names only datasets of snapshots.
pub proof fn lemma_datasets(snapshots: Seq<SnapshotView>)
    ensures
        datasets_of(snapshots).no_duplicates(),
        forall|i: int|
            0 <= i < snapshots.len() ==> datasets_of(snapshots).contains(
                (#[trigger] snapshots[i]).dataset,
            ),
        forall|j: int|
            0 <= j < datasets_of(snapshots).len() ==> of_dataset(
                snapshots,
                #[trigger] datasets_of(snapshots)[j],
            ).len() > 0,
    decreases snapshots.len(),
{
    let names = datasets_of(snapshots);
    if snapshots.len() > 0 {
        let rest = snapshots.drop_last();
        let last = snapshots.last();
        let before = datasets_of(rest);
        lemma_datasets(rest);
        assert(snapshots =~= rest.push(last));
        assert forall|i: int| 0 <= i < snapshots.len() implies names.contains(
            (#[trigger] snapshots[i]).dataset,
        ) by {
            if i < rest.len() {
                assert(before.contains(rest[i].dataset));
                let k = choose|k: int| 0 <= k < before.len() && before[k] == rest[i].dataset;
                assert(names[k] == rest[i].dataset);
            } else if before.contains(last.dataset) {
            } else {
                assert(names[before.len() as int] == last.dataset);
            }
        }
        assert forall|j: int| 0 <= j < names.len() implies of_dataset(
            snapshots,
            #[trigger] names[j],
        ).len() > 0 by {
            let wanted = |s: SnapshotView| s.dataset == names[j];
            rest.lemma_filter_push(last, wanted);
            if j < before.len() {
                assert(names[j] == before[j]);
            }
        }
    }
}

/// A further snapshot enters the grouping once where its dataset is among
/// the names, and not at all where it is not.
proof fn lemma_group_push(snapshots: Seq<SnapshotView>, last: SnapshotView, names: Seq<Seq<char>>)
    requires
        names.no_duplicates(),
    ensures
        grouped_by(snapshots.push(last), names).to_multiset() == if names.contains(last.dataset) {
            grouped_by(snapshots, names).to_multiset().insert(last)
        } else {
            grouped_by(snapshots, names).to_multiset()
        },
    decreases names.len(),
{
    let longer = snapshots.push(last);
    let part = |dataset: Seq<char>| of_dataset(snapshots, dataset);
    let longer_part = |dataset: Seq<char>| of_dataset(longer, dataset);
    if names.len() == 0 {
        assert(grouped_by(longer, names) =~= grouped_by(snapshots, names));
    } else {
        let front = names.drop_last();
        let name = names.last();
        lemma_group_push(snapshots, last, front);
        assert(names =~= front.push(name));
        assert(names.map_values(part) =~= front.map_values(part).push(part(name)));
        assert(names.map_values(longer_part) =~= front.map_values(longer_part).push(
            longer_part(name),
        ));
        front.map_values(part).lemma_flatten_push(part(name));
        front.map_values(longer_part).lemma_flatten_push(longer_part(name));
        vstd::seq_lib::lemma_multiset_commutative(grouped_by(snapshots, front), part(name));
        vstd::seq_lib::lemma_multiset_commutative(grouped_by(longer, front), longer_part(name));
        snapshots.lemma_filter_push(last, |s: SnapshotView| s.dataset == name);
        if name == last.dataset {
            assert(!front.contains(last.dataset)) by {
                if front.contains(last.dataset) {
                    let k = choose|k: int| 0 <= k < front.len() && front[k] == last.dataset;
                    assert(names[k] == names[names.len() - 1]);
                }
            }
            assert(names.contains(last.dataset)) by {
                assert(names[names.len() - 1] == last.dataset);
            }
            vstd::seq_lib::to_multiset_build(part(name), last);
            assert(grouped_by(longer, names).to_multiset() =~= grouped_by(
                snapshots,
                names,
            ).to_multiset().insert(last));
        } else {
            assert(names.contains(last.dataset) == front.contains(last.dataset)) by {
                if front.contains(last.dataset) {
                    let k = choose|k: int| 0 <= k < front.len() && front[k] == last.dataset;
                    assert(names[k] == last.dataset);
                }
                if names.contains(last.dataset) {
                    let k = choose|k: int| 0 <= k < names.len() && names[k] == last.dataset;
                    assert(front[k] == last.dataset);
                }
            }
            if front.contains(last.dataset) {
                assert(grouped_by(longer, names).to_multiset() =~= grouped_by(
                    snapshots,
                    names,
                ).to_multiset().insert(last));
            } else {
                assert(grouped_by(longer, names).to_multiset() =~= grouped_by(
                    snapshots,
                    names,
                ).to_multiset());
            }
        }
    }
}

/// Grouping by dataset only reorders: every snapshot is in the grouping as
/// often as it is among the snapshots.
pub proof fn lemma_grouping_is_permutation(snapshots: Seq<SnapshotView>)
    ensures
        grouped(snapshots).to_multiset() == snapshots.to_multiset(),
    decreases snapshots.len(),
{
    if snapshots.len() == 0 {
        assert(grouped(snapshots) =~= snapshots);
    } else {
        let rest = snapshots.drop_last();
        let last = snapshots.last();
        let before = datasets_of(rest);
        let part = |dataset: Seq<char>| of_dataset(snapshots, dataset);
        assert(snapshots =~= rest.push(last));
        lemma_grouping_is_permutation(rest);
        lemma_datasets(rest);
        lemma_group_push(rest, last, before);
        vstd::seq_lib::to_multiset_build(rest, last);
        if !before.contains(last.dataset) {
            let wanted = |s: SnapshotView| s.dataset == last.dataset;
            assert(datasets_of(snapshots).map_values(part) =~= before.map_values(part).push(
                part(last.dataset),
            ));
            before.map_values(part).lemma_flatten_push(part(last.dataset));
            vstd::seq_lib::lemma_multiset_commutative(
                grouped_by(snapshots, before),
                part(last.dataset),
            );
            assert(rest.all(|s: SnapshotView| !wanted(s))) by {
                assert forall|i: int| 0 <= i < rest.len() implies !wanted(#[trigger] rest[i]) by {
                    assert(before.contains(rest[i].dataset));
                }
            }
            rest.lemma_all_neg_filter_empty(wanted);
            rest.lemma_filter_push(last, wanted);
            assert(part(last.dataset) =~= Seq::<SnapshotView>::empty().push(last));
            vstd::seq_lib::to_multiset_build(Seq::<SnapshotView>::empty(), last);
            assert(Seq::<SnapshotView>::empty().to_multiset() =~= vstd::multiset::Multiset::<
                SnapshotView,
            >::empty()) by {
                broadcast use vstd::seq_lib::group_to_multiset_ensures;

            }
            assert(grouped(snapshots).to_multiset() =~= snapshots.to_multiset());
        }
    }
}

/// The batches of a plan, put end to end, are the snapshots grouped by
/// dataset.
pub proof fn lemma_plan_is_grouping(snapshots: Seq<SnapshotView>, size: nat)
    requires
        size > 0,
    ensures
        planned_batches(snapshots, size).flatten() == grouped(snapshots),
{
    lemma_cut_flatten(snapshots, datasets_of(snapshots), size);
}

proof fn lemma_cut_flatten(snapshots: Seq<SnapshotView>, names: Seq<Seq<char>>, size: nat)
    requires
        size > 0,
    ensures
        names.map_values(
            |dataset: Seq<char>| batches(of_dataset(snapshots, dataset), size),
        ).flatten().flatten() == grouped_by(snapshots, names),
    decreases names.len(),
{
    let part = |dataset: Seq<char>| of_dataset(snapshots, dataset);
    let cut = |dataset: Seq<char>| batches(of_dataset(snapshots, dataset), size);
    if names.len() == 0 {
        assert(names.map_values(cut).flatten().flatten() =~= grouped_by(snapshots, names));
    } else {
        let front = names.drop_last();
        let name = names.last();
        lemma_cut_flatten(snapshots, front, size);
        assert(names.map_values(part) =~= front.map_values(part).push(part(name)));
        assert(names.map_values(cut) =~= front.map_values(cut).push(cut(name)));
        front.map_values(part).lemma_flatten_push(part(name));
        front.map_values(cut).lemma_flatten_push(cut(name));
        vstd::seq_lib::lemma_flatten_concat(front.map_values(cut).flatten(), cut(name));
        lemma_batches(part(name), size);
    }
}

/// No batch of a plan mixes datasets: each holds at least one and at most
/// `size` snapshots, all of them among the snapshots and all of one dataset.
pub proof fn lemma_batches_share_dataset(snapshots: Seq<SnapshotView>, size: nat)
    requires
        size > 0,
    ensures
        forall|i: int|
            0 <= i < planned_batches(snapshots, size).len() ==> {
                let batch = #[trigger] planned_batches(snapshots, size)[i];
                &&& is_batch(batch)
                &&& batch.len() <= size
                &&& forall|j: int| 0 <= j < batch.len() ==> snapshots.contains(#[trigger] batch[j])
            },
{
    lemma_cut_is_uniform(snapshots, datasets_of(snapshots), size);
}

proof fn lemma_cut_is_uniform(snapshots: Seq<SnapshotView>, names: Seq<Seq<char>>, size: nat)
    requires
        size > 0,
    ensures
        ({
            let plan = names.map_values(
                |dataset: Seq<char>| batches(of_dataset(snapshots, dataset), size),
            ).flatten();
            &&& forall|i: int| 0 <= i < plan.len() ==> 0 < (#[trigger] plan[i]).len() <= size
            &&& forall|i: int, j: int|
                0 <= i < plan.len() && 0 <= j < plan[i].len() ==> snapshots.contains(
                    #[trigger] plan[i][j],
                ) && plan[i][j].dataset == plan[i][0].dataset
        }),
    decreases names.len(),
{
    let cut = |dataset: Seq<char>| batches(of_dataset(snapshots, dataset), size);
    let plan = names.map_values(cut).flatten();
    if names.len() == 0 {
        assert(plan =~= Seq::<Seq<SnapshotView>>::empty());
    } else {
        let front = names.drop_last();
        let name = names.last();
        let wanted = |s: SnapshotView| s.dataset == name;
        let part = of_dataset(snapshots, name);
        lemma_cut_is_uniform(snapshots, front, size);
        assert(names.map_values(cut) =~= front.map_values(cut).push(cut(name)));
        front.map_values(cut).lemma_flatten_push(cut(name));
        lemma_batches(part, size);
        let head = front.map_values(cut).flatten();
        assert(plan =~= head + cut(name));
        assert forall|i: int| 0 <= i < plan.len() implies 0 < (#[trigger] plan[i]).len()
            <= size by {
            if i >= head.len() {
                assert(plan[i] == cut(name)[i - head.len()]);
            }
        }
        assert forall|i: int, j: int|
            0 <= i < plan.len() && 0 <= j < plan[i].len() implies snapshots.contains(
            #[trigger] plan[i][j],
        ) && plan[i][j].dataset == plan[i][0].dataset by {
            if i >= head.len() {
                let batch = cut(name)[i - head.len()];
                assert(plan[i] == batch);
                assert(part.contains(batch[j]));
                assert(part.contains(batch[0]));
                let a = choose|a: int| 0 <= a < part.len() && part[a] == batch[j];
                let b = choose|b: int| 0 <= b < part.len() && part[b] == batch[0];
                snapshots.lemma_filter_pred(wanted, a);
                snapshots.lemma_filter_pred(wanted, b);
                snapshots.lemma_filter_contains_rev(wanted, batch[j]);
            }
        }
    }
}

/// The batches of a plan that hold snapshots of one dataset are that
/// dataset's snapshots cut into runs of `size`, and nothing else. So a
/// dataset with no more than `size` snapshots is destroyed with one call.
pub proof fn lemma_batches_of_dataset(snapshots: Seq<SnapshotView>, dataset: Seq<char>, size: nat)
    requires
        size > 0,
    ensures
        planned_batches(snapshots, size).filter(
            |batch: Seq<SnapshotView>| is_batch_of(batch, dataset),
        ) == batches(of_dataset(snapshots, dataset), size),
        0 < of_dataset(snapshots, dataset).len() <= size ==> planned_batches(
            snapshots,
            size,
        ).filter(|batch: Seq<SnapshotView>| is_batch_of(batch, dataset)) == seq![
            of_dataset(snapshots, dataset),
        ],
{
    let names = datasets_of(snapshots);
    lemma_datasets(snapshots);
    lemma_cut_of_dataset(snapshots, names, dataset, size);
    lemma_batches(of_dataset(snapshots, dataset), size);
    if !names.contains(dataset) {
        let wanted = |s: SnapshotView| s.dataset == dataset;
        assert(snapshots.all(|s: SnapshotView| !wanted(s)));
        snapshots.lemma_all_neg_filter_empty(wanted);
    }
}

/// The batches of one dataset, seen from another dataset, are none of its
/// own; seen from the same dataset, they are all its own.
proof fn lemma_own_batches(
    snapshots: Seq<SnapshotView>,
    name: Seq<char>,
    dataset: Seq<char>,
    size: nat,
)
    requires
        size > 0,
    ensures
        batches(of_dataset(snapshots, name), size).filter(
            |batch: Seq<SnapshotView>| is_batch_of(batch, dataset),
        ) == if name == dataset {
            batches(of_dataset(snapshots, name), size)
        } else {
            Seq::<Seq<SnapshotView>>::empty()
        },
{
    let ours = |batch: Seq<SnapshotView>| is_batch_of(batch, dataset);
    let part = of_dataset(snapshots, name);
    let cut = batches(part, size);
    let wanted = |s: SnapshotView| s.dataset == name;
    lemma_batches(part, size);
    assert forall|i: int| 0 <= i < cut.len() implies is_batch_of(#[trigger] cut[i], name) by {
        let batch = cut[i];
        assert(part.contains(batch[0]));
        let a = choose|a: int| 0 <= a < part.len() && part[a] == batch[0];
        snapshots.lemma_filter_pred(wanted, a);
    }
    if name == dataset {
        lemma_filter_keeps_all(cut, ours);
    } else {
        assert(cut.all(|batch: Seq<SnapshotView>| !ours(batch)));
        cut.lemma_all_neg_filter_empty(ours);
        assert(cut.filter(ours) =~= Seq::<Seq<SnapshotView>>::empty());
    }
}

/// Whether `names` holds `dataset`, told from its last name and the rest.
proof fn lemma_contains_last(names: Seq<Seq<char>>, dataset: Seq<char>)
    requires
        names.len() > 0,
        names.no_duplicates(),
    ensures
        names.contains(dataset) == (names.last() == dataset || names.drop_last().contains(dataset)),
        names.last() == dataset ==> !names.drop_last().contains(dataset),
        names.drop_last().no_duplicates(),
{
    let front = names.drop_last();
    if front.contains(dataset) {
        let k = choose|k: int| 0 <= k < front.len() && front[k] == dataset;
        assert(names[k] == dataset);
    }
    if names.contains(dataset) {
        let k = choose|k: int| 0 <= k < names.len() && names[k] == dataset;
        if k < front.len() {
            assert(front[k] == dataset);
        }
    }
    if names.last() == dataset {
        assert(names[names.len() - 1] == dataset);
    }
}

proof fn lemma_cut_of_dataset(
    snapshots: Seq<SnapshotView>,
    names: Seq<Seq<char>>,
    dataset: Seq<char>,
    size: nat,
)
    requires
        size > 0,
        names.no_duplicates(),
    ensures
        names.map_values(
            |name: Seq<char>| batches(of_dataset(snapshots, name), size),
        ).flatten().filter(|batch: Seq<SnapshotView>| is_batch_of(batch, dataset))
            == if names.contains(dataset) {
            batches(of_dataset(snapshots, dataset), size)
        } else {
            Seq::<Seq<SnapshotView>>::empty()
        },
    decreases names.len(),
{
    let cut = |name: Seq<char>| batches(of_dataset(snapshots, name), size);
    let ours = |batch: Seq<SnapshotView>| is_batch_of(batch, dataset);
    let plan = names.map_values(cut).flatten();
    if names.len() == 0 {
        assert(plan =~= Seq::<Seq<SnapshotView>>::empty());
        assert(plan.filter(ours) =~= Seq::<Seq<SnapshotView>>::empty()) by {
            reveal(Seq::filter);
        }
    } else {
        let front = names.drop_last();
        let name = names.last();
        let head = front.map_values(cut).flatten();
        lemma_contains_last(names, dataset);
        lemma_cut_of_dataset(snapshots, front, dataset, size);
        lemma_own_batches(snapshots, name, dataset, size);
        assert(plan =~= head + cut(name)) by {
            assert(names.map_values(cut) =~= front.map_values(cut).push(cut(name)));
            front.map_values(cut).lemma_flatten_push(cut(name));
        }
        assert(plan.filter(ours) == head.filter(ours) + cut(name).filter(ours)) by {
            Seq::filter_distributes_over_add(head, cut(name), ours);
        }
        if name == dataset {
            assert(head.filter(ours) + cut(name) =~= cut(name));
        } else {
            assert(head.filter(ours) + Seq::<Seq<SnapshotView>>::empty() =~= head.filter(ours));
        }
    }
}

/// A filter that every element passes changes nothing.
proof fn lemma_filter_keeps_all(
    batches: Seq<Seq<SnapshotView>>,
    pred: spec_fn(Seq<SnapshotView>) -> bool,
)
    requires
        forall|i: int| 0 <= i < batches.len() ==> pred(#[trigger] batches[i]),
    ensures
        batches.filter(pred) == batches,
    decreases batches.len(),
{
    reveal(Seq::filter);
    if batches.len() > 0 {
        lemma_filter_keeps_all(batches.drop_last(), pred);
        assert(batches =~= batches.drop_last().push(batches.last()));
    }
}

/// Whether `names` holds `name`.
fn holds(names: &Vec<String>, name: &String) -> (r: bool)
    ensures
        r == texts(names@).contains(name@),
{
    let mut i: usize = 0;
    while i < names.len()
        invariant
            i <= names.len(),
            forall|j: int| 0 <= j < i ==> texts(names@)[j] != name@,
        decreases names.len() - i,
    {
        if names[i] == *name {
            assert(texts(names@)[i as int] == name@);
            return true;
        }
        i += 1;
    }
    false
}

/// The datasets of the snapshots, each once, in the order in which they
/// first appear.
pub fn get_datasets(snapshots: &Vec<Snapshot>) -> (r: Vec<String>)
    ensures
        texts(r@) == datasets_of(views(snapshots@)),
{
    let mut datasets: Vec<String> = Vec::new();
    let mut i: usize = 0;
    while i < snapshots.len()
        invariant
            i <= snapshots.len(),
            texts(datasets@) == datasets_of(views(snapshots@).take(i as int)),
        decreases snapshots.len() - i,
    {
        proof {
            let seen = views(snapshots@).take(i + 1);
            assert(seen.drop_last() =~= views(snapshots@).take(i as int));
            assert(seen.last() == snapshots[i as int]@);
        }
        let ghost before = texts(datasets@);
        if !holds(&datasets, snapshots[i].dataset()) {
            datasets.push(snapshots[i].dataset().clone());
            assert(texts(datasets@) =~= before.push(snapshots[i as int]@.dataset));
        }
        i += 1;
    }
    proof {
        assert(views(snapshots@).take(snapshots.len() as int) =~= views(snapshots@));
    }
    datasets
}

/// The snapshots of one dataset, in their order.
fn snapshots_of<'a>(snapshots: &'a Vec<Snapshot>, dataset: &String) -> (r: Vec<&'a Snapshot>)
    ensures
        ref_views(r@) == of_dataset(views(snapshots@), dataset@),
{
    let ghost wanted = |s: SnapshotView| s.dataset == dataset@;
    let mut found: Vec<&Snapshot> = Vec::new();
    let mut i: usize = 0;
    while i < snapshots.len()
        invariant
            i <= snapshots.len(),
            wanted == |s: SnapshotView| s.dataset == dataset@,
            ref_views(found@) == views(snapshots@).take(i as int).filter(wanted),
        decreases snapshots.len() - i,
    {
        proof {
            let seen = views(snapshots@).take(i as int);
            assert(views(snapshots@).take(i + 1) =~= seen.push(snapshots[i as int]@));
            seen.lemma_filter_push(snapshots[i as int]@, wanted);
        }
        let ghost before = ref_views(found@);
        if *snapshots[i].dataset() == *dataset {
            found.push(&snapshots[i]);
            assert(ref_views(found@) =~= before.push(snapshots[i as int]@));
        }
        i += 1;
    }
    proof {
        assert(views(snapshots@).take(snapshots.len() as int) =~= views(snapshots@));
    }
    found
}

/// Cuts the snapshots of one dataset into batches of `size`. A snapshot is
/// queued, and the queue is handed on as a batch whenever its length is a
/// multiple of `size`; what is queued at the end makes the last batch.
fn split_batches<'a>(snapshots: &Vec<&'a Snapshot>, size: u32) -> (r: Vec<Vec<&'a Snapshot>>)
    requires
        size > 0,
    ensures
        batch_views(r@) == batches(ref_views(snapshots@), size as nat),
{
    let ghost all = ref_views(snapshots@);
    let mut out: Vec<Vec<&'a Snapshot>> = Vec::new();
    let mut queued: Vec<&'a Snapshot> = Vec::new();
    let mut i: usize = 0;
    proof {
        assert(all.skip(0) =~= all);
        assert(batch_views(out@) + batches(all, size as nat) =~= batches(all, size as nat));
    }
    while i < snapshots.len()
        invariant
            i <= snapshots.len(),
            size > 0,
            all == ref_views(snapshots@),
            queued.len() < size,
            queued.len() <= i,
            ref_views(queued@) == all.subrange(i - queued.len(), i as int),
            batch_views(out@) + batches(all.skip(i - queued.len()), size as nat) == batches(
                all,
                size as nat,
            ),
        decreases snapshots.len() - i,
    {
        let ghost start = i - queued.len();
        let ghost before = ref_views(queued@);
        queued.push(snapshots[i]);
        assert(ref_views(queued@) =~= before.push(snapshots[i as int]@));
        assert(ref_views(queued@) =~= all.subrange(start, i + 1));
        if queued.len() % (size as usize) == 0 {
            proof {
                assert(queued.len() == size) by {
                    if queued.len() < size {
                        vstd::arithmetic::div_mod::lemma_small_mod(
                            queued.len() as nat,
                            size as nat,
                        );
                    }
                }
                let rest = all.skip(start);
                assert(rest.take(size as int) =~= ref_views(queued@));
                if rest.len() <= size {
                    assert(rest =~= ref_views(queued@));
                    assert(all.skip(i + 1).len() == 0);
                    assert(batches(rest, size as nat) =~= seq![ref_views(queued@)] + batches(
                        all.skip(i + 1),
                        size as nat,
                    ));
                } else {
                    assert(rest.skip(size as int) =~= all.skip(i + 1));
                }
            }
            let ghost done = batch_views(out@);
            out.push(queued);
            queued = Vec::new();
            proof {
                assert(batch_views(out@) =~= done.push(all.subrange(start, i + 1)));
                assert(batch_views(out@) + batches(all.skip(i + 1), size as nat) =~= done
                    + batches(all.skip(start), size as nat));
                assert(ref_views(queued@) =~= all.subrange(i + 1, i + 1));
            }
        } else {
            proof {
                if queued.len() == size {
                    vstd::arithmetic::div_mod::lemma_mod_self_0(size as int);
                }
            }
        }
        i += 1;
    }
    if queued.len() != 0 {
        let ghost done = batch_views(out@);
        let ghost start = i - queued.len();
        proof {
            assert(all.skip(start) =~= ref_views(queued@));
        }
        out.push(queued);
        proof {
            assert(batch_views(out@) =~= done.push(all.skip(start)));
            assert(batch_views(out@) =~= done + batches(all.skip(start), size as nat));
        }
    } else {
        proof {
            assert(all.skip(i as int).len() == 0);
            assert(batch_views(out@) =~= batch_views(out@) + batches(
                all.skip(i as int),
                size as nat,
            ));
        }
    }
    out
}

/// The batches in which `destroy_snapshots` destroys the snapshots: dataset
/// by dataset, and within a dataset `iteration_amount` snapshots at a time.
pub fn plan_batches<'a>(snapshots: &'a Vec<Snapshot>, iteration_amount: u32) -> (r: Vec<
    Vec<&'a Snapshot>,
>)
    requires
        iteration_amount > 0,
    ensures
        batch_views(r@) == planned_batches(views(snapshots@), iteration_amount as nat),
{
    let datasets = get_datasets(snapshots);
    let ghost all = views(snapshots@);
    let ghost cut = |dataset: Seq<char>| batches(of_dataset(all, dataset), iteration_amount as nat);
    let mut plan: Vec<Vec<&'a Snapshot>> = Vec::new();
    let mut i: usize = 0;
    while i < datasets.len()
        invariant
            i <= datasets.len(),
            iteration_amount > 0,
            all == views(snapshots@),
            texts(datasets@) == datasets_of(all),
            cut == |dataset: Seq<char>| batches(of_dataset(all, dataset), iteration_amount as nat),
            batch_views(plan@) == texts(datasets@).take(i as int).map_values(cut).flatten(),
        decreases datasets.len() - i,
    {
        let snapshots_for_dataset = snapshots_of(snapshots, &datasets[i]);
        let mut found = split_batches(&snapshots_for_dataset, iteration_amount);
        let ghost before = batch_views(plan@);
        let ghost added = batch_views(found@);
        plan.append(&mut found);
        proof {
            let names = texts(datasets@);
            assert(names[i as int] == datasets[i as int]@);
            assert(added == cut(names[i as int]));
            assert(batch_views(plan@) =~= before + added);
            assert(names.take(i + 1).map_values(cut) =~= names.take(i as int).map_values(cut).push(
                added,
            ));
            names.take(i as int).map_values(cut).lemma_flatten_push(added);
        }
        i += 1;
    }
    proof {
        assert(texts(datasets@).take(datasets.len() as int) =~= texts(datasets@));
    }
    plan
}

} // verus!
