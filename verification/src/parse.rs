//! From the storage tool's listing to snapshots: the lines of the listing,
//! the parts of a snapshot's name, and the snapshot that a name stands for.

use crate::enums::{SystemError, SystemResult};
use crate::structs::{parse_date, snapshot_time, views, Snapshot, SnapshotView};
use crate::text::{joined, lemma_tokens, lines, lines_of, occurrences, split, texts, tokens};
use crate::traits::Communicator;
use vstd::prelude::*;

verus! {

/// The parts of a snapshot's name, as text.
pub struct NameParts {
    pub pool: String,
    pub dataset: String,
    pub time: String,
    pub label: String,
}

pub struct NamePartsView {
    pub pool: Seq<char>,
    pub dataset: Seq<char>,
    pub time: Seq<char>,
    pub label: Seq<char>,
}

impl View for NameParts {
    type V = NamePartsView;

    open spec fn view(&self) -> NamePartsView {
        NamePartsView {
            pool: self.pool@,
            dataset: self.dataset@,
            time: self.time@,
            label: self.label@,
        }
    }
}

/// The parts of the name `raw`, where it has the form
/// `dataset@YYYY-MM-DD-HHMM-SS-label`: exactly one `@`, and behind it exactly
/// six fields between hyphens. The dataset is what stands before the `@`, the
/// pool what stands before the dataset's first `/`, the label the sixth
/// field, and the time the first five fields with their hyphens.
pub open spec fn name_parts(raw: Seq<char>) -> Option<NamePartsView> {
    let halves = tokens(raw, '@');
    if halves.len() != 2 {
        None
    } else {
        let fields = tokens(halves[1], '-');
        if fields.len() != 6 {
            None
        } else {
            Some(
                NamePartsView {
                    pool: tokens(halves[0], '/')[0],
                    dataset: halves[0],
                    time: joined(fields.take(5), '-'),
                    label: fields[5],
                },
            )
        }
    }
}

/// The snapshot that the name `raw` stands for: its parts, with the time
/// read in the snapshot format. There is none where the name has not the
/// form, where the time is no date, or where the date cannot be written in
/// the snapshot format.
pub open spec fn snapshot_of(raw: Seq<char>) -> Option<SnapshotView> {
    match name_parts(raw) {
        None => None,
        Some(parts) => match snapshot_time(parts.time) {
            None => None,
            Some(date) => if date.text() is Some {
                Some(
                    SnapshotView {
                        pool: parts.pool,
                        dataset: parts.dataset,
                        date,
                        label: parts.label,
                    },
                )
            } else {
                None
            },
        },
    }
}

/// A name is refused unless it holds exactly one `@` and, behind it,
/// exactly six fields between hyphens, that is, exactly five hyphens.
pub proof fn lemma_malformed_names_are_refused(raw: Seq<char>)
    ensures
        occurrences(raw, '@') != 1 ==> name_parts(raw) is None && snapshot_of(raw) is None,
        tokens(raw, '@').len() == 2 && occurrences(tokens(raw, '@')[1], '-') != 5 ==> name_parts(
            raw,
        ) is None && snapshot_of(raw) is None,
{
    lemma_tokens(raw, '@');
    if tokens(raw, '@').len() == 2 {
        lemma_tokens(tokens(raw, '@')[1], '-');
    }
}

/// The first segment stands at the start of the joined text.
proof fn lemma_joined_starts_with_first(parts: Seq<Seq<char>>, sep: char)
    requires
        parts.len() > 0,
    ensures
        parts[0].is_prefix_of(joined(parts, sep)),
        parts.len() > 1 ==> joined(parts, sep).len() > parts[0].len() && joined(
            parts,
            sep,
        )[parts[0].len() as int] == sep,
    decreases parts.len(),
{
    if parts.len() > 1 {
        let front = parts.drop_last();
        lemma_joined_starts_with_first(front, sep);
        assert(front[0] == parts[0]);
        let text = joined(parts, sep);
        assert(text == joined(front, sep) + seq![sep] + parts.last());
        assert(text.subrange(0, parts[0].len() as int) =~= joined(front, sep).subrange(
            0,
            parts[0].len() as int,
        ));
    } else {
        assert(joined(parts, sep).subrange(0, parts[0].len() as int) =~= parts[0]);
    }
}

/// The parts of a name make up the name, and the pool is the start of the
/// dataset: the whole of it where the dataset holds no `/`, else what stands
/// before its first `/`.
pub proof fn lemma_name_parts(raw: Seq<char>)
    requires
        name_parts(raw) is Some,
    ensures
        ({
            let parts = name_parts(raw).unwrap();
            &&& parts.dataset + seq!['@'] + parts.time + seq!['-'] + parts.label == raw
            &&& parts.time + seq!['-'] + parts.label == tokens(raw, '@')[1]
            &&& !parts.dataset.contains('@')
            &&& !parts.label.contains('-')
            &&& !parts.pool.contains('/')
            &&& parts.pool.is_prefix_of(parts.dataset)
            &&& if occurrences(parts.dataset, '/') == 0 {
                parts.pool == parts.dataset
            } else {
                parts.pool.len() < parts.dataset.len() && parts.dataset[parts.pool.len() as int]
                    == '/'
            }
        }),
{
    let parts = name_parts(raw).unwrap();
    let halves = tokens(raw, '@');
    let fields = tokens(halves[1], '-');
    let names = tokens(halves[0], '/');
    lemma_tokens(raw, '@');
    lemma_tokens(halves[1], '-');
    lemma_tokens(halves[0], '/');
    assert(joined(halves, '@') == joined(halves.drop_last(), '@') + seq!['@'] + halves.last());
    assert(halves.drop_last().len() == 1);
    assert(joined(halves.drop_last(), '@') == halves[0]);
    assert(fields.drop_last() =~= fields.take(5));
    assert(joined(fields, '-') == joined(fields.take(5), '-') + seq!['-'] + fields[5]);
    assert(parts.dataset + seq!['@'] + parts.time + seq!['-'] + parts.label =~= halves[0] + seq![
        '@',
    ] + (parts.time + seq!['-'] + parts.label));
    lemma_joined_starts_with_first(names, '/');
}

/// Reading a name and writing the snapshot gives the name back: the label
/// is the sixth field as it stands, and where the time of the name is
/// written as the snapshot format writes the date it names, the snapshot's
/// suffix is what stands behind the `@` and its full name is the name that
/// was read.
pub proof fn lemma_parse_round_trip(raw: Seq<char>)
    ensures
        snapshot_of(raw) matches Some(s) ==> {
            &&& s.label == tokens(tokens(raw, '@')[1], '-')[5]
            &&& s.date.text() == Some(name_parts(raw).unwrap().time) ==> s.suffix() == tokens(
                raw,
                '@',
            )[1] && s.name() == raw
        },
{
    if snapshot_of(raw) is Some {
        lemma_name_parts(raw);
        let s = snapshot_of(raw).unwrap();
        let parts = name_parts(raw).unwrap();
        if s.date.text() == Some(parts.time) {
            assert(s.name() =~= parts.dataset + seq!['@'] + parts.time + seq!['-'] + parts.label);
        }
    }
}

/// Takes a snapshot's name apart.
pub fn split_name(raw: &str) -> (r: Option<NameParts>)
    ensures
        match r {
            Some(parts) => name_parts(raw@) == Some(parts@),
            None => name_parts(raw@) is None,
        },
{
    let halves = split(raw, '@');
    if halves.len() != 2 {
        return None;
    }
    assert(texts(halves@)[0] == halves[0]@ && texts(halves@)[1] == halves[1]@);
    let names = split(halves[0].as_str(), '/');
    let fields = split(halves[1].as_str(), '-');
    proof {
        lemma_tokens(halves[0]@, '/');
    }
    if fields.len() != 6 {
        return None;
    }
    assert(texts(names@)[0] == names[0]@);
    let ghost f = tokens(halves[1]@, '-');
    assert(forall|i: int| 0 <= i < 6 ==> f[i] == #[trigger] fields[i]@) by {
        assert(forall|i: int| 0 <= i < 6 ==> texts(fields@)[i] == #[trigger] fields[i]@);
    }
    let mut time = fields[0].clone();
    assert(time@ == joined(f.take(1), '-'));
    time.push('-');
    time.append(fields[1].as_str());
    assert(time@ =~= joined(f.take(2), '-')) by {
        assert(f.take(2).drop_last() =~= f.take(1));
    }
    time.push('-');
    time.append(fields[2].as_str());
    assert(time@ =~= joined(f.take(3), '-')) by {
        assert(f.take(3).drop_last() =~= f.take(2));
    }
    time.push('-');
    time.append(fields[3].as_str());
    assert(time@ =~= joined(f.take(4), '-')) by {
        assert(f.take(4).drop_last() =~= f.take(3));
    }
    time.push('-');
    time.append(fields[4].as_str());
    assert(time@ =~= joined(f.take(5), '-')) by {
        assert(f.take(5).drop_last() =~= f.take(4));
    }
    Some(
        NameParts {
            pool: names[0].clone(),
            dataset: halves[0].clone(),
            time,
            label: fields[5].clone(),
        },
    )
}

/// Reads a snapshot's name. The result is the snapshot that the name stands
/// for. A name that stands for none gives `None`; so does one whose time the
/// local time zone skips or has twice, which only the zone can tell.
pub fn parse_snapshot(snapshot: &str) -> (r: Option<Snapshot>)
    ensures
        r matches Some(s) ==> snapshot_of(snapshot@) == Some(s@),
        snapshot_of(snapshot@) is None ==> r is None,
        occurrences(snapshot@, '@') != 1 ==> r is None,
        tokens(snapshot@, '@').len() == 2 && occurrences(tokens(snapshot@, '@')[1], '-') != 5
            ==> r is None,
{
    proof {
        lemma_malformed_names_are_refused(snapshot@);
    }
    let parts = match split_name(snapshot) {
        None => {
            return None;
        },
        Some(p) => p,
    };
    match parse_date(parts.time.as_str()) {
        None => None,
        Some(date) => Snapshot::new(
            parts.pool.as_str(),
            parts.dataset.as_str(),
            date,
            parts.label.as_str(),
        ),
    }
}

/// The snapshots of all the names that stand for one, in the order of the
/// names.
pub open spec fn parsed_all(raws: Seq<Seq<char>>) -> Seq<SnapshotView> {
    raws.filter_map(|raw: Seq<char>| snapshot_of(raw))
}

/// Whether `a` is `b` with some of its elements left out.
pub open spec fn is_sublist(a: Seq<SnapshotView>, b: Seq<SnapshotView>) -> bool
    decreases b.len(),
{
    if a.len() == 0 {
        true
    } else if b.len() == 0 {
        false
    } else {
        ||| a.last() == b.last() && is_sublist(a.drop_last(), b.drop_last())
        ||| is_sublist(a, b.drop_last())
    }
}

/// Reads every name and keeps the snapshots, in the order of the names;
/// names that cannot be read are passed over. What comes back is
/// `parsed_all` of the names without the snapshots whose time the local time
/// zone refuses.
pub fn get_parsed_snapshots(unparsed_snapshots: Vec<String>) -> (r: Vec<Snapshot>)
    ensures
        is_sublist(views(r@), parsed_all(texts(unparsed_snapshots@))),
{
    let mut parsed_snapshots: Vec<Snapshot> = Vec::new();
    let ghost raws = texts(unparsed_snapshots@);
    let mut i: usize = 0;
    while i < unparsed_snapshots.len()
        invariant
            i <= unparsed_snapshots.len(),
            raws == texts(unparsed_snapshots@),
            is_sublist(views(parsed_snapshots@), parsed_all(raws.take(i as int))),
        decreases unparsed_snapshots.len() - i,
    {
        let ghost before = parsed_all(raws.take(i as int));
        let ghost after = parsed_all(raws.take(i + 1));
        proof {
            raws.lemma_filter_map_take_succ(|raw: Seq<char>| snapshot_of(raw), i as int);
            assert(raws[i as int] == unparsed_snapshots[i as int]@);
        }
        match parse_snapshot(unparsed_snapshots[i].as_str()) {
            None => {
                proof {
                    if after.len() > before.len() {
                        assert(after.drop_last() =~= before);
                    } else {
                        assert(after =~= before);
                    }
                }
            },
            Some(s) => {
                let ghost kept = views(parsed_snapshots@);
                parsed_snapshots.push(s);
                proof {
                    assert(after =~= before.push(s@));
                    assert(after.drop_last() =~= before);
                    assert(views(parsed_snapshots@) =~= kept.push(s@));
                    assert(views(parsed_snapshots@).drop_last() =~= kept);
                }
            },
        }
        i += 1;
    }
    proof {
        assert(raws.take(unparsed_snapshots.len() as int) =~= raws);
    }
    parsed_snapshots
}

/// The lines of a listing, or the failure that came in its place.
pub fn get_snapshots_base(results: SystemResult) -> (r: Result<Vec<String>, SystemError>)
    ensures
        match results {
            Ok(listing) => r matches Ok(names) && texts(names@) == lines_of(listing@),
            Err(e) => r == Err::<Vec<String>, SystemError>(e),
        },
{
    match results {
        Err(e) => Err(e),
        Ok(listing) => Ok(lines(listing.as_str())),
    }
}

/// Asks the communicator for the listing of all snapshots and gives its
/// lines. What comes back on success is the lines of the listing that the
/// communicator gave; its failure is handed on.
pub fn get_snapshots<T: Communicator>(communicator: &T) -> (r: Result<Vec<String>, SystemError>)
    ensures
        r matches Ok(names) ==> exists|listing: Seq<char>|
            texts(names@) == #[trigger] lines_of(listing),
{
    let results = communicator.get_snapshots();
    let ghost given = results;
    let names = get_snapshots_base(results);
    proof {
        if names is Ok {
            assert(texts(names.unwrap()@) == lines_of(given.unwrap()@));
        }
    }
    names
}

/// The snapshots that the lines of a listing stand for, in the order of the
/// lines.
pub open spec fn listed(listing: Seq<char>) -> Seq<SnapshotView> {
    parsed_all(lines_of(listing))
}

/// Leaving elements out and then filtering leaves out elements of the
/// filtered sequence.
pub proof fn lemma_sublist_filter(
    a: Seq<SnapshotView>,
    b: Seq<SnapshotView>,
    pred: spec_fn(SnapshotView) -> bool,
)
    requires
        is_sublist(a, b),
    ensures
        is_sublist(a.filter(pred), b.filter(pred)),
    decreases b.len(),
{
    reveal(Seq::filter);
    if a.len() == 0 {
    } else if a.last() == b.last() && is_sublist(a.drop_last(), b.drop_last()) {
        lemma_sublist_filter(a.drop_last(), b.drop_last(), pred);
        if pred(a.last()) {
            let kept_a = a.drop_last().filter(pred);
            let kept_b = b.drop_last().filter(pred);
            assert(a.filter(pred).drop_last() =~= kept_a);
            assert(b.filter(pred).drop_last() =~= kept_b);
        }
    } else {
        lemma_sublist_filter(a, b.drop_last(), pred);
        if pred(b.last()) {
            assert(b.filter(pred).drop_last() =~= b.drop_last().filter(pred));
        }
    }
}

} // verus!
