use honeydew::destroy::deleted_by;
use honeydew::enums::{ConfigError, SystemError, SystemResult};
use honeydew::parse::split_name;
use honeydew::select::{is_excluded, relevant_among};
use honeydew::structs::{date_in_zone, parse_date};
use honeydew::testing::{create_snapshot, get_fake_config, FakeCommunicator};
use honeydew::traits::Communicator;
use honeydew::{
    build_and_destroy, build_list_to_delete, destroy_snapshots, get_cutoff_date, get_datasets,
    get_excluded_snapshots, get_parsed_snapshots, get_relevant_snapshots, get_snapshots_base,
    get_snapshots_for, get_stale_snapshots, next_action, parse_snapshot, plan_batches,
    remove_excluded_snapshots, resolve_exclusions, Action, Config, Snapshot, Timestamp,
};
use std::cell::RefCell;

fn snapshot(dataset: &str, time: &str, label: &str) -> Snapshot {
    create_snapshot(dataset, time, label).unwrap()
}

fn names(snapshots: &Vec<&Snapshot>) -> Vec<String> {
    snapshots.iter().map(|s| s.to_string()).collect()
}

/// Takes every destroy call as done and keeps its argument; after `limit`
/// calls it fails.
struct Recorder {
    calls: RefCell<Vec<String>>,
    limit: usize,
    listing: String,
    excluded: String,
}

impl Recorder {
    fn new() -> Recorder {
        Recorder {
            calls: RefCell::new(Vec::new()),
            limit: usize::MAX,
            listing: String::new(),
            excluded: String::new(),
        }
    }
}

impl Communicator for Recorder {
    fn get_snapshots(&self) -> SystemResult {
        Ok(self.listing.clone())
    }

    fn destroy_snapshots(&self, snapshots: String) -> SystemResult {
        if self.calls.borrow().len() >= self.limit {
            return Err(SystemError::DeleteSnapshots("no".to_string()));
        }
        self.calls.borrow_mut().push(snapshots.clone());
        Ok(snapshots)
    }

    fn get_excluded_snapshots(&self, exclude_file: &str) -> SystemResult {
        if exclude_file == "unreadable" {
            return Err(SystemError::OpeningFile("denied".to_string()));
        }
        Ok(self.excluded.clone())
    }

    fn does_file_exist(&self, filename: &str) -> bool {
        filename != "missing"
    }
}

struct Broken;

impl Communicator for Broken {
    fn get_snapshots(&self) -> SystemResult {
        Err(SystemError::SpawnProcess("zfs not found".to_string()))
    }

    fn destroy_snapshots(&self, _snapshots: String) -> SystemResult {
        Err(SystemError::DeleteSnapshots("busy".to_string()))
    }

    fn get_excluded_snapshots(&self, _exclude_file: &str) -> SystemResult {
        Err(SystemError::ReadingFromString("bad bytes".to_string()))
    }

    fn does_file_exist(&self, _filename: &str) -> bool {
        false
    }
}

#[test]
fn a_name_is_taken_apart_at_the_at_sign_and_the_hyphens() {
    let parts = split_name("tank/gentoo/os@2020-08-13-2354-09-CHECKPOINT").unwrap();
    assert_eq!("tank", parts.pool);
    assert_eq!("tank/gentoo/os", parts.dataset);
    assert_eq!("2020-08-13-2354-09", parts.time);
    assert_eq!("CHECKPOINT", parts.label);
}

#[test]
fn a_dataset_without_a_slash_is_its_own_pool() {
    let parts = split_name("boot@2020-08-12-1237-49-CHECKPOINT").unwrap();
    assert_eq!("boot", parts.pool);
    assert_eq!("boot", parts.dataset);
}

#[test]
fn a_parsed_name_round_trips() {
    for raw in [
        "boot@2020-08-12-1237-49-CHECKPOINT",
        "tank/gentoo/os@2020-08-13-2354-09-CHECKPOINT",
        "backup/tank/gentoo/home@1999-12-31-0000-00-x",
        "tank@2020-01-01-2354-09-",
    ] {
        let parsed = parse_snapshot(raw).unwrap();
        let behind_at = &raw[raw.find('@').unwrap() + 1..];
        assert_eq!(behind_at, parsed.suffix());
        assert_eq!(raw, parsed.to_string());
    }
}

#[test]
fn a_time_written_otherwise_is_rewritten_in_the_format() {
    let parsed = parse_snapshot("tank@2020-8-12-1237-49-X").unwrap();
    assert_eq!(&Timestamp::new(2020, 8, 12, 12, 37, 49, 0), parsed.date());
    assert_eq!("2020-08-12-1237-49-X", parsed.suffix());
}

#[test]
fn the_label_is_taken_as_it_stands() {
    assert_eq!("", parse_snapshot("tank@2020-08-12-1237-49-").unwrap().label());
    assert_eq!("a b", parse_snapshot("tank@2020-08-12-1237-49-a b").unwrap().label());
    assert_eq!("X,y", parse_snapshot("tank@2020-08-12-1237-49-X,y").unwrap().label());
}

#[test]
fn a_leap_second_keeps_its_place() {
    let parsed = parse_snapshot("tank@2016-12-31-2359-60-X").unwrap();
    assert_eq!(&Timestamp::new(2016, 12, 31, 23, 59, 59, 1_000_000_000), parsed.date());
    assert_eq!("2016-12-31-2359-60-X", parsed.suffix());
    let before = Timestamp::new(2016, 12, 31, 23, 59, 59, 0);
    let after = Timestamp::new(2017, 1, 1, 0, 0, 0, 0);
    assert!(before.earlier_than(parsed.date()));
    assert!(parsed.date().earlier_than(&after));
}

#[test]
fn names_without_exactly_one_at_sign_are_refused() {
    assert_eq!(None, parse_snapshot("boot-2020-08-12-1237-49-CHECKPOINT"));
    assert_eq!(None, parse_snapshot("boot@2020-08-12-1237-49-CHECKPOINT@x"));
    assert_eq!(None, parse_snapshot("boot@@2020-08-12-1237-49-CHECKPOINT"));
    assert_eq!(None, parse_snapshot(""));
    assert!(split_name("boot").is_none());
    assert!(split_name("a@b@c").is_none());
}

#[test]
fn names_without_exactly_six_fields_are_refused() {
    assert_eq!(None, parse_snapshot("boot@2020-08-12-1237-49"));
    assert_eq!(None, parse_snapshot("boot@2020-08-12-1237-49-CHECK-POINT"));
    assert_eq!(None, parse_snapshot("boot@"));
    assert_eq!(None, parse_snapshot("boot@-----x-"));
    assert!(split_name("boot@1-2-3-4-5").is_none());
    assert!(split_name("boot@1-2-3-4-5-6-7").is_none());
    assert!(split_name("boot@1-2-3-4-5-6").is_some());
}

#[test]
fn names_with_no_date_are_refused() {
    assert_eq!(None, parse_snapshot("boot@2020-02-30-1237-49-CHECKPOINT"));
    assert_eq!(None, parse_snapshot("boot@2020-13-01-1237-49-CHECKPOINT"));
    assert_eq!(None, parse_snapshot("boot@2020-08-12-2537-49-CHECKPOINT"));
    assert_eq!(None, parse_snapshot("boot@2020-08-12-12:37-49-CHECKPOINT"));
    assert_eq!(None, parse_snapshot("boot@year-08-12-1237-49-CHECKPOINT"));
    assert_eq!(None, parse_snapshot("boot@-----"));
}

#[test]
fn a_date_is_read_in_the_snapshot_format() {
    assert_eq!(
        Some(Timestamp::new(2017, 9, 26, 11, 11, 0, 0)),
        parse_date("2017-09-26-1111-00")
    );
    assert_eq!(None, parse_date("2017-09-26 11:11:00"));
    assert_eq!(None, parse_date(""));
}

#[test]
fn a_date_counts_only_where_the_zone_has_it_once() {
    let date = Timestamp::new(2017, 9, 26, 11, 11, 0, 0);
    assert_eq!(Some(date), date_in_zone(Some(date), true));
    assert_eq!(None, date_in_zone(Some(date), false));
    assert_eq!(None, date_in_zone(None, true));
    assert_eq!(None, date_in_zone(None, false));
}

#[test]
fn a_time_is_written_in_the_snapshot_format() {
    assert_eq!(
        Some("2020-07-03-0405-06".to_string()),
        Timestamp::new(2020, 7, 3, 4, 5, 6, 0).format()
    );
    assert_eq!(
        Some("0987-12-31-2359-59".to_string()),
        Timestamp::new(987, 12, 31, 23, 59, 59, 999_999_999).format()
    );
    assert_eq!(None, Timestamp::new(2020, 6, 31, 0, 0, 0, 0).format());
}

#[test]
fn a_snapshot_needs_a_date_of_the_calendar() {
    assert!(Snapshot::new("tank", "tank", Timestamp::new(2020, 2, 29, 0, 0, 0, 0), "X").is_some());
    assert!(Snapshot::new("tank", "tank", Timestamp::new(2021, 2, 29, 0, 0, 0, 0), "X").is_none());
    assert!(Snapshot::new("tank", "tank", Timestamp::new(2020, 0, 1, 0, 0, 0, 0), "X").is_none());
    assert!(Snapshot::new("tank", "tank", Timestamp::new(2020, 1, 1, 24, 0, 0, 0), "X").is_none());
    assert!(Snapshot::new("tank", "tank", Timestamp::new(2020, 1, 1, 0, 0, 0, 1_000_000_000), "X")
        .is_none());
}

#[test]
fn a_snapshot_writes_its_suffix_and_its_name() {
    let s = Snapshot::new("tank", "tank/os", Timestamp::new(2020, 7, 3, 4, 5, 6, 0), "NIGHTLY")
        .unwrap();
    assert_eq!("tank", s.pool());
    assert_eq!("tank/os", s.dataset());
    assert_eq!("NIGHTLY", s.label());
    assert_eq!("2020-07-03-0405-06-NIGHTLY", s.suffix());
    assert_eq!("tank/os@2020-07-03-0405-06-NIGHTLY", s.to_string());
}

#[test]
fn snapshots_are_the_same_when_their_four_fields_agree() {
    let a = snapshot("tank/os", "2020-07-13-2354-09", "CHECKPOINT");
    assert!(a.same_as(&snapshot("tank/os", "2020-07-13-2354-09", "CHECKPOINT")));
    assert!(!a.same_as(&snapshot("tank/home", "2020-07-13-2354-09", "CHECKPOINT")));
    assert!(!a.same_as(&snapshot("tank/os", "2020-07-13-2354-10", "CHECKPOINT")));
    assert!(!a.same_as(&snapshot("tank/os", "2020-07-13-2354-09", "OTHER")));
    let elsewhere =
        Snapshot::new("pool", "tank/os", Timestamp::new(2020, 7, 13, 23, 54, 9, 0), "CHECKPOINT")
            .unwrap();
    assert!(!a.same_as(&elsewhere));
}

#[test]
fn earlier_than_compares_field_by_field() {
    let t = Timestamp::new(2020, 5, 10, 12, 30, 30, 500);
    assert!(!t.earlier_than(&t));
    assert!(Timestamp::new(2019, 12, 31, 23, 59, 59, 999).earlier_than(&t));
    assert!(Timestamp::new(2020, 4, 30, 23, 59, 59, 999).earlier_than(&t));
    assert!(Timestamp::new(2020, 5, 9, 23, 59, 59, 999).earlier_than(&t));
    assert!(Timestamp::new(2020, 5, 10, 11, 59, 59, 999).earlier_than(&t));
    assert!(Timestamp::new(2020, 5, 10, 12, 29, 59, 999).earlier_than(&t));
    assert!(Timestamp::new(2020, 5, 10, 12, 30, 29, 999).earlier_than(&t));
    assert!(Timestamp::new(2020, 5, 10, 12, 30, 30, 499).earlier_than(&t));
    assert!(!Timestamp::new(2020, 5, 10, 12, 30, 30, 501).earlier_than(&t));
    assert!(!Timestamp::new(2021, 1, 1, 0, 0, 0, 0).earlier_than(&t));
    let year_zero = Timestamp::new(0, 1, 1, 0, 0, 0, 0);
    assert!(Timestamp::new(-1, 12, 31, 0, 0, 0, 0).earlier_than(&year_zero));
}

#[test]
fn earlier_than_agrees_with_the_order_of_timestamps() {
    let times = [
        Timestamp::new(2019, 12, 31, 23, 59, 59, 0),
        Timestamp::new(2020, 1, 1, 0, 0, 0, 0),
        Timestamp::new(2020, 1, 1, 0, 0, 0, 1),
        Timestamp::new(2020, 1, 2, 0, 0, 0, 0),
        Timestamp::new(2020, 2, 1, 0, 0, 0, 0),
    ];
    for a in times.iter() {
        for b in times.iter() {
            assert_eq!(a < b, a.earlier_than(b));
        }
    }
}

#[test]
fn a_snapshot_taken_at_the_cutoff_is_not_stale() {
    let cutoff = Timestamp::new(2020, 8, 13, 23, 54, 9, 0);
    let at_cutoff = snapshot("tank/os", "2020-08-13-2354-09", "CHECKPOINT");
    let just_before = snapshot("tank/os", "2020-08-13-2354-08", "CHECKPOINT");
    assert!(!at_cutoff.is_stale(&cutoff));
    assert!(just_before.is_stale(&cutoff));
    let kept = get_stale_snapshots(vec![at_cutoff, just_before], &cutoff);
    assert_eq!(vec![snapshot("tank/os", "2020-08-13-2354-08", "CHECKPOINT")], kept);
}

#[test]
fn an_empty_label_admits_every_label() {
    let all = vec![
        snapshot("tank/os", "2020-07-13-2354-09", "CHECKPOINT"),
        snapshot("tank/os", "2020-08-13-2354-09", "LOL"),
        snapshot("tanker", "2020-08-13-2354-09", "LOL"),
        snapshot("boot", "2020-08-13-2354-09", "LOL"),
    ];
    let expected = vec![
        snapshot("tank/os", "2020-07-13-2354-09", "CHECKPOINT"),
        snapshot("tank/os", "2020-08-13-2354-09", "LOL"),
    ];
    assert_eq!(expected, get_snapshots_for("tank", "", all));
}

#[test]
fn the_label_is_matched_exactly() {
    let all = vec![
        snapshot("tank/os", "2020-07-13-2354-09", "CHECKPOINT"),
        snapshot("tank/os", "2020-07-13-2354-09", "checkpoint"),
        snapshot("tank/os", "2020-07-13-2354-09", "CHECKPOINTS"),
    ];
    let expected = vec![snapshot("tank/os", "2020-07-13-2354-09", "CHECKPOINT")];
    assert_eq!(expected, get_snapshots_for("tank", "CHECKPOINT", all));
}

#[test]
fn taking_exclusions_out_twice_is_taking_them_out_once() {
    let excluded = vec![
        snapshot("boot", "2020-08-12-1237-49", "CHECKPOINT"),
        snapshot("tank", "2020-01-01-2354-09", "CHECKPOINT"),
    ];
    let all = || {
        vec![
            snapshot("boot", "2020-08-12-1237-49", "CHECKPOINT"),
            snapshot("tank/gentoo/os", "2020-07-13-2354-09", "CHECKPOINT"),
            snapshot("tank", "2020-01-01-2354-09", "CHECKPOINT"),
            snapshot("boot", "2020-08-12-1237-49", "CHECKPOINT"),
        ]
    };
    let once = remove_excluded_snapshots(all(), &excluded);
    let twice = remove_excluded_snapshots(remove_excluded_snapshots(all(), &excluded), &excluded);
    assert_eq!(vec![snapshot("tank/gentoo/os", "2020-07-13-2354-09", "CHECKPOINT")], once);
    assert_eq!(once, twice);
}

#[test]
fn an_exclusion_wins_whatever_the_date() {
    let config = get_fake_config("tank", "2020-05-01-1200-00", "").unwrap();
    let fresh = || snapshot("tank/os", "2020-09-13-2354-09", "CHECKPOINT");
    let old = || snapshot("tank/os", "2020-01-13-2354-09", "CHECKPOINT");
    let other = || snapshot("tank/os", "2020-02-13-2354-09", "CHECKPOINT");
    let excluded = vec![fresh(), old()];
    let found = relevant_among(vec![fresh(), old(), other()], &config, &excluded);
    assert_eq!(vec![other()], found);
    for s in found.iter() {
        assert!(!is_excluded(s, &excluded));
    }
    assert!(is_excluded(&fresh(), &excluded));
    assert_eq!(vec![other()], remove_excluded_snapshots(vec![fresh(), other()], &excluded));
}

#[test]
fn an_exclusion_of_another_pool_or_label_has_no_effect() {
    let mut storage = Recorder::new();
    storage.excluded = "boot@2020-01-01-0000-00-CHECKPOINT\n\
        tank/os@2020-01-01-0000-00-OTHER\n\
        tank/os@2020-01-02-0000-00-CHECKPOINT\n\
        not a snapshot\n\n"
        .to_string();
    storage.listing = "boot@2020-01-01-0000-00-CHECKPOINT\n\
        tank/os@2020-01-01-0000-00-CHECKPOINT\n\
        tank/os@2020-01-01-0000-00-OTHER\n\
        tank/os@2020-01-02-0000-00-CHECKPOINT\n"
        .to_string();
    let config = Config::new(
        &storage,
        "tank",
        "2020-05-01-1200-00",
        "list",
        false,
        false,
        false,
        100,
        true,
        "CHECKPOINT",
        false,
    )
    .unwrap();
    let excluded = resolve_exclusions(&storage, &config).unwrap();
    assert_eq!(vec![snapshot("tank/os", "2020-01-02-0000-00", "CHECKPOINT")], excluded);
    let found = get_relevant_snapshots(&storage, &config, &excluded).unwrap();
    assert_eq!(vec![snapshot("tank/os", "2020-01-01-0000-00", "CHECKPOINT")], found);
}

#[test]
fn without_an_exclude_file_nothing_is_excluded() {
    let config = get_fake_config("boot", "2020-05-01-1200-00", "").unwrap();
    assert_eq!(
        Vec::<Snapshot>::new(),
        resolve_exclusions(&FakeCommunicator::new(true), &config).unwrap()
    );
    assert_eq!(Vec::<Snapshot>::new(), resolve_exclusions(&Broken, &config).unwrap());
}

#[test]
fn the_listing_is_filtered_and_the_exclusions_taken_out() {
    let raw = vec![
        "boot@2020-08-12-1237-49-CHECKPOINT".to_string(),
        "tank/os@2020-07-13-2354-09-CHECKPOINT".to_string(),
        "tank/os@2020-05-01-1100-00-CHECKPOINT".to_string(),
        "tank/home@2020-04-25-1300-15-CHECKPOINT".to_string(),
        "tank@2020-01-01-2354-09-CHECKPOINT".to_string(),
    ];
    let excluded =
        get_parsed_snapshots(vec!["tank/home@2020-04-25-1300-15-CHECKPOINT".to_string()]);
    let config = get_fake_config("tank", "2020-05-01-1200-00", "").unwrap();
    let found = relevant_among(get_parsed_snapshots(raw), &config, &excluded);
    let written: Vec<String> = found.iter().map(|s| s.to_string()).collect();
    assert_eq!(
        vec![
            "tank/os@2020-05-01-1100-00-CHECKPOINT",
            "tank@2020-01-01-2354-09-CHECKPOINT"
        ],
        written
    );
}

#[test]
fn datasets_come_in_the_order_of_their_first_snapshot() {
    let snapshots = vec![
        snapshot("tank/b", "2020-07-13-2354-09", "CHECKPOINT"),
        snapshot("tank/a", "2020-05-01-1100-00", "CHECKPOINT"),
        snapshot("tank/b", "2020-09-05-1300-00", "CHECKPOINT"),
        snapshot("tank", "2020-09-05-1310-00", "CHECKPOINT"),
        snapshot("tank/a", "2020-09-05-1310-00", "CHECKPOINT"),
    ];
    assert_eq!(vec!["tank/b", "tank/a", "tank"], get_datasets(&snapshots));
    assert_eq!(Vec::<String>::new(), get_datasets(&Vec::new()));
}

#[test]
fn four_snapshots_of_one_dataset_go_in_two_calls_of_two() {
    let snapshots = vec![
        snapshot("tank/os", "2020-01-01-0000-00", "A"),
        snapshot("tank/os", "2020-01-02-0000-00", "B"),
        snapshot("tank/os", "2020-01-03-0000-00", "C"),
        snapshot("tank/os", "2020-01-04-0000-00", "D"),
    ];
    let storage = Recorder::new();
    let mut deleted = destroy_snapshots(&storage, &snapshots, 2).unwrap();
    assert_eq!(
        vec![
            "tank/os@2020-01-01-0000-00-A,2020-01-02-0000-00-B",
            "tank/os@2020-01-03-0000-00-C,2020-01-04-0000-00-D"
        ],
        *storage.calls.borrow()
    );
    let mut expected: Vec<&Snapshot> = snapshots.iter().collect();
    expected.sort();
    deleted.sort();
    assert_eq!(expected, deleted);
}

#[test]
fn no_call_mixes_datasets() {
    let snapshots = vec![
        snapshot("tank/os", "2020-01-01-0000-00", "A"),
        snapshot("tank/home", "2020-01-02-0000-00", "B"),
        snapshot("tank/os", "2020-01-03-0000-00", "C"),
        snapshot("tank/home", "2020-01-04-0000-00", "D"),
        snapshot("tank/os", "2020-01-05-0000-00", "E"),
    ];
    let storage = Recorder::new();
    let deleted = destroy_snapshots(&storage, &snapshots, 2).unwrap();
    assert_eq!(
        vec![
            "tank/os@2020-01-01-0000-00-A,2020-01-03-0000-00-C",
            "tank/os@2020-01-05-0000-00-E",
            "tank/home@2020-01-02-0000-00-B,2020-01-04-0000-00-D"
        ],
        *storage.calls.borrow()
    );
    assert_eq!(
        vec![
            "tank/os@2020-01-01-0000-00-A",
            "tank/os@2020-01-03-0000-00-C",
            "tank/os@2020-01-05-0000-00-E",
            "tank/home@2020-01-02-0000-00-B",
            "tank/home@2020-01-04-0000-00-D"
        ],
        names(&deleted)
    );
    for batch in plan_batches(&snapshots, 2) {
        assert!(!batch.is_empty() && batch.len() <= 2);
        assert!(batch.iter().all(|s| s.dataset() == batch[0].dataset()));
    }
}

#[test]
fn a_batch_size_above_the_count_gives_one_call_for_each_dataset() {
    let snapshots = vec![
        snapshot("tank/os", "2020-01-01-0000-00", "A"),
        snapshot("tank/home", "2020-01-02-0000-00", "B"),
        snapshot("tank/os", "2020-01-03-0000-00", "C"),
    ];
    for size in [2, 3, 100, u32::MAX] {
        let storage = Recorder::new();
        destroy_snapshots(&storage, &snapshots, size).unwrap();
        assert_eq!(
            vec![
                "tank/os@2020-01-01-0000-00-A,2020-01-03-0000-00-C",
                "tank/home@2020-01-02-0000-00-B"
            ],
            *storage.calls.borrow()
        );
    }
}

#[test]
fn a_batch_size_of_one_gives_one_call_for_each_snapshot() {
    let snapshots = vec![
        snapshot("tank/os", "2020-01-01-0000-00", "A"),
        snapshot("tank/os", "2020-01-03-0000-00", "C"),
    ];
    let storage = Recorder::new();
    destroy_snapshots(&storage, &snapshots, 1).unwrap();
    assert_eq!(
        vec!["tank/os@2020-01-01-0000-00-A", "tank/os@2020-01-03-0000-00-C"],
        *storage.calls.borrow()
    );
}

#[test]
fn nothing_to_destroy_makes_no_call() {
    let storage = Recorder::new();
    let snapshots = Vec::new();
    assert!(destroy_snapshots(&storage, &snapshots, 5).unwrap().is_empty());
    assert!(storage.calls.borrow().is_empty());
    assert!(destroy_snapshots(&Broken, &snapshots, 5).unwrap().is_empty());
    assert!(plan_batches(&snapshots, 5).is_empty());
}

#[test]
fn the_plan_cuts_each_dataset_into_runs() {
    let snapshots = vec![
        snapshot("a", "2020-01-01-0000-00", "1"),
        snapshot("a", "2020-01-01-0000-00", "2"),
        snapshot("b", "2020-01-01-0000-00", "3"),
        snapshot("a", "2020-01-01-0000-00", "4"),
        snapshot("a", "2020-01-01-0000-00", "5"),
        snapshot("a", "2020-01-01-0000-00", "6"),
    ];
    let plan: Vec<Vec<String>> = plan_batches(&snapshots, 2)
        .iter()
        .map(|batch| batch.iter().map(|s| s.label().clone()).collect())
        .collect();
    assert_eq!(vec![vec!["1", "2"], vec!["4", "5"], vec!["6"], vec!["3"]], plan);
}

#[test]
fn a_failed_destroy_call_ends_the_run() {
    let snapshots = vec![
        snapshot("tank/os", "2020-01-01-0000-00", "A"),
        snapshot("tank/os", "2020-01-02-0000-00", "B"),
        snapshot("tank/os", "2020-01-03-0000-00", "C"),
    ];
    let mut storage = Recorder::new();
    storage.limit = 1;
    let outcome = destroy_snapshots(&storage, &snapshots, 1);
    assert!(matches!(outcome, Err(SystemError::DeleteSnapshots(_))));
    assert_eq!(vec!["tank/os@2020-01-01-0000-00-A"], *storage.calls.borrow());
    let batch: Vec<&Snapshot> = snapshots.iter().collect();
    assert!(matches!(
        build_and_destroy(&Broken, &batch),
        Err(SystemError::DeleteSnapshots(_))
    ));
}

#[test]
fn a_batch_counts_as_deleted_only_where_the_call_succeeded() {
    let snapshots = vec![
        snapshot("tank/os", "2020-01-01-0000-00", "A"),
        snapshot("tank/os", "2020-01-02-0000-00", "B"),
    ];
    let batch: Vec<&Snapshot> = snapshots.iter().collect();
    assert_eq!(batch, deleted_by(&batch, Ok("whatever".to_string())).unwrap());
    assert!(matches!(
        deleted_by(&batch, Err(SystemError::DeleteSnapshots("busy".to_string()))),
        Err(SystemError::DeleteSnapshots(_))
    ));
    assert_eq!(batch, build_and_destroy(&FakeCommunicator::new(true), &batch).unwrap());
}

#[test]
fn the_destroy_argument_names_the_dataset_once() {
    let snapshots = vec![
        snapshot("tank/os", "2020-01-01-0000-00", "A"),
        snapshot("tank/os", "2020-01-02-0000-00", "B"),
    ];
    let one: Vec<&Snapshot> = snapshots.iter().take(1).collect();
    let none: Vec<&Snapshot> = Vec::new();
    assert_eq!("tank/os@2020-01-01-0000-00-A", build_list_to_delete(&one));
    assert_eq!("", build_list_to_delete(&none));
}

#[test]
fn a_failed_listing_is_handed_on() {
    assert!(matches!(
        get_snapshots_base(Err(SystemError::SpawnProcess("gone".to_string()))),
        Err(SystemError::SpawnProcess(_))
    ));
    let config = get_fake_config("tank", "2020-05-01-1200-00", "").unwrap();
    assert!(matches!(
        get_relevant_snapshots(&Broken, &config, &Vec::new()),
        Err(SystemError::SpawnProcess(_))
    ));
    assert_eq!(
        vec!["a@b", "", "c"],
        get_snapshots_base(Ok("a@b\n\nc\n".to_string())).unwrap()
    );
}

#[test]
fn an_unreadable_exclude_file_is_handed_on() {
    let storage = Recorder::new();
    let config = Config::new(
        &storage,
        "tank",
        "2020-05-01-1200-00",
        "unreadable",
        false,
        false,
        false,
        100,
        true,
        "",
        false,
    )
    .unwrap();
    assert!(matches!(
        resolve_exclusions(&storage, &config),
        Err(SystemError::OpeningFile(_))
    ));
}

#[test]
fn a_failed_read_of_the_exclude_file_is_handed_on() {
    let config = get_fake_config("tank", "2020-05-01-1200-00", "").unwrap();
    assert!(matches!(
        get_excluded_snapshots(&Broken, &config),
        Err(SystemError::ReadingFromString(_))
    ));
}

#[test]
fn a_configuration_needs_a_pool() {
    let storage = FakeCommunicator::new(true);
    let refused = Config::new(
        &storage,
        "",
        "2020-05-01-1200-00",
        "",
        false,
        false,
        false,
        100,
        true,
        "",
        false,
    );
    assert_eq!(Some(ConfigError::EmptyPool), refused.err());
    assert_eq!(
        Some(ConfigError::EmptyPool),
        get_fake_config("", "nonsense", "").err()
    );
}

#[test]
fn a_configuration_needs_a_date_in_the_snapshot_format() {
    for date in ["2017-09-26", "yesterday", "2017-09-26-1111-00-", "2017-02-30-1111-00"] {
        assert_eq!(
            Some(ConfigError::InvalidDate),
            get_fake_config("tank", date, "").err()
        );
    }
}

#[test]
fn a_configuration_needs_its_exclude_file() {
    let refused = Config::new(
        &Recorder::new(),
        "tank",
        "2020-05-01-1200-00",
        "missing",
        false,
        false,
        false,
        100,
        true,
        "",
        false,
    );
    assert_eq!(Some(ConfigError::MissingExcludeFile), refused.err());
    let first_the_date = Config::new(
        &Recorder::new(),
        "tank",
        "no date",
        "missing",
        false,
        false,
        false,
        100,
        true,
        "",
        false,
    );
    assert_eq!(Some(ConfigError::InvalidDate), first_the_date.err());
}

#[test]
fn a_configuration_is_checked_pool_first_then_date_then_file() {
    let cutoff = Some(Timestamp::new(2020, 5, 1, 12, 0, 0, 0));
    let check = |pool: &str, cutoff: Option<Timestamp>, file: &str, exists: bool| {
        Config::validated(pool, cutoff, file, exists, false, true, false, 7, true, "L", false)
    };
    assert_eq!(Some(ConfigError::EmptyPool), check("", None, "f", false).err());
    assert_eq!(Some(ConfigError::InvalidDate), check("tank", None, "f", false).err());
    assert_eq!(
        Some(ConfigError::MissingExcludeFile),
        check("tank", cutoff, "f", false).err()
    );
    let with_file = check("tank", cutoff, "f", true).unwrap();
    assert_eq!("f", with_file.exclude_file());
    let config = check("tank", cutoff, "", false).unwrap();
    assert_eq!("tank", config.pool());
    assert_eq!(&Timestamp::new(2020, 5, 1, 12, 0, 0, 0), config.date());
    assert_eq!("", config.exclude_file());
    assert_eq!("L", config.label());
    assert_eq!(7, config.iteration_count());
    assert!(!config.should_show_queued());
    assert!(config.should_show_excluded());
    assert!(!config.should_dry_run());
    assert!(config.no_confirm());
    assert!(!config.should_show_config());
}

#[test]
fn without_a_date_the_cutoff_lies_in_the_past() {
    let config = get_fake_config("tank", "", "").unwrap();
    assert!(config.date().earlier_than(&Timestamp::new(9999, 1, 1, 0, 0, 0, 0)));
    assert!(Timestamp::new(2020, 1, 1, 0, 0, 0, 0).earlier_than(config.date()));
}

#[test]
fn the_default_cutoff_is_thirty_days_back() {
    assert_eq!(
        Some(Timestamp::new(2020, 3, 1, 12, 0, 0, 250)),
        get_cutoff_date(Timestamp::new(2020, 3, 31, 12, 0, 0, 250))
    );
    assert_eq!(
        Some(Timestamp::new(2019, 12, 17, 0, 0, 0, 0)),
        get_cutoff_date(Timestamp::new(2020, 1, 16, 0, 0, 0, 0))
    );
    assert_eq!(None, get_cutoff_date(Timestamp::new(2020, 2, 30, 0, 0, 0, 0)));
}

#[test]
fn the_fake_communicator_answers_from_memory() {
    let fake = FakeCommunicator::new(false);
    assert!(!fake.does_file_exist("anything"));
    assert!(FakeCommunicator::new(true).does_file_exist("anything"));
    assert_eq!(
        "tank/os@2020-01-01-0000-00-A",
        fake.destroy_snapshots("tank/os@2020-01-01-0000-00-A".to_string()).unwrap()
    );
    assert_eq!(
        "boot@2020-08-12-1237-49-CHECKPOINT\ntank/gentoo/os@2020-07-13-2354-09-CHECKPOINT\n",
        fake.get_excluded_snapshots("ignored").unwrap()
    );
    assert_eq!(4, fake.get_snapshots().unwrap().lines().count());
}

#[test]
fn a_dry_run_destroys_nothing_and_a_clean_pool_is_not_asked_about() {
    let cutoff = Some(Timestamp::new(2020, 5, 1, 12, 0, 0, 0));
    let config = |dry_run: bool, no_confirm: bool| {
        Config::validated(
            "tank", cutoff, "", false, false, false, dry_run, 100, no_confirm, "", false,
        )
        .unwrap()
    };
    assert_eq!(Action::Nothing, next_action(&config(true, false), 3));
    assert_eq!(Action::Nothing, next_action(&config(true, true), 3));
    assert_eq!(Action::Nothing, next_action(&config(true, true), 0));
    assert_eq!(Action::ReportClean, next_action(&config(false, false), 0));
    assert_eq!(Action::ReportClean, next_action(&config(false, true), 0));
    assert_eq!(Action::Destroy, next_action(&config(false, true), 1));
    assert_eq!(Action::Ask, next_action(&config(false, false), 1));
}
