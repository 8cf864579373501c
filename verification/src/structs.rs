//! Points in time, snapshots and the run configuration.

use crate::enums::ConfigError;
use crate::traits::Communicator;
use chrono::{
    Datelike, Local, MappedLocalTime, NaiveDate, NaiveDateTime, NaiveTime, TimeDelta, Timelike,
};
use vstd::prelude::*;

verus! {

/// The format of the time in a snapshot's name, in chrono's `strftime`
/// syntax: `YYYY-MM-DD-HHMM-SS`.
pub const SNAPSHOT_FORMAT: &'static str = "%Y-%m-%d-%H%M-%S";

/// How many days back the cutoff lies when none is given.
pub const DEFAULT_CUTOFF: i64 = 30;

/// A date and time of day as a wall clock in the local time zone shows it.
/// A leap second is written as second 59 with a nanosecond of at least
/// 1,000,000,000. Any field values can be held; whether they name a date and
/// time of the calendar is found out where the value is formatted.
#[derive(Debug, Clone, Copy, PartialEq, Eq, Structural, PartialOrd, Ord)]
pub struct Timestamp {
    pub year: i32,
    pub month: u32,
    pub day: u32,
    pub hour: u32,
    pub minute: u32,
    pub second: u32,
    pub nanosecond: u32,
}

/// What `NaiveDateTime::parse_from_str` of chrono makes of `text` under the
/// format `format`: the fields of the date and time, or `None` where it
/// reports an error.
pub uninterp spec fn parsed_time(text: Seq<char>, format: Seq<char>) -> Option<Timestamp>;

/// What `NaiveDateTime::format` of chrono writes for these fields under the
/// format `format`, or `None` where chrono has no date and time with these
/// fields or cannot write the format.
pub uninterp spec fn formatted_time(time: Timestamp, format: Seq<char>) -> Option<Seq<char>>;

/// The date and time `days` days before `time`, as chrono's
/// `NaiveDateTime::checked_sub_signed` computes it, or `None` where chrono
/// has no date and time with these fields, cannot hold so many days as a
/// `TimeDelta`, or has the result out of its range.
pub uninterp spec fn days_before(time: Timestamp, days: int) -> Option<Timestamp>;

/// Calls `NaiveDateTime::parse_from_str` and reads the fields of the result.
/// The outcome is a function of the two texts alone.
#[verifier::external_body]
fn parse_time(text: &str, format: &str) -> (r: Option<Timestamp>)
    ensures
        r == parsed_time(text@, format@),
{
    match NaiveDateTime::parse_from_str(text, format) {
        Ok(t) => Some(
            Timestamp {
                year: t.year(),
                month: t.month(),
                day: t.day(),
                hour: t.hour(),
                minute: t.minute(),
                second: t.second(),
                nanosecond: t.nanosecond(),
            },
        ),
        Err(_) => None,
    }
}

/// Builds chrono's `NaiveDateTime` from the fields and writes it with
/// `NaiveDateTime::format`. The outcome is a function of the fields and the
/// format alone; it is `None` where chrono refuses the fields or the format.
#[verifier::external_body]
fn format_time(time: &Timestamp, format: &str) -> (r: Option<String>)
    ensures
        match r {
            Some(text) => formatted_time(*time, format@) == Some(text@),
            None => formatted_time(*time, format@) is None,
        },
{
    let date = NaiveDate::from_ymd_opt(time.year, time.month, time.day)?;
    let clock = NaiveTime::from_hms_nano_opt(time.hour, time.minute, time.second, time.nanosecond)?;
    let mut text = String::new();
    NaiveDateTime::new(date, clock).format(format).write_to(&mut text).ok()?;
    Some(text)
}

/// Builds chrono's `NaiveDateTime` from the fields and subtracts `days`
/// days, made with `TimeDelta::try_days`, with
/// `NaiveDateTime::checked_sub_signed`. The outcome is a function of the
/// arguments alone.
#[verifier::external_body]
fn subtract_days(time: &Timestamp, days: i64) -> (r: Option<Timestamp>)
    ensures
        r == days_before(*time, days as int),
{
    let date = NaiveDate::from_ymd_opt(time.year, time.month, time.day)?;
    let clock = NaiveTime::from_hms_nano_opt(time.hour, time.minute, time.second, time.nanosecond)?;
    let t = NaiveDateTime::new(date, clock).checked_sub_signed(TimeDelta::try_days(days)?)?;
    Some(
        Timestamp {
            year: t.year(),
            month: t.month(),
            day: t.day(),
            hour: t.hour(),
            minute: t.minute(),
            second: t.second(),
            nanosecond: t.nanosecond(),
        },
    )
}

/// Asks chrono's `NaiveDateTime::and_local_timezone` with `Local` for the
/// instants at which the wall clock of the local time zone shows `time`, and
/// says whether it is given exactly one. The answer depends on the time zone
/// of the machine, so nothing is promised of it.
#[verifier::external_body]
fn is_single_local_time(time: &Timestamp) -> bool {
    let date = NaiveDate::from_ymd_opt(time.year, time.month, time.day);
    let clock = NaiveTime::from_hms_nano_opt(time.hour, time.minute, time.second, time.nanosecond);
    match (date, clock) {
        (Some(d), Some(c)) => match NaiveDateTime::new(d, c).and_local_timezone(Local) {
            MappedLocalTime::Single(_) => true,
            MappedLocalTime::Ambiguous(_, _) => false,
            MappedLocalTime::None => false,
        },
        _ => false,
    }
}

/// Reads the wall clock of the local time zone with chrono's `Local::now`.
/// The answer depends on when and where it is asked, so nothing is promised
/// of it.
#[verifier::external_body]
fn local_now() -> Timestamp {
    let t = Local::now().naive_local();
    Timestamp {
        year: t.year(),
        month: t.month(),
        day: t.day(),
        hour: t.hour(),
        minute: t.minute(),
        second: t.second(),
        nanosecond: t.nanosecond(),
    }
}

impl Timestamp {
    pub fn new(
        year: i32,
        month: u32,
        day: u32,
        hour: u32,
        minute: u32,
        second: u32,
        nanosecond: u32,
    ) -> (r: Timestamp)
        ensures
            r == (Timestamp { year, month, day, hour, minute, second, nanosecond }),
    {
        Timestamp { year, month, day, hour, minute, second, nanosecond }
    }

    /// Whether `self` lies strictly before `other`: the fields are compared
    /// from the year down to the nanosecond, and the first that differs
    /// decides.
    pub open spec fn is_before(self, other: Timestamp) -> bool {
        if self.year != other.year {
            self.year < other.year
        } else if self.month != other.month {
            self.month < other.month
        } else if self.day != other.day {
            self.day < other.day
        } else if self.hour != other.hour {
            self.hour < other.hour
        } else if self.minute != other.minute {
            self.minute < other.minute
        } else if self.second != other.second {
            self.second < other.second
        } else {
            self.nanosecond < other.nanosecond
        }
    }

    pub fn earlier_than(&self, other: &Timestamp) -> (r: bool)
        ensures
            r == self.is_before(*other),
    {
        if self.year != other.year {
            self.year < other.year
        } else if self.month != other.month {
            self.month < other.month
        } else if self.day != other.day {
            self.day < other.day
        } else if self.hour != other.hour {
            self.hour < other.hour
        } else if self.minute != other.minute {
            self.minute < other.minute
        } else if self.second != other.second {
            self.second < other.second
        } else {
            self.nanosecond < other.nanosecond
        }
    }

    /// The text of this time in the snapshot format, where there is one.
    pub open spec fn text(self) -> Option<Seq<char>> {
        formatted_time(self, SNAPSHOT_FORMAT@)
    }

    /// Writes the time in the snapshot format; `None` where the fields are
    /// no date and time of the calendar.
    pub fn format(&self) -> (r: Option<String>)
        ensures
            match r {
                Some(text) => self.text() == Some(text@),
                None => self.text() is None,
            },
    {
        format_time(self, SNAPSHOT_FORMAT)
    }
}

/// Being before is a strict order on timestamps, and of two different
/// timestamps one is before the other.
pub proof fn lemma_is_before_orders(a: Timestamp, b: Timestamp, c: Timestamp)
    ensures
        !a.is_before(a),
        a.is_before(b) ==> !b.is_before(a),
        a.is_before(b) && b.is_before(c) ==> a.is_before(c),
        a == b || a.is_before(b) || b.is_before(a),
{
}

/// The date and time that a text in the snapshot format names, where it
/// names one.
pub open spec fn snapshot_time(text: Seq<char>) -> Option<Timestamp> {
    parsed_time(text, SNAPSHOT_FORMAT@)
}

/// What `parse_date` answers, given the date that the text names and whether
/// the local time zone has exactly one instant for it: the date where it
/// has, and nothing where the zone skips the date or has it twice.
pub fn date_in_zone(named: Option<Timestamp>, single: bool) -> (r: Option<Timestamp>)
    ensures
        r == if single {
            named
        } else {
            None
        },
{
    if single {
        named
    } else {
        None
    }
}

/// Reads a date in the snapshot format as a time of the local zone. The
/// fields are those that the text names. A text that names no date gives
/// `None`; so does one whose date the local time zone skips or has twice,
/// which only the zone can tell: the zone is asked about the date that the
/// text names, and `date_in_zone` settles the answer.
pub fn parse_date(text: &str) -> (r: Option<Timestamp>)
    ensures
        r matches Some(t) ==> snapshot_time(text@) == Some(t),
        snapshot_time(text@) is None ==> r is None,
{
    let named = parse_time(text, SNAPSHOT_FORMAT);
    let single = match named {
        None => false,
        Some(t) => is_single_local_time(&t),
    };
    date_in_zone(named, single)
}

/// The cutoff that is used when none is given: thirty days before `time`.
pub fn get_cutoff_date(time: Timestamp) -> (r: Option<Timestamp>)
    ensures
        r == days_before(time, DEFAULT_CUTOFF as int),
{
    subtract_days(&time, DEFAULT_CUTOFF)
}

/// What a snapshot is: the four fields that tell one snapshot from another.
pub struct SnapshotView {
    pub pool: Seq<char>,
    pub dataset: Seq<char>,
    pub date: Timestamp,
    pub label: Seq<char>,
}

impl SnapshotView {
    /// The part of the snapshot's name behind the `@`: the time in the
    /// snapshot format, a hyphen and the label.
    pub open spec fn suffix(self) -> Seq<char> {
        self.date.text().unwrap() + seq!['-'] + self.label
    }

    /// The snapshot's full name: `dataset@time-label`.
    pub open spec fn name(self) -> Seq<char> {
        self.dataset + seq!['@'] + self.suffix()
    }
}

/// The views of a sequence of snapshots.
pub open spec fn views(v: Seq<Snapshot>) -> Seq<SnapshotView> {
    v.map_values(|s: Snapshot| s@)
}

/// The views of a sequence of borrowed snapshots.
pub open spec fn ref_views(v: Seq<&Snapshot>) -> Seq<SnapshotView> {
    v.map_values(|s: &Snapshot| s@)
}

/// One snapshot of a dataset. The suffix is kept beside the fields it is
/// made of, so that it is formatted once.
#[derive(Debug, PartialEq, Eq, PartialOrd, Ord)]
pub struct Snapshot {
    pool: String,
    dataset: String,
    date: Timestamp,
    label: String,
    suffix: String,
}

impl View for Snapshot {
    type V = SnapshotView;

    closed spec fn view(&self) -> SnapshotView {
        SnapshotView {
            pool: self.pool@,
            dataset: self.dataset@,
            date: self.date,
            label: self.label@,
        }
    }
}

impl Snapshot {
    #[verifier::type_invariant]
    spec fn suffix_is_derived(self) -> bool {
        &&& self.date.text() is Some
        &&& self.suffix@ == self@.suffix()
    }

    /// A snapshot with these fields, where the date can be written in the
    /// snapshot format; `None` where it cannot.
    pub fn new(pool: &str, dataset: &str, date: Timestamp, label: &str) -> (r: Option<Snapshot>)
        ensures
            match r {
                Some(s) => date.text() is Some && s@ == (SnapshotView {
                    pool: pool@,
                    dataset: dataset@,
                    date: date,
                    label: label@,
                }),
                None => date.text() is None,
            },
    {
        match date.format() {
            None => None,
            Some(text) => {
                let mut suffix = text;
                suffix.push('-');
                suffix.append(label);
                assert(suffix@ =~= date.text().unwrap() + seq!['-'] + label@);
                Some(
                    Snapshot {
                        pool: String::from_str(pool),
                        dataset: String::from_str(dataset),
                        date,
                        label: String::from_str(label),
                        suffix,
                    },
                )
            },
        }
    }

    /// Whether the snapshot was taken strictly before the cutoff. A snapshot
    /// taken at the cutoff itself is not stale.
    pub fn is_stale(&self, cutoff_date: &Timestamp) -> (r: bool)
        ensures
            r == self@.date.is_before(*cutoff_date),
    {
        self.date.earlier_than(cutoff_date)
    }

    pub fn suffix(&self) -> (r: &String)
        ensures
            self@.date.text() is Some,
            r@ == self@.suffix(),
    {
        proof {
            use_type_invariant(self);
        }
        &self.suffix
    }

    pub fn pool(&self) -> (r: &String)
        ensures
            r@ == self@.pool,
    {
        &self.pool
    }

    pub fn dataset(&self) -> (r: &String)
        ensures
            r@ == self@.dataset,
    {
        &self.dataset
    }

    pub fn date(&self) -> (r: &Timestamp)
        ensures
            *r == self@.date,
    {
        &self.date
    }

    pub fn label(&self) -> (r: &String)
        ensures
            r@ == self@.label,
    {
        &self.label
    }

    /// The snapshot's full name, `dataset@time-label`, as the storage tool
    /// lists it.
    pub fn to_string(&self) -> (r: String)
        ensures
            self@.date.text() is Some,
            r@ == self@.name(),
    {
        proof {
            use_type_invariant(self);
        }
        let mut name = self.dataset.clone();
        name.push('@');
        name.append(self.suffix.as_str());
        name
    }

    /// Whether two snapshots are the same: pool, dataset, date and label
    /// agree.
    pub fn same_as(&self, other: &Snapshot) -> (r: bool)
        ensures
            r == (self@ == other@),
    {
        self.pool == other.pool && self.dataset == other.dataset && self.date == other.date
            && self.label == other.label
    }
}

/// What a configuration holds.
pub struct ConfigView {
    pub pool: Seq<char>,
    pub date: Timestamp,
    pub exclude_file: Seq<char>,
    pub show_queued: bool,
    pub show_excluded: bool,
    pub dry_run: bool,
    pub iteration_count: u32,
    pub no_confirm: bool,
    pub label: Seq<char>,
    pub show_config: bool,
}

/// The parameters of one run.
#[derive(Debug)]
pub struct Config {
    pool: String,
    date: Timestamp,
    exclude_file: String,
    show_queued: bool,
    show_excluded: bool,
    dry_run: bool,
    iteration_count: u32,
    no_confirm: bool,
    label: String,
    show_config: bool,
}

impl View for Config {
    type V = ConfigView;

    closed spec fn view(&self) -> ConfigView {
        ConfigView {
            pool: self.pool@,
            date: self.date,
            exclude_file: self.exclude_file@,
            show_queued: self.show_queued,
            show_excluded: self.show_excluded,
            dry_run: self.dry_run,
            iteration_count: self.iteration_count,
            no_confirm: self.no_confirm,
            label: self.label@,
            show_config: self.show_config,
        }
    }
}

impl Config {
    #[verifier::type_invariant]
    spec fn names_a_pool(self) -> bool {
        self.pool@.len() > 0
    }

    /// What `new` answers once the cutoff date is settled and it is known
    /// whether the exclude file exists. `cutoff` is `None` where no date
    /// could be had; `file_exists` counts only where an exclude file is
    /// named. An empty pool is refused first, then a missing date, then a
    /// missing file.
    pub fn validated(
        pool: &str,
        cutoff: Option<Timestamp>,
        exclude_file: &str,
        file_exists: bool,
        show_queued: bool,
        show_excluded: bool,
        dry_run: bool,
        iteration_count: u32,
        no_confirm: bool,
        label: &str,
        show_config: bool,
    ) -> (r: Result<Config, ConfigError>)
        ensures
            r == Err::<Config, ConfigError>(ConfigError::EmptyPool) <==> pool@.len() == 0,
            r == Err::<Config, ConfigError>(ConfigError::InvalidDate) <==> pool@.len() > 0
                && cutoff is None,
            r == Err::<Config, ConfigError>(ConfigError::MissingExcludeFile) <==> pool@.len() > 0
                && cutoff is Some && exclude_file@.len() > 0 && !file_exists,
            r is Ok <==> pool@.len() > 0 && cutoff is Some && (exclude_file@.len() == 0
                || file_exists),
            r matches Ok(c) ==> c@ == (ConfigView {
                pool: pool@,
                date: cutoff.unwrap(),
                exclude_file: exclude_file@,
                show_queued,
                show_excluded,
                dry_run,
                iteration_count,
                no_confirm,
                label: label@,
                show_config,
            }),
    {
        if pool.is_empty() {
            return Err(ConfigError::EmptyPool);
        }
        let date = match cutoff {
            None => {
                return Err(ConfigError::InvalidDate);
            },
            Some(d) => d,
        };
        if !exclude_file.is_empty() && !file_exists {
            return Err(ConfigError::MissingExcludeFile);
        }
        Ok(
            Config {
                pool: String::from_str(pool),
                date,
                exclude_file: String::from_str(exclude_file),
                show_queued,
                show_excluded,
                dry_run,
                iteration_count,
                no_confirm,
                label: String::from_str(label),
                show_config,
            },
        )
    }

    /// Checks the parameters of a run and bundles them. An empty `date`
    /// asks for the default cutoff, thirty days before the time that the
    /// local clock shows; any other text is read as a date in the snapshot
    /// format. The communicator is asked about the exclude file only where
    /// one is named. With the date settled and the communicator's answer in
    /// hand, `validated` decides.
    pub fn new<T: Communicator>(
        communicator: &T,
        pool: &str,
        date: &str,
        exclude_file: &str,
        show_queued: bool,
        show_excluded: bool,
        dry_run: bool,
        iteration_count: u32,
        no_confirm: bool,
        label: &str,
        show_config: bool,
    ) -> (r: Result<Config, ConfigError>)
        ensures
            r == Err::<Config, ConfigError>(ConfigError::EmptyPool) <==> pool@.len() == 0,
            pool@.len() > 0 && date@.len() > 0 && snapshot_time(date@) is None ==> r == Err::<
                Config,
                ConfigError,
            >(ConfigError::InvalidDate),
            r == Err::<Config, ConfigError>(ConfigError::MissingExcludeFile) ==> pool@.len() > 0
                && exclude_file@.len() > 0,
            r matches Ok(c) ==> {
                &&& c@.pool == pool@
                &&& date@.len() > 0 ==> snapshot_time(date@) == Some(c@.date)
                &&& date@.len() == 0 ==> exists|now: Timestamp| #[trigger]
                    days_before(now, DEFAULT_CUTOFF as int) == Some(c@.date)
                &&& c@.exclude_file == exclude_file@
                &&& c@.show_queued == show_queued
                &&& c@.show_excluded == show_excluded
                &&& c@.dry_run == dry_run
                &&& c@.iteration_count == iteration_count
                &&& c@.no_confirm == no_confirm
                &&& c@.label == label@
                &&& c@.show_config == show_config
            },
    {
        let cutoff = if date.is_empty() {
            let now = local_now();
            let cutoff = get_cutoff_date(now);
            assert(cutoff == days_before(now, DEFAULT_CUTOFF as int));
            cutoff
        } else {
            parse_date(date)
        };
        let file_exists = if exclude_file.is_empty() {
            false
        } else {
            communicator.does_file_exist(exclude_file)
        };
        Config::validated(
            pool,
            cutoff,
            exclude_file,
            file_exists,
            show_queued,
            show_excluded,
            dry_run,
            iteration_count,
            no_confirm,
            label,
            show_config,
        )
    }

    pub fn pool(&self) -> (r: &String)
        ensures
            r@ == self@.pool,
            r@.len() > 0,
    {
        proof {
            use_type_invariant(self);
        }
        &self.pool
    }

    pub fn date(&self) -> (r: &Timestamp)
        ensures
            *r == self@.date,
    {
        &self.date
    }

    pub fn exclude_file(&self) -> (r: &String)
        ensures
            r@ == self@.exclude_file,
    {
        &self.exclude_file
    }

    pub fn should_show_queued(&self) -> (r: bool)
        ensures
            r == self@.show_queued,
    {
        self.show_queued
    }

    pub fn should_show_excluded(&self) -> (r: bool)
        ensures
            r == self@.show_excluded,
    {
        self.show_excluded
    }

    pub fn should_dry_run(&self) -> (r: bool)
        ensures
            r == self@.dry_run,
    {
        self.dry_run
    }

    pub fn iteration_count(&self) -> (r: u32)
        ensures
            r == self@.iteration_count,
    {
        self.iteration_count
    }

    pub fn no_confirm(&self) -> (r: bool)
        ensures
            r == self@.no_confirm,
    {
        self.no_confirm
    }

    pub fn label(&self) -> (r: &String)
        ensures
            r@ == self@.label,
    {
        &self.label
    }

    pub fn should_show_config(&self) -> (r: bool)
        ensures
            r == self@.show_config,
    {
        self.show_config
    }
}

} // verus!
