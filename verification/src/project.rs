//! The record of one discovered project, and what it says of itself.

use vstd::prelude::*;
use crate::clock::{current_time, formatted_time, time_text};
use crate::text::opt_text;
use crate::utils::{format_size, size_text};

verus! {

/// What a directory inside a build-output tree holds.
#[derive(Debug, Clone, Copy, PartialEq, Eq, Structural)]
pub enum ArtifactType {
    Target,
    IncrementalCompilation,
    Dependencies,
    Examples,
    Tests,
    Benchmarks,
    CargoRegistry,
    CargoGitCache,
    CargoConfigCache,
}

/// A point in time: seconds since the Unix epoch, and nanoseconds into the
/// second.
#[derive(Debug, Clone, Copy, PartialEq, Eq, Structural)]
pub struct Timestamp {
    pub secs: i64,
    pub nanos: u32,
}

/// One classified directory inside a project's build-output tree.
#[derive(Debug, Clone)]
pub struct BuildArtifact {
    pub path: String,
    pub artifact_type: ArtifactType,
    pub size: u64,
    pub last_modified: Option<Timestamp>,
}

/// One discovered project.
#[derive(Debug, Clone)]
pub struct RustProject {
    pub path: String,
    pub name: String,
    pub target_dir: Option<String>,
    pub target_size: u64,
    pub last_modified: Option<Timestamp>,
    pub workspace_root: bool,
    pub has_lock_file: bool,
    pub dependencies_count: usize,
    pub build_artifacts: Vec<BuildArtifact>,
    pub cargo_cache_size: u64,
}

/// A build artifact as plain values.
pub struct ArtifactView {
    pub path: Seq<char>,
    pub artifact_type: ArtifactType,
    pub size: nat,
    pub last_modified: Option<Timestamp>,
}

/// A project as plain values.
pub struct ProjectView {
    pub path: Seq<char>,
    pub name: Seq<char>,
    pub target_dir: Option<Seq<char>>,
    pub target_size: nat,
    pub last_modified: Option<Timestamp>,
    pub workspace_root: bool,
    pub has_lock_file: bool,
    pub dependencies_count: nat,
    pub build_artifacts: Seq<ArtifactView>,
    pub cargo_cache_size: nat,
}

/// The number of nanoseconds in a day.
pub open spec fn day_nanos() -> int {
    86_400_000_000_000
}

/// `a / b` rounded towards zero, for a positive `b`.
pub open spec fn quotient_towards_zero(a: int, b: int) -> int
    recommends
        b > 0,
{
    if a >= 0 {
        a / b
    } else {
        -((-a) / b)
    }
}

/// The whole days from `then` to `now`: negative where `then` is a day or
/// more after `now`.
pub open spec fn whole_days(now: Timestamp, then: Timestamp) -> int {
    quotient_towards_zero(now.total_nanos() - then.total_nanos(), day_nanos())
}

/// The days since a project was modified, where that is known.
pub open spec fn days_since(last_modified: Option<Timestamp>, now: Timestamp) -> Option<int> {
    match last_modified {
        Some(then) => Some(whole_days(now, then)),
        None => None,
    }
}

/// A project counts as active when it was modified less than thirty days
/// ago, and when it is not known when it was modified.
pub open spec fn likely_active(last_modified: Option<Timestamp>, now: Timestamp) -> bool {
    match last_modified {
        Some(then) => whole_days(now, then) < 30,
        None => true,
    }
}

/// The days since a project was modified, by a clock that may have no time
/// to give: none where it has none.
pub open spec fn days_by(last_modified: Option<Timestamp>, clock: Option<Timestamp>) -> Option<
    int,
> {
    match clock {
        Some(now) => days_since(last_modified, now),
        None => None,
    }
}

/// Whether a project counts as active, by a clock that may have no time to
/// give: where it has none, the project counts as active.
pub open spec fn active_by(last_modified: Option<Timestamp>, clock: Option<Timestamp>) -> bool {
    match clock {
        Some(now) => likely_active(last_modified, now),
        None => true,
    }
}

/// Whether a number of days is the one that the specification gives.
pub open spec fn same_days(days: Option<i64>, expected: Option<int>) -> bool {
    match (days, expected) {
        (Some(a), Some(b)) => a == b,
        (None, None) => true,
        _ => false,
    }
}

/// Whether deleting a project deserves a question first: not where
/// everything is to be deleted unasked, and else where the project is
/// active or could free more than 500 mebibytes.
pub open spec fn deserves_question(p: ProjectView, now: Timestamp, delete_all: bool) -> bool {
    !delete_all && (likely_active(p.last_modified, now) || p.total_cleanable() > 1024 * 1024 * 500)
}

/// How the text of an artifact type reads.
pub open spec fn description_text(t: ArtifactType) -> Seq<char> {
    match t {
        ArtifactType::Target => "Target directory (build outputs)"@,
        ArtifactType::IncrementalCompilation => "Incremental compilation cache"@,
        ArtifactType::Dependencies => "Compiled dependencies"@,
        ArtifactType::Examples => "Compiled examples"@,
        ArtifactType::Tests => "Compiled tests"@,
        ArtifactType::Benchmarks => "Compiled benchmarks"@,
        ArtifactType::CargoRegistry => "Cargo registry cache"@,
        ArtifactType::CargoGitCache => "Cargo git cache"@,
        ArtifactType::CargoConfigCache => "Cargo configuration cache"@,
    }
}

/// The caches that all projects share: to delete one touches every project.
pub open spec fn is_shared(t: ArtifactType) -> bool {
    t == ArtifactType::CargoRegistry || t == ArtifactType::CargoGitCache || t
        == ArtifactType::CargoConfigCache
}

impl ArtifactType {
    /// A few words on what the artifact is.
    pub fn _description(&self) -> (r: &'static str)
        ensures
            r@ == description_text(*self),
    {
        match self {
            ArtifactType::Target => "Target directory (build outputs)",
            ArtifactType::IncrementalCompilation => "Incremental compilation cache",
            ArtifactType::Dependencies => "Compiled dependencies",
            ArtifactType::Examples => "Compiled examples",
            ArtifactType::Tests => "Compiled tests",
            ArtifactType::Benchmarks => "Compiled benchmarks",
            ArtifactType::CargoRegistry => "Cargo registry cache",
            ArtifactType::CargoGitCache => "Cargo git cache",
            ArtifactType::CargoConfigCache => "Cargo configuration cache",
        }
    }

    /// Whether the artifact belongs to one project alone, so that deleting
    /// it needs no further warning.
    pub fn _is_safe_to_delete(&self) -> (r: bool)
        ensures
            r == !is_shared(*self),
    {
        match self {
            ArtifactType::Target
            | ArtifactType::IncrementalCompilation
            | ArtifactType::Dependencies
            | ArtifactType::Examples
            | ArtifactType::Tests
            | ArtifactType::Benchmarks => true,
            ArtifactType::CargoRegistry
            | ArtifactType::CargoGitCache
            | ArtifactType::CargoConfigCache => false,
        }
    }
}

impl Timestamp {
    /// The point in time as nanoseconds since the Unix epoch.
    pub open spec fn total_nanos(self) -> int {
        self.secs * 1_000_000_000 + self.nanos
    }

    /// Whether `self` is earlier than `other`: by the seconds, then by the
    /// nanoseconds.
    pub open spec fn is_before(self, other: Timestamp) -> bool {
        self.secs < other.secs || (self.secs == other.secs && self.nanos < other.nanos)
    }

    /// The later of two points in time.
    pub open spec fn later_of(self, other: Timestamp) -> Timestamp {
        if self.is_before(other) {
            other
        } else {
            self
        }
    }

    /// Whether `self` is earlier than `other`.
    pub fn before(&self, other: &Timestamp) -> (r: bool)
        ensures
            r == self.is_before(*other),
    {
        self.secs < other.secs || (self.secs == other.secs && self.nanos < other.nanos)
    }

    /// The later of two points in time.
    pub fn latest(self, other: Timestamp) -> (r: Timestamp)
        ensures
            r == self.later_of(other),
    {
        if self.before(&other) {
            other
        } else {
            self
        }
    }

    /// The whole days from `then` to `self`, rounded towards zero.
    pub fn days_after(&self, then: &Timestamp) -> (days: i64)
        ensures
            days == whole_days(*self, *then),
    {
        let day: u128 = 86_400_000_000_000;
        let seconds: i128 = self.secs as i128 - then.secs as i128;
        let nanos: i128 = self.nanos as i128 - then.nanos as i128;
        let span: i128 = seconds * 1_000_000_000 + nanos;
        if span >= 0 {
            let whole: u128 = (span as u128) / day;
            whole as i64
        } else {
            let whole: u128 = ((-span) as u128) / day;
            -(whole as i64)
        }
    }
}

impl View for BuildArtifact {
    type V = ArtifactView;

    open spec fn view(&self) -> ArtifactView {
        ArtifactView {
            path: self.path@,
            artifact_type: self.artifact_type,
            size: self.size as nat,
            last_modified: self.last_modified,
        }
    }
}

/// The artifacts of a list as plain values.
pub open spec fn artifact_views(artifacts: Seq<BuildArtifact>) -> Seq<ArtifactView> {
    artifacts.map_values(|a: BuildArtifact| a@)
}

impl View for RustProject {
    type V = ProjectView;

    open spec fn view(&self) -> ProjectView {
        ProjectView {
            path: self.path@,
            name: self.name@,
            target_dir: opt_text(self.target_dir),
            target_size: self.target_size as nat,
            last_modified: self.last_modified,
            workspace_root: self.workspace_root,
            has_lock_file: self.has_lock_file,
            dependencies_count: self.dependencies_count as nat,
            build_artifacts: artifact_views(self.build_artifacts@),
            cargo_cache_size: self.cargo_cache_size as nat,
        }
    }
}

/// The projects of a list as plain values.
pub open spec fn project_views(projects: Seq<RustProject>) -> Seq<ProjectView> {
    projects.map_values(|p: RustProject| p@)
}

impl ProjectView {
    /// What deleting could free: the build output and the dependency cache.
    pub open spec fn total_cleanable(self) -> nat {
        self.target_size + self.cargo_cache_size
    }
}

impl RustProject {
    /// What holds of every project record: its cleanable total fits the
    /// machine word, and a project without a build-output directory has no
    /// build output and no artifacts.
    pub open spec fn wf(&self) -> bool {
        &&& self@.total_cleanable() <= u64::MAX
        &&& self.target_dir is None ==> self.target_size == 0 && self.build_artifacts@.len() == 0
    }

    /// The bytes that cleaning this project could free: the size of its
    /// build output and of the dependency cache counted with it.
    pub fn total_cleanable_size(&self) -> (total: u64)
        requires
            self@.total_cleanable() <= u64::MAX,
        ensures
            total == self@.total_cleanable(),
            total == self.target_size + self.cargo_cache_size,
            total >= self.target_size,
            total >= self.cargo_cache_size,
    {
        self.target_size + self.cargo_cache_size
    }

    /// The cleanable total as a size in mebibytes, or gibibytes.
    pub fn format_size(&self, use_gb: bool) -> (r: String)
        requires
            self@.total_cleanable() <= u64::MAX,
        ensures
            r@ == size_text(self@.total_cleanable(), use_gb),
    {
        let size = self.total_cleanable_size();
        format_size(size, use_gb)
    }

    /// The whole days from the last modification to `now`.
    pub fn days_since_modified_at(&self, now: &Timestamp) -> (days: Option<i64>)
        ensures
            days is Some <==> self.last_modified is Some,
            days is Some ==> days->0 == whole_days(*now, self.last_modified->0),
    {
        match &self.last_modified {
            Some(then) => Some(now.days_after(then)),
            None => None,
        }
    }

    /// The whole days from the last modification to the time that `clock`
    /// gives, and none where it gives no time.
    pub fn days_since_modified_by(&self, clock: &Option<Timestamp>) -> (days: Option<i64>)
        ensures
            same_days(days, days_by(self.last_modified, *clock)),
    {
        match clock {
            Some(now) => self.days_since_modified_at(now),
            None => None,
        }
    }

    /// The whole days since the last modification, by the system clock;
    /// none where the last modification is not known, or the clock has no
    /// time to give.
    pub fn days_since_modified(&self) -> (days: Option<i64>)
        ensures
            self.last_modified is None ==> days is None,
            exists|clock: Option<Timestamp>| same_days(days, days_by(self.last_modified, clock)),
    {
        let clock = current_time();
        self.days_since_modified_by(&clock)
    }

    /// Whether the project was, at `now`, modified less than thirty days ago
    /// or at a time that is not known.
    pub fn is_likely_active_at(&self, now: &Timestamp) -> (active: bool)
        ensures
            active == likely_active(self.last_modified, *now),
    {
        match self.days_since_modified_at(now) {
            Some(days) => days < 30,
            None => true,
        }
    }

    /// Whether deleting the project deserves a question first, at `now`:
    /// it does where not everything is to be deleted unasked, and the
    /// project is active or could free more than 500 mebibytes.
    pub fn needs_confirmation_at(&self, now: &Timestamp, delete_all: bool) -> (asks: bool)
        ensures
            asks == deserves_question(self@, *now, delete_all),
    {
        let total: u128 = self.target_size as u128 + self.cargo_cache_size as u128;
        !delete_all && (self.is_likely_active_at(now) || total > 1024 * 1024 * 500)
    }

    /// Whether the project counts as active at the time that `clock`
    /// gives; it does where the clock gives no time.
    pub fn is_likely_active_by(&self, clock: &Option<Timestamp>) -> (active: bool)
        ensures
            active == active_by(self.last_modified, *clock),
    {
        match clock {
            Some(now) => self.is_likely_active_at(now),
            None => true,
        }
    }

    /// Whether the project counts as active by the system clock.
    pub fn is_likely_active(&self) -> (active: bool)
        ensures
            self.last_modified is None ==> active,
            exists|clock: Option<Timestamp>| active == active_by(self.last_modified, clock),
    {
        let clock = current_time();
        self.is_likely_active_by(&clock)
    }
}

/// The date shown for a last modification: the calendar date, and
/// `Unknown` where there is none.
pub open spec fn date_label(date: Option<Seq<char>>) -> Seq<char> {
    match date {
        Some(d) => d,
        None => "Unknown"@,
    }
}

/// The pattern of a calendar date: the year, the month and the day of the
/// month, in digits, with hyphens between.
pub open spec fn date_pattern() -> Seq<char> {
    "%Y-%m-%d"@
}

/// The calendar date of a last modification, where it is known and the
/// calendar reaches it.
pub open spec fn modified_date(last_modified: Option<Timestamp>) -> Option<Seq<char>> {
    match last_modified {
        Some(t) => formatted_time(t.secs as int, t.nanos as int, date_pattern()),
        None => None,
    }
}

/// The text for a date that may be missing.
pub fn date_or_unknown(date: Option<String>) -> (r: String)
    ensures
        r@ == date_label(opt_text(date)),
{
    match date {
        Some(d) => d,
        None => "Unknown".to_owned(),
    }
}

/// The date of a project's last modification as the listing shows it.
pub fn last_modified_text(last_modified: &Option<Timestamp>) -> (r: String)
    ensures
        r@ == date_label(modified_date(*last_modified)),
{
    let date = match last_modified {
        Some(t) => time_text(*t, "%Y-%m-%d"),
        None => None,
    };
    date_or_unknown(date)
}

} // verus!
