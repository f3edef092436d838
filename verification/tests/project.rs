use rskiller::project::{
    date_or_unknown, last_modified_text, ArtifactType, BuildArtifact, RustProject, Timestamp,
};

fn project(target_size: u64, cargo_cache_size: u64, last_modified: Option<Timestamp>) -> RustProject {
    RustProject {
        path: "/work/proj".to_string(),
        name: "proj".to_string(),
        target_dir: Some("/work/proj/target".to_string()),
        target_size,
        last_modified,
        workspace_root: false,
        has_lock_file: true,
        dependencies_count: 3,
        build_artifacts: vec![BuildArtifact {
            path: "/work/proj/target/debug".to_string(),
            artifact_type: ArtifactType::Target,
            size: target_size,
            last_modified: None,
        }],
        cargo_cache_size,
    }
}

const DAY: i64 = 86_400;

fn at(secs: i64) -> Timestamp {
    Timestamp { secs, nanos: 0 }
}

#[test]
fn total_is_build_output_and_cache() {
    assert_eq!(project(12_000, 0, None).total_cleanable_size(), 12_000);
    assert_eq!(project(12_000, 500, None).total_cleanable_size(), 12_500);
    assert_eq!(project(0, 0, None).total_cleanable_size(), 0);
    assert_eq!(project(u64::MAX - 1, 1, None).total_cleanable_size(), u64::MAX);
}

#[test]
fn project_size_is_that_of_its_total() {
    assert_eq!(project(1024 * 1024, 0, None).format_size(false), "1.00 MB");
    assert_eq!(project(1024 * 1024, 1024 * 1024 / 2, None).format_size(false), "1.50 MB");
    assert_eq!(project(1024 * 1024 * 1024, 0, None).format_size(true), "1.00 GB");
}

#[test]
fn days_are_whole_days_towards_zero() {
    let now = Timestamp { secs: 100 * DAY, nanos: 5 };
    assert_eq!(project(0, 0, None).days_since_modified_at(&now), None);
    assert_eq!(project(0, 0, Some(at(100 * DAY))).days_since_modified_at(&now), Some(0));
    assert_eq!(project(0, 0, Some(at(99 * DAY + 1))).days_since_modified_at(&now), Some(0));
    assert_eq!(project(0, 0, Some(at(99 * DAY))).days_since_modified_at(&now), Some(1));
    assert_eq!(project(0, 0, Some(at(0))).days_since_modified_at(&now), Some(100));
    // A modification in the future is a negative number of days.
    assert_eq!(project(0, 0, Some(at(101 * DAY))).days_since_modified_at(&now), Some(0));
    assert_eq!(project(0, 0, Some(at(101 * DAY + 1))).days_since_modified_at(&now), Some(-1));
    assert_eq!(project(0, 0, Some(at(103 * DAY + 7))).days_since_modified_at(&now), Some(-3));
}

#[test]
fn days_take_the_nanoseconds_into_account() {
    let now = Timestamp { secs: 10 * DAY, nanos: 0 };
    let just_under = Timestamp { secs: 9 * DAY, nanos: 1 };
    let exactly = Timestamp { secs: 9 * DAY, nanos: 0 };
    assert_eq!(project(0, 0, Some(just_under)).days_since_modified_at(&now), Some(0));
    assert_eq!(project(0, 0, Some(exactly)).days_since_modified_at(&now), Some(1));
}

#[test]
fn days_between_the_ends_of_time_fit() {
    let first = Timestamp { secs: i64::MIN, nanos: 0 };
    let last = Timestamp { secs: i64::MAX, nanos: 999_999_999 };
    assert_eq!(last.days_after(&first), 213_503_982_334_601);
    assert_eq!(first.days_after(&last), -213_503_982_334_601);
}

#[test]
fn active_means_modified_in_the_last_thirty_days() {
    let now = at(1000 * DAY);
    assert!(project(0, 0, None).is_likely_active_at(&now));
    assert!(project(0, 0, Some(at(1000 * DAY))).is_likely_active_at(&now));
    assert!(project(0, 0, Some(at(970 * DAY + 1))).is_likely_active_at(&now));
    assert!(!project(0, 0, Some(at(970 * DAY))).is_likely_active_at(&now));
    assert!(!project(0, 0, Some(at(0))).is_likely_active_at(&now));
    assert!(project(0, 0, Some(at(2000 * DAY))).is_likely_active_at(&now));
}

#[test]
fn the_clock_is_read_for_the_days() {
    assert_eq!(project(0, 0, None).days_since_modified(), None);
    assert!(project(0, 0, None).is_likely_active());
    assert_eq!(project(0, 0, None).days_since_modified_by(&None), None);
    let long_ago = project(0, 0, Some(at(0)));
    let days = long_ago.days_since_modified().expect("a date gives a number of days");
    // The first of January 2024 was 19723 days after the epoch.
    assert!(days >= 19_723);
    assert!(!long_ago.is_likely_active());
    let far_off = project(0, 0, Some(at(i64::MAX / 2)));
    assert!(far_off.days_since_modified().expect("a date gives a number of days") < 0);
    assert!(far_off.is_likely_active());
}

#[test]
fn timestamps_are_ordered_by_seconds_then_nanoseconds() {
    let a = Timestamp { secs: 5, nanos: 900 };
    let b = Timestamp { secs: 6, nanos: 0 };
    let c = Timestamp { secs: 6, nanos: 1 };
    assert!(a.before(&b));
    assert!(b.before(&c));
    assert!(!c.before(&b));
    assert!(!b.before(&b));
    assert_eq!(a.latest(b), b);
    assert_eq!(c.latest(b), c);
    assert_eq!(b.latest(b), b);
    assert!(Timestamp { secs: -1, nanos: 999_999_999 }.before(&Timestamp { secs: 0, nanos: 0 }));
}

#[test]
fn dates_are_calendar_dates() {
    assert_eq!(last_modified_text(&Some(at(1_431_648_000))), "2015-05-15");
    assert_eq!(last_modified_text(&Some(at(0))), "1970-01-01");
    assert_eq!(last_modified_text(&Some(at(-1))), "1969-12-31");
    assert_eq!(last_modified_text(&Some(at(951_782_400))), "2000-02-29");
    assert_eq!(last_modified_text(&Some(Timestamp { secs: 86_399, nanos: 999_999_999 })), "1970-01-01");
    assert_eq!(last_modified_text(&Some(at(86_400))), "1970-01-02");
}

#[test]
fn a_missing_date_is_unknown() {
    assert_eq!(last_modified_text(&None), "Unknown");
    assert_eq!(date_or_unknown(None), "Unknown");
    assert_eq!(date_or_unknown(Some("2015-05-15".to_string())), "2015-05-15");
    // Outside of the calendar there is no date.
    assert_eq!(last_modified_text(&Some(at(i64::MAX))), "Unknown");
    assert_eq!(last_modified_text(&Some(Timestamp { secs: 0, nanos: 2_000_000_000 })), "Unknown");
}

#[test]
fn artifact_types_describe_themselves() {
    assert_eq!(ArtifactType::Target._description(), "Target directory (build outputs)");
    assert_eq!(ArtifactType::IncrementalCompilation._description(), "Incremental compilation cache");
    assert_eq!(ArtifactType::Dependencies._description(), "Compiled dependencies");
    assert_eq!(ArtifactType::Examples._description(), "Compiled examples");
    assert_eq!(ArtifactType::Tests._description(), "Compiled tests");
    assert_eq!(ArtifactType::Benchmarks._description(), "Compiled benchmarks");
    assert_eq!(ArtifactType::CargoRegistry._description(), "Cargo registry cache");
    assert_eq!(ArtifactType::CargoGitCache._description(), "Cargo git cache");
    assert_eq!(ArtifactType::CargoConfigCache._description(), "Cargo configuration cache");
}

#[test]
fn shared_caches_are_not_safe_to_delete() {
    for kind in [
        ArtifactType::Target,
        ArtifactType::IncrementalCompilation,
        ArtifactType::Dependencies,
        ArtifactType::Examples,
        ArtifactType::Tests,
        ArtifactType::Benchmarks,
    ] {
        assert!(kind._is_safe_to_delete());
    }
    for kind in [
        ArtifactType::CargoRegistry,
        ArtifactType::CargoGitCache,
        ArtifactType::CargoConfigCache,
    ] {
        assert!(!kind._is_safe_to_delete());
    }
}

#[test]
fn a_clock_without_a_time_gives_no_days() {
    let dated = project(0, 0, Some(at(0)));
    assert_eq!(dated.days_since_modified_by(&None), None);
    assert_eq!(dated.days_since_modified_by(&Some(at(3 * DAY))), Some(3));
    assert_eq!(project(0, 0, None).days_since_modified_by(&Some(at(3 * DAY))), None);
    // Without a time every project counts as active.
    assert!(dated.is_likely_active_by(&None));
    assert!(!dated.is_likely_active_by(&Some(at(30 * DAY))));
    assert!(dated.is_likely_active_by(&Some(at(30 * DAY - 1))));
    assert!(project(0, 0, None).is_likely_active_by(&None));
}
