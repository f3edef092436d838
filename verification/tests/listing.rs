use rskiller::cli::{Cli, SortBy};
use rskiller::listing::{can_list, show_path, sum_cleanable, Cell, Style};
use rskiller::project::{RustProject, Timestamp};
use rskiller::scanner::ProjectScanner;

fn scanner(gb: bool) -> ProjectScanner {
    ProjectScanner::new(Cli {
        directory: ".".to_string(),
        full: false,
        target: "target".to_string(),
        sort: SortBy::Size,
        gb,
        exclude: None,
        exclude_hidden: false,
        hide_errors: false,
        delete_all: false,
        dry_run: false,
        list_only: true,
        include_cargo_cache: false,
        no_check_update: false,
    })
}

fn project(name: &str, path: &str, target_size: u64, secs: Option<i64>, has_target: bool) -> RustProject {
    RustProject {
        path: path.to_string(),
        name: name.to_string(),
        target_dir: if has_target { Some(format!("{}/target", path)) } else { None },
        target_size,
        last_modified: secs.map(|secs| Timestamp { secs, nanos: 0 }),
        workspace_root: false,
        has_lock_file: false,
        dependencies_count: 0,
        build_artifacts: Vec::new(),
        cargo_cache_size: 0,
    }
}

fn text(cells: &[Cell]) -> String {
    cells.iter().map(|c| c.text.as_str()).collect()
}

const NOW: Timestamp = Timestamp { secs: 1_431_648_000 + 10 * 86_400, nanos: 0 };

#[test]
fn short_paths_are_shown_whole() {
    assert_eq!(show_path(""), "");
    assert_eq!(show_path("/work/proj"), "/work/proj");
    assert_eq!(show_path("123456789012345678"), "123456789012345678");
}

#[test]
fn long_paths_are_shown_by_their_end() {
    assert_eq!(show_path("1234567890123456789"), "...567890123456789");
    assert_eq!(show_path("/home/me/code/rust/project"), "...de/rust/project");
    // Fifteen bytes, not characters.
    assert_eq!(show_path("/home/me/cöde/rüst/pröject"), ".../rüst/pröject");
}

#[test]
fn nothing_found_is_said_in_one_line() {
    let cells = scanner(false).listing_at(&Vec::new(), &NOW);
    assert_eq!(cells.len(), 1);
    assert_eq!(cells[0].text, "No Rust projects found.");
    assert_eq!(cells[0].style, Style::Plain);
    assert_eq!(text(&scanner(false).print_projects(&Vec::new())), "No Rust projects found.");
}

#[test]
fn the_listing_has_a_line_for_each_project() {
    let projects = vec![
        project("alpha", "/work/alpha", 1024 * 1024, Some(1_431_648_000), true),
        project("beta", "/home/me/code/rust/beta", 0, Some(0), false),
        project("gamma", "/g", 0, None, false),
        project("a-name-that-is-longer-than-its-column", "/n", 5 * 1024 * 1024 / 2, Some(0), true),
    ];
    let cells = scanner(false).listing_at(&projects, &NOW);
    let expected = format!(
        "\n{:<30} {:<15} {:<20} {:<15} {:<10}\n{}\n\
         {:<30} {:<15} {:<20} {:<15} {:<10}\n\
         {:<30} {:<15} {:<20} {:<15} {:<10}\n\
         {:<30} {:<15} {:<20} {:<15} {:<10} (no target)\n\
         {:<30} {:<15} {:<20} {:<15} {:<10}\n\
         \nTotal cleanable space: 3.50 MB\n",
        "Project Name",
        "Size",
        "Path",
        "Last Modified",
        "Status",
        "─".repeat(100),
        "alpha",
        "1.00 MB",
        "/work/alpha",
        "2015-05-15",
        "Active",
        "beta",
        "0.00 MB",
        ".../code/rust/beta",
        "1970-01-01",
        "Stale",
        "gamma",
        "0.00 MB",
        "/g",
        "Unknown",
        "Active",
        "a-name-that-is-longer-than-its-column",
        "2.50 MB",
        "/n",
        "1970-01-01",
        "Stale",
    );
    assert_eq!(text(&cells), expected);
}

#[test]
fn the_listing_is_set_off_by_styles() {
    let projects = vec![
        project("alpha", "/work/alpha", 1024 * 1024, Some(1_431_648_000), true),
        project("beta", "/b", 7, Some(0), false),
    ];
    let cells = scanner(true).listing_at(&projects, &NOW);
    let styled: Vec<(&str, Style)> = cells
        .iter()
        .filter(|c| c.style != Style::Plain)
        .map(|c| (c.text.trim_end(), c.style))
        .collect();
    assert_eq!(styled, vec![
        ("Project Name", Style::Bold),
        ("Size", Style::Bold),
        ("Path", Style::Bold),
        ("Last Modified", Style::Bold),
        ("Status", Style::Bold),
        ("0.00 GB", Style::Cyan),
        ("Active", Style::Green),
        ("", Style::Red),
        ("0.00 GB", Style::Cyan),
        ("Stale", Style::Yellow),
        (" (no target)", Style::Red),
        ("0.00 GB", Style::BoldGreen),
    ]);
}

#[test]
fn the_listing_by_the_clock_is_one_of_some_time() {
    let projects = vec![project("old", "/old", 1, Some(0), true), project("new", "/new", 1, None, true)];
    let cells = scanner(false).print_projects(&projects);
    let far = Timestamp { secs: 4_000_000_000, nanos: 0 };
    assert_eq!(text(&cells), text(&scanner(false).listing_at(&projects, &far)));
}

#[test]
fn the_total_is_that_of_all_projects() {
    let projects = vec![
        project("a", "/a", 10, None, true),
        project("b", "/b", 20, None, true),
        project("c", "/c", 0, None, false),
    ];
    assert_eq!(sum_cleanable(&projects), 30);
    assert_eq!(sum_cleanable(&Vec::new()), 0);
}

#[test]
fn what_cannot_be_listed_is_told_apart() {
    assert!(can_list(&Vec::new()));
    assert!(can_list(&vec![project("a", "/a", u64::MAX, None, true)]));
    assert!(!can_list(&vec![
        project("a", "/a", u64::MAX, None, true),
        project("b", "/b", 1, None, true)
    ]));
    let mut heavy = project("a", "/a", u64::MAX, None, true);
    heavy.cargo_cache_size = 1;
    assert!(!can_list(&vec![heavy]));
    // The cut of this path falls into the two bytes of a character.
    assert!(!can_list(&vec![project("a", "/home/me/cöde/rust/projec", 1, None, true)]));
    assert!(can_list(&vec![project("a", "/home/me/cöde/rust/project", 1, None, true)]));
    assert!(can_list(&vec![project("a", "/home/me/cöde/rüst/pröject", 1, None, true)]));
}

#[test]
fn without_a_time_every_project_is_listed_as_active() {
    let projects = vec![project("old", "/old", 1, Some(0), true), project("gone", "/gone", 0, Some(0), false)];
    let cells = scanner(false).listing_by(&projects, &None);
    let states: Vec<&str> = cells
        .iter()
        .filter(|c| c.style == Style::Green || c.style == Style::Yellow)
        .map(|c| c.text.trim_end())
        .collect();
    assert_eq!(states, vec!["Active", "Active"]);
    let notes: Vec<&str> =
        cells.iter().filter(|c| c.style == Style::Red).map(|c| c.text.as_str()).collect();
    assert_eq!(notes, vec!["", " (no target)"]);
    assert_eq!(
        text(&scanner(false).listing_by(&projects, &Some(NOW))),
        text(&scanner(false).listing_at(&projects, &NOW))
    );
}
