use rskiller::cli::{Cli, SortBy};

fn cli(exclude: Option<&str>) -> Cli {
    Cli {
        directory: ".".to_string(),
        full: false,
        target: "target".to_string(),
        sort: SortBy::Size,
        gb: false,
        exclude: exclude.map(|s| s.to_string()),
        exclude_hidden: false,
        hide_errors: false,
        delete_all: false,
        dry_run: false,
        list_only: false,
        include_cargo_cache: false,
        no_check_update: false,
    }
}

#[test]
fn nothing_is_excluded_by_default() {
    assert_eq!(cli(None).get_excluded_dirs(), Vec::<String>::new());
}

#[test]
fn excluded_names_are_split_at_commas_and_trimmed() {
    assert_eq!(cli(Some("node_modules, .git ,vendor")).get_excluded_dirs(), vec![
        "node_modules",
        ".git",
        "vendor"
    ]);
    assert_eq!(cli(Some("nested")).get_excluded_dirs(), vec!["nested"]);
    assert_eq!(cli(Some("\ta b\u{a0}\r\n")).get_excluded_dirs(), vec!["a b"]);
}

#[test]
fn empty_pieces_are_excluded_names_too() {
    assert_eq!(cli(Some("")).get_excluded_dirs(), vec![""]);
    assert_eq!(cli(Some("a,,b,")).get_excluded_dirs(), vec!["a", "", "b", ""]);
    assert_eq!(cli(Some(" , ")).get_excluded_dirs(), vec!["", ""]);
}

#[test]
fn the_search_starts_at_the_directory_or_at_home() {
    let mut settings = cli(None);
    settings.directory = "/work".to_string();
    assert_eq!(settings.get_search_directory(None), "/work");
    assert_eq!(settings.get_search_directory(Some("/home/me".to_string())), "/work");
    settings.full = true;
    assert_eq!(settings.get_search_directory(Some("/home/me".to_string())), "/home/me");
}
