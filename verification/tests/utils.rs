use rskiller::utils::{
    _is_system_directory, calculate_dir_size, checked_dir_size, decimal_string, format_size,
    get_relative_path, pad_right, remove_directory, truncate_string, FileEntry, Removal,
};

#[test]
fn test_format_size() {
    assert_eq!(format_size(1024 * 1024, false), "1.00 MB");
    assert_eq!(format_size(1024 * 1024 * 1024, true), "1.00 GB");
}

#[test]
fn test_truncate_string() {
    assert_eq!(truncate_string("hello", 10), "hello");
    assert_eq!(truncate_string("hello world", 8), "hello...");
}

#[test]
fn test_calculate_dir_size() {
    let entries = vec![
        FileEntry { is_file: false, size: Some(4096) },
        FileEntry { is_file: true, size: Some("Hello, world!".len() as u64) },
    ];
    let size = calculate_dir_size(&entries);
    assert!(size > 0);
    assert_eq!(size, 13);
}

#[test]
fn format_size_of_nothing() {
    assert_eq!(format_size(0, false), "0.00 MB");
    assert_eq!(format_size(0, true), "0.00 GB");
}

#[test]
fn format_size_rounds_to_the_nearest_hundredth() {
    assert_eq!(format_size(12000, false), "0.01 MB");
    assert_eq!(format_size(5242, false), "0.00 MB");
    assert_eq!(format_size(5243, false), "0.01 MB");
    assert_eq!(format_size(1_572_864, false), "1.50 MB");
    assert_eq!(format_size(500 * 1024 * 1024, true), "0.49 GB");
    assert_eq!(format_size(123_456_789_012, true), "114.98 GB");
    assert_eq!(format_size(123_456_789_012, false), "117737.57 MB");
}

#[test]
fn format_size_breaks_ties_to_the_even_hundredth() {
    // An eighth of a mebibyte lies halfway between 0.12 and 0.13.
    assert_eq!(format_size(131_072, false), "0.12 MB");
    // Three eighths lie halfway between 0.37 and 0.38.
    assert_eq!(format_size(393_216, false), "0.38 MB");
    assert_eq!(format_size(134_217_728, true), "0.12 GB");
}

fn by_floating_point(bytes: u64, use_gb: bool) -> String {
    if use_gb {
        format!("{:.2} GB", bytes as f64 / (1024.0 * 1024.0 * 1024.0))
    } else {
        format!("{:.2} MB", bytes as f64 / (1024.0 * 1024.0))
    }
}

#[test]
fn format_size_agrees_with_double_precision() {
    let mut samples: Vec<u64> = vec![
        0,
        1,
        5242,
        5243,
        131_072,
        393_216,
        655_360,
        917_504,
        1_048_575,
        1_048_576,
        1_179_648,
        (1u64 << 53) - 1,
        1u64 << 53,
        (1u64 << 53) + 1,
        (1u64 << 53) + 2,
        (1u64 << 53) + 3,
        (1u64 << 54) + 2,
        (1u64 << 54) + 6,
        (1u64 << 60) + 129,
        (1u64 << 63) + 1024,
        (1u64 << 63) + 1025,
        (1u64 << 63) + 3072,
        u64::MAX - 1024,
        u64::MAX - 1,
        u64::MAX,
    ];
    let mut x: u64 = 0x9E37_79B9_7F4A_7C15;
    for round in 0..4000u32 {
        x = x.wrapping_mul(6364136223846793005).wrapping_add(1442695040888963407);
        samples.push(x >> (round % 64));
    }
    for k in 0..2000u64 {
        samples.push(k * 131_072 / 25);
        samples.push(k * 5243);
    }
    for bytes in samples {
        assert_eq!(format_size(bytes, false), by_floating_point(bytes, false), "{} bytes", bytes);
        assert_eq!(format_size(bytes, true), by_floating_point(bytes, true), "{} bytes", bytes);
    }
}

#[test]
fn truncate_string_keeps_what_fits() {
    assert_eq!(truncate_string("", 0), "");
    assert_eq!(truncate_string("abc", 3), "abc");
    assert_eq!(truncate_string("abcd", 4), "abcd");
}

#[test]
fn truncate_string_cuts_three_bytes_early() {
    assert_eq!(truncate_string("abcdefghij", 9), "abcdef...");
    assert_eq!(truncate_string("abcd", 3), "...");
    assert_eq!(truncate_string("abcd", 1), "...");
    assert_eq!(truncate_string("abcd", 0), "...");
}

#[test]
fn truncate_string_counts_bytes() {
    // Eleven characters in thirteen bytes.
    assert_eq!(truncate_string("héllo wörld", 13), "héllo wörld");
    assert_eq!(truncate_string("héllo wörld", 10), "héllo ...");
}

#[test]
fn decimal_string_writes_every_digit() {
    assert_eq!(decimal_string(0), "0");
    assert_eq!(decimal_string(7), "7");
    assert_eq!(decimal_string(10), "10");
    assert_eq!(decimal_string(1234567890), "1234567890");
    assert_eq!(decimal_string(u128::MAX), "340282366920938463463374607431768211455");
}

#[test]
fn pad_right_fills_up_with_spaces() {
    assert_eq!(pad_right("ab", 5), "ab   ");
    assert_eq!(pad_right("abcde", 5), "abcde");
    assert_eq!(pad_right("abcdef", 5), "abcdef");
    assert_eq!(pad_right("é", 3), "é  ");
    assert_eq!(pad_right("", 0), "");
}

#[test]
fn dir_size_counts_regular_files_only() {
    let entries = vec![
        FileEntry { is_file: true, size: Some(10_000) },
        FileEntry { is_file: false, size: Some(4096) },
        FileEntry { is_file: true, size: Some(2_000) },
        FileEntry { is_file: true, size: None },
        FileEntry { is_file: false, size: None },
    ];
    assert_eq!(calculate_dir_size(&entries), 12_000);
    assert_eq!(checked_dir_size(&entries), Some(12_000));
    assert_eq!(calculate_dir_size(&Vec::new()), 0);
}

#[test]
fn dir_size_that_does_not_fit_is_refused() {
    let entries = vec![
        FileEntry { is_file: true, size: Some(u64::MAX) },
        FileEntry { is_file: true, size: Some(1) },
    ];
    assert_eq!(checked_dir_size(&entries), None);
    let fits = vec![
        FileEntry { is_file: true, size: Some(u64::MAX - 1) },
        FileEntry { is_file: true, size: Some(1) },
        FileEntry { is_file: false, size: Some(1) },
    ];
    assert_eq!(checked_dir_size(&fits), Some(u64::MAX));
}

#[test]
fn dry_run_removes_nothing() {
    match remove_directory("/tmp/proj/target", true, true) {
        Removal::Simulate { notice, pause_millis } => {
            assert_eq!(notice, " [DRY RUN] Would delete: /tmp/proj/target");
            assert_eq!(pause_millis, 100);
        }
        other => panic!("a dry run gave {:?}", other),
    }
    assert!(matches!(remove_directory("/gone", true, false), Removal::Simulate { .. }));
}

#[test]
fn removal_needs_a_directory() {
    assert!(matches!(remove_directory("/tmp/proj/target", false, true), Removal::Remove));
    assert!(matches!(remove_directory("/tmp/proj/target", false, false), Removal::Nothing));
}

#[test]
fn system_directories_are_known_by_their_markers() {
    assert!(_is_system_directory("/usr/local/src/proj"));
    assert!(_is_system_directory("/home/me/Applications/x"));
    assert!(_is_system_directory("C:/Program Files/x"));
    assert!(_is_system_directory("/etc"));
    assert!(!_is_system_directory("/home/me/code/proj"));
    assert!(!_is_system_directory(""));
    // The markers are looked for anywhere in the path.
    assert!(_is_system_directory("/home/me/optics/../opt"));
    assert!(_is_system_directory("/home/me/x/variants"));
}

#[test]
fn a_path_under_the_current_directory_is_shown_from_there() {
    assert_eq!(get_relative_path("/work/code/proj", Some("/work")), "code/proj");
    assert_eq!(get_relative_path("/work/code/proj", Some("/work/code/")), "proj");
    assert_eq!(get_relative_path("/work/code/proj", Some("/work/code/proj")), "");
    assert_eq!(get_relative_path("./proj/x", Some(".")), "proj/x");
    assert_eq!(get_relative_path("/work//code/./proj/", Some("/work")), "code/proj");
}

#[test]
fn any_other_path_is_shown_as_it_is() {
    assert_eq!(get_relative_path("/work/code/proj", None), "/work/code/proj");
    assert_eq!(get_relative_path("/work/code/proj", Some("/home")), "/work/code/proj");
    assert_eq!(get_relative_path("/work/code/proj", Some("/work/co")), "/work/code/proj");
    assert_eq!(get_relative_path("/work", Some("/work/code")), "/work");
    assert_eq!(get_relative_path("./proj", Some("/work")), "./proj");
    assert_eq!(get_relative_path("proj/", Some("")), "proj/");
}

#[test]
fn relative_paths_are_those_of_the_platform() {
    if std::path::MAIN_SEPARATOR == '/' {
        let paths = ["/a/b/c", "/a/b", "/a", "/", "a/b", "./a/b", "/a/bc", "/x/y/z/w"];
        let bases = ["/a", "/a/b", "/a/b/", "/", "/b", "a", ".", "/a/b/c/d", "/x/y"];
        for path in paths {
            for base in bases {
                let expected = match std::path::Path::new(path).strip_prefix(base) {
                    Ok(rest) => rest.display().to_string(),
                    Err(_) => path.to_string(),
                };
                assert_eq!(get_relative_path(path, Some(base)), expected, "{:?} {:?}", path, base);
            }
        }
    }
}
