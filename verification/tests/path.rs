use rskiller::path::{
    file_name_of, has_name, is_path_before, is_path_excluded, join_path, path_components,
};

fn components(path: &str) -> Vec<String> {
    path_components(path).into_iter().map(|c| c.into_iter().collect()).collect()
}

fn std_components(path: &str) -> Vec<String> {
    std::path::Path::new(path)
        .components()
        .map(|c| c.as_os_str().to_string_lossy().to_string())
        .collect()
}

const PATHS: [&str; 24] = [
    "",
    ".",
    "..",
    "/",
    "//",
    "./",
    "a",
    "a/b",
    "a//b",
    "a/./b",
    "a/b/",
    "a/b/.",
    "./a/b",
    "../a",
    "/a/b",
    "//a/b",
    "/./a",
    "/.",
    "a/..",
    ".a/b",
    "a/.b/c",
    "/home/me/proj/Cargo.toml",
    "./proj/target/debug",
    ".//x",
];

#[test]
fn components_are_the_names_of_a_path() {
    assert_eq!(components("/home/me/proj"), vec!["/", "home", "me", "proj"]);
    assert_eq!(components("./a//b/./c/"), vec![".", "a", "b", "c"]);
    assert_eq!(components("a/../b"), vec!["a", "..", "b"]);
    assert_eq!(components(""), Vec::<String>::new());
    assert_eq!(components("."), vec!["."]);
}

#[test]
fn components_are_those_of_the_platform() {
    if std::path::MAIN_SEPARATOR == '/' {
        for path in PATHS {
            assert_eq!(components(path), std_components(path), "{:?}", path);
        }
    }
}

#[test]
fn names_are_last_components() {
    assert_eq!(file_name_of("/home/me/proj"), "proj");
    assert_eq!(file_name_of("/home/me/proj/"), "proj");
    assert_eq!(file_name_of("proj"), "proj");
    assert_eq!(file_name_of("/"), "");
    assert_eq!(file_name_of("."), "");
    assert_eq!(file_name_of("a/.."), "");
    assert_eq!(file_name_of(""), "");
    assert_eq!(file_name_of(".hidden"), ".hidden");
    if std::path::MAIN_SEPARATOR == '/' {
        for path in PATHS {
            let expected = std::path::Path::new(path)
                .file_name()
                .map(|n| n.to_string_lossy().to_string())
                .unwrap_or_default();
            assert_eq!(file_name_of(path), expected, "{:?}", path);
        }
    }
    assert!(has_name("a/Cargo.toml", "Cargo.toml"));
    assert!(has_name("Cargo.toml/", "Cargo.toml"));
    assert!(!has_name("a/Cargo.toml.bak", "Cargo.toml"));
    assert!(!has_name("", "Cargo.toml"));
}

#[test]
fn joining_puts_one_separator_between() {
    assert_eq!(join_path("/a", "b"), "/a/b");
    assert_eq!(join_path("/a/", "b"), "/a/b");
    assert_eq!(join_path("", "b"), "b");
    assert_eq!(join_path("/", "b"), "/b");
    assert_eq!(join_path("/a", "/b"), "/b");
    assert_eq!(join_path("/a", ""), "/a/");
    assert_eq!(join_path("/a", "src/lib.rs"), "/a/src/lib.rs");
    if std::path::MAIN_SEPARATOR == '/' {
        for base in PATHS {
            for name in ["b", "", "/b", "src/lib.rs", "target"] {
                let expected = std::path::Path::new(base).join(name).to_string_lossy().to_string();
                assert_eq!(join_path(base, name), expected, "{:?} {:?}", base, name);
            }
        }
    }
}

#[test]
fn excluded_texts_are_looked_for_in_every_component() {
    let excluded = vec!["nested".to_string()];
    assert!(is_path_excluded("a/nested/Cargo.toml", &excluded, false));
    assert!(!is_path_excluded("a/Cargo.toml", &excluded, false));
    // An excluded text need not be a whole name.
    assert!(is_path_excluded("a/unnested-x/Cargo.toml", &excluded, false));
    let lib = vec!["lib".to_string()];
    assert!(is_path_excluded("/src/library/x", &lib, false));
    // It does not reach over a separator.
    let ab = vec!["a/b".to_string()];
    assert!(!is_path_excluded("a/b", &ab, false));
    assert!(!is_path_excluded("a/b", &Vec::new(), false));
}

#[test]
fn the_empty_text_excludes_every_path_with_a_component() {
    let empty = vec!["".to_string()];
    assert!(is_path_excluded("a", &empty, false));
    assert!(is_path_excluded("/", &empty, false));
    assert!(!is_path_excluded("", &empty, false));
}

#[test]
fn hidden_components_begin_with_a_dot() {
    assert!(is_path_excluded("/home/.cache/proj", &Vec::new(), true));
    assert!(!is_path_excluded("/home/.cache/proj", &Vec::new(), false));
    assert!(!is_path_excluded("/home/cache.d/proj", &Vec::new(), true));
    // The dot that a relative path begins with hides all of it.
    assert!(is_path_excluded("./proj/Cargo.toml", &Vec::new(), true));
    assert!(is_path_excluded("../proj", &Vec::new(), true));
    assert!(!is_path_excluded("proj/./x", &Vec::new(), true));
}

#[test]
fn exclusion_is_that_of_the_components_of_the_platform() {
    if std::path::MAIN_SEPARATOR == '/' {
        let lists: [Vec<String>; 4] = [
            Vec::new(),
            vec!["a".to_string()],
            vec!["proj".to_string(), "x".to_string()],
            vec!["/".to_string()],
        ];
        for path in PATHS {
            for excluded in &lists {
                for hidden in [false, true] {
                    let expected = std_components(path).iter().any(|c| {
                        excluded.iter().any(|e| c.contains(e.as_str()))
                            || (hidden && c.starts_with('.'))
                    });
                    assert_eq!(
                        is_path_excluded(path, excluded, hidden),
                        expected,
                        "{:?} {:?} {}",
                        path,
                        excluded,
                        hidden
                    );
                }
            }
        }
    }
}

#[test]
fn paths_are_ordered_by_their_components() {
    assert!(is_path_before("/a", "/b"));
    assert!(!is_path_before("/b", "/a"));
    assert!(!is_path_before("/a", "/a"));
    assert!(is_path_before("/a", "/a/b"));
    assert!(is_path_before("/a/b", "/a/c"));
    // A name ends before the next begins: `a/b` comes before `a-b`,
    // though the hyphen comes before the slash.
    assert!(is_path_before("a/b", "a-b"));
    assert!(!is_path_before("a-b", "a/b"));
    assert!(is_path_before("a", "b"));
    assert!(is_path_before("B", "a"));
    assert!(is_path_before("a/b", "a/é"));
    // Paths with the same components are not ordered.
    assert!(!is_path_before("a//b", "a/b"));
    assert!(!is_path_before("a/b", "a//b/"));
    if std::path::MAIN_SEPARATOR == '/' {
        for a in PATHS {
            for b in PATHS {
                let expected = std::path::Path::new(a) < std::path::Path::new(b);
                assert_eq!(is_path_before(a, b), expected, "{:?} {:?}", a, b);
            }
        }
    }
}
