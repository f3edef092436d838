use rskiller::search::{
    calculate_folder_size, folder_name_of, visit_decision, Folder, FolderEntry, FolderSearch, Step,
    Visit,
};

/// A directory tree in memory: the path of a directory, and the names of
/// its entries.
struct Tree {
    dirs: Vec<(&'static str, Vec<&'static str>)>,
}

impl Tree {
    fn entries(&self, path: &str) -> Vec<String> {
        self.dirs
            .iter()
            .find(|(dir, _)| *dir == path)
            .map(|(_, names)| names.iter().map(|n| n.to_string()).collect())
            .unwrap_or_default()
    }
}

fn find(tree: &Tree, start: &str, target: &str, ignored: &[&str]) -> Vec<Folder> {
    let ignored: Vec<String> = ignored.iter().map(|s| s.to_string()).collect();
    let mut search = FolderSearch::new(start, target, &ignored);
    let mut steps = 0;
    loop {
        steps += 1;
        assert!(steps < 10_000);
        match search.next_step() {
            Step::Measure { path } => search.measured(Some(path.len())),
            Step::List { path } => search.listed(tree.entries(&path)),
            Step::Done => break,
        }
    }
    search.into_folders()
}

fn paths(folders: &[Folder]) -> Vec<&str> {
    folders.iter().map(|f| f.path.as_str()).collect()
}

fn tree() -> Tree {
    Tree {
        dirs: vec![
            ("/w", vec!["a", "b", "node_modules", "target", "file.txt"]),
            ("/w/a", vec!["target", "src"]),
            ("/w/a/target", vec!["debug", "target"]),
            ("/w/a/src", vec!["deep"]),
            ("/w/a/src/deep", vec!["target"]),
            ("/w/b", vec![".git", "c"]),
            ("/w/b/.git", vec!["target"]),
            ("/w/b/c", vec!["target"]),
            ("/w/node_modules", vec!["x", "target"]),
            ("/w/node_modules/x", vec!["target"]),
        ],
    }
}

#[test]
fn the_name_of_a_folder_follows_the_last_separator() {
    let name = |path: &str| -> String { folder_name_of(path).into_iter().collect() };
    assert_eq!(name("/w/a/target"), "target");
    assert_eq!(name("target"), "target");
    assert_eq!(name("C:\\w\\target"), "target");
    assert_eq!(name("/w/a\\b"), "b");
    assert_eq!(name("/w/a/"), "");
    assert_eq!(name(""), "");
    assert_eq!(name("/"), "");
}

#[test]
fn a_directory_is_skipped_recorded_or_gone_into() {
    let ignored = vec!["node_modules".to_string(), ".git".to_string()];
    assert_eq!(visit_decision("/w/node_modules", 1, "target", &ignored), Visit::Skip);
    assert_eq!(visit_decision("/w/target", 1, "target", &ignored), Visit::Record);
    assert_eq!(visit_decision("/w/target", 10, "target", &ignored), Visit::Record);
    assert_eq!(visit_decision("/w/targets", 1, "target", &ignored), Visit::Descend);
    assert_eq!(visit_decision("/w/src", 9, "target", &ignored), Visit::Descend);
    assert_eq!(visit_decision("/w/src", 10, "target", &ignored), Visit::Skip);
    // An ignored name is passed over even where it is the wanted one.
    assert_eq!(visit_decision("/w/.git", 1, ".git", &ignored), Visit::Skip);
    assert_eq!(visit_decision("/w/a/", 1, "", &ignored), Visit::Record);
}

#[test]
fn folders_of_the_wanted_name_are_found() {
    let folders = find(&tree(), "/w", "target", &["node_modules", ".git"]);
    assert_eq!(paths(&folders), vec![
        "/w/a/target",
        "/w/a/src/deep/target",
        "/w/b/c/target",
        "/w/target"
    ]);
    for folder in &folders {
        assert_eq!(folder.size, Some(folder.path.len()));
        assert!(!folder.deleting);
    }
}

#[test]
fn a_folder_that_is_found_is_not_gone_into() {
    let folders = find(&tree(), "/w/a", "target", &[]);
    assert_eq!(paths(&folders), vec!["/w/a/target", "/w/a/src/deep/target"]);
}

#[test]
fn no_folder_lies_under_an_ignored_name() {
    let ignored = ["node_modules", ".git", "deep"];
    let folders = find(&tree(), "/w", "target", &ignored);
    assert_eq!(paths(&folders), vec!["/w/a/target", "/w/b/c/target", "/w/target"]);
    for folder in &folders {
        for component in folder.path.split('/') {
            assert!(!ignored.contains(&component), "{}", folder.path);
        }
    }
    assert!(find(&tree(), "/w", "target", &["target"]).is_empty());
    assert!(find(&tree(), "/w", "target", &["w"]).is_empty());
}

#[test]
fn without_ignored_names_every_folder_is_found() {
    let folders = find(&tree(), "/w", "target", &[]);
    assert_eq!(paths(&folders), vec![
        "/w/a/target",
        "/w/a/src/deep/target",
        "/w/b/.git/target",
        "/w/b/c/target",
        "/w/node_modules/x/target",
        "/w/node_modules/target",
        "/w/target"
    ]);
}

#[test]
fn the_start_itself_may_be_the_folder() {
    let folders = find(&tree(), "/w/a/target", "target", &[]);
    assert_eq!(paths(&folders), vec!["/w/a/target"]);
    assert!(find(&tree(), "/nowhere", "target", &[]).is_empty());
}

#[test]
fn the_search_goes_ten_levels_deep() {
    let chain = Tree {
        dirs: vec![
            ("/0", vec!["1"]),
            ("/0/1", vec!["2"]),
            ("/0/1/2", vec!["3"]),
            ("/0/1/2/3", vec!["4"]),
            ("/0/1/2/3/4", vec!["5"]),
            ("/0/1/2/3/4/5", vec!["6"]),
            ("/0/1/2/3/4/5/6", vec!["7"]),
            ("/0/1/2/3/4/5/6/7", vec!["8"]),
            ("/0/1/2/3/4/5/6/7/8", vec!["9", "target"]),
            ("/0/1/2/3/4/5/6/7/8/9", vec!["target", "10"]),
            ("/0/1/2/3/4/5/6/7/8/9/10", vec!["target"]),
        ],
    };
    let folders = find(&chain, "/0", "target", &[]);
    // The folder at depth ten is found; the directory at depth ten is not
    // gone into.
    assert_eq!(paths(&folders), vec![
        "/0/1/2/3/4/5/6/7/8/9/target",
        "/0/1/2/3/4/5/6/7/8/target"
    ]);
}

#[test]
fn reports_that_nothing_waits_for_are_passed_over() {
    let mut search = FolderSearch::new("/w", "target", &Vec::new());
    search.measured(Some(5));
    search.listed(vec!["target".to_string()]);
    assert!(search.folders().is_empty());
    assert!(matches!(search.next_step(), Step::List { .. }));
    search.measured(Some(5));
    assert!(search.folders().is_empty());
    assert!(matches!(search.next_step(), Step::Done));
    assert!(matches!(search.next_step(), Step::Done));
}

#[test]
fn a_folder_without_a_size_is_found_all_the_same() {
    let mut search = FolderSearch::new("/w/target", "target", &Vec::new());
    assert!(matches!(search.next_step(), Step::Measure { .. }));
    search.measured(None);
    assert_eq!(search.folders().len(), 1);
    assert_eq!(search.folders()[0].size, None);
}

#[test]
fn the_bytes_of_a_folder_are_those_of_its_files_and_directories() {
    assert_eq!(calculate_folder_size(&Vec::new()), Some(0));
    let entries = vec![
        FolderEntry::File(10),
        FolderEntry::Other,
        FolderEntry::Directory(Some(200)),
        FolderEntry::Directory(None),
        FolderEntry::File(3),
    ];
    assert_eq!(calculate_folder_size(&entries), Some(213));
    assert_eq!(
        calculate_folder_size(&vec![FolderEntry::File(usize::MAX), FolderEntry::File(1)]),
        None
    );
    assert_eq!(
        calculate_folder_size(&vec![FolderEntry::File(usize::MAX - 1), FolderEntry::Directory(Some(1))]),
        Some(usize::MAX)
    );
}
