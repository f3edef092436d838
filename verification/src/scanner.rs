//! The scan for projects: which entries of a walk are looked at, what is
//! made of a project root, and how the results are put in order. The walk
//! itself, and every look at the file system, is the caller's.

use vstd::prelude::*;
use vstd::string::*;
use crate::cli::{excluded_names, Cli, SortBy};
use crate::manifest::{
    count_entries, declared_name, declares_workspace, dependency_count, first_declared_name,
    project_name,
};
use crate::order::{arranged, is_sorted, sort_projects};
use crate::path::{
    base_name, file_name_of, has_name, is_named, is_path_excluded, join_path, joined,
    lemma_excluded_below, path_excluded,
};
use crate::project::{
    artifact_views, ArtifactType, ArtifactView, BuildArtifact, ProjectView, RustProject, Timestamp,
};
use crate::text::{
    bounds_within, chars_of, contains_in, find_char_in, lines, lines_in, opt_text, parts,
    starts_with_in, string_texts, trimmed_in, Strip,
};

verus! {

/// Finds the projects under a directory.
pub struct ProjectScanner {
    pub cli: Cli,
}

/// What a scan passes over.
pub struct PathFilter {
    /// A path with one of these texts in one of its components is passed over.
    pub excluded: Vec<String>,
    /// Whether a path with a component that begins with a dot is passed over.
    pub exclude_hidden: bool,
    /// The number of levels below the root of the scan that are looked at.
    pub max_depth: usize,
}

/// A directory entry in a build-output tree, as the walk came by it.
pub struct TargetEntry {
    pub path: String,
    /// The levels between the entry and the build-output directory, which
    /// is itself at depth 0.
    pub depth: usize,
    pub is_dir: bool,
    /// The size of the tree under the entry, where it could be measured.
    pub size: Option<u64>,
    pub last_modified: Option<Timestamp>,
}

/// What a look at a project root found, beside the text of its manifest.
pub struct ProjectFacts {
    /// The size of the build-output directory, and `None` where the
    /// project has none.
    pub target_size: Option<u64>,
    /// The classified directories of the build-output tree.
    pub artifacts: Vec<BuildArtifact>,
    pub last_modified: Option<Timestamp>,
    pub has_lock_file: bool,
    /// The size of the shared caches.
    pub cargo_cache_size: u64,
}

/// The name of the manifest that marks a project root.
pub open spec fn manifest_name() -> Seq<char> {
    "Cargo.toml"@
}

/// The levels that a scan looks at below its root: ten for a full scan,
/// five otherwise.
pub open spec fn depth_limit(full: bool) -> nat {
    if full {
        10
    } else {
        5
    }
}

/// The levels of a build-output tree in which directories are classified.
pub open spec fn artifact_depth() -> nat {
    3
}

/// Whether the filter passes over an entry: it lies deeper than the
/// filter looks, or its path is excluded.
pub open spec fn skips(filter: PathFilter, path: Seq<char>, depth: nat) -> bool {
    depth > filter.max_depth || path_excluded(
        path,
        string_texts(filter.excluded@),
        filter.exclude_hidden,
    )
}

/// Whether the entry at `path`, `depth` levels below the root of the scan,
/// is a manifest that the scan looks at: the filter does not pass over it,
/// and its name is that of a manifest.
pub open spec fn accepted(filter: PathFilter, path: Seq<char>, depth: nat) -> bool {
    !skips(filter, path, depth) && is_named(path, manifest_name())
}

/// Whether an error of the walk at `depth` levels below the root of the
/// scan ends the scan: only one at the root itself does; an entry further
/// down that cannot be read is passed over.
pub open spec fn ends_scan(depth: nat) -> bool {
    depth == 0
}

/// What kind of artifact a directory of this name holds, if its name says.
pub open spec fn artifact_kind(name: Seq<char>) -> Option<ArtifactType> {
    if name == "debug"@ || name == "release"@ {
        Some(ArtifactType::Target)
    } else if name == "incremental"@ {
        Some(ArtifactType::IncrementalCompilation)
    } else if name == "deps"@ {
        Some(ArtifactType::Dependencies)
    } else if name == "examples"@ {
        Some(ArtifactType::Examples)
    } else if name == "tests"@ {
        Some(ArtifactType::Tests)
    } else if name == "benches"@ {
        Some(ArtifactType::Benchmarks)
    } else {
        None
    }
}

/// Whether a directory `depth` levels into a build-output tree is one
/// that is classified: a subdirectory, not the tree's own root, and within
/// the classified levels.
pub open spec fn is_classified_level(depth: nat) -> bool {
    1 <= depth <= artifact_depth()
}

/// The artifact that an entry of a build-output tree stands for: a
/// subdirectory within the classified levels whose name says its kind. A
/// size that could not be measured counts as nothing.
pub open spec fn artifact_of(entry: TargetEntry) -> Option<ArtifactView> {
    if entry.is_dir && is_classified_level(entry.depth as nat) && artifact_kind(
        base_name(entry.path@),
    ) is Some {
        Some(
            ArtifactView {
                path: entry.path@,
                artifact_type: artifact_kind(base_name(entry.path@))->0,
                size: if entry.size is Some {
                    entry.size->0 as nat
                } else {
                    0
                },
                last_modified: entry.last_modified,
            },
        )
    } else {
        None
    }
}

/// The artifacts among the entries of a build-output tree, in the order of
/// the walk.
pub open spec fn artifacts_of(entries: Seq<TargetEntry>) -> Seq<ArtifactView>
    decreases entries.len(),
{
    if entries.len() == 0 {
        Seq::empty()
    } else if artifact_of(entries.last()) is Some {
        artifacts_of(entries.drop_last()).push(artifact_of(entries.last())->0)
    } else {
        artifacts_of(entries.drop_last())
    }
}

/// The latest of the times that are known.
pub open spec fn latest_of(times: Seq<Option<Timestamp>>) -> Option<Timestamp>
    decreases times.len(),
{
    if times.len() == 0 {
        None
    } else {
        match (latest_of(times.drop_last()), times.last()) {
            (Some(a), Some(b)) => Some(a.later_of(b)),
            (Some(a), None) => Some(a),
            (None, b) => b,
        }
    }
}

/// A size that may be missing, as a number: nothing where it is missing.
pub open spec fn size_or_zero(size: Option<u64>) -> nat {
    match size {
        Some(n) => n as nat,
        None => 0,
    }
}

/// The files of a project, by their paths under its root, whose newest
/// modification dates the project.
pub open spec fn dated_names() -> Seq<Seq<char>> {
    seq!["Cargo.toml"@, "Cargo.lock"@, "src/main.rs"@, "src/lib.rs"@]
}

/// The record of the project at `project_dir` with the manifest text
/// `manifest`, as the facts found there make it.
///
/// The name is the declared one, and that of the directory where none is
/// declared. A project has a build-output directory, of the configured
/// name, exactly where one was found; without one it has no build output
/// and no artifacts. The shared caches count only where they are asked for.
pub open spec fn analyzed(
    project_dir: Seq<char>,
    manifest: Seq<char>,
    facts: ProjectFacts,
    target: Seq<char>,
    include_cargo_cache: bool,
) -> ProjectView {
    ProjectView {
        path: project_dir,
        name: match project_name(manifest) {
            Some(name) => name,
            None => base_name(project_dir),
        },
        target_dir: if facts.target_size is Some {
            Some(joined(project_dir, target))
        } else {
            None
        },
        target_size: size_or_zero(facts.target_size),
        last_modified: facts.last_modified,
        workspace_root: declares_workspace(manifest),
        has_lock_file: facts.has_lock_file,
        dependencies_count: dependency_count(manifest),
        build_artifacts: if facts.target_size is Some {
            artifact_views(facts.artifacts@)
        } else {
            Seq::empty()
        },
        cargo_cache_size: if include_cargo_cache {
            facts.cargo_cache_size as nat
        } else {
            0
        },
    }
}

/// What lies under a directory that the filter passes over is passed over
/// with it, so that a walk need not go into such a directory: an entry of
/// the directory lies one level deeper, and its path is excluded where
/// that of the directory is.
pub proof fn lemma_skipped_below(filter: PathFilter, parent: Seq<char>, depth: nat, name: Seq<char>)
    requires
        name.len() == 0 || name[0] != '/',
        skips(filter, parent, depth),
    ensures
        skips(filter, joined(parent, name), depth + 1),
{
    if depth <= filter.max_depth {
        lemma_excluded_below(parent, name, string_texts(filter.excluded@), filter.exclude_hidden);
    }
}

/// The latest of the times is one of them, and none of them is later;
/// there is none exactly where no time is known.
pub proof fn lemma_latest_of(times: Seq<Option<Timestamp>>)
    ensures
        latest_of(times) is None <==> forall|k: int| 0 <= k < times.len() ==> times[k] is None,
        latest_of(times) is Some ==> exists|k: int|
            0 <= k < times.len() && times[k] == latest_of(times),
        forall|k: int|
            0 <= k < times.len() && times[k] is Some ==> latest_of(times) is Some && !latest_of(
                times,
            )->0.is_before(#[trigger] times[k]->0),
    decreases times.len(),
{
    if times.len() > 0 {
        let rest = times.drop_last();
        lemma_latest_of(rest);
        assert forall|k: int| 0 <= k < rest.len() implies rest[k] == times[k] by {}
        if latest_of(times) is Some {
            if latest_of(times) == times.last() {
                assert(times[times.len() - 1] == latest_of(times));
            } else {
                let k = choose|k: int| 0 <= k < rest.len() && rest[k] == latest_of(rest);
                assert(times[k] == latest_of(times));
            }
        }
        if latest_of(times) is None {
            assert forall|k: int| 0 <= k < times.len() implies times[k] is None by {
                if k < rest.len() {
                    assert(rest[k] == times[k]);
                }
            }
        } else {
            if forall|k: int| 0 <= k < times.len() ==> times[k] is None {
                assert(times[times.len() - 1] is None);
                assert forall|k: int| 0 <= k < rest.len() implies rest[k] is None by {
                    assert(rest[k] == times[k]);
                }
            }
        }
        assert forall|k: int| 0 <= k < times.len() && times[k] is Some implies latest_of(times)
            is Some && !latest_of(times)->0.is_before(#[trigger] times[k]->0) by {
            if k < rest.len() {
                assert(rest[k] == times[k]);
            }
        }
    }
}

impl PathFilter {
    /// Whether the filter passes over the entry at `path`, `depth` levels
    /// below the root of the scan. What lies under a directory that is
    /// passed over is passed over with it.
    pub fn should_skip(&self, path: &str, depth: usize) -> (skip: bool)
        ensures
            skip == skips(*self, path@, depth as nat),
    {
        depth > self.max_depth || is_path_excluded(path, &self.excluded, self.exclude_hidden)
    }
}

impl ProjectScanner {
    /// A scanner with the settings of a run.
    pub fn new(cli: Cli) -> (scanner: Self)
        ensures
            scanner.cli == cli,
    {
        Self { cli }
    }

    /// The levels that the walk of this scan descends.
    pub fn max_depth(&self) -> (depth: usize)
        ensures
            depth == depth_limit(self.cli.full),
    {
        if self.cli.full {
            10
        } else {
            5
        }
    }

    /// The filter of this scan.
    pub fn filter(&self) -> (filter: PathFilter)
        ensures
            string_texts(filter.excluded@) == excluded_names(opt_text(self.cli.exclude)),
            filter.exclude_hidden == self.cli.exclude_hidden,
            filter.max_depth == depth_limit(self.cli.full),
    {
        PathFilter {
            excluded: self.cli.get_excluded_dirs(),
            exclude_hidden: self.cli.exclude_hidden,
            max_depth: self.max_depth(),
        }
    }

    /// Whether a scan passes over the path: whether one of its components
    /// holds one of the excluded texts or, where hidden directories are
    /// excluded, begins with a dot.
    pub fn is_excluded_path(path: &str, excluded_dirs: &Vec<String>, exclude_hidden: bool) -> (r:
        bool)
        ensures
            r == path_excluded(path@, string_texts(excluded_dirs@), exclude_hidden),
    {
        is_path_excluded(path, excluded_dirs, exclude_hidden)
    }

    /// Whether the entry at `path` is a manifest that the scan looks at:
    /// the filter does not pass over it, and its name is that of a manifest.
    pub fn is_project_manifest(filter: &PathFilter, path: &str, depth: usize) -> (r: bool)
        ensures
            r == accepted(*filter, path@, depth as nat),
    {
        !filter.should_skip(path, depth) && has_name(path, "Cargo.toml")
    }

    /// Whether an error of the walk, `depth` levels below the root of the
    /// scan, ends the scan.
    pub fn is_fatal_walk_error(depth: usize) -> (fatal: bool)
        ensures
            fatal == ends_scan(depth as nat),
    {
        depth == 0
    }

    /// The name that the manifest declares, if its lines show one.
    pub fn extract_project_name(cargo_toml: &str) -> (name: Option<String>)
        ensures
            name is Some <==> project_name(cargo_toml@) is Some,
            name is Some ==> name->0@ == project_name(cargo_toml@)->0,
    {
        let text = chars_of(cargo_toml);
        let bounds = lines_in(&text, 0, text.len());
        let key = chars_of("name");
        assert(text@.subrange(0, text@.len() as int) =~= text@);
        let ghost all = lines(cargo_toml@);
        let mut k: usize = 0;
        assert(all.skip(0) =~= all);
        while k < bounds.len()
            invariant
                k <= bounds.len(),
                text@ == cargo_toml@,
                key@ == "name"@,
                all == lines(cargo_toml@),
                parts(text@, bounds@) == all,
                bounds_within(bounds@, 0, text@.len() as int),
                first_declared_name(all.skip(k as int)) == project_name(cargo_toml@),
            decreases bounds.len() - k,
        {
            let (a, b) = bounds[k];
            let ghost line = text@.subrange(a as int, b as int);
            proof {
                assert(all[k as int] == line);
                assert(all.skip(k as int)[0] == line);
                assert(all.skip(k as int).drop_first() =~= all.skip(k as int + 1));
            }
            let (ta, tb) = trimmed_in(&text, a, b, &Strip::Whitespace);
            if starts_with_in(&text, ta, tb, &key) {
                let sign = find_char_in(&text, a, b, '=');
                if sign < b {
                    let (wa, wb) = trimmed_in(&text, sign + 1, b, &Strip::Whitespace);
                    let (xa, xb) = trimmed_in(&text, wa, wb, &Strip::Exactly('"'));
                    let (ya, yb) = trimmed_in(&text, xa, xb, &Strip::Exactly('\''));
                    let value = cargo_toml.substring_char(ya, yb);
                    proof {
                        assert(line.skip(sign - a + 1) =~= text@.subrange(
                            sign as int + 1,
                            b as int,
                        ));
                        assert(declared_name(line) == Some(value@));
                    }
                    return Some(value.to_owned());
                }
            }
            k = k + 1;
        }
        None
    }

    /// The number of dependencies that the manifest declares.
    pub fn count_dependencies(cargo_toml: &str) -> (count: usize)
        ensures
            count == dependency_count(cargo_toml@),
    {
        let text = chars_of(cargo_toml);
        let bounds = lines_in(&text, 0, text.len());
        let plain = chars_of("[dependencies");
        let dev = chars_of("[dev-dependencies");
        let build = chars_of("[build-dependencies");
        assert(text@.subrange(0, text@.len() as int) =~= text@);
        let ghost all = lines(cargo_toml@);
        let mut inside = false;
        let mut count: usize = 0;
        let mut k: usize = 0;
        assert(all.skip(0) =~= all);
        while k < bounds.len()
            invariant
                k <= bounds.len(),
                count <= k,
                text@ == cargo_toml@,
                plain@ == "[dependencies"@,
                dev@ == "[dev-dependencies"@,
                build@ == "[build-dependencies"@,
                all == lines(cargo_toml@),
                parts(text@, bounds@) == all,
                bounds_within(bounds@, 0, text@.len() as int),
                count + count_entries(all.skip(k as int), inside) == dependency_count(cargo_toml@),
            decreases bounds.len() - k,
        {
            let (a, b) = bounds[k];
            proof {
                assert(all[k as int] == text@.subrange(a as int, b as int));
                assert(all.skip(k as int)[0] == all[k as int]);
                assert(all.skip(k as int).drop_first() =~= all.skip(k as int + 1));
            }
            let (ta, tb) = trimmed_in(&text, a, b, &Strip::Whitespace);
            let ghost line = text@.subrange(ta as int, tb as int);
            if tb > ta && text[ta] == '[' {
                inside = starts_with_in(&text, ta, tb, &plain)
                    || starts_with_in(&text, ta, tb, &dev)
                    || starts_with_in(&text, ta, tb, &build);
                assert(line[0] == '[');
            } else if inside && tb > ta && text[ta] != '#' {
                assert(line[0] != '#');
                count = count + 1;
            } else {
                proof {
                    if tb > ta {
                        assert(line[0] == text@[ta as int]);
                    }
                }
            }
            k = k + 1;
        }
        count
    }

    /// Whether the manifest is the root of a workspace.
    pub fn is_workspace_root(cargo_toml: &str) -> (r: bool)
        ensures
            r == declares_workspace(cargo_toml@),
    {
        let text = chars_of(cargo_toml);
        let marker = chars_of("[workspace]");
        assert(text@.subrange(0, text@.len() as int) =~= text@);
        contains_in(&text, 0, text.len(), &marker)
    }

    /// The levels of a build-output tree in which directories are
    /// classified: the walk of the tree need not go deeper.
    pub fn classified_levels() -> (levels: usize)
        ensures
            levels == artifact_depth(),
    {
        3
    }

    /// What kind of artifact a directory of this name holds.
    pub fn classify(name: &str) -> (kind: Option<ArtifactType>)
        ensures
            kind == artifact_kind(name@),
    {
        let n = chars_of(name);
        if crate::path::text_is(&n, "debug") || crate::path::text_is(&n, "release") {
            Some(ArtifactType::Target)
        } else if crate::path::text_is(&n, "incremental") {
            Some(ArtifactType::IncrementalCompilation)
        } else if crate::path::text_is(&n, "deps") {
            Some(ArtifactType::Dependencies)
        } else if crate::path::text_is(&n, "examples") {
            Some(ArtifactType::Examples)
        } else if crate::path::text_is(&n, "tests") {
            Some(ArtifactType::Tests)
        } else if crate::path::text_is(&n, "benches") {
            Some(ArtifactType::Benchmarks)
        } else {
            None
        }
    }

    /// The kind of artifact that the directory at `path`, `depth` levels
    /// into a build-output tree, is taken for; `None` for one that is not
    /// classified, and need not be measured: the root of the tree, a
    /// directory below the classified levels, one whose name says nothing.
    pub fn artifact_type_at(path: &str, depth: usize) -> (kind: Option<ArtifactType>)
        ensures
            kind == (if is_classified_level(depth as nat) {
                artifact_kind(base_name(path@))
            } else {
                None
            }),
    {
        if 1 <= depth && depth <= 3 {
            let name = file_name_of(path);
            Self::classify(name.as_str())
        } else {
            None
        }
    }

    /// The artifacts among the entries of a build-output tree: every
    /// directory within the classified levels whose name says its kind.
    pub fn analyze_build_artifacts(entries: &Vec<TargetEntry>) -> (artifacts: Vec<BuildArtifact>)
        ensures
            artifact_views(artifacts@) == artifacts_of(entries@),
    {
        let mut artifacts: Vec<BuildArtifact> = Vec::new();
        let mut k: usize = 0;
        assert(entries@.take(0) =~= Seq::<TargetEntry>::empty());
        assert(artifact_views(artifacts@) =~= artifacts_of(entries@.take(0)));
        while k < entries.len()
            invariant
                k <= entries.len(),
                artifact_views(artifacts@) == artifacts_of(entries@.take(k as int)),
            decreases entries.len() - k,
        {
            let entry = &entries[k];
            let ghost before = artifact_views(artifacts@);
            proof {
                assert(entries@.take(k as int + 1).drop_last() =~= entries@.take(k as int));
                assert(entries@.take(k as int + 1).last() == entries@[k as int]);
            }
            if entry.is_dir {
                match Self::artifact_type_at(entry.path.as_str(), entry.depth) {
                    Some(kind) => {
                        let size = match entry.size {
                            Some(n) => n,
                            None => 0,
                        };
                        let artifact = BuildArtifact {
                            path: entry.path.clone(),
                            artifact_type: kind,
                            size,
                            last_modified: entry.last_modified,
                        };
                        assert(artifact@ == artifact_of(*entry)->0);
                        artifacts.push(artifact);
                        assert(artifact_views(artifacts@) =~= before.push(artifact_of(*entry)->0));
                    },
                    None => {},
                }
            }
            k = k + 1;
        }
        assert(entries@.take(k as int) =~= entries@);
        artifacts
    }

    /// The date of a project from the modification times of its dated
    /// files: the latest of those that are known.
    pub fn get_last_modified_time(times: &Vec<Option<Timestamp>>) -> (latest: Option<Timestamp>)
        ensures
            latest == latest_of(times@),
            latest is None <==> forall|k: int| 0 <= k < times@.len() ==> times@[k] is None,
            latest is Some ==> exists|k: int| 0 <= k < times@.len() && times@[k] == latest,
            forall|k: int|
                0 <= k < times@.len() && times@[k] is Some ==> latest is Some
                    && !latest->0.is_before(#[trigger] times@[k]->0),
    {
        proof {
            lemma_latest_of(times@);
        }
        let mut latest: Option<Timestamp> = None;
        let mut k: usize = 0;
        assert(times@.take(0) =~= Seq::<Option<Timestamp>>::empty());
        while k < times.len()
            invariant
                k <= times.len(),
                latest == latest_of(times@.take(k as int)),
            decreases times.len() - k,
        {
            proof {
                assert(times@.take(k as int + 1).drop_last() =~= times@.take(k as int));
                assert(times@.take(k as int + 1).last() == times@[k as int]);
            }
            match times[k] {
                Some(t) => {
                    latest = match latest {
                        Some(prev) => Some(prev.latest(t)),
                        None => Some(t),
                    };
                },
                None => {},
            }
            k = k + 1;
        }
        assert(times@.take(k as int) =~= times@);
        latest
    }

    /// The paths of the files whose modification times date the project at
    /// `project_dir`.
    pub fn dated_files(project_dir: &str) -> (files: Vec<String>)
        ensures
            files@.len() == dated_names().len(),
            forall|k: int|
                0 <= k < files@.len() ==> (#[trigger] files@[k])@ == joined(
                    project_dir@,
                    dated_names()[k],
                ),
    {
        let mut files: Vec<String> = Vec::new();
        files.push(join_path(project_dir, "Cargo.toml"));
        files.push(join_path(project_dir, "Cargo.lock"));
        files.push(join_path(project_dir, "src/main.rs"));
        files.push(join_path(project_dir, "src/lib.rs"));
        files
    }

    /// The size of the shared caches from the sizes of the registry cache
    /// and of the git cache, each where it exists.
    pub fn calculate_cargo_cache_size(registry: Option<u64>, git: Option<u64>) -> (total: u64)
        requires
            size_or_zero(registry) + size_or_zero(git) <= u64::MAX,
        ensures
            total == size_or_zero(registry) + size_or_zero(git),
    {
        let a = match registry {
            Some(n) => n,
            None => 0,
        };
        let b = match git {
            Some(n) => n,
            None => 0,
        };
        a + b
    }

    /// The directories of the shared caches under the home directory: the
    /// registry cache, then the git cache.
    pub fn cargo_cache_directories(home: &str) -> (dirs: (String, String))
        ensures
            dirs.0@ == joined(joined(home@, ".cargo"@), "registry"@),
            dirs.1@ == joined(joined(home@, ".cargo"@), "git"@),
    {
        let cargo = join_path(home, ".cargo");
        (join_path(cargo.as_str(), "registry"), join_path(cargo.as_str(), "git"))
    }

    /// The record of the project at `project_dir`, from the text of its
    /// manifest and the facts found at its root.
    pub fn analyze_rust_project(
        &self,
        project_dir: &str,
        cargo_toml: &str,
        facts: ProjectFacts,
    ) -> (project: RustProject)
        ensures
            project@ == analyzed(
                project_dir@,
                cargo_toml@,
                facts,
                self.cli.target@,
                self.cli.include_cargo_cache,
            ),
            project@.total_cleanable() <= u64::MAX ==> project.wf(),
    {
        let name = match Self::extract_project_name(cargo_toml) {
            Some(name) => name,
            None => file_name_of(project_dir),
        };
        let (target_dir, target_size, build_artifacts) = match facts.target_size {
            Some(size) => (
                Some(join_path(project_dir, self.cli.target.as_str())),
                size,
                facts.artifacts,
            ),
            None => (None, 0, Vec::new()),
        };
        let cargo_cache_size = if self.cli.include_cargo_cache {
            facts.cargo_cache_size
        } else {
            0
        };
        let project = RustProject {
            path: project_dir.to_owned(),
            name,
            target_dir,
            target_size,
            last_modified: facts.last_modified,
            workspace_root: Self::is_workspace_root(cargo_toml),
            has_lock_file: facts.has_lock_file,
            dependencies_count: Self::count_dependencies(cargo_toml),
            build_artifacts,
            cargo_cache_size,
        };
        proof {
            if facts.target_size is None {
                assert(artifact_views(project.build_artifacts@) =~= Seq::<ArtifactView>::empty());
            }
        }
        project
    }

    /// Puts the projects in the order of the listing.
    pub fn sort_projects(projects: &mut Vec<RustProject>, sort_by: &SortBy, _use_gb: bool)
        ensures
            final(projects)@ == arranged(old(projects)@, *sort_by),
            is_sorted(final(projects)@, *sort_by),
            final(projects)@.to_multiset() == old(projects)@.to_multiset(),
            final(projects)@.len() == old(projects)@.len(),
    {
        sort_projects(projects, sort_by, _use_gb)
    }
}

} // verus!
