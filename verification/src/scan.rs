//! A scan in progress: the project roots that were taken up, each with the
//! entry of the walk that led to it, and the projects that were made of
//! them. The caller walks the tree and reads the files; what is done with
//! each finding is decided here.

use vstd::prelude::*;
use vstd::seq_lib::*;
use crate::cli::excluded_names;
use crate::order::{
    arranged, distinct_paths, is_sorted, lemma_arranged_distinct, lemma_arranged_permutation,
    sort_projects,
};
use crate::project::RustProject;
use crate::scanner::{accepted, analyzed, depth_limit, PathFilter, ProjectFacts, ProjectScanner};
use crate::text::{opt_text, string_texts};

verus! {

/// A project root that a scan took up, and the manifest that led to it.
pub struct Source {
    /// The canonical path of the project root.
    pub root: String,
    /// The path of the manifest, as the walk came by it.
    pub manifest: String,
    /// The levels between the manifest and the root of the scan.
    pub depth: usize,
}

/// A source as plain values.
pub struct SourceView {
    pub root: Seq<char>,
    pub manifest: Seq<char>,
    pub depth: nat,
}

impl View for Source {
    type V = SourceView;

    open spec fn view(&self) -> SourceView {
        SourceView { root: self.root@, manifest: self.manifest@, depth: self.depth as nat }
    }
}

/// The sources of a list as plain values.
pub open spec fn source_views(sources: Seq<Source>) -> Seq<SourceView> {
    sources.map_values(|s: Source| s@)
}

/// The project roots of a list of sources.
pub open spec fn roots_of(sources: Seq<SourceView>) -> Seq<Seq<char>> {
    sources.map_values(|s: SourceView| s.root)
}

/// A scan in progress.
///
/// A project root is taken up only for a manifest that the filter of the
/// scan accepts, and at most once, so that every project of a scan came
/// through the filter and no two have the same path, however many entries
/// of the walk lead to one root.
pub struct Scan {
    filter: PathFilter,
    sources: Vec<Source>,
    pending: Option<String>,
    projects: Vec<RustProject>,
}

impl Scan {
    /// The filter of the scan.
    pub closed spec fn filter(&self) -> PathFilter {
        self.filter
    }

    /// The project roots that were taken up, each with the manifest that
    /// led to it, in the order of the walk.
    pub closed spec fn sources(&self) -> Seq<SourceView> {
        source_views(self.sources@)
    }

    /// The project roots that were taken up, in the order of the walk.
    pub open spec fn roots(&self) -> Seq<Seq<char>> {
        roots_of(self.sources())
    }

    /// The project root that was taken up last, while the facts about it
    /// are awaited.
    pub closed spec fn awaited(&self) -> Option<Seq<char>> {
        opt_text(self.pending)
    }

    /// The projects found so far, in the order of the walk.
    pub closed spec fn found(&self) -> Seq<RustProject> {
        self.projects@
    }

    /// Whether `path` is a project root that the scan took up for a
    /// manifest that its filter accepts.
    pub open spec fn came_through(&self, path: Seq<char>) -> bool {
        exists|k: int|
            0 <= k < self.sources().len() && (#[trigger] self.sources()[k]).root == path
                && accepted(self.filter(), self.sources()[k].manifest, self.sources()[k].depth)
    }

    #[verifier::type_invariant]
    spec fn inv(&self) -> bool {
        &&& distinct_paths(self.projects@)
        &&& forall|k: int|
            0 <= k < self.sources@.len() ==> accepted(
                self.filter,
                (#[trigger] self.sources@[k]).manifest@,
                self.sources@[k].depth as nat,
            )
        &&& forall|i: int|
            0 <= i < self.projects@.len() ==> roots_of(source_views(self.sources@)).contains(
                #[trigger] self.projects@[i].path@,
            )
        &&& self.pending is Some ==> roots_of(source_views(self.sources@)).contains(
            self.pending->0@,
        )
        &&& self.pending is Some ==> forall|i: int|
            0 <= i < self.projects@.len() ==> (#[trigger] self.projects@[i]).path@
                != self.pending->0@
    }

    /// A scan with the filter `filter` that has seen nothing yet.
    pub fn new(filter: PathFilter) -> (scan: Scan)
        ensures
            scan.filter() == filter,
            scan.sources() == Seq::<SourceView>::empty(),
            scan.awaited() is None,
            scan.found() == Seq::<RustProject>::empty(),
    {
        let scan = Scan { filter, sources: Vec::new(), pending: None, projects: Vec::new() };
        assert(source_views(scan.sources@) =~= Seq::<SourceView>::empty());
        scan
    }

    /// Every root that was taken up came through the filter.
    proof fn lemma_came_through(&self, path: Seq<char>)
        requires
            self.inv(),
            self.roots().contains(path),
        ensures
            self.came_through(path),
    {
        let k = choose|k: int| 0 <= k < self.roots().len() && self.roots()[k] == path;
        assert(self.sources()[k].root == path);
        assert(self.sources()[k] == self.sources@[k]@);
    }

    /// The projects found so far. No two of them have the same path, and
    /// the path of each is a root that was taken up for a manifest that
    /// the filter accepts.
    pub fn projects(&self) -> (projects: &Vec<RustProject>)
        ensures
            projects@ == self.found(),
            distinct_paths(projects@),
            forall|i: int|
                0 <= i < projects@.len() ==> self.came_through(#[trigger] projects@[i].path@),
    {
        proof {
            use_type_invariant(self);
            assert forall|i: int| 0 <= i < self.projects@.len() implies self.came_through(
                #[trigger] self.projects@[i].path@,
            ) by {
                self.lemma_came_through(self.projects@[i].path@);
            }
        }
        &self.projects
    }

    /// The project roots that were taken up. Each was taken up for a
    /// manifest that the filter accepts.
    pub fn taken_up(&self) -> (sources: &Vec<Source>)
        ensures
            source_views(sources@) == self.sources(),
            forall|k: int|
                0 <= k < sources@.len() ==> accepted(
                    self.filter(),
                    (#[trigger] sources@[k]).manifest@,
                    sources@[k].depth as nat,
                ),
    {
        proof {
            use_type_invariant(self);
        }
        &self.sources
    }

    /// Whether the project root at `project_dir` was taken up before.
    pub fn has_seen(&self, project_dir: &str) -> (seen: bool)
        ensures
            seen == self.roots().contains(project_dir@),
    {
        let wanted = project_dir.to_owned();
        let mut k: usize = 0;
        while k < self.sources.len()
            invariant
                k <= self.sources.len(),
                wanted@ == project_dir@,
                forall|i: int|
                    0 <= i < k ==> roots_of(source_views(self.sources@))[i] != project_dir@,
            decreases self.sources.len() - k,
        {
            if self.sources[k].root == wanted {
                assert(roots_of(source_views(self.sources@))[k as int] == project_dir@);
                return true;
            }
            k = k + 1;
        }
        false
    }

    /// Looks at an entry of the walk, and takes up the project root that it
    /// leads to, where there is one to take up; says whether it did.
    ///
    /// `entry_path` is the path of the entry as the walk came by it, `depth`
    /// its level below the root of the scan, and `project_dir` the
    /// canonical path of the directory that holds it. The root is taken up
    /// where the filter accepts the entry as a manifest and the root was
    /// not taken up before: two entries lead to one project exactly where
    /// their canonical directories are the same.
    ///
    /// A root that is taken up awaits the facts about it; otherwise nothing
    /// is awaited.
    pub fn claim(&mut self, entry_path: &str, depth: usize, project_dir: &str) -> (fresh: bool)
        ensures
            fresh == (accepted(old(self).filter(), entry_path@, depth as nat)
                && !old(self).roots().contains(project_dir@)),
            fresh ==> final(self).sources() == old(self).sources().push(
                SourceView { root: project_dir@, manifest: entry_path@, depth: depth as nat },
            ),
            !fresh ==> final(self).sources() == old(self).sources(),
            final(self).awaited() == (if fresh {
                Some(project_dir@)
            } else {
                None
            }),
            final(self).found() == old(self).found(),
            final(self).filter() == old(self).filter(),
    {
        let fresh = ProjectScanner::is_project_manifest(&self.filter, entry_path, depth)
            && !self.has_seen(project_dir);
        let mut taken = Scan::new(
            PathFilter { excluded: Vec::new(), exclude_hidden: false, max_depth: 0 },
        );
        std::mem::swap(self, &mut taken);
        proof {
            use_type_invariant(&taken);
        }
        let Scan { filter, sources, pending: _, projects } = taken;
        let mut sources = sources;
        let ghost before = source_views(sources@);
        if fresh {
            let source = Source {
                root: project_dir.to_owned(),
                manifest: entry_path.to_owned(),
                depth,
            };
            sources.push(source);
            proof {
                assert(source_views(sources@) =~= before.push(
                    SourceView { root: project_dir@, manifest: entry_path@, depth: depth as nat },
                ));
                assert forall|i: int| 0 <= i < projects@.len() implies roots_of(
                    source_views(sources@),
                ).contains(#[trigger] projects@[i].path@) by {
                    let t = projects@[i].path@;
                    assert(roots_of(before).contains(t));
                    let m = choose|m: int| 0 <= m < before.len() && roots_of(before)[m] == t;
                    assert(roots_of(source_views(sources@))[m] == t);
                }
                assert(roots_of(source_views(sources@))[before.len() as int] == project_dir@);
            }
            *self = Scan { filter, sources, pending: Some(project_dir.to_owned()), projects };
        } else {
            *self = Scan { filter, sources, pending: None, projects };
        }
        fresh
    }
}

impl ProjectScanner {
    /// Begins a scan, with the filter that the settings ask for.
    pub fn scan(&self) -> (scan: Scan)
        ensures
            string_texts(scan.filter().excluded@) == excluded_names(opt_text(self.cli.exclude)),
            scan.filter().exclude_hidden == self.cli.exclude_hidden,
            scan.filter().max_depth == depth_limit(self.cli.full),
            scan.sources() == Seq::<SourceView>::empty(),
            scan.awaited() is None,
            scan.found() == Seq::<RustProject>::empty(),
    {
        Scan::new(self.filter())
    }

    /// Records what was found at the root that the scan awaits facts about:
    /// where the manifest could be read, the project that `analyzed`
    /// describes is added to the projects found; where it could not, the
    /// project is dropped. After that nothing is awaited. Without a root
    /// that awaits its facts, nothing is recorded.
    pub fn record(&self, scan: &mut Scan, cargo_toml: Option<&str>, facts: ProjectFacts)
        ensures
            final(scan).sources() == old(scan).sources(),
            final(scan).filter() == old(scan).filter(),
            final(scan).awaited() is None,
            old(scan).awaited() is Some && cargo_toml is Some ==> {
                &&& final(scan).found().len() == old(scan).found().len() + 1
                &&& final(scan).found().drop_last() == old(scan).found()
                &&& final(scan).found().last()@ == analyzed(
                    old(scan).awaited()->0,
                    cargo_toml->0@,
                    facts,
                    self.cli.target@,
                    self.cli.include_cargo_cache,
                )
            },
            !(old(scan).awaited() is Some && cargo_toml is Some) ==> final(scan).found()
                == old(scan).found(),
    {
        let mut taken = Scan::new(
            PathFilter { excluded: Vec::new(), exclude_hidden: false, max_depth: 0 },
        );
        std::mem::swap(scan, &mut taken);
        proof {
            use_type_invariant(&taken);
        }
        let Scan { filter, sources, pending, projects } = taken;
        let mut projects = projects;
        match (pending, cargo_toml) {
            (Some(dir), Some(text)) => {
                let project = self.analyze_rust_project(dir.as_str(), text, facts);
                let ghost before = projects@;
                projects.push(project);
                proof {
                    assert(projects@.drop_last() =~= before);
                    assert forall|i: int, j: int|
                        0 <= i < j < projects@.len() implies projects@[i].path@
                        != projects@[j].path@ by {
                        if j == before.len() {
                            assert(projects@[i] == before[i]);
                        }
                    }
                    assert forall|i: int| 0 <= i < projects@.len() implies roots_of(
                        source_views(sources@),
                    ).contains(#[trigger] projects@[i].path@) by {
                        if i < before.len() {
                            assert(projects@[i] == before[i]);
                        }
                    }
                }
            },
            _ => {},
        }
        *scan = Scan { filter, sources, pending: None, projects };
    }

    /// Ends the scan: the projects found, in the order of the listing. No
    /// two of them have the same path, and the path of each is a root that
    /// was taken up for a manifest that the filter of the scan accepts.
    pub fn finish(&self, scan: Scan) -> (projects: Vec<RustProject>)
        ensures
            projects@ == arranged(scan.found(), self.cli.sort),
            is_sorted(projects@, self.cli.sort),
            projects@.to_multiset() == scan.found().to_multiset(),
            distinct_paths(projects@),
            forall|i: int|
                0 <= i < projects@.len() ==> scan.came_through(#[trigger] projects@[i].path@),
    {
        broadcast use to_multiset_contains;

        proof {
            use_type_invariant(&scan);
            lemma_arranged_distinct(scan.projects@, self.cli.sort);
            lemma_arranged_permutation(scan.projects@, self.cli.sort);
            let sorted = arranged(scan.projects@, self.cli.sort);
            assert forall|i: int| 0 <= i < sorted.len() implies scan.came_through(
                #[trigger] sorted[i].path@,
            ) by {
                assert(sorted.contains(sorted[i]));
                assert(sorted.to_multiset().contains(sorted[i]));
                assert(scan.projects@.to_multiset().contains(sorted[i]));
                assert(scan.projects@.contains(sorted[i]));
                let m = choose|m: int| 0 <= m < scan.projects@.len() && scan.projects@[m]
                    == sorted[i];
                assert(scan.projects@[m].path@ == sorted[i].path@);
                scan.lemma_came_through(sorted[i].path@);
            }
        }
        let Scan { filter: _, sources: _, pending: _, projects } = scan;
        let mut projects = projects;
        sort_projects(&mut projects, &self.cli.sort, self.cli.gb);
        projects
    }
}

} // verus!
