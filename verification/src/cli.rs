//! The settings of a run, as the command line gives them.

use vstd::prelude::*;
use vstd::string::*;
use crate::text::{
    bounds_within, chars_of, opt_text, parts, split, split_in, string_texts, trim, trimmed_in,
    Strip,
};

verus! {

/// The key that the projects of a scan are listed by.
#[derive(Clone, Copy, Debug, PartialEq, Eq, Structural)]
pub enum SortBy {
    /// The largest cleanable total first.
    Size,
    /// The paths in ascending order.
    Path,
    /// The last modified first, the projects without a date at the end.
    LastMod,
}

/// The settings of a run.
#[derive(Clone, Debug)]
pub struct Cli {
    /// The directory that the search starts from.
    pub directory: String,
    /// Search from the home directory, and more levels deep.
    pub full: bool,
    /// The name of the build-output directory under a project root.
    pub target: String,
    /// The key that the results are listed by.
    pub sort: SortBy,
    /// Show sizes in gibibytes, not mebibytes.
    pub gb: bool,
    /// Texts, separated by commas, that exclude a path holding one of them.
    pub exclude: Option<String>,
    /// Pass over hidden directories.
    pub exclude_hidden: bool,
    /// Do not report errors.
    pub hide_errors: bool,
    /// Delete every build-output directory that is found, without asking.
    pub delete_all: bool,
    /// Go through the motions of deleting, and delete nothing.
    pub dry_run: bool,
    /// List the projects and stop.
    pub list_only: bool,
    /// Count the shared registry and git caches with each project.
    pub include_cargo_cache: bool,
    /// Do not look for a newer release.
    pub no_check_update: bool,
}

/// The pieces of `exclude` between commas, each without the white space
/// around it; none where nothing is excluded.
pub open spec fn excluded_names(exclude: Option<Seq<char>>) -> Seq<Seq<char>> {
    match exclude {
        Some(s) => split(s, ',').map_values(|piece: Seq<char>| trim(piece)),
        None => Seq::empty(),
    }
}

/// Where a search starts: the home directory for a full search, else the
/// directory that was named.
pub open spec fn search_directory(
    full: bool,
    directory: Seq<char>,
    home: Option<Seq<char>>,
) -> Seq<char> {
    if full {
        home->0
    } else {
        directory
    }
}

impl Cli {
    /// The directory that the search starts from. A full search starts from
    /// the home directory, which must then be known.
    pub fn get_search_directory(&self, home: Option<String>) -> (dir: String)
        requires
            self.full ==> home is Some,
        ensures
            dir@ == search_directory(self.full, self.directory@, opt_text(home)),
    {
        if self.full {
            match home {
                Some(h) => h,
                None => self.directory.clone(),
            }
        } else {
            self.directory.clone()
        }
    }

    /// The texts that exclude a path.
    pub fn get_excluded_dirs(&self) -> (dirs: Vec<String>)
        ensures
            string_texts(dirs@) == excluded_names(opt_text(self.exclude)),
    {
        let mut dirs: Vec<String> = Vec::new();
        match &self.exclude {
            None => {
                assert(string_texts(dirs@) =~= Seq::<Seq<char>>::empty());
            },
            Some(s) => {
                let text = chars_of(s.as_str());
                let pieces = split_in(&text, 0, text.len(), ',');
                assert(text@.subrange(0, text@.len() as int) =~= text@);
                let ghost wanted = excluded_names(Some(s@));
                let mut k: usize = 0;
                assert(string_texts(dirs@) =~= wanted.take(0));
                while k < pieces.len()
                    invariant
                        k <= pieces.len(),
                        text@ == s@,
                        bounds_within(pieces@, 0, text@.len() as int),
                        parts(text@, pieces@) == split(s@, ','),
                        wanted == excluded_names(Some(s@)),
                        string_texts(dirs@) == wanted.take(k as int),
                    decreases pieces.len() - k,
                {
                    let (a, b) = pieces[k];
                    let (from, to) = trimmed_in(&text, a, b, &Strip::Whitespace);
                    let piece = s.as_str().substring_char(from, to);
                    let ghost before = string_texts(dirs@);
                    proof {
                        assert(parts(text@, pieces@)[k as int] == text@.subrange(
                            a as int,
                            b as int,
                        ));
                        assert(piece@ == wanted[k as int]);
                    }
                    dirs.push(piece.to_owned());
                    assert(string_texts(dirs@) =~= before.push(wanted[k as int]));
                    k = k + 1;
                    assert(string_texts(dirs@) =~= wanted.take(k as int));
                }
                assert(wanted.take(k as int) =~= wanted);
            },
        }
        dirs
    }
}

} // verus!
