//! What is read out of a project manifest, line by line: the declared
//! name, the workspace marker, and a count of the declared dependencies.
//! These are heuristics on lines of text; the manifest is not parsed.

use vstd::prelude::*;
use crate::text::{contains, find_char, lines, starts_with, trim, trimmed, Strip};

verus! {

/// A value without the white space and the quotes around it: first the
/// white space, then the double quotes, then the single quotes.
pub open spec fn unquoted(value: Seq<char>) -> Seq<char> {
    trimmed(trimmed(trim(value), Strip::Exactly('"')), Strip::Exactly('\''))
}

/// The name that a line declares: the line begins, after white space, with
/// `name`, and holds an equals sign; the name is all that stands to the
/// right of the first equals sign, unquoted.
pub open spec fn declared_name(line: Seq<char>) -> Option<Seq<char>> {
    if starts_with(trim(line), "name"@) && 0 <= find_char(line, '=') < line.len() {
        Some(unquoted(line.skip(find_char(line, '=') + 1)))
    } else {
        None
    }
}

/// The name that the first of the lines to declare one declares.
pub open spec fn first_declared_name(lines: Seq<Seq<char>>) -> Option<Seq<char>>
    decreases lines.len(),
{
    if lines.len() == 0 {
        None
    } else if declared_name(lines[0]) is Some {
        declared_name(lines[0])
    } else {
        first_declared_name(lines.drop_first())
    }
}

/// The name that a manifest declares, if it declares one.
pub open spec fn project_name(manifest: Seq<char>) -> Option<Seq<char>> {
    first_declared_name(lines(manifest))
}

/// Whether a trimmed line opens a section.
pub open spec fn is_section_header(line: Seq<char>) -> bool {
    line.len() > 0 && line[0] == '['
}

/// Whether a section header opens a section of dependencies: those of the
/// project, of its development, or of its build.
pub open spec fn opens_dependencies(line: Seq<char>) -> bool {
    starts_with(line, "[dependencies"@) || starts_with(line, "[dev-dependencies"@) || starts_with(
        line,
        "[build-dependencies"@,
    )
}

/// Whether a trimmed line inside a section counts as an entry: it is not
/// empty and no comment.
pub open spec fn is_entry(line: Seq<char>) -> bool {
    line.len() > 0 && line[0] != '#'
}

/// The entries among `lines` that stand in sections of dependencies, where
/// `inside` says whether the lines begin in one.
pub open spec fn count_entries(lines: Seq<Seq<char>>, inside: bool) -> nat
    decreases lines.len(),
{
    if lines.len() == 0 {
        0
    } else {
        let line = trim(lines[0]);
        let rest = lines.drop_first();
        if is_section_header(line) {
            count_entries(rest, opens_dependencies(line))
        } else if inside && is_entry(line) {
            1 + count_entries(rest, inside)
        } else {
            count_entries(rest, inside)
        }
    }
}

/// The number of dependencies that a manifest declares, as far as its
/// lines show: every entry in a section of dependencies counts once.
pub open spec fn dependency_count(manifest: Seq<char>) -> nat {
    count_entries(lines(manifest), false)
}

/// Whether a manifest is the root of a workspace: whether the workspace
/// section marker stands in it.
pub open spec fn declares_workspace(manifest: Seq<char>) -> bool {
    contains(manifest, "[workspace]"@)
}

} // verus!
