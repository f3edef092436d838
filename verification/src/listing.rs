//! The listing of the projects of a scan as text: what is written, cell by
//! cell, and in which style. Writing it out, and the colors of the styles,
//! are the caller's.

use vstd::prelude::*;
use vstd::string::*;
use vstd::utf8::*;
use crate::clock::current_time;
use crate::project::{
    active_by, date_label, last_modified_text, modified_date, ProjectView, RustProject,
    Timestamp,
};
use crate::scanner::ProjectScanner;
use crate::utils::{byte_suffix, format_size, pad_right, padded, size_text};

verus! {

/// How a cell of the listing is set off.
#[derive(Debug, Clone, Copy, PartialEq, Eq, Structural)]
pub enum Style {
    Plain,
    Bold,
    Cyan,
    Green,
    Yellow,
    Red,
    BoldGreen,
}

/// A piece of the listing in one style. The pieces, one after the other,
/// are the text of the listing, line feeds included.
#[derive(Debug, Clone)]
pub struct Cell {
    pub text: String,
    pub style: Style,
}

/// A cell as plain values.
pub struct CellView {
    pub text: Seq<char>,
    pub style: Style,
}

impl View for Cell {
    type V = CellView;

    open spec fn view(&self) -> CellView {
        CellView { text: self.text@, style: self.style }
    }
}

/// The cells of a list as plain values.
pub open spec fn cell_views(cells: Seq<Cell>) -> Seq<CellView> {
    cells.map_values(|c: Cell| c@)
}

/// A cell of the text `text` in the style `style`.
pub open spec fn cell(text: Seq<char>, style: Style) -> CellView {
    CellView { text, style }
}

/// The space between two columns.
pub open spec fn gap() -> CellView {
    cell(" "@, Style::Plain)
}

/// The end of a line.
pub open spec fn line_end() -> CellView {
    cell("\n"@, Style::Plain)
}

/// Whether a path is short enough to be shown whole: 18 bytes at most.
pub open spec fn path_fits(path: Seq<char>) -> bool {
    encode_utf8(path).len() <= 18
}

/// Where the part of a longer path begins that is shown: 15 bytes before
/// its end.
pub open spec fn path_cut(path: Seq<char>) -> int {
    encode_utf8(path).len() - 15
}

/// Whether a path can be shown: it is short, or the part of it that is
/// shown begins with a whole character.
pub open spec fn path_showable(path: Seq<char>) -> bool {
    path_fits(path) || is_char_boundary(encode_utf8(path), path_cut(path))
}

/// A path as the listing shows it: whole where it is short, and else its
/// last 15 bytes after an ellipsis of three dots.
pub open spec fn path_display(path: Seq<char>) -> Seq<char> {
    if path_fits(path) {
        path
    } else {
        "..."@ + byte_suffix(path, path_cut(path))
    }
}

/// The label of a project's state.
pub open spec fn status_label(active: bool) -> Seq<char> {
    if active {
        "Active"@
    } else {
        "Stale"@
    }
}

/// The style of a project's state.
pub open spec fn status_style(active: bool) -> Style {
    if active {
        Style::Green
    } else {
        Style::Yellow
    }
}

/// What is noted behind a project: that it has no build-output directory,
/// unless it is stale and has nothing to clean.
pub open spec fn warning_text(p: ProjectView, active: bool) -> Seq<char> {
    if !active && p.total_cleanable() == 0 {
        Seq::empty()
    } else if p.target_dir is None {
        " (no target)"@
    } else {
        Seq::empty()
    }
}

/// The line of one project: its name, its cleanable total, its path, the
/// date of its last modification and its state, each in its column, and
/// the note behind them. The state is that at the time that `clock` gives;
/// where it gives none, the project counts as active.
pub open spec fn row(p: ProjectView, use_gb: bool, clock: Option<Timestamp>) -> Seq<CellView> {
    let active = active_by(p.last_modified, clock);
    seq![
        cell(padded(p.name, 30), Style::Plain),
        gap(),
        cell(padded(size_text(p.total_cleanable(), use_gb), 15), Style::Cyan),
        gap(),
        cell(padded(path_display(p.path), 20), Style::Plain),
        gap(),
        cell(padded(date_label(modified_date(p.last_modified)), 15), Style::Plain),
        gap(),
        cell(padded(status_label(active), 10), status_style(active)),
        cell(warning_text(p, active), Style::Red),
        line_end(),
    ]
}

/// The lines of the projects, in their order.
pub open spec fn rows(
    projects: Seq<RustProject>,
    use_gb: bool,
    clock: Option<Timestamp>,
) -> Seq<CellView>
    decreases projects.len(),
{
    if projects.len() == 0 {
        Seq::empty()
    } else {
        rows(projects.drop_last(), use_gb, clock) + row(projects.last()@, use_gb, clock)
    }
}

/// The line over the columns, after an empty line.
pub open spec fn header() -> Seq<CellView> {
    seq![
        line_end(),
        cell(padded("Project Name"@, 30), Style::Bold),
        gap(),
        cell(padded("Size"@, 15), Style::Bold),
        gap(),
        cell(padded("Path"@, 20), Style::Bold),
        gap(),
        cell(padded("Last Modified"@, 15), Style::Bold),
        gap(),
        cell(padded("Status"@, 10), Style::Bold),
        line_end(),
    ]
}

/// A rule of a hundred dashes.
pub open spec fn rule() -> Seq<char> {
    Seq::new(100, |i: int| '─')
}

/// What all the projects together could free.
pub open spec fn total_cleanable_space(projects: Seq<RustProject>) -> nat
    decreases projects.len(),
{
    if projects.len() == 0 {
        0
    } else {
        total_cleanable_space(projects.drop_last()) + projects.last()@.total_cleanable()
    }
}

/// The closing line with the total, after an empty line.
pub open spec fn summary(projects: Seq<RustProject>, use_gb: bool) -> Seq<CellView> {
    seq![
        line_end(),
        cell("Total cleanable space: "@, Style::Plain),
        cell(size_text(total_cleanable_space(projects), use_gb), Style::BoldGreen),
        line_end(),
    ]
}

/// The listing of the projects at the time that `clock` gives: a note
/// where there are none, and else the header, a rule, a line for each
/// project and the total.
pub open spec fn listing(
    projects: Seq<RustProject>,
    use_gb: bool,
    clock: Option<Timestamp>,
) -> Seq<CellView> {
    if projects.len() == 0 {
        seq![cell("No Rust projects found."@, Style::Plain)]
    } else {
        header() + seq![cell(rule(), Style::Plain), line_end()] + rows(projects, use_gb, clock)
            + summary(projects, use_gb)
    }
}

/// Whether the projects can be listed: every path can be shown, and the
/// total of what they could free fits 64 bits.
pub open spec fn listable(projects: Seq<RustProject>) -> bool {
    &&& forall|i: int| 0 <= i < projects.len() ==> path_showable(#[trigger] projects[i].path@)
    &&& total_cleanable_space(projects) <= u64::MAX
}

/// No project could free more than all together, and the first projects
/// no more than all.
pub proof fn lemma_total_cleanable_space(projects: Seq<RustProject>, k: int)
    requires
        0 <= k < projects.len(),
    ensures
        total_cleanable_space(projects.take(k)) + projects[k]@.total_cleanable()
            == total_cleanable_space(projects.take(k + 1)),
        total_cleanable_space(projects.take(k + 1)) <= total_cleanable_space(projects),
    decreases projects.len() - k,
{
    assert(projects.take(k + 1).drop_last() =~= projects.take(k));
    if k + 1 < projects.len() {
        lemma_total_cleanable_space(projects, k + 1);
    } else {
        assert(projects.take(k + 1) =~= projects);
    }
}

/// A cell of the text `text`.
fn plain(text: &str) -> (c: Cell)
    ensures
        c@ == cell(text@, Style::Plain),
{
    Cell { text: text.to_owned(), style: Style::Plain }
}

/// A cell of `text` filled up to `width` characters.
fn column(text: &str, width: usize, style: Style) -> (c: Cell)
    ensures
        c@ == cell(padded(text@, width as nat), style),
{
    Cell { text: pad_right(text, width), style }
}

/// A path as the listing shows it.
pub fn show_path(path: &str) -> (r: String)
    requires
        path_showable(path@),
    ensures
        r@ == path_display(path@),
{
    broadcast use encode_utf8_decode_utf8, encode_utf8_valid_utf8;

    let len = path.as_bytes().len();
    if len > 18 {
        let (_, tail) = path.split_at(len - 15);
        let mut r = "...".to_owned();
        r.append(tail);
        proof {
            assert(tail@ == decode_utf8(encode_utf8(tail@)));
            assert(tail.spec_bytes() == encode_utf8(tail@));
        }
        r
    } else {
        path.to_owned()
    }
}

/// What all the projects together could free.
pub fn sum_cleanable(projects: &Vec<RustProject>) -> (total: u64)
    requires
        total_cleanable_space(projects@) <= u64::MAX,
    ensures
        total == total_cleanable_space(projects@),
{
    let mut total: u64 = 0;
    let mut k: usize = 0;
    assert(projects@.take(0) =~= Seq::<RustProject>::empty());
    while k < projects.len()
        invariant
            k <= projects.len(),
            total == total_cleanable_space(projects@.take(k as int)),
            total_cleanable_space(projects@) <= u64::MAX,
        decreases projects.len() - k,
    {
        proof {
            lemma_total_cleanable_space(projects@, k as int);
        }
        let size = projects[k].total_cleanable_size();
        total = total + size;
        k = k + 1;
    }
    assert(projects@.take(k as int) =~= projects@);
    total
}

/// Whether the projects can be listed.
pub fn can_list(projects: &Vec<RustProject>) -> (r: bool)
    ensures
        r == listable(projects@),
{
    broadcast use encode_utf8_valid_utf8;

    let mut total: u64 = 0;
    let mut k: usize = 0;
    assert(projects@.take(0) =~= Seq::<RustProject>::empty());
    while k < projects.len()
        invariant
            k <= projects.len(),
            total == total_cleanable_space(projects@.take(k as int)),
            forall|i: int| 0 <= i < k ==> path_showable(#[trigger] projects@[i].path@),
        decreases projects.len() - k,
    {
        proof {
            lemma_total_cleanable_space(projects@, k as int);
        }
        let p = &projects[k];
        let path = p.path.as_str();
        let len = path.as_bytes().len();
        if len > 18 && !path.is_char_boundary(len - 15) {
            assert(!path_showable(projects@[k as int].path@));
            return false;
        }
        if p.cargo_cache_size > u64::MAX - p.target_size {
            return false;
        }
        let size = p.target_size + p.cargo_cache_size;
        if size > u64::MAX - total {
            return false;
        }
        total = total + size;
        k = k + 1;
    }
    assert(projects@.take(k as int) =~= projects@);
    true
}

/// The line of one project.
fn push_row(cells: &mut Vec<Cell>, p: &RustProject, use_gb: bool, clock: &Option<Timestamp>)
    requires
        path_showable(p.path@),
        p@.total_cleanable() <= u64::MAX,
    ensures
        cell_views(final(cells)@) == cell_views(old(cells)@) + row(p@, use_gb, *clock),
{
    let ghost before = cell_views(cells@);
    let active = p.is_likely_active_by(clock);
    let size = p.format_size(use_gb);
    let path = show_path(p.path.as_str());
    let date = last_modified_text(&p.last_modified);
    let total = p.total_cleanable_size();
    cells.push(column(p.name.as_str(), 30, Style::Plain));
    cells.push(plain(" "));
    cells.push(column(size.as_str(), 15, Style::Cyan));
    cells.push(plain(" "));
    cells.push(column(path.as_str(), 20, Style::Plain));
    cells.push(plain(" "));
    cells.push(column(date.as_str(), 15, Style::Plain));
    cells.push(plain(" "));
    if active {
        cells.push(column("Active", 10, Style::Green));
    } else {
        cells.push(column("Stale", 10, Style::Yellow));
    }
    let warning = if !active && total == 0 {
        String::new()
    } else if p.target_dir.is_none() {
        " (no target)".to_owned()
    } else {
        String::new()
    };
    cells.push(Cell { text: warning, style: Style::Red });
    cells.push(plain("\n"));
    assert(cell_views(cells@) =~= before + row(p@, use_gb, *clock));
}

impl ProjectScanner {
    /// The listing of the projects at the time `now`.
    pub fn listing_at(&self, projects: &Vec<RustProject>, now: &Timestamp) -> (cells: Vec<Cell>)
        requires
            listable(projects@),
        ensures
            cell_views(cells@) == listing(projects@, self.cli.gb, Some(*now)),
    {
        self.listing_by(projects, &Some(*now))
    }

    /// The listing of the projects at the time that `clock` gives; where
    /// it gives none, every project counts as active.
    pub fn listing_by(&self, projects: &Vec<RustProject>, clock: &Option<Timestamp>) -> (cells:
        Vec<Cell>)
        requires
            listable(projects@),
        ensures
            cell_views(cells@) == listing(projects@, self.cli.gb, *clock),
    {
        let use_gb = self.cli.gb;
        let mut cells: Vec<Cell> = Vec::new();
        if projects.len() == 0 {
            cells.push(plain("No Rust projects found."));
            assert(cell_views(cells@) =~= listing(projects@, use_gb, *clock));
            return cells;
        }
        cells.push(plain("\n"));
        cells.push(column("Project Name", 30, Style::Bold));
        cells.push(plain(" "));
        cells.push(column("Size", 15, Style::Bold));
        cells.push(plain(" "));
        cells.push(column("Path", 20, Style::Bold));
        cells.push(plain(" "));
        cells.push(column("Last Modified", 15, Style::Bold));
        cells.push(plain(" "));
        cells.push(column("Status", 10, Style::Bold));
        cells.push(plain("\n"));
        assert(cell_views(cells@) =~= header());
        let mut line = String::new();
        let mut n: usize = 0;
        proof {
            reveal_strlit("─");
        }
        while n < 100
            invariant
                n <= 100,
                line@ == Seq::new(n as nat, |i: int| '─'),
                "─"@ == seq!['─'],
            decreases 100 - n,
        {
            line.append("─");
            n = n + 1;
            assert(line@ =~= Seq::new(n as nat, |i: int| '─'));
        }
        cells.push(Cell { text: line, style: Style::Plain });
        cells.push(plain("\n"));
        let ghost top = header() + seq![cell(rule(), Style::Plain), line_end()];
        assert(cell_views(cells@) =~= top);
        let mut k: usize = 0;
        assert(projects@.take(0) =~= Seq::<RustProject>::empty());
        assert(cell_views(cells@) =~= top + rows(projects@.take(0), use_gb, *clock));
        while k < projects.len()
            invariant
                k <= projects.len(),
                listable(projects@),
                cell_views(cells@) == top + rows(projects@.take(k as int), use_gb, *clock),
            decreases projects.len() - k,
        {
            proof {
                lemma_total_cleanable_space(projects@, k as int);
                assert(projects@.take(k as int + 1).drop_last() =~= projects@.take(k as int));
                assert(projects@.take(k as int + 1).last() == projects@[k as int]);
            }
            let ghost before = cell_views(cells@);
            push_row(&mut cells, &projects[k], use_gb, clock);
            k = k + 1;
            assert(cell_views(cells@) =~= top + rows(projects@.take(k as int), use_gb, *clock));
        }
        assert(projects@.take(k as int) =~= projects@);
        let total = sum_cleanable(projects);
        let ghost body = cell_views(cells@);
        cells.push(plain("\n"));
        cells.push(plain("Total cleanable space: "));
        cells.push(Cell { text: format_size(total, use_gb), style: Style::BoldGreen });
        cells.push(plain("\n"));
        assert(cell_views(cells@) =~= body + summary(projects@, use_gb));
        cells
    }

    /// The listing of the projects, by the system clock: it is the
    /// listing at the time that the clock gave, or, where it gave none, the
    /// one in which every project counts as active.
    pub fn print_projects(&self, projects: &Vec<RustProject>) -> (cells: Vec<Cell>)
        requires
            listable(projects@),
        ensures
            exists|clock: Option<Timestamp>|
                cell_views(cells@) == listing(projects@, self.cli.gb, clock),
    {
        let clock = current_time();
        self.listing_by(projects, &clock)
    }
}

} // verus!
