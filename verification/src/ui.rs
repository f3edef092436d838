//! The controller of a cleaning session: the projects of the last scan,
//! the cursor, and the account of what was deleted. It decides; removing
//! directories, opening them and scanning are the caller's, who reports
//! back how each removal ended.

use vstd::prelude::*;
use vstd::string::*;
use vstd::utf8::{encode_utf8, is_char_boundary};
use crate::cli::Cli;
use crate::listing::{lemma_total_cleanable_space, sum_cleanable, total_cleanable_space};
use crate::project::{
    days_since, project_views, ArtifactView, ProjectView, RustProject, Timestamp,
};
use crate::text::opt_str;
use crate::utils::{
    cut_point, decimal, format_size, get_relative_path, pad_right, padded, push_decimal,
    relative_to, size_text, truncate_string, truncated,
};

verus! {

/// A key that was pressed.
#[derive(Debug, Clone, Copy, PartialEq, Eq, Structural)]
pub enum Key {
    Char(char),
    Esc,
    Up,
    Down,
    Delete,
    Other,
}

/// What the caller is to do next.
#[derive(Debug, Clone)]
pub enum Command {
    /// Nothing: go on with the next key.
    Continue,
    /// End the session.
    Exit,
    /// Remove the directory at `path`, or in a dry run go through the
    /// motions, and report how it ended.
    Remove { path: String, dry_run: bool },
    /// Open the directory at `path` in the file manager.
    Open { path: String },
    /// Scan again and hand over the projects.
    Refresh,
}

/// A command as plain values.
pub enum CommandView {
    Continue,
    Exit,
    Remove { path: Seq<char>, dry_run: bool },
    Open { path: Seq<char> },
    Refresh,
}

impl View for Command {
    type V = CommandView;

    open spec fn view(&self) -> CommandView {
        match self {
            Command::Continue => CommandView::Continue,
            Command::Exit => CommandView::Exit,
            Command::Remove { path, dry_run } => CommandView::Remove {
                path: path@,
                dry_run: *dry_run,
            },
            Command::Open { path } => CommandView::Open { path: path@ },
            Command::Refresh => CommandView::Refresh,
        }
    }
}

/// The removal that is under way.
#[derive(Debug, Clone, Copy, PartialEq, Eq, Structural)]
pub enum Pending {
    /// None.
    Idle,
    /// That of the build output of the project at `index` alone.
    One { index: usize },
    /// That of the project at `index` as part of deleting all.
    All { index: usize },
}

/// The controller of a cleaning session.
pub struct InteractiveUI {
    cli: Cli,
    projects: Vec<RustProject>,
    selected_index: usize,
    total_deleted_size: u64,
    deleted_count: usize,
    pending: Pending,
}

/// The state of a session as plain values.
pub struct UiView {
    pub projects: Seq<ProjectView>,
    pub selected_index: nat,
    pub total_deleted_size: nat,
    pub deleted_count: nat,
    pub pending: Pending,
    pub dry_run: bool,
}

/// A project after its build output was deleted: it has no build-output
/// directory, no build output and no artifacts, and is otherwise as before.
pub open spec fn cleaned(p: ProjectView) -> ProjectView {
    ProjectView {
        target_dir: None,
        target_size: 0,
        build_artifacts: Seq::<ArtifactView>::empty(),
        ..p
    }
}

/// The position of the first project from `from` on that has a
/// build-output directory, or the number of projects where none has.
pub open spec fn next_target(projects: Seq<ProjectView>, from: int) -> int
    decreases projects.len() - from,
{
    if from < 0 || from >= projects.len() {
        projects.len() as int
    } else if projects[from].target_dir is Some {
        from
    } else {
        next_target(projects, from + 1)
    }
}

/// What all the projects together could free.
pub open spec fn cleanable_total(projects: Seq<ProjectView>) -> nat
    decreases projects.len(),
{
    if projects.len() == 0 {
        0
    } else {
        cleanable_total(projects.drop_last()) + projects.last().total_cleanable()
    }
}

/// The cursor one project up, and at the first project where it is there.
pub open spec fn cursor_up(selected: nat) -> nat {
    if selected > 0 {
        (selected - 1) as nat
    } else {
        selected
    }
}

/// The cursor one project down, and at the last project where it is there;
/// unmoved where there are no projects.
pub open spec fn cursor_down(selected: nat, len: nat) -> nat {
    if len > 0 && selected < len - 1 {
        selected + 1
    } else {
        selected
    }
}

impl UiView {
    /// Whether there is a project at `index` and it has a build-output
    /// directory.
    pub open spec fn has_target(self, index: int) -> bool {
        0 <= index < self.projects.len() && self.projects[index].target_dir is Some
    }

    /// The command to remove the build-output directory of the project at
    /// `index`.
    pub open spec fn removal_command(self, index: int) -> CommandView {
        CommandView::Remove { path: self.projects[index].target_dir->0, dry_run: self.dry_run }
    }

    /// What asking to delete the selected project comes to: where no
    /// removal is under way and the selected project has a build-output
    /// directory, its removal is under way and commanded; otherwise nothing
    /// changes.
    pub open spec fn delete_selected(self) -> (UiView, CommandView) {
        if self.pending == Pending::Idle && self.has_target(self.selected_index as int) {
            (
                UiView { pending: Pending::One { index: self.selected_index as usize }, ..self },
                self.removal_command(self.selected_index as int),
            )
        } else {
            (self, CommandView::Continue)
        }
    }

    /// What asking to delete all projects comes to: where no removal is
    /// under way and a project has a build-output directory, the removal of
    /// the first such project is under way and commanded; otherwise nothing
    /// changes.
    pub open spec fn delete_all(self) -> (UiView, CommandView) {
        let first = next_target(self.projects, 0);
        if self.pending == Pending::Idle && first < self.projects.len() {
            (
                UiView { pending: Pending::All { index: first as usize }, ..self },
                self.removal_command(first),
            )
        } else {
            (self, CommandView::Continue)
        }
    }

    /// The session once the removal of the build output of the project at
    /// `index` ended. A removal that failed, and one in a dry run, changes
    /// no project and no account. Any other leaves the project cleaned,
    /// adds the size of its build output to the bytes freed, and one to
    /// the projects cleaned.
    pub open spec fn accounted(self, index: int, removed: bool) -> UiView {
        if removed && !self.dry_run {
            UiView {
                projects: self.projects.update(index, cleaned(self.projects[index])),
                total_deleted_size: self.total_deleted_size + self.projects[index].target_size,
                deleted_count: self.deleted_count + 1,
                ..self
            }
        } else {
            self
        }
    }

    /// What the end of the removal under way comes to. The project is
    /// accounted for as `accounted` says, alone or as one of all. After a
    /// single removal the session is idle. Deleting all goes on, after a
    /// removal that succeeded, to the next project with a build-output
    /// directory, and is over where there is none; a removal that failed
    /// ends it there, and what was deleted before stays deleted and
    /// accounted for.
    pub open spec fn finished(self, removed: bool) -> (UiView, CommandView) {
        match self.pending {
            Pending::Idle => (self, CommandView::Continue),
            Pending::One { index } => (
                UiView { pending: Pending::Idle, ..self.accounted(index as int, removed) },
                CommandView::Continue,
            ),
            Pending::All { index } => {
                let next = next_target(self.projects, index + 1);
                if removed && next < self.projects.len() {
                    (
                        UiView {
                            pending: Pending::All { index: next as usize },
                            ..self.accounted(index as int, removed)
                        },
                        self.removal_command(next),
                    )
                } else {
                    (
                        UiView { pending: Pending::Idle, ..self.accounted(index as int, removed) },
                        CommandView::Continue,
                    )
                }
            },
        }
    }

    /// The command to open the selected project, where there is one.
    pub open spec fn open_selected(self) -> CommandView {
        if self.projects.len() > 0 {
            CommandView::Open { path: self.projects[self.selected_index as int].path }
        } else {
            CommandView::Continue
        }
    }

    /// What a key comes to. While a removal is under way every key is
    /// passed over. Otherwise `q` and escape end the session; the arrows,
    /// `k` and `j` move the cursor; delete, the space bar and `D` delete the
    /// selected project; `a` deletes all; `o` opens the selected project;
    /// `r` scans again; every other key does nothing.
    pub open spec fn on_key(self, key: Key) -> (UiView, CommandView) {
        if self.pending != Pending::Idle {
            (self, CommandView::Continue)
        } else if key == Key::Char('q') || key == Key::Esc {
            (self, CommandView::Exit)
        } else if key == Key::Up || key == Key::Char('k') {
            (
                UiView { selected_index: cursor_up(self.selected_index), ..self },
                CommandView::Continue,
            )
        } else if key == Key::Down || key == Key::Char('j') {
            (
                UiView {
                    selected_index: cursor_down(self.selected_index, self.projects.len()),
                    ..self
                },
                CommandView::Continue,
            )
        } else if key == Key::Delete || key == Key::Char(' ') || key == Key::Char('D') {
            self.delete_selected()
        } else if key == Key::Char('o') {
            (self, self.open_selected())
        } else if key == Key::Char('r') {
            (self, CommandView::Refresh)
        } else if key == Key::Char('a') {
            self.delete_all()
        } else {
            (self, CommandView::Continue)
        }
    }

    /// The projects can be counted in a machine word; the cursor is on a
    /// project, or at 0 where there is none; a removal that is under way is
    /// that of a project with a build-output directory.
    pub open spec fn wf(self) -> bool {
        &&& self.projects.len() <= usize::MAX
        &&& self.projects.len() == 0 ==> self.selected_index == 0
        &&& self.projects.len() > 0 ==> self.selected_index < self.projects.len()
        &&& self.pending matches Pending::One { index } ==> self.has_target(index as int)
        &&& self.pending matches Pending::All { index } ==> self.has_target(index as int)
    }

    /// The account of the removal under way fits the machine's numbers:
    /// the bytes freed in 64 bits, the projects cleaned in a machine word.
    /// It always does in a dry run, where nothing is accounted for.
    pub open spec fn accountable(self) -> bool {
        if self.dry_run {
            true
        } else {
            match self.pending {
                Pending::Idle => true,
                Pending::One { index } => self.fits(index as int),
                Pending::All { index } => self.fits(index as int),
            }
        }
    }

    /// Whether the account with the project at `index` added fits.
    pub open spec fn fits(self, index: int) -> bool {
        &&& self.total_deleted_size + self.projects[index].target_size <= u64::MAX
        &&& self.deleted_count + 1 <= usize::MAX
    }
}

/// Projects that agree from `from` on in whether they have a build-output
/// directory have the same next target from there.
pub proof fn lemma_next_target_same(a: Seq<ProjectView>, b: Seq<ProjectView>, from: int)
    requires
        a.len() == b.len(),
        forall|i: int| from <= i < a.len() ==> a[i].target_dir is Some == b[i].target_dir is Some,
    ensures
        next_target(a, from) == next_target(b, from),
    decreases a.len() - from,
{
    if 0 <= from < a.len() {
        if a[from].target_dir is None {
            lemma_next_target_same(a, b, from + 1);
        }
    }
}

/// The next target lies at or behind the place that the search began at,
/// and has a build-output directory where it is a project.
pub proof fn lemma_next_target(projects: Seq<ProjectView>, from: int)
    requires
        0 <= from <= projects.len(),
    ensures
        from <= next_target(projects, from) <= projects.len(),
        next_target(projects, from) < projects.len() ==> projects[next_target(
            projects,
            from,
        )].target_dir is Some,
    decreases projects.len() - from,
{
    if from < projects.len() && projects[from].target_dir is None {
        lemma_next_target(projects, from + 1);
    }
}

/// Every step of a session leaves it well formed.
pub proof fn lemma_session_stays_well_formed(v: UiView, key: Key, removed: bool)
    requires
        v.wf(),
    ensures
        v.on_key(key).0.wf(),
        v.delete_selected().0.wf(),
        v.delete_all().0.wf(),
        v.finished(removed).0.wf(),
{
    lemma_next_target(v.projects, 0);
    match v.pending {
        Pending::All { index } => {
            lemma_next_target(v.projects, index + 1);
        },
        _ => {},
    }
}

/// In a dry run no key and no removal changes a project or the account of
/// what was deleted.
pub proof fn lemma_dry_run_changes_nothing(v: UiView, key: Key, removed: bool)
    requires
        v.dry_run,
    ensures
        v.on_key(key).0.projects == v.projects,
        v.on_key(key).0.total_deleted_size == v.total_deleted_size,
        v.on_key(key).0.deleted_count == v.deleted_count,
        v.finished(removed).0.projects == v.projects,
        v.finished(removed).0.total_deleted_size == v.total_deleted_size,
        v.finished(removed).0.deleted_count == v.deleted_count,
{
}

/// Deleting the selected project, outside of a dry run: once its removal
/// succeeded, the project has no build-output directory and a build output
/// of size 0, the bytes freed have grown by exactly the size that its
/// build output had, and one more project is cleaned. Every other project
/// is as it was.
pub proof fn lemma_single_deletion(v: UiView)
    requires
        v.wf(),
        v.pending == Pending::Idle,
        v.has_target(v.selected_index as int),
        !v.dry_run,
    ensures
        ({
            let asked = v.delete_selected();
            let done = asked.0.finished(true).0;
            let i = v.selected_index as int;
            &&& asked.1 == v.removal_command(i)
            &&& done.pending == Pending::Idle
            &&& done.projects.len() == v.projects.len()
            &&& done.projects[i] == cleaned(v.projects[i])
            &&& done.projects[i].target_size == 0
            &&& done.projects[i].target_dir is None
            &&& done.total_deleted_size == v.total_deleted_size + v.projects[i].target_size
            &&& done.deleted_count == v.deleted_count + 1
            &&& forall|j: int| 0 <= j < v.projects.len() && j != i ==> done.projects[j]
                == v.projects[j]
        }),
{
}

/// Deleting all, outside of a dry run: a removal that fails ends it, and
/// what was accounted for before stays accounted for; a removal that
/// succeeds is accounted for like a single one.
pub proof fn lemma_deleting_all_accounts_each(v: UiView, index: usize)
    requires
        v.wf(),
        v.pending == (Pending::All { index }),
        !v.dry_run,
    ensures
        v.finished(false).0.pending == Pending::Idle,
        v.finished(false).0.projects == v.projects,
        v.finished(false).0.total_deleted_size == v.total_deleted_size,
        v.finished(false).0.deleted_count == v.deleted_count,
        v.finished(true).0.projects == v.projects.update(
            index as int,
            cleaned(v.projects[index as int]),
        ),
        v.finished(true).0.total_deleted_size == v.total_deleted_size
            + v.projects[index as int].target_size,
        v.finished(true).0.deleted_count == v.deleted_count + 1,
{
}

/// What the projects together could free is the same whether it is summed
/// over the projects or over their views.
pub proof fn lemma_cleanable_total(projects: Seq<RustProject>)
    ensures
        total_cleanable_space(projects) == cleanable_total(project_views(projects)),
    decreases projects.len(),
{
    if projects.len() > 0 {
        lemma_cleanable_total(projects.drop_last());
        assert(project_views(projects).drop_last() =~= project_views(projects.drop_last()));
    }
}

impl View for InteractiveUI {
    type V = UiView;

    closed spec fn view(&self) -> UiView {
        UiView {
            projects: project_views(self.projects@),
            selected_index: self.selected_index as nat,
            total_deleted_size: self.total_deleted_size as nat,
            deleted_count: self.deleted_count as nat,
            pending: self.pending,
            dry_run: self.cli.dry_run,
        }
    }
}

impl InteractiveUI {
    /// The settings of the session.
    pub closed spec fn settings(&self) -> Cli {
        self.cli
    }

    /// What holds of every session that this module hands out.
    pub open spec fn wf(&self) -> bool {
        self@.wf()
    }

    /// A session with no projects yet.
    pub fn new(cli: Cli) -> (ui: Self)
        ensures
            ui.wf(),
            ui.settings() == cli,
            ui@ == (UiView {
                projects: Seq::<ProjectView>::empty(),
                selected_index: 0,
                total_deleted_size: 0,
                deleted_count: 0,
                pending: Pending::Idle,
                dry_run: cli.dry_run,
            }),
    {
        let ui = Self {
            cli,
            projects: Vec::new(),
            selected_index: 0,
            total_deleted_size: 0,
            deleted_count: 0,
            pending: Pending::Idle,
        };
        assert(project_views(ui.projects@) =~= Seq::<ProjectView>::empty());
        ui
    }

    /// The projects of the last scan, the deleted ones among them.
    pub fn projects(&self) -> (projects: &Vec<RustProject>)
        ensures
            project_views(projects@) == self@.projects,
    {
        &self.projects
    }

    /// The position of the cursor.
    pub fn selected_index(&self) -> (index: usize)
        ensures
            index == self@.selected_index,
    {
        self.selected_index
    }

    /// The bytes that were freed in this session.
    pub fn total_deleted_size(&self) -> (size: u64)
        ensures
            size == self@.total_deleted_size,
    {
        self.total_deleted_size
    }

    /// The number of projects that were cleaned in this session.
    pub fn deleted_count(&self) -> (count: usize)
        ensures
            count == self@.deleted_count,
    {
        self.deleted_count
    }

    /// Whether a removal is under way.
    pub fn is_deleting(&self) -> (deleting: bool)
        ensures
            deleting == (self@.pending != Pending::Idle),
    {
        match self.pending {
            Pending::Idle => false,
            _ => true,
        }
    }

    /// Whether the account of the removal under way fits the machine's
    /// numbers, as `removal_finished` needs it for a removal that
    /// succeeded.
    pub fn can_account(&self) -> (fits: bool)
        requires
            self.wf(),
        ensures
            fits == self@.accountable(),
    {
        if self.cli.dry_run {
            return true;
        }
        match self.pending {
            Pending::Idle => true,
            Pending::One { index } => self.account_fits(index),
            Pending::All { index } => self.account_fits(index),
        }
    }

    /// Whether the account with the project at `index` added fits.
    fn account_fits(&self, index: usize) -> (fits: bool)
        requires
            index < self.projects@.len(),
        ensures
            fits == self@.fits(index as int),
    {
        self.projects[index].target_size <= u64::MAX - self.total_deleted_size
            && self.deleted_count < usize::MAX
    }

    /// Takes over the projects of a scan: they replace the projects of the
    /// session, the cursor goes to the first, and no removal is under way.
    /// The account of what was deleted stays.
    pub fn refresh_projects(&mut self, projects: Vec<RustProject>)
        ensures
            final(self).wf(),
            final(self)@ == (UiView {
                projects: project_views(projects@),
                selected_index: 0,
                pending: Pending::Idle,
                ..old(self)@
            }),
            final(self).settings() == old(self).settings(),
    {
        self.projects = projects;
        self.selected_index = 0;
        self.pending = Pending::Idle;
        assert(self.projects.len() <= usize::MAX);
    }

    /// Moves the cursor one project up; it stays at the first.
    pub fn select_previous(&mut self)
        requires
            old(self).wf(),
        ensures
            final(self).wf(),
            final(self)@ == (UiView {
                selected_index: cursor_up(old(self)@.selected_index),
                ..old(self)@
            }),
            final(self).settings() == old(self).settings(),
    {
        if self.selected_index > 0 {
            self.selected_index -= 1;
        }
    }

    /// Moves the cursor one project down; it stays at the last, and where
    /// there are no projects.
    pub fn select_next(&mut self)
        requires
            old(self).wf(),
        ensures
            final(self).wf(),
            final(self)@ == (UiView {
                selected_index: cursor_down(
                    old(self)@.selected_index,
                    old(self)@.projects.len(),
                ),
                ..old(self)@
            }),
            final(self).settings() == old(self).settings(),
    {
        if self.projects.len() > 0 && self.selected_index < self.projects.len() - 1 {
            self.selected_index += 1;
        }
    }

    /// The command to remove the build output of the project at `index`.
    fn removal_of(&self, index: usize) -> (command: Command)
        requires
            index < self.projects@.len(),
            self.projects@[index as int].target_dir is Some,
        ensures
            command@ == self@.removal_command(index as int),
    {
        match &self.projects[index].target_dir {
            Some(path) => Command::Remove { path: path.clone(), dry_run: self.cli.dry_run },
            None => Command::Continue,
        }
    }

    /// Asks for the build output of the selected project to be removed.
    ///
    /// Where no removal is under way and the selected project has a
    /// build-output directory, the command is to remove that directory, and
    /// the removal is under way; otherwise nothing happens.
    pub fn delete_selected_project(&mut self) -> (command: Command)
        requires
            old(self).wf(),
        ensures
            final(self).wf(),
            final(self).settings() == old(self).settings(),
            (final(self)@, command@) == old(self)@.delete_selected(),
    {
        if self.is_deleting() || self.projects.len() == 0 {
            return Command::Continue;
        }
        let index = self.selected_index;
        if self.projects[index].target_dir.is_some() {
            let command = self.removal_of(index);
            self.pending = Pending::One { index };
            command
        } else {
            Command::Continue
        }
    }

    /// The position of the first project from `from` on that has a
    /// build-output directory.
    fn find_target(&self, from: usize) -> (index: usize)
        requires
            from <= self.projects@.len(),
        ensures
            index == next_target(self@.projects, from as int),
            from <= index <= self.projects@.len(),
            index < self.projects@.len() ==> self.projects@[index as int].target_dir is Some,
    {
        let mut k: usize = from;
        while k < self.projects.len() && self.projects[k].target_dir.is_none()
            invariant
                from <= k <= self.projects@.len(),
                next_target(project_views(self.projects@), k as int) == next_target(
                    project_views(self.projects@),
                    from as int,
                ),
            decreases self.projects.len() - k,
        {
            k = k + 1;
        }
        k
    }

    /// Asks for the build output of every project to be removed, one after
    /// the other, beginning with the first project that has a build-output
    /// directory. Where there is none, or a removal is under way, nothing
    /// happens.
    pub fn delete_all_projects(&mut self) -> (command: Command)
        requires
            old(self).wf(),
        ensures
            final(self).wf(),
            final(self).settings() == old(self).settings(),
            (final(self)@, command@) == old(self)@.delete_all(),
    {
        if self.is_deleting() {
            return Command::Continue;
        }
        let first = self.find_target(0);
        if first < self.projects.len() {
            let command = self.removal_of(first);
            self.pending = Pending::All { index: first };
            command
        } else {
            Command::Continue
        }
    }

    /// Accounts for the project at `index`, whose build output was
    /// removed, and marks it as cleaned.
    fn account_for(&mut self, index: usize)
        requires
            index < old(self).projects@.len(),
            old(self)@.fits(index as int),
        ensures
            final(self)@ == (UiView {
                projects: old(self)@.projects.update(
                    index as int,
                    cleaned(old(self)@.projects[index as int]),
                ),
                total_deleted_size: old(self)@.total_deleted_size
                    + old(self)@.projects[index as int].target_size,
                deleted_count: old(self)@.deleted_count + 1,
                ..old(self)@
            }),
            final(self).cli == old(self).cli,
    {
        let mut project = self.projects.remove(index);
        self.total_deleted_size += project.target_size;
        self.deleted_count += 1;
        project.target_dir = None;
        project.target_size = 0;
        project.build_artifacts = Vec::new();
        proof {
            assert(crate::project::artifact_views(project.build_artifacts@) =~= Seq::<
                ArtifactView,
            >::empty());
        }
        self.projects.insert(index, project);
        assert(project_views(self.projects@) =~= project_views(old(self).projects@).update(
            index as int,
            cleaned(old(self).projects@[index as int]@),
        ));
    }

    /// Takes note of how the removal under way ended, and says what is to
    /// be done next.
    ///
    /// A removal that failed, and one in a dry run, changes no project and
    /// no account. Any other leaves the project cleaned, adds the size of
    /// its build output to the bytes freed, and one to the projects
    /// cleaned. Deleting all goes on to the next project that has a
    /// build-output directory; a removal that failed ends it, and what was
    /// deleted before stays deleted and accounted for.
    pub fn removal_finished(&mut self, removed: bool) -> (command: Command)
        requires
            old(self).wf(),
            removed ==> old(self)@.accountable(),
        ensures
            final(self).wf(),
            final(self).settings() == old(self).settings(),
            (final(self)@, command@) == old(self)@.finished(removed),
    {
        proof {
            lemma_session_stays_well_formed(old(self)@, Key::Other, removed);
        }
        match self.pending {
            Pending::Idle => Command::Continue,
            Pending::One { index } => {
                self.pending = Pending::Idle;
                if removed && !self.cli.dry_run {
                    self.account_for(index);
                }
                Command::Continue
            },
            Pending::All { index } => {
                self.pending = Pending::Idle;
                assert(index < self.projects.len());
                if removed && !self.cli.dry_run {
                    self.account_for(index);
                }
                if !removed {
                    return Command::Continue;
                }
                proof {
                    lemma_next_target_same(old(self)@.projects, self@.projects, index as int + 1);
                }
                let next = self.find_target(index + 1);
                if next < self.projects.len() {
                    let command = self.removal_of(next);
                    self.pending = Pending::All { index: next };
                    command
                } else {
                    Command::Continue
                }
            },
        }
    }

    /// Acts on a key, and says what the caller is to do.
    pub fn handle_key_event(&mut self, key: Key) -> (command: Command)
        requires
            old(self).wf(),
        ensures
            final(self).wf(),
            final(self).settings() == old(self).settings(),
            (final(self)@, command@) == old(self)@.on_key(key),
    {
        if self.is_deleting() {
            return Command::Continue;
        }
        match key {
            Key::Esc => Command::Exit,
            Key::Up => {
                self.select_previous();
                Command::Continue
            },
            Key::Down => {
                self.select_next();
                Command::Continue
            },
            Key::Delete => self.delete_selected_project(),
            Key::Other => Command::Continue,
            Key::Char(c) => {
                if c == 'q' {
                    Command::Exit
                } else if c == 'k' {
                    self.select_previous();
                    Command::Continue
                } else if c == 'j' {
                    self.select_next();
                    Command::Continue
                } else if c == ' ' || c == 'D' {
                    self.delete_selected_project()
                } else if c == 'o' {
                    self.open_selected_project()
                } else if c == 'r' {
                    Command::Refresh
                } else if c == 'a' {
                    self.delete_all_projects()
                } else {
                    Command::Continue
                }
            },
        }
    }

    /// Asks for the directory of the selected project to be opened; nothing
    /// where there is no project.
    pub fn open_selected_project(&self) -> (command: Command)
        requires
            self.wf(),
        ensures
            command@ == self@.open_selected(),
    {
        if self.projects.len() > 0 {
            Command::Open { path: self.projects[self.selected_index].path.clone() }
        } else {
            Command::Continue
        }
    }
}

/// A whole number in decimal, with a minus sign where it is negative.
pub open spec fn signed_decimal(n: int) -> Seq<char> {
    if n < 0 {
        seq!['-'] + decimal((-n) as nat)
    } else {
        decimal(n as nat)
    }
}

/// How long ago a project was modified, in words.
pub open spec fn age_label(days: Option<int>) -> Seq<char> {
    match days {
        None => "Unknown"@,
        Some(d) => if d == 0 {
            "Today"@
        } else if d == 1 {
            "1 day ago"@
        } else {
            signed_decimal(d) + " days ago"@
        },
    }
}

/// The width to which the path of a project is cut in the list of a
/// session.
pub open spec fn path_width() -> nat {
    35
}

/// The line of a project in the list of a session: its name, its
/// cleanable total, its path as seen from `current_dir`, and how long ago
/// it was modified, each in its column.
pub open spec fn project_line(
    p: ProjectView,
    use_gb: bool,
    current_dir: Option<Seq<char>>,
    now: Timestamp,
) -> Seq<char> {
    padded(p.name, 25) + seq![' '] + padded(size_text(p.total_cleanable(), use_gb), 12) + seq![' ']
        + padded(truncated(relative_to(p.path, current_dir), path_width()), 35) + seq![' ']
        + padded(age_label(days_since(p.last_modified, now)), 15)
}

/// Whether the line of a project can be written: its cleanable total fits
/// 64 bits, and its path is short enough or is cut between two characters.
pub open spec fn lineable(p: ProjectView, current_dir: Option<Seq<char>>) -> bool {
    &&& p.total_cleanable() <= u64::MAX
    &&& encode_utf8(relative_to(p.path, current_dir)).len() > path_width() ==> is_char_boundary(
        encode_utf8(relative_to(p.path, current_dir)),
        cut_point(path_width()) as int,
    )
}

/// The keys of a session, in one line.
pub open spec fn key_help() -> Seq<char> {
    "↑↓/jk: navigate | space/del/D: delete | o: open | r: refresh | q: quit"@
}

/// The lines under the list of a session: the number of projects and what
/// they could free, the number of projects cleaned and what that freed,
/// and the keys.
pub open spec fn status_lines(v: UiView, use_gb: bool) -> Seq<Seq<char>> {
    seq![
        decimal(v.projects.len()) + " projects | "@ + size_text(
            cleanable_total(v.projects),
            use_gb,
        ) + " cleanable"@,
        decimal(v.deleted_count) + " deleted ("@ + size_text(v.total_deleted_size, use_gb) + ")"@,
        key_help(),
    ]
}

/// How long ago a project was modified, in words.
pub fn age_text(days: Option<i64>) -> (r: String)
    ensures
        r@ == age_label(
            match days {
                Some(d) => Some(d as int),
                None => None,
            },
        ),
{
    match days {
        None => "Unknown".to_owned(),
        Some(d) => {
            if d == 0 {
                "Today".to_owned()
            } else if d == 1 {
                "1 day ago".to_owned()
            } else {
                let mut r = String::new();
                proof {
                    reveal_strlit("-");
                }
                if d < 0 {
                    r.append("-");
                    let m: u128 = (-(d as i128)) as u128;
                    push_decimal(&mut r, m);
                } else {
                    push_decimal(&mut r, d as u128);
                }
                assert(r@ =~= signed_decimal(d as int));
                r.append(" days ago");
                r
            }
        },
    }
}

/// The line of a project in the list of a session.
pub fn project_line_text(
    p: &RustProject,
    use_gb: bool,
    current_dir: Option<&str>,
    now: &Timestamp,
) -> (line: String)
    requires
        lineable(p@, opt_str(current_dir)),
    ensures
        line@ == project_line(p@, use_gb, opt_str(current_dir), *now),
{
    let size = p.format_size(use_gb);
    let relative = get_relative_path(p.path.as_str(), current_dir);
    let shown = truncate_string(relative.as_str(), 35);
    let age = age_text(p.days_since_modified_at(now));
    let mut line = pad_right(p.name.as_str(), 25);
    proof {
        reveal_strlit(" ");
    }
    line.append(" ");
    line.append(pad_right(size.as_str(), 12).as_str());
    line.append(" ");
    line.append(pad_right(shown.as_str(), 35).as_str());
    line.append(" ");
    line.append(pad_right(age.as_str(), 15).as_str());
    assert(line@ =~= project_line(p@, use_gb, opt_str(current_dir), *now));
    line
}

impl InteractiveUI {
    /// Whether the lines under the list can be written: what the projects
    /// together could free fits 64 bits.
    pub open spec fn summable(&self) -> bool {
        cleanable_total(self@.projects) <= u64::MAX
    }

    /// Whether the lines under the list can be written.
    pub fn can_summarize(&self) -> (fits: bool)
        ensures
            fits == self.summable(),
    {
        let mut total: u64 = 0;
        let mut k: usize = 0;
        proof {
            lemma_cleanable_total(self.projects@);
        }
        assert(self.projects@.take(0) =~= Seq::<RustProject>::empty());
        while k < self.projects.len()
            invariant
                k <= self.projects.len(),
                total == total_cleanable_space(self.projects@.take(k as int)),
                total_cleanable_space(self.projects@) == cleanable_total(self@.projects),
            decreases self.projects.len() - k,
        {
            proof {
                lemma_total_cleanable_space(self.projects@, k as int);
            }
            let p = &self.projects[k];
            if p.cargo_cache_size > u64::MAX - p.target_size {
                return false;
            }
            let size = p.target_size + p.cargo_cache_size;
            if size > u64::MAX - total {
                return false;
            }
            total = total + size;
            k = k + 1;
        }
        assert(self.projects@.take(k as int) =~= self.projects@);
        true
    }

    /// The lines under the list of the session.
    pub fn status_text(&self) -> (lines: Vec<String>)
        requires
            self.summable(),
        ensures
            crate::text::string_texts(lines@) == status_lines(self@, self.settings().gb),
    {
        let use_gb = self.cli.gb;
        proof {
            lemma_cleanable_total(self.projects@);
        }
        let total = sum_cleanable(&self.projects);
        let mut first = String::new();
        push_decimal(&mut first, self.projects.len() as u128);
        first.append(" projects | ");
        first.append(format_size(total, use_gb).as_str());
        first.append(" cleanable");
        let mut second = String::new();
        push_decimal(&mut second, self.deleted_count as u128);
        second.append(" deleted (");
        second.append(format_size(self.total_deleted_size, use_gb).as_str());
        second.append(")");
        let third =
            "↑↓/jk: navigate | space/del/D: delete | o: open | r: refresh | q: quit".to_owned();
        let mut lines: Vec<String> = Vec::new();
        lines.push(first);
        lines.push(second);
        lines.push(third);
        assert(crate::text::string_texts(lines@) =~= status_lines(self@, use_gb));
        lines
    }
}


} // verus!
