//! The controller of a session over folders that were found by name: the
//! folders, the cursor, and the account of what was deleted. A folder that
//! is deleted leaves the list. Removing the folders is the caller's, who
//! reports back how each removal ended.

use vstd::prelude::*;
use crate::search::{folder_views, Folder, FolderView};

verus! {

/// What a session over folders is doing.
#[derive(Debug, Clone, Copy, PartialEq, Eq, Structural)]
pub enum Phase {
    /// Nothing.
    Idle,
    /// The folder at `index` is being removed.
    Deleting { index: usize },
    /// The last removal failed, and the failure is shown until it is
    /// acknowledged.
    Error,
}

/// The controller of a session over folders.
pub struct FolderList {
    folders: Vec<Folder>,
    selected_index: usize,
    total_deleted_size: usize,
    deleted_count: usize,
    phase: Phase,
    dry_run: bool,
}

/// The state of a session over folders as plain values.
pub struct FolderListView {
    pub folders: Seq<FolderView>,
    pub selected_index: nat,
    pub total_deleted_size: nat,
    pub deleted_count: nat,
    pub phase: Phase,
    pub dry_run: bool,
}

/// The bytes of a folder that count when it is deleted: nothing where
/// they could not be counted.
pub open spec fn counted_bytes(folder: FolderView) -> nat {
    match folder.size {
        Some(n) => n as nat,
        None => 0,
    }
}

/// The cursor, kept on a list of `len` folders: on the last folder where
/// it was behind it, and at 0 where there is no folder.
pub open spec fn kept_on(selected: nat, len: nat) -> nat {
    if len == 0 {
        0
    } else if selected >= len {
        (len - 1) as nat
    } else {
        selected
    }
}

impl FolderListView {
    /// The cursor is on a folder, or at 0 where there is none; the folder
    /// that is being removed is marked so.
    pub open spec fn wf(self) -> bool {
        &&& self.selected_index == kept_on(self.selected_index, self.folders.len())
        &&& self.phase matches Phase::Deleting { index } ==> index < self.folders.len()
            && self.folders[index as int].deleting
    }

    /// The account of the removal under way fits a machine word. It always
    /// does in a dry run, where nothing is accounted for.
    pub open spec fn accountable(self) -> bool {
        self.phase matches Phase::Deleting { index } ==> self.dry_run || (self.total_deleted_size
            + counted_bytes(self.folders[index as int]) <= usize::MAX && self.deleted_count + 1
            <= usize::MAX)
    }

    /// Whether the folder at `index` is shown: a folder that is being
    /// deleted is not.
    pub open spec fn shows(self, index: int) -> bool {
        0 <= index < self.folders.len() && !self.folders[index].deleting
    }

    /// The session with the cursor one folder up.
    pub open spec fn previous(self) -> FolderListView {
        FolderListView {
            selected_index: if self.selected_index > 0 {
                (self.selected_index - 1) as nat
            } else {
                self.selected_index
            },
            ..self
        }
    }

    /// The session with the cursor one folder down.
    pub open spec fn next(self) -> FolderListView {
        FolderListView {
            selected_index: if self.folders.len() > 0 && self.selected_index
                < self.folders.len() - 1 {
                self.selected_index + 1
            } else {
                self.selected_index
            },
            ..self
        }
    }

    /// What asking to delete the selected folder comes to: where the
    /// session is idle and the selected folder is shown, the folder is
    /// marked as being deleted and its path is handed out for removal;
    /// otherwise nothing changes.
    pub open spec fn delete_selected(self) -> (FolderListView, Option<Seq<char>>) {
        let index = self.selected_index as int;
        if self.phase == Phase::Idle && self.shows(index) {
            (
                FolderListView {
                    folders: self.folders.update(
                        index,
                        FolderView { deleting: true, ..self.folders[index] },
                    ),
                    phase: Phase::Deleting { index: index as usize },
                    ..self
                },
                Some(self.folders[index].path),
            )
        } else {
            (self, None)
        }
    }

    /// The session after the removal under way ended. A removal that
    /// failed leaves the folder in the list, shown again, and the failure
    /// is shown. A removal in a dry run leaves the folder in the list, and
    /// changes no account. Any other removal takes the folder off the
    /// list, and adds its bytes to the bytes freed and one to the folders
    /// cleaned; the cursor stays on the list.
    pub open spec fn finished(self, removed: bool) -> FolderListView {
        match self.phase {
            Phase::Deleting { index } => {
                let shown_again = self.folders.update(
                    index as int,
                    FolderView { deleting: false, ..self.folders[index as int] },
                );
                if !removed {
                    FolderListView { folders: shown_again, phase: Phase::Error, ..self }
                } else if self.dry_run {
                    FolderListView { folders: shown_again, phase: Phase::Idle, ..self }
                } else {
                    FolderListView {
                        folders: self.folders.remove(index as int),
                        selected_index: kept_on(
                            self.selected_index,
                            (self.folders.len() - 1) as nat,
                        ),
                        total_deleted_size: self.total_deleted_size + counted_bytes(
                            self.folders[index as int],
                        ),
                        deleted_count: self.deleted_count + 1,
                        phase: Phase::Idle,
                        dry_run: self.dry_run,
                    }
                }
            },
            _ => self,
        }
    }

    /// The session after a failure was acknowledged.
    pub open spec fn acknowledged(self) -> FolderListView {
        if self.phase == Phase::Error {
            FolderListView { phase: Phase::Idle, ..self }
        } else {
            self
        }
    }
}

/// The law of the account: a removal that ends in a dry run, or fails,
/// takes no folder off the list and changes no account; any other takes
/// exactly the folder that was being removed off the list and adds its
/// bytes to the bytes freed.
pub proof fn lemma_finished_accounts(s: FolderListView, removed: bool)
    requires
        s.wf(),
    ensures
        s.finished(removed).wf(),
        s.dry_run || !removed || !(s.phase is Deleting) ==> {
            &&& s.finished(removed).folders.len() == s.folders.len()
            &&& s.finished(removed).total_deleted_size == s.total_deleted_size
            &&& s.finished(removed).deleted_count == s.deleted_count
        },
        !s.dry_run && removed && s.phase is Deleting ==> {
            &&& s.finished(removed).folders.len() == s.folders.len() - 1
            &&& s.finished(removed).total_deleted_size == s.total_deleted_size + counted_bytes(
                s.folders[s.phase->index as int],
            )
            &&& s.finished(removed).deleted_count == s.deleted_count + 1
        },
{
}

impl View for FolderList {
    type V = FolderListView;

    closed spec fn view(&self) -> FolderListView {
        FolderListView {
            folders: folder_views(self.folders@),
            selected_index: self.selected_index as nat,
            total_deleted_size: self.total_deleted_size as nat,
            deleted_count: self.deleted_count as nat,
            phase: self.phase,
            dry_run: self.dry_run,
        }
    }
}

impl FolderList {
    /// What holds of every session that this module hands out.
    pub open spec fn wf(&self) -> bool {
        self@.wf()
    }

    /// A session over the folders that a search found.
    pub fn new(folders: Vec<Folder>, dry_run: bool) -> (list: FolderList)
        ensures
            list.wf(),
            list@ == (FolderListView {
                folders: folder_views(folders@),
                selected_index: 0,
                total_deleted_size: 0,
                deleted_count: 0,
                phase: Phase::Idle,
                dry_run,
            }),
    {
        FolderList {
            folders,
            selected_index: 0,
            total_deleted_size: 0,
            deleted_count: 0,
            phase: Phase::Idle,
            dry_run,
        }
    }

    /// The folders of the session, those being deleted among them.
    pub fn folders(&self) -> (folders: &Vec<Folder>)
        ensures
            folder_views(folders@) == self@.folders,
    {
        &self.folders
    }

    /// The position of the cursor.
    pub fn selected_index(&self) -> (index: usize)
        ensures
            index == self@.selected_index,
    {
        self.selected_index
    }

    /// The bytes that were freed in this session.
    pub fn total_deleted_size(&self) -> (size: usize)
        ensures
            size == self@.total_deleted_size,
    {
        self.total_deleted_size
    }

    /// The number of folders that were deleted in this session.
    pub fn deleted_count(&self) -> (count: usize)
        ensures
            count == self@.deleted_count,
    {
        self.deleted_count
    }

    /// What the session is doing.
    pub fn phase(&self) -> (phase: Phase)
        ensures
            phase == self@.phase,
    {
        self.phase
    }

    /// Whether the folder at `index` is shown.
    pub fn is_shown(&self, index: usize) -> (shown: bool)
        ensures
            shown == self@.shows(index as int),
    {
        index < self.folders.len() && !self.folders[index].deleting
    }

    /// Whether the account of the removal under way fits a machine word,
    /// as `deletion_finished` needs it for a removal that succeeded.
    pub fn can_account(&self) -> (fits: bool)
        requires
            self.wf(),
        ensures
            fits == self@.accountable(),
    {
        match self.phase {
            Phase::Deleting { index } => {
                if self.dry_run {
                    true
                } else {
                    let bytes: usize = match self.folders[index].size {
                        Some(n) => n,
                        None => 0,
                    };
                    bytes <= usize::MAX - self.total_deleted_size && self.deleted_count
                        < usize::MAX
                }
            },
            _ => true,
        }
    }

    /// Moves the cursor one folder up; it stays at the first.
    pub fn select_previous(&mut self)
        requires
            old(self).wf(),
        ensures
            final(self).wf(),
            final(self)@ == old(self)@.previous(),
    {
        if self.selected_index > 0 {
            self.selected_index -= 1;
        }
    }

    /// Moves the cursor one folder down; it stays at the last.
    pub fn select_next(&mut self)
        requires
            old(self).wf(),
        ensures
            final(self).wf(),
            final(self)@ == old(self)@.next(),
    {
        if self.folders.len() > 0 && self.selected_index < self.folders.len() - 1 {
            self.selected_index += 1;
        }
    }

    /// Puts the mark of being deleted on the folder at `index`, or takes
    /// it off.
    fn mark(&mut self, index: usize, deleting: bool)
        requires
            index < old(self).folders@.len(),
        ensures
            folder_views(final(self).folders@) == folder_views(old(self).folders@).update(
                index as int,
                FolderView { deleting, ..folder_views(old(self).folders@)[index as int] },
            ),
            final(self).selected_index == old(self).selected_index,
            final(self).total_deleted_size == old(self).total_deleted_size,
            final(self).deleted_count == old(self).deleted_count,
            final(self).phase == old(self).phase,
            final(self).dry_run == old(self).dry_run,
    {
        let mut folder = self.folders.remove(index);
        folder.deleting = deleting;
        self.folders.insert(index, folder);
        assert(folder_views(self.folders@) =~= folder_views(old(self).folders@).update(
            index as int,
            FolderView { deleting, ..folder_views(old(self).folders@)[index as int] },
        ));
    }

    /// Asks for the selected folder to be deleted, and hands out its path
    /// where it is to be removed.
    pub fn delete_selected(&mut self) -> (path: Option<String>)
        requires
            old(self).wf(),
        ensures
            final(self).wf(),
            (final(self)@, crate::text::opt_text(path)) == old(self)@.delete_selected(),
    {
        let index = self.selected_index;
        let idle = match self.phase {
            Phase::Idle => true,
            _ => false,
        };
        if idle && self.is_shown(index) {
            let path = self.folders[index].path.clone();
            self.mark(index, true);
            self.phase = Phase::Deleting { index };
            Some(path)
        } else {
            None
        }
    }

    /// Takes note of how the removal under way ended.
    pub fn deletion_finished(&mut self, removed: bool)
        requires
            old(self).wf(),
            removed ==> old(self)@.accountable(),
        ensures
            final(self).wf(),
            final(self)@ == old(self)@.finished(removed),
    {
        proof {
            lemma_finished_accounts(old(self)@, removed);
        }
        match self.phase {
            Phase::Deleting { index } => {
                if !removed {
                    self.mark(index, false);
                    self.phase = Phase::Error;
                } else if self.dry_run {
                    self.mark(index, false);
                    self.phase = Phase::Idle;
                } else {
                    let ghost before = folder_views(self.folders@);
                    let folder = self.folders.remove(index);
                    assert(folder_views(self.folders@) =~= before.remove(index as int));
                    let bytes: usize = match folder.size {
                        Some(n) => n,
                        None => 0,
                    };
                    self.total_deleted_size += bytes;
                    self.deleted_count += 1;
                    let len = self.folders.len();
                    if len == 0 {
                        self.selected_index = 0;
                    } else if self.selected_index >= len {
                        self.selected_index = len - 1;
                    }
                    self.phase = Phase::Idle;
                }
            },
            _ => {},
        }
    }

    /// Acknowledges a failure that is shown: the session is idle again.
    pub fn acknowledge(&mut self)
        requires
            old(self).wf(),
        ensures
            final(self).wf(),
            final(self)@ == old(self)@.acknowledged(),
    {
        match self.phase {
            Phase::Error => {
                self.phase = Phase::Idle;
            },
            _ => {},
        }
    }
}

} // verus!
