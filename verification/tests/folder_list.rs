use rskiller::folder_list::{FolderList, Phase};
use rskiller::search::Folder;

fn folder(path: &str, size: Option<usize>) -> Folder {
    Folder { path: path.to_string(), size, deleting: false }
}

fn list(dry_run: bool) -> FolderList {
    FolderList::new(
        vec![folder("/a/target", Some(100)), folder("/b/target", None), folder("/c/target", Some(7))],
        dry_run,
    )
}

fn paths(list: &FolderList) -> Vec<&str> {
    list.folders().iter().map(|f| f.path.as_str()).collect()
}

#[test]
fn a_folder_session_begins_idle() {
    let session = list(false);
    assert_eq!(session.phase(), Phase::Idle);
    assert_eq!(session.selected_index(), 0);
    assert_eq!(session.total_deleted_size(), 0);
    assert_eq!(session.deleted_count(), 0);
    assert!(session.is_shown(0) && session.is_shown(1) && session.is_shown(2));
    assert!(!session.is_shown(3));
}

#[test]
fn the_folder_cursor_stays_on_the_list() {
    let mut session = list(false);
    session.select_previous();
    assert_eq!(session.selected_index(), 0);
    session.select_next();
    session.select_next();
    session.select_next();
    assert_eq!(session.selected_index(), 2);
    session.select_previous();
    assert_eq!(session.selected_index(), 1);
    let mut empty = FolderList::new(Vec::new(), false);
    empty.select_next();
    assert_eq!(empty.selected_index(), 0);
    assert_eq!(empty.delete_selected(), None);
    assert_eq!(empty.phase(), Phase::Idle);
}

#[test]
fn a_folder_that_is_being_deleted_is_not_shown() {
    let mut session = list(false);
    session.select_next();
    assert_eq!(session.delete_selected(), Some("/b/target".to_string()));
    assert_eq!(session.phase(), Phase::Deleting { index: 1 });
    assert!(!session.is_shown(1));
    assert!(session.folders()[1].deleting);
    assert!(session.is_shown(0));
    // One removal at a time.
    session.select_previous();
    assert_eq!(session.delete_selected(), None);
    assert_eq!(session.phase(), Phase::Deleting { index: 1 });
}

#[test]
fn a_deleted_folder_leaves_the_list() {
    let mut session = list(false);
    assert_eq!(session.delete_selected(), Some("/a/target".to_string()));
    assert!(session.can_account());
    session.deletion_finished(true);
    assert_eq!(session.phase(), Phase::Idle);
    assert_eq!(paths(&session), vec!["/b/target", "/c/target"]);
    assert_eq!(session.total_deleted_size(), 100);
    assert_eq!(session.deleted_count(), 1);
    assert_eq!(session.selected_index(), 0);
    // A folder without a size counts nothing.
    assert_eq!(session.delete_selected(), Some("/b/target".to_string()));
    session.deletion_finished(true);
    assert_eq!(session.total_deleted_size(), 100);
    assert_eq!(session.deleted_count(), 2);
    assert_eq!(session.delete_selected(), Some("/c/target".to_string()));
    session.deletion_finished(true);
    assert_eq!(session.total_deleted_size(), 107);
    assert_eq!(session.deleted_count(), 3);
    assert!(session.folders().is_empty());
    assert_eq!(session.delete_selected(), None);
}

#[test]
fn the_cursor_follows_the_end_of_the_list() {
    let mut session = list(false);
    session.select_next();
    session.select_next();
    assert_eq!(session.delete_selected(), Some("/c/target".to_string()));
    session.deletion_finished(true);
    assert_eq!(session.selected_index(), 1);
    assert_eq!(paths(&session), vec!["/a/target", "/b/target"]);
}

#[test]
fn a_dry_run_keeps_every_folder() {
    let mut session = list(true);
    assert_eq!(session.delete_selected(), Some("/a/target".to_string()));
    assert!(session.can_account());
    session.deletion_finished(true);
    assert_eq!(session.phase(), Phase::Idle);
    assert_eq!(paths(&session), vec!["/a/target", "/b/target", "/c/target"]);
    assert!(session.is_shown(0));
    assert_eq!(session.total_deleted_size(), 0);
    assert_eq!(session.deleted_count(), 0);
}

#[test]
fn a_failure_is_shown_until_it_is_acknowledged() {
    let mut session = list(false);
    assert_eq!(session.delete_selected(), Some("/a/target".to_string()));
    session.deletion_finished(false);
    assert_eq!(session.phase(), Phase::Error);
    assert_eq!(paths(&session), vec!["/a/target", "/b/target", "/c/target"]);
    assert!(session.is_shown(0));
    assert_eq!(session.deleted_count(), 0);
    // Nothing is deleted while the failure is shown.
    assert_eq!(session.delete_selected(), None);
    session.acknowledge();
    assert_eq!(session.phase(), Phase::Idle);
    assert_eq!(session.delete_selected(), Some("/a/target".to_string()));
    // A report without a removal under way changes nothing.
    let mut idle = list(false);
    idle.deletion_finished(true);
    idle.acknowledge();
    assert_eq!(idle.phase(), Phase::Idle);
    assert_eq!(idle.folders().len(), 3);
}

#[test]
fn a_folder_account_that_does_not_fit_is_told() {
    let mut session =
        FolderList::new(vec![folder("/a", Some(usize::MAX)), folder("/b", Some(1))], false);
    session.delete_selected();
    assert!(session.can_account());
    session.deletion_finished(true);
    assert_eq!(session.total_deleted_size(), usize::MAX);
    session.delete_selected();
    assert!(!session.can_account());
}

#[test]
fn a_failed_folder_removal_needs_no_room_in_the_account() {
    let mut session =
        FolderList::new(vec![folder("/a", Some(usize::MAX)), folder("/b", Some(1))], false);
    session.delete_selected();
    session.deletion_finished(true);
    session.delete_selected();
    assert!(!session.can_account());
    session.deletion_finished(false);
    assert_eq!(session.phase(), Phase::Error);
    assert_eq!(session.total_deleted_size(), usize::MAX);
    assert_eq!(session.folders().len(), 1);
}
