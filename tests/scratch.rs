use testkit::scratch::{
    deletion_for, is_plain_context_id, is_valid_base_path, join_path, prepare_step, removal_for, target_dir,
    unique_dir_name, EntryKind, FileDeletion, Isolation, PrepareStep, Removal, ScratchDir,
};

#[test]
fn scenario_per_caller_directory() {
    let mut h = ScratchDir::open(b"scratch", b"alpha", b"ThreadId(7)", Isolation::PerCaller);
    assert_eq!(h.root(), b"scratch/alpha-ThreadId(7)");
    assert_eq!(h.file_path(b"a.txt"), b"scratch/alpha-ThreadId(7)/a.txt".to_vec());
    assert!(h.cleanup_on_release());
    assert!(!h.is_released());
    assert!(h.release());
    assert!(h.is_released());
}

#[test]
fn distinct_contexts_get_distinct_dirs() {
    let a = target_dir(b"scratch", b"alpha", b"ThreadId(2)", Isolation::PerCaller);
    let b = target_dir(b"scratch", b"alpha", b"ThreadId(3)", Isolation::PerCaller);
    assert_ne!(a, b);
}

#[test]
fn same_context_reuses_dir() {
    let a = target_dir(b"scratch", b"alpha", b"ThreadId(2)", Isolation::PerCaller);
    let b = target_dir(b"scratch", b"alpha", b"ThreadId(2)", Isolation::PerCaller);
    assert_eq!(a, b);
}

#[test]
fn shared_handles_use_the_base_itself() {
    let a = ScratchDir::open(b"test_dir.tmp", b"one", b"ThreadId(2)", Isolation::Shared);
    let b = ScratchDir::open(b"test_dir.tmp", b"two", b"ThreadId(9)", Isolation::Shared);
    assert_eq!(a.root(), b"test_dir.tmp");
    assert_eq!(a.root(), b.root());
}

#[test]
fn roots_and_empty_paths_are_rejected() {
    assert!(!is_valid_base_path(b"/"));
    assert!(!is_valid_base_path(b"///"));
    assert!(!is_valid_base_path(b""));
    assert!(is_valid_base_path(b"scratch"));
    assert!(is_valid_base_path(b"/tmp"));
    assert!(is_valid_base_path(b"test_dir.tmp/"));
}

#[test]
fn join_adds_one_separator() {
    assert_eq!(join_path(b"dir", b"f"), b"dir/f".to_vec());
    assert_eq!(join_path(b"dir/", b"f"), b"dir/f".to_vec());
    assert_eq!(join_path(b"/", b"f"), b"/f".to_vec());
    assert_eq!(join_path(b"", b"f"), b"f".to_vec());
}

#[test]
fn unique_name_joins_label_and_context() {
    assert_eq!(unique_dir_name(b"test_testdirutils_new", b"ThreadId(1)"), b"test_testdirutils_new-ThreadId(1)".to_vec());
    assert_eq!(unique_dir_name(b"", b""), b"-".to_vec());
}

#[test]
fn prepare_steps_by_entry() {
    assert_eq!(prepare_step(EntryKind::Missing), PrepareStep::Create);
    assert_eq!(prepare_step(EntryKind::File), PrepareStep::ReplaceWithDirectory);
    assert_eq!(prepare_step(EntryKind::Symlink), PrepareStep::ReplaceWithDirectory);
    assert_eq!(prepare_step(EntryKind::Directory), PrepareStep::UseExisting);
    assert_eq!(prepare_step(EntryKind::Other), PrepareStep::Create);
}

#[test]
fn removals_by_entry() {
    assert_eq!(removal_for(EntryKind::Missing), None);
    assert_eq!(removal_for(EntryKind::File), Some(Removal::RemoveEntry));
    assert_eq!(removal_for(EntryKind::Symlink), Some(Removal::RemoveEntry));
    assert_eq!(removal_for(EntryKind::Other), Some(Removal::RemoveEntry));
    assert_eq!(removal_for(EntryKind::Directory), Some(Removal::RemoveTree));
}

#[test]
fn release_acts_once() {
    let mut h = ScratchDir::open(b"scratch", b"beta", b"c1", Isolation::PerCaller);
    assert!(h.release());
    assert!(!h.release());
    assert_eq!(h.root(), b"scratch/beta-c1");
}

#[test]
fn release_without_cleanup_keeps_dir() {
    let mut h = ScratchDir::open(b"scratch", b"gamma", b"c1", Isolation::PerCaller);
    h.set_cleanup_on_release(false);
    assert!(!h.cleanup_on_release());
    assert!(!h.release());
    assert!(h.is_released());
}

#[test]
fn files_under_distinct_contexts_differ() {
    let a = ScratchDir::open(b"scratch", b"alpha", b"ThreadId(2)", Isolation::PerCaller);
    let b = ScratchDir::open(b"scratch", b"alpha", b"ThreadId(3)", Isolation::PerCaller);
    assert_ne!(a.file_path(b"a.txt"), b.file_path(b"a.txt"));
    assert_eq!(b.file_path(b"a.txt"), b"scratch/alpha-ThreadId(3)/a.txt".to_vec());
}

#[test]
fn dot_roots_are_rejected() {
    assert!(!is_valid_base_path(b"/."));
    assert!(!is_valid_base_path(b"/./"));
    assert!(!is_valid_base_path(b"/.."));
    assert!(!is_valid_base_path(b"/./../."));
    assert!(!is_valid_base_path(b"."));
    assert!(!is_valid_base_path(b".."));
    assert!(!is_valid_base_path(b"./"));
}

#[test]
fn named_components_are_accepted() {
    assert!(is_valid_base_path(b"/.x"));
    assert!(is_valid_base_path(b"/..."));
    assert!(is_valid_base_path(b"./scratch"));
    assert!(is_valid_base_path(b"/tmp/."));
    assert!(is_valid_base_path(b"a/.."));
}

#[test]
fn thread_ids_of_different_lengths_do_not_share_files() {
    let a = ScratchDir::open(b"scratch", b"alpha", b"ThreadId(9)", Isolation::PerCaller);
    let b = ScratchDir::open(b"scratch", b"alpha", b"ThreadId(10)", Isolation::PerCaller);
    assert_ne!(a.root(), b.root());
    assert_ne!(a.file_path(b"x"), b.file_path(b"x"));
    assert_ne!(a.file_path(b"0)"), b.root().to_vec());
}

#[test]
fn deleting_one_file_by_entry() {
    assert_eq!(deletion_for(EntryKind::Missing), FileDeletion::AlreadyAbsent);
    assert_eq!(deletion_for(EntryKind::File), FileDeletion::RemoveEntry);
    assert_eq!(deletion_for(EntryKind::Symlink), FileDeletion::RemoveEntry);
    assert_eq!(deletion_for(EntryKind::Other), FileDeletion::RemoveEntry);
    assert_eq!(deletion_for(EntryKind::Directory), FileDeletion::IsDirectory);
}

#[test]
fn context_ids_with_separators_are_refused() {
    assert!(is_plain_context_id(b"ThreadId(10)"));
    assert!(is_plain_context_id(b""));
    assert!(!is_plain_context_id(b"x/y"));
    assert!(!is_plain_context_id(b"/"));
}
