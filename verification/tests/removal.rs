use felix_state::error::FxError;
use felix_state::item::{FileType, ItemInfo};
use felix_state::layout::{Colorname, ConfigColor};
use felix_state::op::{OpKind, RenamedFile};
use felix_state::path::FilePath;
use felix_state::remove::{trash_name_at, DirStep, FileStep, Removal, RemovalStep};
use felix_state::session::{Session, SortKey};
use felix_state::state::{Startup, State};
use felix_state::tree::{
    progress_bar, TreeCopy, TreeStep, TreeWalk, WalkEntry, WalkEvent, PUT_BAR, REMOVE_BAR,
};

const STAMP: i64 = 1_660_000_000;

fn path(text: &str) -> FilePath {
    FilePath::from_bytes(text.as_bytes())
}

fn item(name: &str, file_type: FileType) -> ItemInfo {
    ItemInfo {
        file_type,
        file_name: name.to_string(),
        file_path: path("/home").join_name(name),
        symlink_dir_path: None,
        file_size: 7,
        file_ext: None,
        modified: None,
        is_hidden: false,
        selected: true,
    }
}

fn state() -> State {
    let start = Startup {
        default: Some("nvim".to_string()),
        commands: None,
        use_full_width: None,
        item_name_length: None,
        color: ConfigColor {
            dir_fg: Colorname::Blue,
            file_fg: Colorname::White,
            symlink_fg: Colorname::Green,
        },
        session: Session {
            sort_by: SortKey::Name,
            show_hidden: false,
        },
        column: 80,
        row: 24,
        has_chafa: false,
        term: None,
        editor: None,
        rust_log: None,
    };
    let mut state = State::new(start, |_, _, _| (33, 30)).unwrap();
    state.current_dir = path("/home");
    state.trash_dir = path("/trash");
    state
}

fn failed() -> WalkEvent {
    WalkEvent::Did(Err(FxError::Io("no".to_string())))
}

fn ok() -> WalkEvent {
    WalkEvent::Did(Ok(()))
}

fn entry(text: &str, name: &str, is_dir: bool) -> WalkEvent {
    WalkEvent::Entry(WalkEntry {
        path: path(text),
        name: name.as_bytes().to_vec(),
        is_dir,
    })
}

/// Lets a removal go on through events, at a fixed time.
fn go(
    state: &mut State,
    targets: &[ItemInfo],
    new_op: bool,
    mut removal: Removal,
    events: Vec<WalkEvent>,
) -> Removal {
    for event in events {
        removal = state.removal_next_at(targets, new_op, removal, event, STAMP);
    }
    removal
}

#[test]
fn name_in_the_trash() {
    assert_eq!(trash_name_at(STAMP, "a.txt"), "1660000000_a.txt");
    assert_eq!(trash_name_at(-5, ""), "-5_");
}

#[test]
fn file_is_copied_registered_and_removed() {
    let mut state = state();
    state.registered = vec![item("old", FileType::File)];
    let targets = [item("a.txt", FileType::File)];
    let removal = state.remove_and_yank(&targets, true);
    assert!(state.registered.is_empty());
    assert!(matches!(removal.step, RemovalStep::Begin { at: 0 }));
    let removal = go(&mut state, &targets, true, removal, vec![WalkEvent::Exists(true)]);
    match &removal.step {
        RemovalStep::File {
            at: 0,
            file: FileStep::Copy { to, name },
        } => {
            assert_eq!(*to, path("/trash/1660000000_a.txt"));
            assert_eq!(name, "1660000000_a.txt");
        }
        _ => panic!(),
    }
    assert!(state.registered.is_empty());
    let removal = go(&mut state, &targets, true, removal, vec![ok()]);
    match &removal.step {
        RemovalStep::File {
            at: 0,
            file: FileStep::Remove { to },
        } => assert_eq!(*to, path("/trash/1660000000_a.txt")),
        _ => panic!(),
    }
    assert_eq!(
        state.registered,
        vec![ItemInfo {
            file_name: "1660000000_a.txt".to_string(),
            file_path: path("/trash/1660000000_a.txt"),
            selected: false,
            ..item("a.txt", FileType::File)
        }]
    );
    assert!(state.operations.op_list.is_empty());
    let removal = go(&mut state, &targets, true, removal, vec![ok()]);
    assert!(matches!(removal.step, RemovalStep::Done(Ok(()))));
    match &state.operations.op_list[..] {
        [OpKind::Delete(op)] => {
            assert_eq!(op.trash, vec![path("/trash/1660000000_a.txt")]);
            assert_eq!(op.original, targets);
            assert_eq!(op.dir, path("/home"));
        }
        _ => panic!(),
    }
}

#[test]
fn file_that_cannot_be_copied_is_kept() {
    let mut state = state();
    let targets = [item("a", FileType::File), item("b", FileType::File)];
    let removal = state.remove_and_yank(&targets, true);
    let events = vec![WalkEvent::Exists(true), failed()];
    let removal = go(&mut state, &targets, true, removal, events);
    match &removal.step {
        RemovalStep::Done(outcome) => {
            assert_eq!(*outcome, Err(FxError::PutItem(path("/home/a"))))
        }
        _ => panic!(),
    }
    assert!(state.registered.is_empty());
    assert!(state.operations.op_list.is_empty());
    let removal = go(&mut state, &targets, true, removal, vec![ok()]);
    assert!(matches!(removal.step, RemovalStep::Done(Err(_))));
}

#[test]
fn file_that_cannot_be_removed_is_reported() {
    let mut state = state();
    let targets = [item("a", FileType::File)];
    let removal = state.remove_and_yank(&targets, true);
    let events = vec![WalkEvent::Exists(true), ok(), failed()];
    let removal = go(&mut state, &targets, true, removal, events);
    match removal.step {
        RemovalStep::Done(outcome) => {
            assert_eq!(outcome, Err(FxError::RemoveItem(path("/home/a"))))
        }
        _ => panic!(),
    }
    assert_eq!(state.registered.len(), 1);
    assert!(state.operations.op_list.is_empty());
}

#[test]
fn link_that_leads_nowhere_is_moved_and_registered() {
    let mut state = state();
    let targets = [item("l", FileType::Symlink)];
    let removal = state.remove_and_yank(&targets, true);
    let removal = go(&mut state, &targets, true, removal, vec![WalkEvent::Exists(false)]);
    match &removal.step {
        RemovalStep::File {
            at: 0,
            file: FileStep::MoveLink { to, name },
        } => {
            assert_eq!(*to, path("/trash/1660000000_l"));
            assert_eq!(name, "1660000000_l");
        }
        _ => panic!(),
    }
    assert!(state.registered.is_empty());
    let removal = go(&mut state, &targets, true, removal, vec![ok()]);
    assert!(matches!(removal.step, RemovalStep::Done(Ok(()))));
    assert_eq!(
        state.registered,
        vec![ItemInfo {
            file_name: "1660000000_l".to_string(),
            file_path: path("/trash/1660000000_l"),
            selected: false,
            ..item("l", FileType::Symlink)
        }]
    );
    match &state.operations.op_list[..] {
        [OpKind::Delete(op)] => assert_eq!(op.trash, vec![path("/trash/1660000000_l")]),
        _ => panic!(),
    }
}

#[test]
fn link_that_cannot_be_moved_is_kept_and_reported() {
    let mut state = state();
    let targets = [item("l", FileType::Symlink)];
    let removal = state.remove_and_yank(&targets, true);
    let events = vec![WalkEvent::Exists(false), failed()];
    match go(&mut state, &targets, true, removal, events).step {
        RemovalStep::Done(outcome) => {
            assert_eq!(outcome, Err(FxError::PutItem(path("/home/l"))))
        }
        _ => panic!(),
    }
    assert!(state.registered.is_empty());
    assert!(state.operations.op_list.is_empty());
}

#[test]
fn redone_deletion_of_a_link_that_leads_nowhere_removes_it() {
    let state = state();
    let step = state.remove_and_yank_file(&item("l", FileType::Symlink), false, false, STAMP);
    assert!(matches!(step, FileStep::Remove { to } if to == path("")));
}

#[test]
fn link_that_leads_somewhere_and_missing_file_are_copied() {
    let state = state();
    for (kind, exists) in [
        (FileType::Symlink, true),
        (FileType::File, false),
        (FileType::File, true),
    ] {
        let step = state.remove_and_yank_file(&item("x", kind), true, exists, STAMP);
        assert!(matches!(step, FileStep::Copy { .. }));
    }
}

#[test]
fn directory_is_copied_registered_and_removed() {
    let mut state = state();
    let targets = [item("d", FileType::Directory)];
    let removal = state.remove_and_yank(&targets, true);
    let events = vec![WalkEvent::Exists(true), entry("/home/d", "d", true)];
    let removal = go(&mut state, &targets, true, removal, events);
    match &removal.step {
        RemovalStep::Dir {
            at: 0,
            dir:
                DirStep::Walk {
                    walk: TreeWalk::CreateRoot { path: root, .. },
                    name,
                },
        } => {
            assert_eq!(*root, path("/trash/1660000000_d"));
            assert_eq!(name, "1660000000_d");
        }
        _ => panic!(),
    }
    let events = vec![ok(), entry("/home/d/sub", "sub", true)];
    let removal = go(&mut state, &targets, true, removal, events);
    match &removal.step {
        RemovalStep::Dir {
            dir:
                DirStep::Walk {
                    walk:
                        TreeWalk::Entry {
                            step: TreeStep::CreateDirAll(dir),
                            ..
                        },
                    ..
                },
            ..
        } => assert_eq!(*dir, path("/trash/1660000000_d/sub")),
        _ => panic!(),
    }
    let events = vec![ok(), entry("/home/d/sub/f", "f", false), WalkEvent::Exists(true)];
    let removal = go(&mut state, &targets, true, removal, events);
    match &removal.step {
        RemovalStep::Dir {
            dir:
                DirStep::Walk {
                    walk:
                        TreeWalk::Entry {
                            step: TreeStep::Copy { from, to },
                            ..
                        },
                    ..
                },
            ..
        } => {
            assert_eq!(*from, path("/home/d/sub/f"));
            assert_eq!(*to, path("/trash/1660000000_d/sub/f"));
        }
        _ => panic!(),
    }
    assert!(state.registered.is_empty());
    let removal = go(&mut state, &targets, true, removal, vec![ok(), WalkEvent::End]);
    match &removal.step {
        RemovalStep::Dir {
            dir: DirStep::RemoveAll { target },
            ..
        } => assert_eq!(*target, path("/trash/1660000000_d")),
        _ => panic!(),
    }
    assert_eq!(state.registered[0].file_name, "1660000000_d");
    let removal = go(&mut state, &targets, true, removal, vec![ok()]);
    assert!(matches!(removal.step, RemovalStep::Done(Ok(()))));
    match &state.operations.op_list[..] {
        [OpKind::Delete(op)] => assert_eq!(op.trash, vec![path("/trash/1660000000_d")]),
        _ => panic!(),
    }
}

#[test]
fn directory_whose_name_is_no_text_is_refused() {
    let mut state = state();
    let targets = [item("d", FileType::Directory)];
    let removal = state.remove_and_yank(&targets, true);
    let odd = WalkEvent::Entry(WalkEntry {
        path: path("/home/d"),
        name: vec![255],
        is_dir: true,
    });
    let removal = go(&mut state, &targets, true, removal, vec![WalkEvent::Exists(true), odd]);
    match removal.step {
        RemovalStep::Done(outcome) => assert_eq!(outcome, Err(FxError::Encode)),
        _ => panic!(),
    }
}

/// What a removal of one directory comes to.
fn outcome_of(events: Vec<WalkEvent>) -> Result<(), FxError> {
    let mut state = state();
    let targets = [item("d", FileType::Directory)];
    let removal = state.remove_and_yank(&targets, true);
    let mut all = vec![WalkEvent::Exists(true)];
    all.extend(events);
    match go(&mut state, &targets, true, removal, all).step {
        RemovalStep::Done(outcome) => {
            assert!(state.operations.op_list.is_empty());
            outcome
        }
        _ => panic!(),
    }
}

#[test]
fn failures_of_a_directory_are_reported() {
    let io = || Err(FxError::Io("no".to_string()));
    let walk = || WalkEvent::Failed(FxError::WalkDir("loop".to_string()));
    let root = || entry("/home/d", "d", true);
    let file = || entry("/home/d/f", "f", false);
    assert_eq!(outcome_of(vec![walk()]), Err(FxError::WalkDir("loop".to_string())));
    assert_eq!(outcome_of(vec![root(), failed()]), io());
    assert_eq!(outcome_of(vec![root(), ok(), walk()]), Err(FxError::WalkDir("loop".to_string())));
    assert_eq!(
        outcome_of(vec![root(), ok(), entry("/home/d/s", "s", true), failed()]),
        io()
    );
    assert_eq!(
        outcome_of(vec![root(), ok(), file(), WalkEvent::Exists(false), failed()]),
        io()
    );
    assert_eq!(
        outcome_of(vec![root(), ok(), file(), WalkEvent::Exists(false), ok(), failed()]),
        Err(FxError::PutItem(path("/home/d/f")))
    );
    assert_eq!(
        outcome_of(vec![root(), ok(), WalkEvent::End, failed()]),
        Err(FxError::RemoveItem(path("/home/d")))
    );
}

#[test]
fn redone_deletion_removes_without_a_copy() {
    let mut state = state();
    let targets = [item("a", FileType::File), item("d", FileType::Directory)];
    let removal = state.remove_and_yank(&targets, false);
    let removal = go(&mut state, &targets, false, removal, vec![WalkEvent::Exists(true)]);
    assert!(matches!(
        removal.step,
        RemovalStep::File {
            at: 0,
            file: FileStep::Remove { .. }
        }
    ));
    let events = vec![ok(), WalkEvent::Exists(true)];
    let removal = go(&mut state, &targets, false, removal, events);
    assert!(matches!(
        removal.step,
        RemovalStep::Dir {
            at: 1,
            dir: DirStep::RemoveAll { .. }
        }
    ));
    let removal = go(&mut state, &targets, false, removal, vec![ok()]);
    assert!(matches!(removal.step, RemovalStep::Done(Ok(()))));
    assert!(state.registered.is_empty());
    assert!(state.operations.op_list.is_empty());
}

#[test]
fn deletion_of_several_items_is_one_operation() {
    let mut state = state();
    let targets = [item("a", FileType::File), item("b", FileType::File)];
    let removal = state.remove_and_yank(&targets, true);
    let each = || vec![WalkEvent::Exists(true), ok(), ok()];
    let removal = go(&mut state, &targets, true, removal, each());
    assert!(matches!(removal.step, RemovalStep::Begin { at: 1 }));
    assert!(state.operations.op_list.is_empty());
    let removal = go(&mut state, &targets, true, removal, each());
    assert!(matches!(removal.step, RemovalStep::Done(Ok(()))));
    assert_eq!(state.registered.len(), 2);
    match &state.operations.op_list[..] {
        [OpKind::Delete(op)] => assert_eq!(
            op.trash,
            vec![path("/trash/1660000000_a"), path("/trash/1660000000_b")]
        ),
        _ => panic!(),
    }
}

#[test]
fn deletion_of_nothing_is_recorded() {
    let mut state = state();
    state.registered = vec![item("old", FileType::File)];
    let removal = state.remove_and_yank(&[], true);
    assert!(matches!(removal.step, RemovalStep::Done(Ok(()))));
    assert!(state.registered.is_empty());
    assert_eq!(state.operations.op_list.len(), 1);
    state.remove_and_yank(&[], false);
    assert_eq!(state.operations.op_list.len(), 1);
}

#[test]
fn new_operation_forgets_what_was_undone() {
    let mut state = state();
    let rename = |name: &str| {
        OpKind::Rename(RenamedFile {
            original_name: path(name),
            new_name: path("x"),
        })
    };
    state.operations.op_list = vec![rename("a"), rename("b"), rename("c")];
    state.operations.pos = 2;
    state.remove_and_yank(&[], true);
    assert_eq!(state.operations.pos, 0);
    assert_eq!(state.operations.op_list.len(), 2);
    assert!(matches!(&state.operations.op_list[0], OpKind::Rename(op) if op.original_name == path("a")));
    assert!(matches!(&state.operations.op_list[1], OpKind::Delete(_)));
}

#[test]
fn events_that_do_not_answer_change_nothing() {
    let mut state = state();
    let targets = [item("a", FileType::File)];
    let removal = state.remove_and_yank(&targets, true);
    let removal = go(&mut state, &targets, true, removal, vec![WalkEvent::End, ok()]);
    assert!(matches!(removal.step, RemovalStep::Begin { at: 0 }));
    let events = vec![WalkEvent::Exists(true), WalkEvent::End, WalkEvent::DeadLink(false)];
    let removal = go(&mut state, &targets, true, removal, events);
    assert!(matches!(
        removal.step,
        RemovalStep::File {
            file: FileStep::Copy { .. },
            ..
        }
    ));
}

#[test]
fn present_time_stands_before_the_name() {
    let seconds = || {
        let since = std::time::SystemTime::now().duration_since(std::time::UNIX_EPOCH);
        since.unwrap().as_secs()
    };
    let mut state = state();
    let targets = [item("a.txt", FileType::File)];
    let removal = state.remove_and_yank(&targets, true);
    let before = seconds();
    let removal = state.removal_next(&targets, true, removal, WalkEvent::Exists(true));
    let after = seconds();
    match removal.step {
        RemovalStep::File {
            file: FileStep::Copy { name, .. },
            ..
        } => {
            let (stamp, rest) = name.split_once('_').unwrap();
            let stamp: u64 = stamp.parse().unwrap();
            assert!(before <= stamp && stamp <= after);
            assert_eq!(rest, "a.txt");
        }
        _ => panic!(),
    }
}

#[test]
fn progress_of_a_walk() {
    let bars: Vec<Option<&str>> = (0..11).map(|i| progress_bar(i, 11, REMOVE_BAR)).collect();
    assert_eq!(
        bars,
        vec![
            Some(" [-----]"),
            None,
            None,
            Some("[»----]"),
            Some("[»----]"),
            Some("[»»---]"),
            Some("[»»---]"),
            Some("[»»»--]"),
            Some("[»»»--]"),
            Some("[»»»»-]"),
            Some("[»»»»-]"),
        ]
    );
    assert_eq!(progress_bar(0, 1, PUT_BAR), Some(" [»----]"));
    assert_eq!(progress_bar(1, 3, PUT_BAR), Some("[»»»»-]"));
}

#[test]
fn copy_of_a_tree_has_its_shape() {
    let tree = TreeCopy {
        root: path("/home/d"),
        target: path("/trash/1_d"),
    };
    match tree.visit(&path("/home/d/x/y"), true) {
        TreeStep::CreateDirAll(to) => assert_eq!(to, path("/trash/1_d/x/y")),
        _ => panic!(),
    }
    match tree.visit(&path("/home/d/x/y"), false) {
        TreeStep::CheckParent { parent, from, to } => {
            assert_eq!(parent, path("/home/d/x"));
            assert_eq!(from, path("/home/d/x/y"));
            assert_eq!(to, path("/trash/1_d/x/y"));
        }
        _ => panic!(),
    }
}
