use felix_state::draw::Draw;
use felix_state::error::FxError;
use felix_state::history::{
    begin_unput, made_timely, redo_plan, trash_to_info, undo_plan, unput_next, Plan, Unput, UnputEvent,
    UnputStep,
};
use felix_state::item::{Entry, EntryMeta, FileType, ItemInfo};
use felix_state::layout::{Colorname, ConfigColor, Num, Widths};
use felix_state::op::{DeletedFiles, OpKind, Operation, PutFiles, RenamedFile};
use felix_state::path::FilePath;
use felix_state::put::{PutStep, StringHashSet};
use felix_state::remove::RemovalStep;
use felix_state::session::{Session, SortKey};
use felix_state::state::{Startup, State};
use felix_state::tree::WalkEvent;
use felix_state::view::Screen;

fn path(text: &str) -> FilePath {
    FilePath::from_bytes(text.as_bytes())
}

fn item(name: &str) -> ItemInfo {
    ItemInfo {
        file_type: FileType::File,
        file_name: name.to_string(),
        file_path: path("/home").join_name(name),
        symlink_dir_path: None,
        file_size: 7,
        file_ext: None,
        modified: None,
        is_hidden: false,
        selected: false,
    }
}

fn state() -> State {
    let start = Startup {
        default: Some("nvim".to_string()),
        commands: None,
        use_full_width: None,
        item_name_length: None,
        color: ConfigColor {
            dir_fg: Colorname::Blue,
            file_fg: Colorname::White,
            symlink_fg: Colorname::Green,
        },
        session: Session {
            sort_by: SortKey::Name,
            show_hidden: false,
        },
        column: 80,
        row: 24,
        has_chafa: false,
        term: None,
        editor: None,
        rust_log: None,
    };
    let mut state = State::new(start, |_, _, _| (33, 30)).unwrap();
    state.current_dir = path("/home");
    state.trash_dir = path("/trash");
    state
}

fn name_of(path: &FilePath) -> String {
    let text = String::from_utf8(path.to_bytes()).unwrap();
    text.rsplit('/').next().unwrap().to_string()
}

fn screen() -> Screen {
    Screen {
        widths: Widths {
            proper: 28,
            time: 16,
        },
        head: None,
    }
}

const NUMS: Num = Num { index: 0, skip: 0 };

fn entry(dir: &str, name: &str) -> Result<Entry, FxError> {
    Ok(Entry {
        path: path(dir).join_name(name),
        name: name.as_bytes().to_vec(),
        meta: Some(EntryMeta {
            is_dir: false,
            is_file: true,
            is_symlink: false,
            modified_secs: 0,
            modified_nanos: 0,
            len: 1,
            target_is_dir: None,
            canonical: None,
        }),
    })
}

fn rename() -> OpKind {
    OpKind::Rename(RenamedFile {
        original_name: path("/home/a"),
        new_name: path("/home/b"),
    })
}

fn put() -> OpKind {
    OpKind::Put(PutFiles {
        original: vec![item("a")],
        put: vec![path("/other/a"), path("/other/d")],
        dir: path("/other"),
    })
}

fn delete() -> OpKind {
    OpKind::Delete(DeletedFiles {
        trash: vec![path("/trash/1660000000_a")],
        original: vec![item("a")],
        dir: path("/home"),
    })
}

#[test]
fn plans_to_undo() {
    match undo_plan(&rename()) {
        Plan::Rename { from, to } => {
            assert_eq!((from, to), (path("/home/b"), path("/home/a")));
        }
        _ => panic!(),
    }
    match undo_plan(&put()) {
        Plan::Unput { paths } => assert_eq!(paths, vec![path("/other/a"), path("/other/d")]),
        _ => panic!(),
    }
    match undo_plan(&delete()) {
        Plan::PutBack { trash, dir } => {
            assert_eq!(trash, vec![path("/trash/1660000000_a")]);
            assert_eq!(dir, path("/home"));
        }
        _ => panic!(),
    }
}

#[test]
fn plans_to_redo() {
    match redo_plan(&rename()) {
        Plan::Rename { from, to } => {
            assert_eq!((from, to), (path("/home/a"), path("/home/b")));
        }
        _ => panic!(),
    }
    match redo_plan(&put()) {
        Plan::PutAgain { items, dir } => {
            assert_eq!(items, vec![item("a")]);
            assert_eq!(dir, path("/other"));
        }
        _ => panic!(),
    }
    match redo_plan(&delete()) {
        Plan::RemoveAgain { items } => assert_eq!(items, vec![item("a")]),
        _ => panic!(),
    }
}

#[test]
fn what_was_put_is_removed_by_its_kind() {
    let paths = [path("/other/d"), path("/other/a")];
    let step = begin_unput(&paths);
    assert_eq!(step, UnputStep::Check { at: 0 });
    let step = unput_next(&paths, step, UnputEvent::IsDir(true));
    assert_eq!(
        step,
        UnputStep::Remove {
            at: 0,
            removal: Unput::DirAll(path("/other/d"))
        }
    );
    let step = unput_next(&paths, step, UnputEvent::Did(Ok(())));
    assert_eq!(step, UnputStep::Check { at: 1 });
    let step = unput_next(&paths, step, UnputEvent::Did(Ok(())));
    let step = unput_next(&paths, step, UnputEvent::IsDir(false));
    assert_eq!(
        step,
        UnputStep::Remove {
            at: 1,
            removal: Unput::File(path("/other/a"))
        }
    );
    let step = unput_next(&paths, step, UnputEvent::IsDir(true));
    let step = unput_next(&paths, step, UnputEvent::Did(Ok(())));
    assert_eq!(step, UnputStep::Done(Ok(())));
    assert_eq!(begin_unput(&[]), UnputStep::Done(Ok(())));
}

#[test]
fn first_failure_to_remove_what_was_put_ends_it() {
    let paths = [path("/other/a"), path("/other/b")];
    let error = || FxError::Io("no".to_string());
    let step = begin_unput(&paths);
    let step = unput_next(&paths, step, UnputEvent::IsDir(false));
    let step = unput_next(&paths, step, UnputEvent::Did(Err(error())));
    assert_eq!(step, UnputStep::Done(Err(error())));
    let step = unput_next(&paths, step, UnputEvent::Did(Ok(())));
    assert_eq!(step, UnputStep::Done(Err(error())));
}

#[test]
fn undoing_and_redoing_tell_and_count() {
    for (op, undone, redone) in [
        (rename(), "UNDONE: RENAME", "REDONE: RENAME"),
        (put(), "UNDONE: PUT", "REDONE: PUT"),
        (delete(), "UNDONE: DELETE", "REDONE DELETE"),
    ] {
        let mut state = state();
        state.operations.op_list = vec![rename(), delete()];
        let entries = vec![entry("/home", "b"), entry("/home", "a")];
        let steps = state.undo(&NUMS, &op, Ok(()), entries, &screen()).unwrap();
        assert_eq!(state.operations.pos, 1);
        assert_eq!(state.list[0].file_name, "a");
        assert_eq!(
            *steps.last().unwrap(),
            Draw::Info {
                message: undone.to_string(),
                y: 3
            }
        );
        let mut expected = state.clear_and_show_headline(&None);
        expected.extend(state.list_up(0, &screen().widths));
        assert_eq!(steps[..steps.len() - 1], expected);
        let entries = vec![entry("/home", "c")];
        let steps = state.redo(&NUMS, &op, Ok(()), entries, &screen()).unwrap();
        assert_eq!(state.operations.pos, 0);
        assert_eq!(state.operations.op_list.len(), 2);
        assert_eq!(state.list[0].file_name, "c");
        assert_eq!(
            *steps.last().unwrap(),
            Draw::Info {
                message: redone.to_string(),
                y: 3
            }
        );
    }
}

#[test]
fn failed_undoing_and_redoing_change_nothing() {
    let mut state = state();
    state.operations.op_list = vec![rename(), rename()];
    state.operations.pos = 1;
    let error = || FxError::Io("no".to_string());
    let undone = state.undo(&NUMS, &rename(), Err(error()), Vec::new(), &screen());
    assert_eq!(undone, Err(error()));
    let redone = state.redo(&NUMS, &rename(), Err(error()), Vec::new(), &screen());
    assert_eq!(redone, Err(error()));
    assert_eq!(state.operations.pos, 1);
}

#[test]
fn listing_that_fails_after_undoing_is_reported() {
    let mut state = state();
    state.operations.op_list = vec![rename()];
    state.list = vec![item("kept")];
    let entries = vec![Err(FxError::Io("gone".to_string()))];
    let result = state.undo(&NUMS, &rename(), Ok(()), entries, &screen());
    assert_eq!(result, Err(FxError::Io("gone".to_string())));
    assert_eq!(state.operations.pos, 1);
    assert_eq!(state.list, vec![item("kept")]);
}

#[test]
fn history_forgets_what_is_undone() {
    let mut operations = Operation {
        pos: 1,
        op_list: vec![rename(), put()],
    };
    operations.branch();
    assert_eq!(operations.pos, 0);
    assert_eq!(operations.op_list.len(), 1);
    operations.branch();
    assert_eq!(operations.op_list.len(), 1);
    operations.push(delete());
    assert_eq!(operations.op_list.len(), 2);
    assert!(matches!(&operations.op_list[1], OpKind::Delete(_)));
}

#[test]
fn items_of_the_trash_that_are_wanted() {
    let entries = || {
        vec![
            entry("/trash", "1_a"),
            entry("/trash", "2_b"),
            entry("/trash", "3_c"),
            Err(FxError::Io("late".to_string())),
        ]
    };
    let found = |wanted: &[FilePath]| {
        trash_to_info(entries(), wanted)
            .map(|items| items.iter().map(|i| i.file_name.clone()).collect::<Vec<_>>())
    };
    assert_eq!(
        found(&[path("/trash/2_b"), path("/trash/1_a")]),
        Ok(vec!["1_a".to_string(), "2_b".to_string()])
    );
    assert_eq!(found(&[path("/trash/3_c")]), Ok(vec!["3_c".to_string()]));
    assert_eq!(
        found(&[path("/trash/1_a"), path("/trash/4_d")]),
        Err(FxError::Io("late".to_string()))
    );
    assert_eq!(found(&[]), Err(FxError::Io("late".to_string())));
    assert_eq!(trash_to_info(Vec::new(), &[path("/trash/1_a")]), Ok(Vec::new()));
}

#[test]
fn only_times_of_items_that_are_made_matter() {
    let late = |name: &str| {
        let mut entry = entry("/trash", name).unwrap();
        entry.meta.as_mut().unwrap().modified_secs = i64::MAX;
        Ok(entry)
    };
    let entries = || {
        vec![
            late("1_a"),
            entry("/trash", "2_b"),
            late("3_c"),
            Err(FxError::Io("gone".to_string())),
            late("4_d"),
        ]
    };
    let two = [path("/trash/2_b")];
    assert!(made_timely(&entries(), &two));
    assert_eq!(trash_to_info(entries(), &two).unwrap().len(), 1);
    assert!(!made_timely(&entries(), &[path("/trash/1_a")]));
    assert!(!made_timely(&entries(), &[path("/trash/2_b"), path("/trash/3_c")]));
    let behind = [path("/trash/2_b"), path("/trash/4_d")];
    assert!(made_timely(&entries(), &behind));
    assert_eq!(
        trash_to_info(entries(), &behind),
        Err(FxError::Io("gone".to_string()))
    );
}

#[test]
fn paths_of_the_trash_are_compared_by_components() {
    let wanted = [path("/trash//./1_a/")];
    let items = trash_to_info(vec![entry("/trash", "1_a")], &wanted).unwrap();
    assert_eq!(items.len(), 1);
}

#[test]
fn deleted_file_is_put_back_where_it_was() {
    let mut state = state();
    let targets = [item("a.txt")];
    let ok = || WalkEvent::Did(Ok(()));
    let mut removal = state.remove_and_yank(&targets, true);
    for event in [WalkEvent::Exists(true), ok(), ok()] {
        removal = state.removal_next(&targets, true, removal, event);
    }
    assert!(matches!(removal.step, RemovalStep::Done(Ok(()))));
    let (trash, dir) = match undo_plan(&state.operations.op_list[0]) {
        Plan::PutBack { trash, dir } => (trash, dir),
        _ => panic!(),
    };
    let name = name_of(&trash[0]);
    let entries = vec![entry("/trash", "1_other"), entry("/trash", &name)];
    let items = trash_to_info(entries, &trash).unwrap();
    assert_eq!(items.len(), 1);
    let dir = Some(dir);
    let same = |name: &String, _: &StringHashSet| name.clone();
    let run = state.put_items(&items, &dir, Vec::new()).unwrap();
    let run = state.put_next(&items, &dir, run, WalkEvent::DeadLink(false), &same, &same);
    match &run.step {
        PutStep::File { file, .. } => assert_eq!(file.to, path("/home/a.txt")),
        _ => panic!(),
    }
    let run = state.put_next(&items, &dir, run, ok(), &same, &same);
    assert!(matches!(run.step, PutStep::Done));
    assert_eq!(state.operations.op_list.len(), 1);
}

#[test]
fn deleted_link_that_leads_nowhere_is_put_back_where_it_was() {
    let mut state = state();
    let mut link = item("l");
    link.file_type = FileType::Symlink;
    let targets = [link];
    let mut removal = state.remove_and_yank(&targets, true);
    for event in [WalkEvent::Exists(false), WalkEvent::Did(Ok(()))] {
        removal = state.removal_next(&targets, true, removal, event);
    }
    assert!(matches!(removal.step, RemovalStep::Done(Ok(()))));
    assert_eq!(state.registered.len(), 1);
    let (trash, dir) = match undo_plan(&state.operations.op_list[0]) {
        Plan::PutBack { trash, dir } => (trash, Some(dir)),
        _ => panic!(),
    };
    let name = name_of(&trash[0]);
    let items = trash_to_info(vec![entry("/trash", &name)], &trash).unwrap();
    assert_eq!(items.len(), 1);
    let same = |name: &String, _: &StringHashSet| name.clone();
    let run = state.put_items(&items, &dir, Vec::new()).unwrap();
    let run = state.put_next(&items, &dir, run, WalkEvent::DeadLink(true), &same, &same);
    match &run.step {
        PutStep::File { file, .. } => {
            assert_eq!(file.to, path("/home/l"));
            assert!(file.link);
        }
        _ => panic!(),
    }
}
