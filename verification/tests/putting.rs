use felix_state::error::FxError;
use felix_state::item::{FileType, ItemInfo};
use felix_state::layout::{Colorname, ConfigColor};
use felix_state::op::OpKind;
use felix_state::path::FilePath;
use felix_state::put::{DirPut, PutRun, PutStep, StringHashSet};
use felix_state::session::{Session, SortKey};
use felix_state::state::{Startup, State};
use felix_state::tree::{TreeStep, TreeWalk, WalkEntry, WalkEvent};

fn path(text: &str) -> FilePath {
    FilePath::from_bytes(text.as_bytes())
}

fn item(dir: &str, name: &str, file_type: FileType) -> ItemInfo {
    ItemInfo {
        file_type,
        file_name: name.to_string(),
        file_path: path(dir).join_name(name),
        symlink_dir_path: None,
        file_size: 7,
        file_ext: None,
        modified: None,
        is_hidden: false,
        selected: false,
    }
}

fn state(listed: &[&str]) -> State {
    let start = Startup {
        default: Some("nvim".to_string()),
        commands: None,
        use_full_width: None,
        item_name_length: None,
        color: ConfigColor {
            dir_fg: Colorname::Blue,
            file_fg: Colorname::White,
            symlink_fg: Colorname::Green,
        },
        session: Session {
            sort_by: SortKey::Name,
            show_hidden: false,
        },
        column: 80,
        row: 24,
        has_chafa: false,
        term: None,
        editor: None,
        rust_log: None,
    };
    let mut state = State::new(start, |_, _, _| (33, 30)).unwrap();
    state.current_dir = path("/home");
    state.trash_dir = path("/trash");
    state.list = listed
        .iter()
        .map(|n| item("/home", n, FileType::File))
        .collect();
    state
}

/// Appends a mark to a name as long as it is taken.
fn free(name: &String, names: &StringHashSet) -> String {
    let mut name = name.clone();
    while names.contains(&name) {
        name.push('\'');
    }
    name
}

fn free_dir(name: &String, names: &StringHashSet) -> String {
    let mut name = name.clone();
    while names.contains(&name) {
        name.push('+');
    }
    name
}

fn go(
    state: &mut State,
    targets: &[ItemInfo],
    target_dir: &Option<FilePath>,
    mut run: PutRun,
    events: Vec<WalkEvent>,
) -> PutRun {
    for event in events {
        run = state.put_next(targets, target_dir, run, event, &free, &free_dir);
    }
    run
}

fn ok() -> WalkEvent {
    WalkEvent::Did(Ok(()))
}

fn failed() -> WalkEvent {
    WalkEvent::Did(Err(FxError::Io("no".to_string())))
}

fn entry(text: &str, is_dir: bool) -> WalkEvent {
    WalkEvent::Entry(WalkEntry {
        path: path(text),
        name: Vec::new(),
        is_dir,
    })
}

fn file_target(run: &PutRun) -> &FilePath {
    match &run.step {
        PutStep::File { file, .. } => &file.to,
        _ => panic!(),
    }
}

fn dir_target(run: &PutRun) -> &FilePath {
    match &run.step {
        PutStep::Dir {
            step: DirPut::Walk(TreeWalk::CreateRoot { path, .. }),
            ..
        } => path,
        _ => panic!(),
    }
}

#[test]
fn names_of_the_listing_are_taken() {
    let state = state(&["a", "b"]);
    let names = state.put_names(&None, Vec::new()).unwrap();
    assert!(names.contains("a"));
    assert!(names.contains("b"));
    assert!(!names.contains("c"));
}

#[test]
fn names_of_a_target_directory_are_taken() {
    let state = state(&["a"]);
    let entries = vec![Ok(b"x".to_vec()), Ok(vec![255]), Ok("é".as_bytes().to_vec())];
    let names = state.put_names(&Some(path("/other")), entries).unwrap();
    assert!(names.contains("x"));
    assert!(names.contains(""));
    assert!(names.contains("é"));
    assert!(!names.contains("a"));
}

#[test]
fn target_directory_that_cannot_be_read_is_an_error() {
    let mut state = state(&["a"]);
    let entries = || {
        vec![
            Ok(b"x".to_vec()),
            Err(FxError::Io("first".to_string())),
            Err(FxError::Io("second".to_string())),
        ]
    };
    let target = Some(path("/other"));
    let result = state.put_items(&[], &target, entries());
    assert!(matches!(result, Err(FxError::Io(text)) if text == "first"));
    assert!(state.put_items(&[], &None, entries()).is_ok());
}

#[test]
fn files_are_put_under_free_names() {
    let mut state = state(&["a"]);
    let targets = [
        item("/src", "a", FileType::File),
        item("/src", "b", FileType::Symlink),
        item("/lib", "a", FileType::File),
    ];
    let run = state.put_items(&targets, &None, Vec::new()).unwrap();
    assert!(matches!(run.step, PutStep::Begin { at: 0 }));
    let run = go(&mut state, &targets, &None, run, vec![WalkEvent::DeadLink(false)]);
    assert_eq!(*file_target(&run), path("/home/a'"));
    let run = go(&mut state, &targets, &None, run, vec![ok(), WalkEvent::DeadLink(false)]);
    assert_eq!(*file_target(&run), path("/home/b"));
    let run = go(&mut state, &targets, &None, run, vec![ok(), WalkEvent::DeadLink(false)]);
    assert_eq!(*file_target(&run), path("/home/a''"));
    assert!(state.operations.op_list.is_empty());
    let run = go(&mut state, &targets, &None, run, vec![ok()]);
    assert!(matches!(run.step, PutStep::Done));
    match &state.operations.op_list[..] {
        [OpKind::Put(op)] => {
            assert_eq!(op.original, targets);
            assert_eq!(
                op.put,
                vec![path("/home/a'"), path("/home/b"), path("/home/a''")]
            );
            assert_eq!(op.dir, path("/home"));
        }
        _ => panic!(),
    }
}

#[test]
fn file_of_the_trash_gets_its_name_back() {
    let mut state = state(&[]);
    let targets = [item("/trash", "1660000000_a.txt", FileType::File)];
    let run = state.put_items(&targets, &None, Vec::new()).unwrap();
    let run = go(&mut state, &targets, &None, run, vec![WalkEvent::DeadLink(false)]);
    assert_eq!(*file_target(&run), path("/home/a.txt"));
    let elsewhere = [item("/trash/sub", "1660000000_a.txt", FileType::File)];
    let run = state.put_items(&elsewhere, &None, Vec::new()).unwrap();
    let run = go(&mut state, &elsewhere, &None, run, vec![WalkEvent::DeadLink(false)]);
    assert_eq!(*file_target(&run), path("/home/1660000000_a.txt"));
}

#[test]
fn dead_link_of_the_trash_is_made_anew() {
    let mut state = state(&[]);
    let targets = [
        item("/trash", "1660000000_l", FileType::Symlink),
        item("/trash", "1660000000_m", FileType::Symlink),
        item("/src", "n", FileType::Symlink),
    ];
    let link = |run: &PutRun| match &run.step {
        PutStep::File { file, .. } => file.link,
        _ => panic!(),
    };
    let run = state.put_items(&targets, &None, Vec::new()).unwrap();
    let run = go(&mut state, &targets, &None, run, vec![WalkEvent::DeadLink(true)]);
    assert_eq!(*file_target(&run), path("/home/l"));
    assert!(link(&run));
    let run = go(&mut state, &targets, &None, run, vec![ok(), WalkEvent::DeadLink(false)]);
    assert_eq!(*file_target(&run), path("/home/m"));
    assert!(!link(&run));
    let run = go(&mut state, &targets, &None, run, vec![ok(), WalkEvent::DeadLink(true)]);
    assert_eq!(*file_target(&run), path("/home/n"));
    assert!(!link(&run));
    let run = go(&mut state, &targets, &None, run, vec![ok()]);
    assert_eq!(run.put.len(), 3);
}

#[test]
fn file_that_cannot_be_put_is_passed_over() {
    let mut state = state(&[]);
    let targets = [
        item("/src", "a", FileType::File),
        item("/lib", "a", FileType::File),
    ];
    let run = state.put_items(&targets, &None, Vec::new()).unwrap();
    let events = vec![WalkEvent::DeadLink(false), failed(), WalkEvent::DeadLink(false)];
    let run = go(&mut state, &targets, &None, run, events);
    assert_eq!(*file_target(&run), path("/home/a"));
    let run = go(&mut state, &targets, &None, run, vec![ok()]);
    assert!(matches!(run.step, PutStep::Done));
    match &state.operations.op_list[..] {
        [OpKind::Put(op)] => {
            assert_eq!(op.put, vec![path("/home/a")]);
            assert_eq!(op.original.len(), 2);
        }
        _ => panic!(),
    }
}

#[test]
fn outcome_of_a_single_file() {
    let state = state(&["a"]);
    let source = item("/src", "a", FileType::File);
    let mut names = state.put_names(&None, Vec::new()).unwrap();
    let put = state.put_file(&source, &None, &names, false, &free);
    assert_eq!(put.name, "a'");
    assert_eq!(
        put.done(&source, false, &mut names),
        Err(FxError::PutItem(path("/src/a")))
    );
    assert!(!names.contains("a'"));
    let put = state.put_file(&source, &Some(path("/other")), &names, false, &free);
    assert_eq!(put.done(&source, true, &mut names), Ok(path("/other/a'")));
    assert!(names.contains("a'"));
}

#[test]
fn items_are_put_into_a_target_directory_without_a_record() {
    let mut state = state(&["a"]);
    let target = Some(path("/other"));
    let targets = [item("/trash", "1660000000_a", FileType::File)];
    let run = state.put_items(&targets, &target, Vec::new()).unwrap();
    let run = go(&mut state, &targets, &target, run, vec![WalkEvent::DeadLink(false)]);
    assert_eq!(*file_target(&run), path("/other/a"));
    let run = go(&mut state, &targets, &target, run, vec![ok()]);
    assert!(matches!(run.step, PutStep::Done));
    assert!(state.operations.op_list.is_empty());
}

#[test]
fn directory_is_put_under_a_free_name() {
    let mut state = state(&["d"]);
    let targets = [item("/src", "d", FileType::Directory)];
    let run = state.put_items(&targets, &None, Vec::new()).unwrap();
    let events = vec![WalkEvent::DeadLink(false), entry("/src/d", true)];
    let run = go(&mut state, &targets, &None, run, events);
    assert_eq!(*dir_target(&run), path("/home/d+"));
    assert!(run.names.contains("d+"));
    let events = vec![ok(), entry("/src/d/x", false), WalkEvent::Exists(true)];
    let run = go(&mut state, &targets, &None, run, events);
    match &run.step {
        PutStep::Dir {
            step:
                DirPut::Walk(TreeWalk::Entry {
                    step: TreeStep::Copy { from, to },
                    ..
                }),
            ..
        } => {
            assert_eq!(*from, path("/src/d/x"));
            assert_eq!(*to, path("/home/d+/x"));
        }
        _ => panic!(),
    }
    let run = go(&mut state, &targets, &None, run, vec![ok(), WalkEvent::End]);
    assert!(matches!(run.step, PutStep::Done));
    match &state.operations.op_list[..] {
        [OpKind::Put(op)] => assert_eq!(op.put, vec![path("/home/d+")]),
        _ => panic!(),
    }
}

#[test]
fn directory_of_the_trash_is_put_under_its_name() {
    let mut state = state(&["d"]);
    let targets = [item("/trash", "1660000000_d", FileType::Directory)];
    let run = state.put_items(&targets, &None, Vec::new()).unwrap();
    let events = vec![WalkEvent::DeadLink(false), entry("/trash/1660000000_d", true)];
    let run = go(&mut state, &targets, &None, run, events);
    assert_eq!(*dir_target(&run), path("/home/d"));
    assert!(run.names.contains("d+"));
    let run = go(&mut state, &targets, &None, run, vec![failed()]);
    assert!(matches!(run.step, PutStep::Done));
    assert!(run.put.is_empty());
}

#[test]
fn directory_is_put_into_a_target_directory() {
    let mut state = state(&[]);
    let target = Some(path("/other"));
    let targets = [item("/trash", "1660000000_d", FileType::Directory)];
    let run = state.put_items(&targets, &target, Vec::new()).unwrap();
    let events = vec![WalkEvent::DeadLink(false), entry("/trash/1660000000_d", true)];
    let run = go(&mut state, &targets, &target, run, events);
    assert_eq!(*dir_target(&run), path("/other/d"));
}

#[test]
fn failures_of_a_directory_pass_it_over() {
    let walk = || WalkEvent::Failed(FxError::WalkDir("loop".to_string()));
    let file = || entry("/src/d/f", false);
    for events in [
        vec![walk()],
        vec![entry("/src/d", true), failed()],
        vec![entry("/src/d", true), ok(), walk()],
        vec![entry("/src/d", true), ok(), entry("/src/d/s", true), failed()],
        vec![entry("/src/d", true), ok(), file(), WalkEvent::Exists(false), failed()],
        vec![entry("/src/d", true), ok(), file(), WalkEvent::Exists(true), failed()],
    ] {
        let mut state = state(&[]);
        let targets = [
            item("/src", "d", FileType::Directory),
            item("/src", "f", FileType::File),
        ];
        let run = state.put_items(&targets, &None, Vec::new()).unwrap();
        let run = go(&mut state, &targets, &None, run, vec![WalkEvent::DeadLink(false)]);
        let run = go(&mut state, &targets, &None, run, events);
        assert!(matches!(run.step, PutStep::Begin { at: 1 }));
        assert!(run.put.is_empty());
    }
}

#[test]
fn error_of_a_single_directory() {
    let state = state(&[]);
    let source = item("/src", "d", FileType::Directory);
    let mut names = state.put_names(&None, Vec::new()).unwrap();
    let mut step = state.put_dir();
    for event in [
        entry("/src/d", true),
        ok(),
        entry("/src/d/f", false),
        WalkEvent::Exists(true),
        failed(),
    ] {
        step = state.put_dir_next(&source, &None, step, event, &mut names, &free_dir);
    }
    match step {
        DirPut::Done(outcome) => assert_eq!(outcome, Err(FxError::PutItem(path("/src/d/f")))),
        _ => panic!(),
    }
}

#[test]
fn putting_nothing_is_recorded() {
    let mut state = state(&[]);
    let run = state.put_items(&[], &None, Vec::new()).unwrap();
    assert!(matches!(run.step, PutStep::Done));
    assert_eq!(state.operations.op_list.len(), 1);
    let target = Some(path("/other"));
    assert!(state.put_items(&[], &target, Vec::new()).is_ok());
    assert_eq!(state.operations.op_list.len(), 1);
}
