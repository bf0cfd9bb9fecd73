use felix_state::error::FxError;
use felix_state::item::{Entry, EntryMeta, FileType, ItemInfo};
use felix_state::layout::{Colorname, ConfigColor, BEGINNING_ROW};
use felix_state::order::{arrange, names_in_order};
use felix_state::path::FilePath;
use felix_state::session::{Session, SortKey};
use felix_state::state::{
    check_kitty_support, timely, too_small, Startup, State, StringHashMap, CONFIG_FILE,
    FX_CONFIG_DIR, TRASH, WHEN_EMPTY,
};

fn path(text: &str) -> FilePath {
    FilePath::from_bytes(text.as_bytes())
}

fn start(column: u16, row: u16) -> Startup {
    Startup {
        default: Some("nvim".to_string()),
        commands: None,
        use_full_width: Some(true),
        item_name_length: Some(30),
        color: ConfigColor {
            dir_fg: Colorname::LightCyan,
            file_fg: Colorname::LightWhite,
            symlink_fg: Colorname::LightYellow,
        },
        session: Session {
            sort_by: SortKey::Name,
            show_hidden: false,
        },
        column,
        row,
        has_chafa: true,
        term: Some("xterm-kitty".to_string()),
        editor: None,
        rust_log: None,
    }
}

fn state() -> State {
    State::new(start(80, 24), |_, _, _| (33, 30)).unwrap()
}

fn item(name: &str, file_type: FileType, modified: Option<&str>, is_hidden: bool) -> ItemInfo {
    ItemInfo {
        file_type,
        file_name: name.to_string(),
        file_path: path("/home").join_name(name),
        symlink_dir_path: None,
        file_size: 0,
        file_ext: None,
        modified: modified.map(|t| t.to_string()),
        is_hidden,
        selected: false,
    }
}

fn entry(name: &str, is_dir: bool, secs: i64) -> Result<Entry, FxError> {
    Ok(Entry {
        path: path("/home").join_name(name),
        name: name.as_bytes().to_vec(),
        meta: Some(EntryMeta {
            is_dir,
            is_file: !is_dir,
            is_symlink: false,
            modified_secs: secs,
            modified_nanos: 0,
            len: 1,
            target_is_dir: None,
            canonical: None,
        }),
    })
}

fn names(items: &[ItemInfo]) -> Vec<&str> {
    items.iter().map(|i| i.file_name.as_str()).collect()
}

#[test]
fn constants() {
    assert_eq!(BEGINNING_ROW, 3);
    assert_eq!(FX_CONFIG_DIR, "felix");
    assert_eq!(CONFIG_FILE, "config.toml");
    assert_eq!(TRASH, "trash");
    assert_eq!(
        WHEN_EMPTY,
        "Are you sure to empty the trash directory? (if yes: y)"
    );
}

#[test]
fn state_at_the_start() {
    let mut commands = StringHashMap::new();
    commands.insert("jpg".to_string(), "feh".to_string());
    let state = State::new(
        Startup {
            commands: Some(commands),
            rust_log: Some("info".to_string()),
            ..start(80, 24)
        },
        |column, use_full, length| {
            assert_eq!((column, use_full, length), (80, Some(true), Some(30)));
            (33, 29)
        },
    )
    .unwrap();
    assert!(state.list.is_empty());
    assert!(state.registered.is_empty());
    assert_eq!(state.operations.pos, 0);
    assert!(state.operations.op_list.is_empty());
    assert_eq!(state.current_dir, path(""));
    assert_eq!(state.trash_dir, path(""));
    assert_eq!(state.default, "nvim");
    assert_eq!(state.commands.as_ref().unwrap().get("jpg").unwrap(), "feh");
    assert_eq!(state.sort_by, SortKey::Name);
    assert!(!state.show_hidden);
    assert!(!state.filtered);
    assert_eq!(state.rust_log, Some("info".to_string()));
    assert_eq!(state.layout.y, 3);
    assert_eq!(state.layout.terminal_row, 24);
    assert_eq!(state.layout.terminal_column, 80);
    assert_eq!(state.layout.time_start_pos, 33);
    assert_eq!(state.layout.name_max_len, 29);
    assert_eq!(state.layout.use_full, Some(true));
    assert_eq!(state.layout.option_name_len, Some(30));
    assert_eq!(state.layout.colors.symlink_fg, Colorname::LightYellow);
    assert!(!state.layout.preview);
    assert_eq!(state.layout.preview_start_column, 82);
    assert_eq!(state.layout.preview_width, 79);
    assert!(state.layout.has_chafa);
    assert!(state.layout.is_kitty);
}

#[test]
fn too_small_terminal_is_refused() {
    for (column, row) in [(3, 24), (80, 3), (0, 0)] {
        assert!(too_small(column, row));
        let result = State::new(start(column, row), |_, _, _| unreachable!());
        assert!(matches!(result, Err(FxError::TooSmallWindowSize)));
    }
    assert!(!too_small(4, 4));
    assert!(State::new(start(4, 4), |_, _, _| (1, 1)).is_ok());
}

#[test]
fn editor_is_the_default_command_of_last_resort() {
    let without = Startup {
        default: None,
        editor: Some("vi".to_string()),
        ..start(80, 24)
    };
    assert_eq!(State::new(without, |_, _, _| (1, 1)).unwrap().default, "vi");
    let with = Startup {
        editor: Some("vi".to_string()),
        ..start(80, 24)
    };
    assert_eq!(State::new(with, |_, _, _| (1, 1)).unwrap().default, "nvim");
}

#[test]
fn kitty_is_found_in_the_name_of_the_terminal() {
    assert!(check_kitty_support(&Some("xterm-kitty".to_string())));
    assert!(!check_kitty_support(&Some("xterm-256color".to_string())));
    assert!(!check_kitty_support(&None));
}

#[test]
fn listing_by_name_is_natural() {
    let items = ["rfc2086.txt", "rfc822.txt", "rfc1.txt", "a10", "a2", "pic 5", "pic05"]
        .iter()
        .map(|n| item(n, FileType::File, None, false))
        .collect();
    let list = arrange(items, SortKey::Name, true);
    assert_eq!(
        names(&list),
        vec!["a2", "a10", "pic05", "pic 5", "rfc1.txt", "rfc822.txt", "rfc2086.txt"]
    );
}

#[test]
fn directories_are_listed_first() {
    let items = vec![
        item("b", FileType::File, None, false),
        item("z", FileType::Directory, None, false),
        item("a", FileType::Symlink, None, false),
        item("y", FileType::Directory, None, false),
    ];
    let list = arrange(items, SortKey::Name, true);
    assert_eq!(names(&list), vec!["y", "z", "a", "b"]);
}

#[test]
fn listing_by_time_is_latest_first() {
    let items = vec![
        item("old", FileType::File, Some("2020-01-01T00:00:00+00:00"), false),
        item("unknown", FileType::File, None, false),
        item("new", FileType::File, Some("2022-08-09T00:00:00+00:00"), false),
        item("mid", FileType::File, Some("2021-08-09T00:00:00+00:00"), false),
        item("dir", FileType::Directory, Some("1999-08-09T00:00:00+00:00"), false),
    ];
    let list = arrange(items, SortKey::Time, true);
    assert_eq!(names(&list), vec!["dir", "new", "mid", "old", "unknown"]);
}

#[test]
fn items_that_the_order_cannot_tell_apart_keep_their_places() {
    let items = vec![
        item("a 1", FileType::File, None, false),
        item("b", FileType::File, None, false),
        item("a1", FileType::File, None, false),
        item("a  1", FileType::File, None, false),
    ];
    let list = arrange(items, SortKey::Name, true);
    assert_eq!(names(&list), vec!["a 1", "a1", "a  1", "b"]);
    let items = vec![
        item("x", FileType::File, Some("t"), false),
        item("a", FileType::File, Some("t"), false),
        item("m", FileType::File, Some("u"), false),
    ];
    let list = arrange(items, SortKey::Time, true);
    assert_eq!(names(&list), vec!["m", "x", "a"]);
}

#[test]
fn hidden_items_are_listed_on_demand() {
    let items = || {
        vec![
            item(".git", FileType::Directory, None, true),
            item("src", FileType::Directory, None, false),
            item(".env", FileType::File, None, true),
            item("x", FileType::File, None, false),
        ]
    };
    assert_eq!(names(&arrange(items(), SortKey::Name, false)), vec!["src", "x"]);
    assert_eq!(
        names(&arrange(items(), SortKey::Name, true)),
        vec![".git", "src", ".env", "x"]
    );
    assert!(arrange(Vec::new(), SortKey::Name, false).is_empty());
}

#[test]
fn listing_without_hidden_items_is_the_whole_one_without_them() {
    let items = || {
        ["b10", ".b9", "b2", ".a", "a"]
            .iter()
            .map(|n| item(n, FileType::File, None, n.starts_with('.')))
            .collect::<Vec<_>>()
    };
    names_in_order(&items());
    let mut whole = arrange(items(), SortKey::Name, true);
    whole.retain(|i| !i.is_hidden);
    assert_eq!(arrange(items(), SortKey::Name, false), whole);
    assert_eq!(arrange(whole.clone(), SortKey::Name, false), whole);
}

#[test]
fn long_listing_is_sorted() {
    let items: Vec<ItemInfo> = (0..500)
        .map(|i| item(&format!("f{}", (i * 337) % 500), FileType::File, None, false))
        .collect();
    let list = arrange(items, SortKey::Name, true);
    let expected: Vec<String> = (0..500).map(|i| format!("f{}", i)).collect();
    assert_eq!(names(&list), expected);
}

#[test]
fn update_lists_entries() {
    let mut state = state();
    let entries = vec![
        entry("b10", false, 5),
        entry(".rc", false, 5),
        entry("b9", false, 5),
        entry("dir", true, 5),
    ];
    assert!(timely(&entries));
    assert_eq!(state.update_list(entries), Ok(()));
    assert_eq!(names(&state.list), vec!["dir", "b9", "b10"]);
    assert_eq!(state.list[0].file_type, FileType::Directory);
    state.show_hidden = true;
    state.sort_by = SortKey::Time;
    let entries = vec![entry("a", false, 5), entry(".b", false, 100_000_000)];
    assert_eq!(state.update_list(entries), Ok(()));
    assert_eq!(names(&state.list), vec![".b", "a"]);
}

#[test]
fn update_reports_the_first_error_and_keeps_the_listing() {
    let mut state = state();
    assert_eq!(state.update_list(vec![entry("x", false, 0)]), Ok(()));
    let entries = vec![
        entry("y", false, 0),
        Err(FxError::Io("first".to_string())),
        Err(FxError::Io("second".to_string())),
    ];
    assert_eq!(
        state.update_list(entries),
        Err(FxError::Io("first".to_string()))
    );
    assert_eq!(names(&state.list), vec!["x"]);
}

#[test]
fn entries_with_times_out_of_range_are_told() {
    assert!(timely(&vec![Err(FxError::GetItem)]));
    assert!(!timely(&vec![entry("a", false, 0), entry("b", false, i64::MAX)]));
    let behind = || vec![Err(FxError::GetItem), entry("b", false, i64::MAX)];
    assert!(timely(&behind()));
    assert_eq!(state().update_list(behind()), Err(FxError::GetItem));
}

#[test]
fn session_keeps_key_and_hidden_items() {
    let mut state = state();
    state.sort_by = SortKey::Time;
    state.show_hidden = true;
    assert_eq!(
        state.write_session(),
        Session {
            sort_by: SortKey::Time,
            show_hidden: true
        }
    );
}
