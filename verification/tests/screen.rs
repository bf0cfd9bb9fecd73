use felix_state::draw::Draw;
use felix_state::error::FxError;
use felix_state::item::{Entry, EntryMeta, FileType, ItemInfo};
use felix_state::layout::{Colorname, ConfigColor, Layout, Num, Widths};
use felix_state::path::FilePath;
use felix_state::session::{Session, SortKey};
use felix_state::state::{Startup, State};
use felix_state::view::{entries_have_room, list_has_room, Screen};

const WIDTHS: Widths = Widths {
    proper: 28,
    time: 16,
};

fn path(text: &str) -> FilePath {
    FilePath::from_bytes(text.as_bytes())
}

fn item(name: &str, file_type: FileType) -> ItemInfo {
    ItemInfo {
        file_type,
        file_name: name.to_string(),
        file_path: path("/home").join_name(name),
        symlink_dir_path: None,
        file_size: 2_048,
        file_ext: None,
        modified: Some("2022-08-09T00:00:00+00:00".to_string()),
        is_hidden: false,
        selected: false,
    }
}

fn state(names: &[&str]) -> State {
    let start = Startup {
        default: Some("nvim".to_string()),
        commands: None,
        use_full_width: Some(true),
        item_name_length: Some(30),
        color: ConfigColor {
            dir_fg: Colorname::LightCyan,
            file_fg: Colorname::LightWhite,
            symlink_fg: Colorname::LightYellow,
        },
        session: Session {
            sort_by: SortKey::Name,
            show_hidden: false,
        },
        column: 60,
        row: 24,
        has_chafa: false,
        term: None,
        editor: None,
        rust_log: None,
    };
    let mut state = State::new(start, |_, _, _| (33, 10)).unwrap();
    state.current_dir = path("/home");
    state.list = names.iter().map(|n| item(n, FileType::File)).collect();
    state
}

fn size(n: u64) -> String {
    format!("{}KB", n / 1_024)
}

fn text(s: &str) -> Draw {
    Draw::Text(s.to_string())
}

fn time(negative: bool) -> Draw {
    Draw::Time {
        modified: Some("2022-08-09T00:00:00+00:00".to_string()),
        negative,
    }
}

fn rows(steps: &[Draw]) -> Vec<u16> {
    steps
        .iter()
        .filter_map(|s| match s {
            Draw::MoveTo(3, row) => Some(*row),
            _ => None,
        })
        .collect()
}

#[test]
fn row_of_an_item() {
    let state = state(&["notes"]);
    assert_eq!(
        state.print(0, &WIDTHS),
        vec![
            Draw::SetColor(Colorname::LightWhite),
            text("notes"),
            Draw::MoveLeft(100),
            Draw::MoveRight(32),
            text(" "),
            time(false),
            Draw::ResetColor,
            Draw::ClearUntilNewline,
        ]
    );
}

#[test]
fn row_of_a_selected_item_is_reversed() {
    let mut state = state(&["notes"]);
    state.list[0].selected = true;
    assert_eq!(
        state.print(0, &WIDTHS),
        vec![
            Draw::SetColor(Colorname::LightWhite),
            Draw::Negative("notes".to_string()),
            Draw::MoveLeft(100),
            Draw::MoveRight(32),
            text(" "),
            time(true),
            Draw::ClearUntilNewline,
        ]
    );
}

#[test]
fn row_on_a_narrow_terminal_has_no_time() {
    let mut state = state(&["notes"]);
    state.layout.terminal_column = 27;
    assert_eq!(
        state.print(0, &WIDTHS),
        vec![
            Draw::SetColor(Colorname::LightWhite),
            text("notes"),
            Draw::ResetColor,
        ]
    );
    state.layout.time_start_pos = 10;
    state.list[0].selected = true;
    assert_eq!(
        state.print(0, &WIDTHS),
        vec![
            Draw::SetColor(Colorname::LightWhite),
            Draw::Negative("notes".to_string()),
            Draw::ClearUntilNewline,
        ]
    );
}

#[test]
fn rest_of_a_row_is_cleared_only_behind_the_time() {
    let mut state = state(&["notes"]);
    state.layout.terminal_column = 49;
    assert!(!state.print(0, &WIDTHS).contains(&Draw::ClearUntilNewline));
    state.layout.terminal_column = 50;
    assert!(state.print(0, &WIDTHS).contains(&Draw::ClearUntilNewline));
}

#[test]
fn color_of_a_row_tells_the_kind() {
    let mut state = state(&[]);
    state.list = vec![
        item("d", FileType::Directory),
        item("f", FileType::File),
        item("l", FileType::Symlink),
    ];
    let color = |i: usize| match state.print(i, &WIDTHS)[0] {
        Draw::SetColor(color) => color,
        _ => unreachable!(),
    };
    assert_eq!(color(0), Colorname::LightCyan);
    assert_eq!(color(1), Colorname::LightWhite);
    assert_eq!(color(2), Colorname::LightYellow);
}

#[test]
fn long_name_is_cut_off() {
    let state = state(&["0123456789", "0123456789a", "éééééééééééé"]);
    assert_eq!(state.print(0, &WIDTHS)[1], text("0123456789"));
    assert_eq!(state.print(1, &WIDTHS)[1], text("01234567.."));
    assert_eq!(state.print(2, &WIDTHS)[1], text("éééééééé.."));
}

#[test]
fn listing_has_a_row_for_each_item() {
    let state = state(&["a", "b", "c"]);
    let steps = state.list_up(0, &WIDTHS);
    assert_eq!(rows(&steps), vec![3, 4, 5]);
    assert_eq!(steps.len(), 3 * 9);
    assert_eq!(steps[9 + 2], text("b"));
}

#[test]
fn listing_is_scrolled() {
    let state = state(&["a", "b", "c"]);
    let steps = state.list_up(2, &WIDTHS);
    assert_eq!(rows(&steps), vec![3]);
    assert_eq!(steps[2], text("c"));
    assert!(state.list_up(3, &WIDTHS).is_empty());
    assert!(state.list_up(9, &WIDTHS).is_empty());
}

#[test]
fn listing_ends_with_the_terminal() {
    let mut state = state(&["a", "b", "c", "d"]);
    state.layout.terminal_row = 5;
    let steps = state.list_up(0, &WIDTHS);
    assert_eq!(rows(&steps), vec![3, 4, 5]);
    assert_eq!(steps.len(), 2 * 9 + 1);
    assert_eq!(rows(&state.list_up(2, &WIDTHS)), vec![3, 4]);
    state.layout.terminal_row = 3;
    assert_eq!(state.list_up(0, &WIDTHS), vec![Draw::MoveTo(3, 3)]);
}

#[test]
fn footer_of_an_item() {
    let mut state = state(&["a", "b"]);
    state.layout.terminal_column = 12;
    let nums = Num { index: 1, skip: 0 };
    assert_eq!(
        state.print_footer(&nums, &state.list[1], &size),
        vec![
            Draw::MoveTo(1, 24),
            Draw::ClearCurrentLine,
            Draw::Negative(" ".repeat(12)),
            Draw::MoveTo(1, 24),
            Draw::Negative("[2/2] 2KB".to_string()),
        ]
    );
    state.list[1].file_ext = Some("txt".to_string());
    assert_eq!(
        state.print_footer(&nums, &state.list[1], &size)[4],
        Draw::Negative("[2/2] txt 2K".to_string())
    );
}

#[test]
fn footer_with_a_log() {
    let mut state = state(&["a", "b"]);
    state.rust_log = Some("info".to_string());
    let nums = Num { index: 1, skip: 1 };
    assert_eq!(
        state.print_footer(&nums, &state.list[1], &size)[4],
        Draw::Negative("[2/2] 2KB index:1 skip:1 column:60 row:24".to_string())
    );
    state.list[1].file_ext = Some("rs".to_string());
    assert_eq!(
        state.print_footer(&nums, &state.list[1], &size)[4],
        Draw::Negative("[2/2] rs 2KB index:1 skip:1 column:60 row:24".to_string())
    );
}

#[test]
fn cursor_moves_to_an_item() {
    let mut state = state(&["a", "b"]);
    let nums = Num { index: 1, skip: 0 };
    let steps = state.move_cursor(&nums, 4, &size);
    assert_eq!(steps[0], Draw::DeleteCursor);
    assert_eq!(steps[1..6], state.print_footer(&nums, &state.list[1], &size));
    assert_eq!(
        steps[6..],
        [Draw::MoveTo(1, 4), Draw::Pointer, Draw::MoveLeft(1)]
    );
    assert_eq!(state.layout.y, 4);
    state.layout.preview = true;
    let steps = state.move_cursor(&nums, 4, &size);
    assert_eq!(steps[6], Draw::Preview { index: 1, y: 4 });
    assert_eq!(steps.len(), 10);
}

#[test]
fn cursor_moves_where_there_is_no_item() {
    let mut state = state(&[]);
    let steps = state.move_cursor(&Num { index: 0, skip: 0 }, 3, &size);
    assert_eq!(
        steps,
        vec![Draw::MoveTo(1, 3), Draw::Pointer, Draw::MoveLeft(1)]
    );
}

#[test]
fn headline_shows_the_directory() {
    let mut state = state(&[]);
    let plain = vec![
        Draw::ClearAll,
        Draw::MoveTo(1, 1),
        Draw::SetColor(Colorname::Cyan),
        text(" "),
        Draw::Path(path("/home")),
        Draw::ResetColor,
    ];
    assert_eq!(state.clear_and_show_headline(&None), plain);
    state.filtered = true;
    let steps = state.clear_and_show_headline(&None);
    assert_eq!(steps[..6], plain);
    state.current_dir = path("/home//./");
    match &state.clear_and_show_headline(&None)[4] {
        Draw::Path(shown) => assert_eq!(shown.to_bytes(), b"/home//./"),
        _ => panic!(),
    }
    assert_eq!(steps[6..], [text(" (filtered)")]);
}

#[test]
fn headline_shows_the_branch() {
    let state = state(&[]);
    let branch = |head: &[u8]| state.clear_and_show_headline(&Some(head.to_vec()))[6..].to_vec_debug();
    assert_eq!(
        branch(b"ref: refs/heads/main\n"),
        [
            text(" on "),
            Draw::SetColor(Colorname::LightMagenta),
            Draw::Bold("main".to_string()),
            Draw::ResetColor,
        ]
        .to_vec_debug()
    );
    assert_eq!(branch(b"short")[2], format!("{:?}", Draw::Bold(String::new())));
    let mut odd = b"ref: refs/heads/".to_vec();
    odd.push(255);
    assert!(branch(&odd).is_empty());
}

trait ToDebug {
    fn to_vec_debug(&self) -> Vec<String>;
}

impl ToDebug for [Draw] {
    fn to_vec_debug(&self) -> Vec<String> {
        self.iter().map(|d| format!("{:?}", d)).collect()
    }
}

#[test]
fn screen_is_headline_listing_and_cursor() {
    let mut drawn = state(&["a", "b"]);
    let nums = Num { index: 1, skip: 0 };
    let screen = Screen {
        widths: WIDTHS,
        head: None,
    };
    let steps = drawn.redraw(&nums, 4, &screen, &size);
    let mut same = state(&["a", "b"]);
    let mut expected = same.clear_and_show_headline(&None);
    expected.extend(same.list_up(0, &WIDTHS));
    expected.extend(same.move_cursor(&nums, 4, &size));
    assert_eq!(steps, expected);
    assert_eq!(drawn.layout.y, 4);
}

fn entry(name: &str) -> Result<Entry, FxError> {
    Ok(Entry {
        path: path("/home").join_name(name),
        name: name.as_bytes().to_vec(),
        meta: Some(EntryMeta {
            is_dir: false,
            is_file: true,
            is_symlink: false,
            modified_secs: 0,
            modified_nanos: 0,
            len: 1,
            target_is_dir: None,
            canonical: None,
        }),
    })
}

#[test]
fn reloading_lists_and_draws() {
    let mut state = state(&["gone"]);
    let nums = Num { index: 0, skip: 0 };
    let screen = Screen {
        widths: WIDTHS,
        head: None,
    };
    let entries = vec![entry("b"), entry("a")];
    assert!(entries_have_room(&entries, &state.layout, &WIDTHS, 0));
    let steps = state.reload(entries, &nums, 5, &screen, &size).unwrap();
    assert!(steps.contains(&text("a")));
    assert!(steps.contains(&Draw::Negative("[1/2] 0KB".to_string())));
    assert_eq!(state.list[0].file_name, "a");
    assert_eq!(state.layout.y, 5);
    let broken = vec![entry("x"), Err(FxError::Io("gone".to_string()))];
    assert_eq!(
        state.reload(broken, &nums, 6, &screen, &size),
        Err(FxError::Io("gone".to_string()))
    );
    assert_eq!(state.list[0].file_name, "a");
    assert_eq!(state.layout.y, 5);
}

#[test]
fn refreshing_lays_the_screen_out_anew() {
    let mut state = state(&["a"]);
    let screen = Screen {
        widths: WIDTHS,
        head: None,
    };
    let before = state.layout;
    let steps = state.refresh(
        40,
        10,
        &Num { index: 0, skip: 0 },
        3,
        &screen,
        &|column, use_full, length| {
            assert_eq!((column, use_full, length), (40, Some(true), Some(30)));
            (20, 15)
        },
        &size,
    );
    assert_eq!(
        state.layout,
        Layout {
            y: 3,
            terminal_row: 10,
            terminal_column: 40,
            preview_start_column: 42,
            preview_width: 39,
            name_max_len: 15,
            time_start_pos: 20,
            ..before
        }
    );
    assert!(steps.contains(&Draw::MoveRight(19)));
    assert!(steps.contains(&Draw::MoveTo(1, 10)));
}

#[test]
fn room_for_a_listing() {
    let state = state(&["a", "0123456789a"]);
    assert!(list_has_room(&state.list, &state.layout, &WIDTHS, 0));
    let low = Layout {
        terminal_row: 2,
        ..state.layout
    };
    assert!(!list_has_room(&state.list, &low, &WIDTHS, 0));
    assert!(list_has_room(&state.list, &low, &WIDTHS, 2));
    let narrow = Layout {
        name_max_len: 1,
        ..state.layout
    };
    assert!(!list_has_room(&state.list, &narrow, &WIDTHS, 0));
    let short = Layout {
        terminal_row: 4,
        ..narrow
    };
    assert!(list_has_room(&state.list, &short, &WIDTHS, 0));
    let no_time = Layout {
        time_start_pos: 0,
        ..state.layout
    };
    assert!(!list_has_room(&state.list, &no_time, &WIDTHS, 0));
    let wide = Layout {
        time_start_pos: u16::MAX,
        ..state.layout
    };
    assert!(!list_has_room(&state.list, &wide, &WIDTHS, 0));
    let entries = vec![entry("a"), entry("0123456789a")];
    assert!(entries_have_room(&entries, &state.layout, &WIDTHS, 0));
    assert!(!entries_have_room(&entries, &narrow, &WIDTHS, 0));
    assert!(!entries_have_room(&entries, &low, &WIDTHS, 1));
    assert!(entries_have_room(&entries, &low, &WIDTHS, 2));
}
