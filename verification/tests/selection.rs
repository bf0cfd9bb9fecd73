use felix_state::error::FxError;
use felix_state::item::{FileType, ItemInfo};
use felix_state::layout::{Colorname, ConfigColor};
use felix_state::path::FilePath;
use felix_state::session::{Session, SortKey};
use felix_state::state::{Startup, State};

fn path(text: &str) -> FilePath {
    FilePath::from_bytes(text.as_bytes())
}

fn item(name: &str) -> ItemInfo {
    ItemInfo {
        file_type: FileType::File,
        file_name: name.to_string(),
        file_path: path("/home").join_name(name),
        symlink_dir_path: None,
        file_size: 7,
        file_ext: None,
        modified: None,
        is_hidden: false,
        selected: false,
    }
}

fn state(names: &[&str]) -> State {
    let start = Startup {
        default: Some("nvim".to_string()),
        commands: None,
        use_full_width: None,
        item_name_length: None,
        color: ConfigColor {
            dir_fg: Colorname::Blue,
            file_fg: Colorname::White,
            symlink_fg: Colorname::Green,
        },
        session: Session {
            sort_by: SortKey::Name,
            show_hidden: false,
        },
        column: 80,
        row: 24,
        has_chafa: false,
        term: None,
        editor: None,
        rust_log: None,
    };
    let mut state = State::new(start, |_, _, _| (33, 30)).unwrap();
    state.list = names.iter().map(|n| item(n)).collect();
    state
}

fn selection(state: &State) -> Vec<bool> {
    state.list.iter().map(|i| i.selected).collect()
}

fn registered(state: &State) -> Vec<&str> {
    state.registered.iter().map(|i| i.file_name.as_str()).collect()
}

#[test]
fn item_at_a_position() {
    let state = state(&["a", "b"]);
    assert_eq!(state.get_item(1), Ok(&item("b")));
    assert_eq!(state.get_item(2), Err(FxError::GetItem));
}

#[test]
fn item_at_a_position_can_be_changed() {
    let mut state = state(&["a", "b"]);
    state.get_item_mut(1).unwrap().selected = true;
    assert_eq!(selection(&state), vec![false, true]);
    assert_eq!(state.get_item_mut(2), Err(FxError::GetItem));
}

#[test]
fn selecting_from_the_top() {
    let mut state = state(&["a", "b", "c", "d"]);
    state.list[3].selected = true;
    state.select_from_top(1);
    assert_eq!(selection(&state), vec![true, true, false, false]);
    state.select_from_top(9);
    assert_eq!(selection(&state), vec![true; 4]);
}

#[test]
fn selecting_to_the_bottom() {
    let mut state = state(&["a", "b", "c", "d"]);
    state.list[0].selected = true;
    state.select_to_bottom(2);
    assert_eq!(selection(&state), vec![false, false, true, true]);
    state.select_to_bottom(4);
    assert_eq!(selection(&state), vec![false; 4]);
}

#[test]
fn selections_from_both_sides_meet_in_one_item() {
    let mut top = state(&["a", "b", "c"]);
    let mut bottom = state(&["a", "b", "c"]);
    top.select_from_top(1);
    bottom.select_to_bottom(1);
    let both: Vec<bool> = selection(&top)
        .iter()
        .zip(selection(&bottom))
        .map(|(t, b)| *t && b)
        .collect();
    assert_eq!(both, vec![false, true, false]);
}

#[test]
fn resetting_deselects_all_and_changes_nothing_else() {
    let mut selected = state(&["a", "b"]);
    selected.select_to_bottom(0);
    selected.reset_selection();
    assert_eq!(selected.list, state(&["a", "b"]).list);
    selected.yank_item(0, true);
    assert!(selected.registered.is_empty());
}

#[test]
fn yanking_the_selected_items() {
    let mut state = state(&["a", "b", "c"]);
    state.registered = vec![item("old")];
    state.list[0].selected = true;
    state.list[2].selected = true;
    state.yank_item(1, true);
    assert_eq!(registered(&state), vec!["a", "c"]);
    assert!(state.registered[0].selected);
}

#[test]
fn yanking_one_item() {
    let mut state = state(&["a", "b", "c"]);
    state.registered = vec![item("old")];
    state.list[0].selected = true;
    state.yank_item(1, false);
    assert_eq!(registered(&state), vec!["b"]);
}

#[test]
fn registering_an_item_of_the_trash() {
    let mut state = state(&[]);
    let mut selected = item("a");
    selected.selected = true;
    state.registered = vec![item("old")];
    state.push_to_registered(&selected, path("/trash/1_a"), "1_a".to_string());
    assert_eq!(registered(&state), vec!["old", "1_a"]);
    assert_eq!(
        state.registered[1],
        ItemInfo {
            file_name: "1_a".to_string(),
            file_path: path("/trash/1_a"),
            ..item("a")
        }
    );
}
