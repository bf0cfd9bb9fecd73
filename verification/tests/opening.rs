use felix_state::error::FxError;
use felix_state::item::{FileType, ItemInfo};
use felix_state::layout::{Colorname, ConfigColor};
use felix_state::open::{is_supported_image, opened, Launch};
use felix_state::path::FilePath;
use felix_state::session::{Session, SortKey};
use felix_state::state::{Startup, State, StringHashMap};

fn path(text: &str) -> FilePath {
    FilePath::from_bytes(text.as_bytes())
}

fn item(name: &str, ext: Option<&str>) -> ItemInfo {
    ItemInfo {
        file_type: FileType::File,
        file_name: name.to_string(),
        file_path: path("/home").join_name(name),
        symlink_dir_path: None,
        file_size: 7,
        file_ext: ext.map(|e| e.to_string()),
        modified: None,
        is_hidden: false,
        selected: false,
    }
}

fn state(commands: &[(&str, &str)]) -> State {
    let mut map = StringHashMap::new();
    for (ext, command) in commands {
        map.insert(ext.to_string(), command.to_string());
    }
    let start = Startup {
        default: Some("nvim".to_string()),
        commands: if commands.is_empty() { None } else { Some(map) },
        use_full_width: None,
        item_name_length: None,
        color: ConfigColor {
            dir_fg: Colorname::Blue,
            file_fg: Colorname::White,
            symlink_fg: Colorname::Green,
        },
        session: Session {
            sort_by: SortKey::Name,
            show_hidden: false,
        },
        column: 80,
        row: 24,
        has_chafa: false,
        term: None,
        editor: None,
        rust_log: None,
    };
    State::new(start, |_, _, _| (33, 30)).unwrap()
}

fn launch(program: &str, name: &str) -> Launch {
    Launch {
        program: program.to_string(),
        path: path("/home").join_name(name),
    }
}

#[test]
fn file_is_opened_by_its_extension() {
    let with = state(&[("jpg", "feh"), ("pdf", "zathura")]);
    assert_eq!(with.open_file(&item("a.jpg", Some("jpg"))), launch("feh", "a.jpg"));
    assert_eq!(with.open_file(&item("a.pdf", Some("pdf"))), launch("zathura", "a.pdf"));
    assert_eq!(with.open_file(&item("a.txt", Some("txt"))), launch("nvim", "a.txt"));
    assert_eq!(with.open_file(&item("a", None)), launch("nvim", "a"));
    let without = state(&[]);
    assert_eq!(without.open_file(&item("a.jpg", Some("jpg"))), launch("nvim", "a.jpg"));
}

#[test]
fn file_is_opened_in_a_new_window_by_its_extension_only() {
    let mut with = state(&[("jpg", "feh")]);
    with.list = vec![item("a.jpg", Some("jpg")), item("b.txt", Some("txt")), item("c", None)];
    assert_eq!(with.open_file_in_new_window(0), Ok(launch("feh", "a.jpg")));
    assert_eq!(with.open_file_in_new_window(1), Err(FxError::OpenNewWindow));
    assert_eq!(with.open_file_in_new_window(2), Err(FxError::OpenNewWindow));
    assert_eq!(with.open_file_in_new_window(3), Err(FxError::GetItem));
    let mut without = state(&[]);
    without.list = vec![item("a.jpg", Some("jpg"))];
    assert_eq!(without.open_file_in_new_window(0), Err(FxError::OpenNewWindow));
}

#[test]
fn program_that_cannot_be_run_is_an_error() {
    assert_eq!(opened(Some(3)), Ok(3));
    assert_eq!(opened::<u8>(None), Err(FxError::OpenItem));
}

#[test]
fn images_are_told_by_their_type() {
    let answer = |text: &str| Some(text.as_bytes().to_vec());
    assert!(is_supported_image(&answer("/a/b.png: image/png; charset=binary\n")));
    assert!(!is_supported_image(&answer("/a/image: text/plain; charset=image\n")));
    assert!(!is_supported_image(&answer("x;")));
    assert!(is_supported_image(&answer("x;image")));
    assert!(!is_supported_image(&answer("x:;image")));
    assert!(!is_supported_image(&Some(vec![255, 58])));
    assert!(!is_supported_image(&None));
}
