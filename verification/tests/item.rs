use felix_state::clock::{moment, FIRST_SECOND, LAST_SECOND};
use felix_state::item::{
    copy_items, copy_path, copy_text, make_item, make_item_at, Entry, EntryMeta, FileType, ItemInfo,
};
use felix_state::path::FilePath;

fn path(text: &str) -> FilePath {
    FilePath::from_bytes(text.as_bytes())
}

fn file_meta(secs: i64) -> EntryMeta {
    EntryMeta {
        is_dir: false,
        is_file: true,
        is_symlink: false,
        modified_secs: secs,
        modified_nanos: 0,
        len: 42,
        target_is_dir: None,
        canonical: None,
    }
}

fn entry(name: &str, meta: Option<EntryMeta>) -> Entry {
    Entry {
        path: path("/home").join_name(name),
        name: name.as_bytes().to_vec(),
        meta,
    }
}

fn text(s: &str) -> Option<String> {
    Some(s.to_string())
}

#[test]
fn item_of_a_file() {
    let item = make_item_at(&entry("Photo.JPG", Some(file_meta(0))), "then".to_string());
    assert_eq!(
        item,
        ItemInfo {
            file_type: FileType::File,
            file_name: "Photo.JPG".to_string(),
            file_path: path("/home/Photo.JPG"),
            symlink_dir_path: None,
            file_size: 42,
            file_ext: text("jpg"),
            modified: text("then"),
            is_hidden: false,
            selected: false,
        }
    );
}

#[test]
fn item_of_a_directory_has_no_extension() {
    let meta = EntryMeta {
        is_dir: true,
        is_file: false,
        ..file_meta(0)
    };
    let item = make_item_at(&entry(".conf.d", Some(meta)), "then".to_string());
    assert_eq!(item.file_type, FileType::Directory);
    assert_eq!(item.file_ext, None);
    assert!(item.is_hidden);
}

#[test]
fn item_of_a_link() {
    let link = |target_is_dir: Option<bool>, canonical: Option<&str>| EntryMeta {
        is_file: false,
        is_symlink: true,
        target_is_dir,
        canonical: canonical.map(path),
        ..file_meta(0)
    };
    let make = |meta: EntryMeta| make_item_at(&entry("link.d", Some(meta)), String::new());
    let to_dir = make(link(Some(true), Some("/srv/data")));
    assert_eq!(to_dir.file_type, FileType::Symlink);
    assert_eq!(to_dir.file_ext, text("d"));
    assert_eq!(to_dir.symlink_dir_path, Some(path("/srv/data")));
    assert_eq!(make(link(Some(false), Some("/srv/data"))).symlink_dir_path, None);
    assert_eq!(make(link(None, None)).symlink_dir_path, None);
    assert_eq!(make(link(Some(true), None)).symlink_dir_path, None);
}

#[test]
fn item_of_another_kind_is_a_file() {
    let meta = EntryMeta {
        is_file: false,
        ..file_meta(0)
    };
    let item = make_item_at(&entry("socket", Some(meta)), String::new());
    assert_eq!(item.file_type, FileType::File);
    assert_eq!(item.file_ext, None);
}

#[test]
fn item_without_metadata() {
    let item = make_item(&entry(".hidden.Txt", None));
    assert_eq!(
        item,
        ItemInfo {
            file_type: FileType::File,
            file_name: ".hidden.Txt".to_string(),
            file_path: path("/home/.hidden.Txt"),
            symlink_dir_path: None,
            file_size: 0,
            file_ext: text("txt"),
            modified: None,
            is_hidden: false,
            selected: false,
        }
    );
}

#[test]
fn item_whose_name_is_no_text() {
    let odd = Entry {
        path: FilePath::from_bytes(&[47, 255, 46, 254]),
        name: vec![255, 46, 254],
        meta: Some(file_meta(0)),
    };
    let item = make_item_at(&odd, String::new());
    assert_eq!(item.file_name, "Invalid unicode name");
    assert_eq!(item.file_ext, text(""));
}

#[test]
fn name_beyond_ascii_is_text() {
    let item = make_item_at(&entry("é»𝄞.Ä", Some(file_meta(0))), String::new());
    assert_eq!(item.file_name, "é»𝄞.Ä");
    assert_eq!(item.file_ext, text("Ä"));
}

/// The number that the digits of a part of a text form.
fn number(stamp: &str, from: usize, to: usize) -> i64 {
    stamp[from..to].parse().unwrap()
}

/// The days of the years from one to another.
fn days_of_years(from: i64, to: i64) -> i64 {
    let days_before = |year: i64| {
        let past = year - 1;
        365 * year + past.div_euclid(4) - past.div_euclid(100) + past.div_euclid(400)
    };
    days_before(to) - days_before(from)
}

/// The second that a stamp names, counted day by day.
fn second_of(stamp: &str) -> i64 {
    let is_leap = |year: i64| year % 4 == 0 && (year % 100 != 0 || year % 400 == 0);
    let months = [31, 28, 31, 30, 31, 30, 31, 31, 30, 31, 30, 31];
    let at = stamp.len() - 21;
    let year = number(stamp, 0, at);
    let stamp = &stamp[at - 4..];
    let mut days = days_of_years(1970, year);
    for (m, length) in months.iter().enumerate().take(number(stamp, 5, 7) as usize - 1) {
        days += length + i64::from(m == 1 && is_leap(year));
    }
    days += number(stamp, 8, 10) - 1;
    let local = days * 86_400
        + number(stamp, 11, 13) * 3_600
        + number(stamp, 14, 16) * 60
        + number(stamp, 17, 19);
    let offset = number(stamp, 20, 22) * 3_600 + number(stamp, 23, 25) * 60;
    if &stamp[19..20] == "-" {
        local + offset
    } else {
        local - offset
    }
}

#[test]
fn time_of_an_item_is_written_out() {
    for secs in [
        0,
        -1,
        951_782_400,
        1_660_000_000,
        4_102_444_800,
        -2_208_988_800,
        253_402_000_000,
        -62_000_000_000,
    ] {
        let modified = make_item(&entry("x", Some(file_meta(secs)))).modified.unwrap();
        assert_eq!(modified.len(), 25, "{}", modified);
        assert_eq!(&modified[10..11], "T");
        assert!((second_of(&modified) - secs).abs() <= 30, "{}", modified);
    }
}

#[test]
fn year_of_a_time_may_have_a_sign() {
    let year = |secs: i64| {
        let modified = make_item(&entry("x", Some(file_meta(secs)))).modified.unwrap();
        assert!((second_of(&modified) - secs).abs() <= 30, "{}", modified);
        modified[..modified.len() - 21].to_string()
    };
    assert_eq!(year(253_410_000_000), "+10000");
    assert_eq!(year(-62_180_000_000), "-0001");
    assert_eq!(year(-62_150_000_000), "0000");
    assert_eq!(year(LAST_SECOND - 200_000), "+262142");
    assert_eq!(year(FIRST_SECOND + 200_000), "-262143");
}

#[test]
fn times_that_can_be_written_out() {
    assert!(moment(0, 0));
    assert!(moment(0, 999_999_999));
    assert!(!moment(0, 1_000_000_000));
    assert!(!moment(i64::MAX, 0));
    assert!(!moment(i64::MIN, 0));
    for secs in [FIRST_SECOND, LAST_SECOND] {
        assert!(moment(secs, 0));
        assert!(make_item(&entry("x", Some(file_meta(secs)))).modified.is_some());
    }
    assert!(!moment(FIRST_SECOND - 1, 0));
    assert!(!moment(LAST_SECOND + 1, 0));
}

#[test]
fn items_are_ordered_by_kind_and_name() {
    let make = |name: &str, is_dir: bool| {
        let meta = EntryMeta {
            is_dir,
            is_file: !is_dir,
            ..file_meta(0)
        };
        make_item_at(&entry(name, Some(meta)), String::new())
    };
    assert!(make("z", true) < make("a", false));
    assert!(make("a", false) < make("b", false));
    assert!(path("/a/b") < path("/a/b/c"));
    assert!(path("/a/b/c") < path("/a/c"));
}

#[test]
fn copies_of_items_are_the_same() {
    let item = make_item_at(&entry("a.b", Some(file_meta(3))), "t".to_string());
    let copies = copy_items(&[item.clone(), item.clone()]);
    assert_eq!(copies.len(), 2);
    assert_eq!(copies[1], item);
    assert_eq!(copy_text(&text("t")), text("t"));
    assert_eq!(copy_text(&None), None);
    assert_eq!(copy_path(&Some(path("/a"))), Some(path("/a")));
    assert_eq!(copy_path(&None), None);
}
