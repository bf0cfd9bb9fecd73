use felix_state::path::{copy_paths, FilePath};
use felix_state::route::{copy_bytes, same_bytes, Route};
use std::path::{Path, PathBuf};

fn path(text: &str) -> FilePath {
    FilePath::from_bytes(text.as_bytes())
}

fn text(path: &FilePath) -> String {
    String::from_utf8(path.to_bytes()).unwrap()
}

const TEXTS: [&str; 36] = [
    "", "/", "a", "/a", "a/b", "/a/b", "a/", "/a//b/", ".", "./a", "a/.", "a/./b", "/./a", "..",
    "../a", "a/..", "a/../b", "/..", "x.tar.gz", "/h/.bashrc", "foo.", "/h/dir.d/File.TXT",
    "//a", "a//", "/a/./", "./", "./.", "././a", "a/./b/.", "/../a/", "!", "-", "a-b", "a/!", "a/..b",
    "/a/../b//c",
];

#[test]
fn path_keeps_its_text() {
    for t in TEXTS {
        assert_eq!(text(&path(t)), t);
    }
    assert_eq!(text(&path("/home//docs/./x/")), "/home//docs/./x/");
}

#[test]
fn components_of_a_path_name_it() {
    let normal = |t: &str| String::from_utf8(Route::parse(t.as_bytes()).to_bytes()).unwrap();
    assert_eq!(normal("/home/user//docs/./x.txt/"), "/home/user/docs/x.txt");
    assert_eq!(normal("./a"), "./a");
    assert_eq!(normal("a/./b"), "a/b");
    assert_eq!(normal("/"), "/");
    assert_eq!(normal(""), "");
    for t in TEXTS {
        let collected: PathBuf = Path::new(t).iter().collect();
        assert_eq!(normal(t), collected.to_str().unwrap());
        assert_eq!(path(&normal(t)), path(t), "{}", t);
    }
}

#[test]
fn order_is_that_of_components() {
    for left in TEXTS {
        for right in TEXTS {
            assert_eq!(
                path(left).partial_cmp(&path(right)),
                Path::new(left).partial_cmp(Path::new(right)),
                "{} {}",
                left,
                right
            );
        }
    }
    assert!(path("/a") < path("a"));
    assert!(path(".") < path("!"));
    assert!(path("..") < path("!"));
    assert!(path("a/b") < path("a-b"));
}

#[test]
fn equality_is_that_of_components() {
    for left in TEXTS {
        for right in TEXTS {
            let expected = Path::new(left) == Path::new(right);
            assert_eq!(path(left).same(&path(right)), expected, "{} {}", left, right);
        }
    }
}

#[test]
fn joining_paths() {
    for left in TEXTS {
        for right in TEXTS {
            let expected = Path::new(left).join(right);
            assert_eq!(
                text(&path(left).join(&path(right))),
                expected.to_str().unwrap(),
                "{} {}",
                left,
                right
            );
            assert_eq!(path(left).join_name(right), path(left).join(&path(right)));
        }
    }
    assert_eq!(text(&path("/trash").join_name("1660000000_é.txt")), "/trash/1660000000_é.txt");
    assert_eq!(text(&path("/a").join_name("/b")), "/b");
}

#[test]
fn parents() {
    for t in TEXTS {
        let expected = Path::new(t).parent().map(|p| p.to_str().unwrap().to_string());
        assert_eq!(path(t).parent().map(|p| text(&p)), expected, "{}", t);
    }
    assert_eq!(path("/a/b").join_name("c").parent(), Some(path("/a/b")));
}

#[test]
fn extensions() {
    for t in TEXTS {
        let expected = Path::new(t)
            .extension()
            .map(|e| e.to_str().unwrap().as_bytes().to_vec());
        assert_eq!(path(t).extension(), expected, "{}", t);
    }
    assert_eq!(path("/a/x.tar.gz").extension(), Some(b"gz".to_vec()));
    assert_eq!(path("/a/.bashrc").extension(), None);
    assert_eq!(path("a/foo.").extension(), Some(Vec::new()));
}

#[test]
fn rest_behind_a_root() {
    for root in TEXTS {
        for t in TEXTS {
            let base = Path::new(root).iter().count();
            let expected: PathBuf = Path::new(t).iter().skip(base).collect();
            assert_eq!(
                text(&path(t).behind(&path(root))),
                expected.to_str().unwrap(),
                "{} {}",
                root,
                t
            );
        }
    }
    assert_eq!(path("/a/b/c/d").behind(&path("/a/b")), path("c/d"));
}

#[test]
fn copies_are_the_same() {
    let dir = path("/a/b");
    assert_eq!(dir.clone(), dir);
    assert_eq!(copy_paths(&vec![path("a"), path("/b")]), vec![path("a"), path("/b")]);
    assert_eq!(copy_bytes(&vec![0, 255, 47]), vec![0, 255, 47]);
    assert!(same_bytes(&vec![1, 2], &vec![1, 2]));
    assert!(!same_bytes(&vec![1, 2], &vec![1, 3]));
    assert!(!same_bytes(&vec![1], &vec![1, 3]));
    assert_eq!(FilePath::new(), path(""));
}

#[test]
fn names_that_are_no_text_are_kept() {
    let odd = FilePath::from_bytes(&[47, 255, 254, 47, 120]);
    assert_eq!(odd.to_bytes(), vec![47, 255, 254, 47, 120]);
    assert_eq!(odd.text, vec![47, 255, 254, 47, 120]);
}
