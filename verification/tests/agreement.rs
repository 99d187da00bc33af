use std::path::{Path, PathBuf};

use eris::annotate::vaild_text;
use eris::paths::{file_name, join, parent, strip_root};
use eris::sisyphus::format_name;

fn shown(path: &Path) -> String {
    path.to_string_lossy().into_owned()
}

#[test]
fn join_agrees_with_path_push() {
    for root in ["", "a", "a/", "a/b", ".", "./work", "/abs", "/"] {
        for rel in ["b", "b/c.txt", "dir/", "", "x.y.z", "图片/a.png"] {
            let mut expected = PathBuf::from(root);
            expected.push(rel);
            assert_eq!(join(root, rel), shown(&expected), "{:?} {:?}", root, rel);
        }
    }
}

#[test]
fn strip_root_agrees_with_strip_prefix() {
    let cases = [
        ("root/a/b.txt", "root"),
        ("root/a", "root/"),
        ("root", "root"),
        ("rootless/a", "root"),
        ("other/root/a", "root"),
        ("a/b", ""),
        ("./work/A002/index.html", "./work/A002"),
        ("/abs/x", "/abs"),
        ("a", "a/b"),
    ];
    for (path, root) in cases {
        let expected = Path::new(path).strip_prefix(root).ok().map(shown);
        assert_eq!(strip_root(path, root), expected, "{:?} {:?}", path, root);
    }
}

#[test]
fn file_name_agrees_with_path_file_name() {
    for path in ["a/b/c.txt", "c.txt", "./work/A002_GG42_1100X600.zip", "/abs/x", "a/b", "图/片.zip"] {
        let expected = Path::new(path).file_name().map(|n| n.to_string_lossy().into_owned());
        assert_eq!(Some(file_name(path)), expected, "{:?}", path);
    }
    assert_eq!(Path::new("").file_name(), None);
    assert_eq!(file_name(""), "");
}

#[test]
fn parent_agrees_with_path_parent_below_a_directory() {
    for path in ["a/b/c.txt", "out/a.txt", "./work/A/index.html", "/abs/x/y", "a/b"] {
        let expected = Path::new(path).parent().map(shown);
        assert_eq!(parent(path), expected, "{:?}", path);
    }
}

#[test]
fn format_name_agrees_with_the_first_piece() {
    for name in ["test.zip", "a.b.zip", "noext", ".hidden", "", "..", "图片.zip"] {
        assert_eq!(format_name(name), name.split('.').next().unwrap(), "{:?}", name);
    }
}

#[test]
fn valid_text_agrees_with_trimmed_lines() {
    let samples = [
        "",
        " ",
        "\n",
        "  \n人才发展\n  ",
        "\t\r\n\u{b}\u{c}\u{85}\u{a0}\u{1680}\u{2003}\u{2028}\u{2029}\u{202f}\u{205f}\u{3000}",
        "\u{200b}",
        "\u{feff}\n",
        " a",
        "\n\n\n.",
        "\u{a0}x\u{a0}",
    ];
    for text in samples {
        let expected = text.split('\n').any(|line| !line.trim().is_empty());
        assert_eq!(vaild_text(text), expected, "{:?}", text);
    }
}
