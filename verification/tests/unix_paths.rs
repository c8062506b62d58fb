use std::path::{Path, PathBuf};

use block_benchie::path::{markdown_output_path, UnixPath};

const PATHS: [&str; 34] = [
    "",
    "/",
    "//",
    ".",
    "..",
    "./",
    "../",
    "./.",
    "/.",
    "/..",
    "a",
    "a/",
    "a//",
    "a/.",
    "a/./",
    "a/..",
    "./a",
    "/a",
    "//a",
    "a.svg",
    "a.b.svg",
    ".svg",
    "..svg",
    "...",
    "a.",
    "a.svg/",
    "dir/a.svg",
    "dir//a.svg",
    "dir/./a.svg",
    "dir.d/a",
    "/dev/disk/by-id/nvme-Disk",
    "/dev/disk//by-id/./nvme-Disk/",
    "a/./b",
    "a/b",
];

fn shown(path: &UnixPath) -> String {
    path.display()
}

#[test]
fn file_names_agree_with_the_standard_library() {
    for path in PATHS {
        let expected = Path::new(path)
            .file_name()
            .and_then(|name| name.to_str())
            .map(|name| name.to_string());
        assert_eq!(UnixPath::from_text(path).file_name(), expected, "{path:?}");
    }
}

#[test]
fn markdown_paths_agree_with_the_standard_library() {
    for path in PATHS {
        let mut expected = PathBuf::from(path);
        expected.set_extension("md");
        let found = markdown_output_path(&UnixPath::from_text(path));
        assert_eq!(shown(&found), expected.to_str().unwrap(), "{path:?}");
    }
}

#[test]
fn path_equality_agrees_with_the_standard_library() {
    for a in PATHS {
        for b in PATHS {
            let same = UnixPath::from_text(a).same_as(&UnixPath::from_text(b));
            assert_eq!(same, Path::new(a) == Path::new(b), "{a:?} {b:?}");
        }
    }
}

#[test]
fn markdown_report_shares_the_base_name() {
    let md = markdown_output_path(&UnixPath::from_text("out/nvme0n1.svg"));
    assert_eq!(shown(&md), "out/nvme0n1.md");
    assert_eq!(shown(&markdown_output_path(&md)), "out/nvme0n1.md");
}

#[test]
fn a_graph_named_md_shares_its_path_with_the_report() {
    for shared in ["out.md", "a/b.svg.md", "...md", ".."] {
        assert_eq!(shown(&markdown_output_path(&UnixPath::from_text(shared))), shared);
    }
    for (svg, md) in [(".md", ".md.md"), ("a.md/", "a.md"), ("amd", "amd.md"), ("a.mdx", "a.md")] {
        assert_eq!(shown(&markdown_output_path(&UnixPath::from_text(svg))), md);
    }
}

#[test]
fn a_path_without_file_name_keeps_its_spelling() {
    assert_eq!(shown(&markdown_output_path(&UnixPath::from_text("out/.."))), "out/..");
    assert_eq!(shown(&markdown_output_path(&UnixPath::from_text("/"))), "/");
}

#[test]
fn bytes_that_are_not_utf8_show_as_replacement_characters() {
    let path = UnixPath::from_bytes(vec![b'd', b'/', 0xff, b'x']);
    assert_eq!(path.display(), "d/\u{fffd}x");
    assert_eq!(path.file_name(), None);
    let md = markdown_output_path(&path);
    assert_eq!(md.bytes, vec![b'd', b'/', 0xff, b'x', b'.', b'm', b'd']);
}

#[test]
fn text_beyond_ascii_is_kept() {
    let path = UnixPath::from_text("d/größe.svg");
    assert_eq!(path.display(), "d/größe.svg");
    assert_eq!(path.file_name(), Some("größe.svg".to_string()));
    assert_eq!(shown(&path.clone()), "d/größe.svg");
}

#[test]
fn very_long_paths_are_compared() {
    let long = "/a".repeat(65_536);
    let longer = format!("{long}/./");
    assert!(UnixPath::from_text(&long).same_as(&UnixPath::from_text(&longer)));
    assert!(!UnixPath::from_text(&long).same_as(&UnixPath::from_text("/dev/sda")));
    assert!(!UnixPath::from_text(&long).same_as(&UnixPath::from_text(&long[1..])));
}
