use std::path::{Path, PathBuf};

use rosco_cli::config::Host;
use rosco_cli::path::{
    file_name, from_host, is_absolute, is_root, join_path, leads_on, parent, path_names, tidied,
    to_host, trim_trailing,
};

const PATHS: [&str; 12] = [
    "",
    ".",
    "/",
    "a",
    "a/b",
    "/a/b/",
    "./a/./b",
    "a//b",
    "../a",
    "a/..",
    "/a/../b",
    "~/x",
];

#[test]
fn paths_lead_where_the_hosts_do() {
    for first in PATHS {
        for second in PATHS {
            let expected = Path::new(first).join(second);
            assert_eq!(Path::new(&join_path(first, second)), expected, "{first} {second}");
        }
        let path = Path::new(first);
        let tidy: PathBuf = path.components().collect();
        assert_eq!(Some(tidied(first).as_str()), tidy.to_str(), "{first}");
        assert_eq!(is_absolute(first), path.is_absolute(), "{first}");
        assert_eq!(
            file_name(first).as_deref(),
            path.file_name().and_then(|name| name.to_str()),
            "{first}"
        );
        assert_eq!(leads_on(first), path.components().count() > 1, "{first}");
        if is_absolute(first) {
            assert_eq!(
                parent(first).map(PathBuf::from),
                path.parent().map(Path::to_path_buf),
                "{first}"
            );
        }
    }
}

#[test]
fn a_tidy_path_is_left_as_it_is() {
    for path in PATHS {
        let tidy = tidied(path);
        assert_eq!(tidied(&tidy), tidy, "{path}");
        assert_eq!(path_names(&tidy), path_names(path), "{path}");
    }
    assert_eq!(
        path_names(&join_path("/a/./b/", "c//d")),
        ["a", "b", "c", "d"]
    );
    assert_eq!(path_names(&join_path("/a", "/c")), ["c"]);
}

#[test]
fn what_windows_writes_is_read_and_written_again() {
    for (typed, read, written) in [
        (r"C:\work\a.bin", "/C:/work/a.bin", "C:/work/a.bin"),
        (r"\\?\C:\work", "/C:/work", "C:/work"),
        (r"\\?\UNC\server\share\a", "//server/share/a", "//server/share/a"),
        (r"a\b/c", "a/b/c", "a/b/c"),
        (r"\a", "/a", "/a"),
        ("C:", "/C:", "C:"),
        ("1:", "1:", "1:"),
        ("", "", ""),
    ] {
        assert_eq!(from_host(typed, Host::Windows), read);
        assert_eq!(to_host(read, Host::Windows), written);
        assert_eq!(from_host(read, Host::Windows), read);
        assert_eq!(from_host(typed, Host::Linux), typed);
        assert_eq!(to_host(read, Host::MacOs), read);
    }
    assert!(is_root("/C:/", Host::Windows));
    assert!(is_root("//server/share", Host::Windows));
    assert!(!is_root("/C:/a", Host::Windows));
    assert!(!is_root("/C:a", Host::Windows));
    assert!(!is_root("/C:/", Host::Linux));
}

#[test]
fn a_trimmed_path_leads_the_same_way() {
    for path in ["/a//b/./", "a/..//", "/", "./.", "", "//a/"] {
        let trimmed = trim_trailing(path);
        assert_eq!(path_names(&trimmed), path_names(path), "{path}");
        assert_eq!(is_absolute(&trimmed), is_absolute(path), "{path}");
    }
    assert_eq!(trim_trailing("/a//b/./"), "/a//b");
    assert_eq!(trim_trailing("//"), "/");
}
