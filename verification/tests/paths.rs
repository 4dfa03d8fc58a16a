//! Paths as byte sequences.

use processguard::paths::{
    at_path, cannot, resolve_from, suffixed, valid_app_name, FilePath,
};

fn path(text: &str) -> FilePath {
    FilePath::from_text(text)
}

fn resolved(base: &str, relative: &str) -> String {
    resolve_from(&path(base), &path(relative)).display()
}

#[test]
fn relative_paths_are_resolved_from_the_base() {
    assert_eq!(resolved("/srv/apps", "logs/out"), "/srv/apps/logs/out");
    assert_eq!(resolved("/srv/apps/", "x"), "/srv/apps/x");
    assert_eq!(resolved("", "x"), "x");
    assert_eq!(resolved("/srv", ""), "/srv/");
    assert_eq!(resolved("/srv", "./run.sh"), "/srv/./run.sh");
}

#[test]
fn absolute_paths_stand_for_themselves() {
    assert_eq!(resolved("/srv/apps", "/var/log/x"), "/var/log/x");
    assert_eq!(resolved("", "/"), "/");
}

#[test]
fn a_suffix_goes_behind_the_last_byte() {
    assert_eq!(suffixed(&path("/a/b.log"), ".1.gz").display(), "/a/b.log.1.gz");
}

#[test]
fn an_app_name_is_one_ordinary_component() {
    assert!(valid_app_name("api"));
    assert!(valid_app_name(".hidden"));
    assert!(valid_app_name("api/"));
    assert!(!valid_app_name(""));
    assert!(!valid_app_name("."));
    assert!(!valid_app_name(".."));
    assert!(!valid_app_name("/"));
    assert!(!valid_app_name("/api"));
    assert!(!valid_app_name("a/b"));
    assert!(!valid_app_name("./api"));
    assert!(valid_app_name("api/."));
}

#[test]
fn paths_are_compared_by_components() {
    assert!(path("/a//b/./c/").same_as(&path("/a/b/c")));
    assert!(!path("a/b").same_as(&path("/a/b")));
    assert!(!path("./a").same_as(&path("a")));
    assert!(!path("/a/b").same_as(&path("/a/b/c")));
    assert!(!path("/a/../b").same_as(&path("/b")));
}

#[test]
fn containment_is_by_components() {
    assert!(path("/srv/apps/api").starts_with(&path("/srv/apps")));
    assert!(path("/srv/apps").starts_with(&path("/srv/apps/")));
    assert!(!path("/srv/apps-old/api").starts_with(&path("/srv/apps")));
    assert!(!path("/srv").starts_with(&path("/srv/apps")));
    assert!(path("/x").starts_with(&path("/")));
}

#[test]
fn bytes_that_are_not_utf8_are_replaced_in_messages() {
    let odd = FilePath { bytes: vec![b'/', 0xff, b'x'] };
    assert_eq!(odd.display(), "/\u{fffd}x");
    assert_eq!(cannot("open", &odd, "denied"), "cannot open /\u{fffd}x: denied");
    assert_eq!(at_path(&path("/x"), "gone"), "/x: gone");
}
