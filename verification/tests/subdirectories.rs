//! Subdirectory validation: normalizing core form and verbatim wire form.

use numtracker::scalars;
use numtracker::{InvalidSubdirectory, Subdirectory};

#[test]
fn empty_subdirectory_is_valid() {
    assert_eq!(Subdirectory::new("").unwrap().as_str(), "");
}

#[test]
fn plain_relative_path_kept() {
    assert_eq!(Subdirectory::new("a/b").unwrap().as_str(), "a/b");
}

#[test]
fn current_dir_segments_dropped() {
    assert_eq!(Subdirectory::new("./a").unwrap().as_str(), "a");
    assert_eq!(Subdirectory::new("a/./b").unwrap().as_str(), "a/b");
    assert_eq!(Subdirectory::new("a//b/").unwrap().as_str(), "a/b");
}

#[test]
fn absolute_path_rejected() {
    assert_eq!(
        Subdirectory::new("/abs").unwrap_err(),
        InvalidSubdirectory::AbsolutePath
    );
    assert_eq!(
        Subdirectory::new("/..").unwrap_err(),
        InvalidSubdirectory::AbsolutePath
    );
}

#[test]
fn parent_dir_rejected_anywhere() {
    assert_eq!(
        Subdirectory::new("..").unwrap_err(),
        InvalidSubdirectory::InvalidComponent(0)
    );
    assert_eq!(
        Subdirectory::new("a/../b").unwrap_err(),
        InvalidSubdirectory::InvalidComponent(1)
    );
    assert_eq!(
        Subdirectory::new("a/b/..").unwrap_err(),
        InvalidSubdirectory::InvalidComponent(2)
    );
}

#[test]
fn default_subdirectory_is_empty() {
    assert_eq!(Subdirectory::default().as_str(), "");
}

#[test]
fn wire_subdirectory_keeps_text() {
    assert_eq!(
        scalars::Subdirectory::parse("./a".to_string()).unwrap().as_str(),
        "./a"
    );
    assert_eq!(
        scalars::Subdirectory::parse("a/b".to_string()).unwrap().as_str(),
        "a/b"
    );
    assert_eq!(
        scalars::Subdirectory::parse("/abs".to_string()).unwrap_err(),
        InvalidSubdirectory::AbsolutePath
    );
    assert_eq!(
        scalars::Subdirectory::parse("x/..".to_string()).unwrap_err(),
        InvalidSubdirectory::InvalidComponent(1)
    );
}
