//! Detector name normalization: the core replace-each-character form and
//! the wire run-collapsing form.

use numtracker::context::Detector;
use numtracker::scalars;

#[test]
fn valid() {
    assert_eq!("valid_detector", Detector::from("valid_detector").as_str());
}

#[test]
fn invalid() {
    assert_eq!(Detector::from("spaced detector").as_str(), "spaced_detector");
    assert_eq!(Detector::from("..").as_str(), "__");
    assert_eq!(Detector::from("foo.bar").as_str(), "foo_bar");
    assert_eq!(Detector::from("foo/bar").as_str(), "foo_bar");
}

#[test]
fn normalizing_twice_changes_nothing() {
    for name in ["foo/bar", "..", "valid_detector", "a b  c", ""] {
        let once = Detector::from(name);
        let twice = Detector::from(once.as_str());
        assert_eq!(once.as_str(), twice.as_str());
    }
}

#[test]
fn wire_detector_collapses_runs() {
    assert_eq!(Detector::from("det 1").as_str(), "det_1");
    assert_eq!(scalars::Detector::parse("det 1".to_string()).as_str(), "det_1");
    assert_eq!(scalars::Detector::parse("a -- b".to_string()).as_str(), "a_b");
    assert_eq!(scalars::Detector::parse("..".to_string()).as_str(), "");
    assert_eq!(scalars::Detector::parse("plain9".to_string()).as_str(), "plain9");
    assert_eq!(
        scalars::Detector::parse("det-2".to_string()).into_string(),
        "det_2"
    );
}
