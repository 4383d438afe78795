//! Visit identifier parsing and construction.

use numtracker::{InvalidVisit, Visit};

#[test]
fn visit_from_valid_str() {
    assert_eq!(Visit::new("cm", 12345, 3), Visit::from_str("cm12345-3"));
}

#[test]
fn missing_code() {
    assert_eq!(
        Visit::from_str("123-3").unwrap_err(),
        InvalidVisit::NonAsciiCode
    );
}

#[test]
fn missing_session() {
    assert_eq!(
        Visit::from_str("cm12345").unwrap_err(),
        InvalidVisit::InvalidFormat
    );
}

#[test]
fn missing_proposal() {
    assert_eq!(
        Visit::from_str("cm-3").unwrap_err(),
        InvalidVisit::InvalidFormat
    );
}

#[test]
fn invalid_proposal() {
    assert_eq!(
        Visit::from_str("cm12fede-3").unwrap_err(),
        InvalidVisit::InvalidProposal
    );
}

#[test]
fn invalid_session() {
    assert_eq!(
        Visit::from_str("cm12345-abc").unwrap_err(),
        InvalidVisit::InvalidSession
    );
}

#[test]
fn visit_round_trips_to_text() {
    let visit = Visit::from_str("cm12345-3").unwrap();
    assert_eq!(visit.to_text(), "cm12345-3");
    assert_eq!(visit.proposal.to_text(), "cm12345");
    assert_eq!(visit.proposal.code, "cm");
    assert_eq!(visit.proposal.number, 12345);
    assert_eq!(visit.session, 3);
}

#[test]
fn empty_code_rejected() {
    assert_eq!(
        Visit::new("", 1, 1).unwrap_err(),
        InvalidVisit::NonAsciiCode
    );
    assert_eq!(
        Visit::new("cm2", 1, 1).unwrap_err(),
        InvalidVisit::NonAsciiCode
    );
}

#[test]
fn session_overflow_rejected() {
    assert_eq!(
        Visit::from_str("cm1-99999999999999999999").unwrap_err(),
        InvalidVisit::InvalidSession
    );
}
