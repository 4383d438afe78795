//! The authorization decisions around the policy service call.

use numtracker::auth::{authorize_request, evaluate_decision, AuthError, Visit};

#[test]
fn policy_visit_splits_into_parts() {
    let v = Visit::from_str("cm12345-3").unwrap();
    assert_eq!(v.0, "cm");
    assert_eq!(v.1, 12345);
    assert_eq!(v.2, 3);
}

#[test]
fn policy_visit_rejects_malformed_identifiers() {
    assert!(Visit::from_str("cm12345").is_err());
    assert!(Visit::from_str("cm12a45-3").is_err());
    assert!(Visit::from_str("cm12345-x").is_err());
    assert!(Visit::from_str("cm-3").is_err());
}

#[test]
fn missing_token_is_rejected_outright() {
    assert!(matches!(
        authorize_request(false, "cm12345-3").unwrap_err(),
        AuthError::Missing
    ));
}

#[test]
fn unparseable_visit_fails_authorization() {
    assert!(matches!(
        authorize_request(true, "nodash").unwrap_err(),
        AuthError::Failed
    ));
    let v = authorize_request(true, "cm12345-3").unwrap();
    assert_eq!(v.1, 12345);
    assert_eq!(v.2, 3);
}

#[test]
fn decision_follows_the_policy_response() {
    assert!(evaluate_decision(true, "i22".to_string(), "i22").is_ok());
    assert!(matches!(
        evaluate_decision(false, "i22".to_string(), "i22").unwrap_err(),
        AuthError::Failed
    ));
    match evaluate_decision(true, "b21".to_string(), "i22").unwrap_err() {
        AuthError::BeamlineMismatch { expected, actual } => {
            assert_eq!(expected, "i22");
            assert_eq!(actual, "b21");
        }
        e => panic!("wrong error: {e:?}"),
    }
}
