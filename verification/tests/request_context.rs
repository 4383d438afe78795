//! The root request context and its validated inputs.

use numtracker::{BeamlineContext, Subdirectory, User, Visit};

#[test]
fn context_carries_validated_inputs() {
    let visit = Visit::from_str("cm12345-3").unwrap();
    let user = User::new("someone").unwrap();
    let ctx = BeamlineContext::new("i22", visit, user);
    assert_eq!(ctx.instrument().as_str(), "i22");
    assert_eq!(ctx.visit().to_text(), "cm12345-3");
    let ctx = ctx.with_subdirectory(Subdirectory::new("a/./b").unwrap());
    assert_eq!(ctx.instrument().as_str(), "i22");
}

#[test]
fn empty_user_rejected() {
    assert!(User::new("").is_err());
    assert!(User::new("name").is_ok());
}
