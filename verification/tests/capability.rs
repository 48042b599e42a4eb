use ockam_multiaddr::capability::{
    AuthResult, Capability, CapabilityError, CapabilityRequest, CapabilityResponse, FailureKind,
    UniqueUnforgeableReference,
};

#[test]
fn references_compare_by_number() {
    let a = UniqueUnforgeableReference(7);
    let b = UniqueUnforgeableReference(7);
    let c = UniqueUnforgeableReference(8);
    assert!(a.same(&b));
    assert!(!a.same(&c));
    assert!(a == b);
}

#[test]
fn capability_failures() {
    assert_eq!(CapabilityError::ToDoOne.number(), 1);
    assert_eq!(CapabilityError::ToDoTwo.number(), 2);
    assert_eq!(CapabilityError::ToDoOne.kind(), FailureKind::NotFound);
    assert_eq!(CapabilityError::ToDoTwo.kind(), FailureKind::Invalid);
    assert_eq!(CapabilityError::ToDoOne.message(), "TODO One");
    assert_eq!(CapabilityError::ToDoTwo.message(), "TODO Two");
}

#[test]
fn capability_messages_carry_their_capability() {
    let cap = Capability { uur: UniqueUnforgeableReference(1), name: String::from("bob") };
    let req = CapabilityRequest::IntroduceMe(cap.clone(), String::from("carol"));
    assert!(matches!(req, CapabilityRequest::IntroduceMe(c, n) if c.name == "bob" && n == "carol"));
    let resp = CapabilityResponse::Introduction(cap);
    assert!(matches!(resp, CapabilityResponse::Introduction(c) if c.uur.same(&UniqueUnforgeableReference(1))));
    assert_ne!(AuthResult::Deny, AuthResult::Allow);
}
