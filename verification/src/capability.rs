//! Capabilities: unforgeable references that stand for the right to use
//! something, and the messages by which they are asked for and handed out.

use vstd::prelude::*;

verus! {

/// A unique unforgeable reference: a number that, one way or another,
/// resolves to the place that answers for a capability.
#[derive(Clone, Copy, PartialEq, Eq, Structural)]
pub struct UniqueUnforgeableReference(pub u128);

impl UniqueUnforgeableReference {
    /// Whether two references are the same reference.
    pub fn same(&self, rhs: &UniqueUnforgeableReference) -> (r: bool)
        ensures
            r == (self.0 == rhs.0),
    {
        self.0 == rhs.0
    }
}

/// A capability.
#[derive(Clone)]
pub struct Capability {
    /// The unique unforgeable reference that represents this capability
    pub uur: UniqueUnforgeableReference,
    /// A human-friendly name for this capability
    pub name: String,
}

/// What a holder of a capability may ask for.
#[derive(Clone)]
pub enum CapabilityRequest {
    /// Asks the holder of the capability for an introduction to the named
    /// capability.
    IntroduceMe(Capability, String),
    /// Presents a capability that an introduction gave.
    OhHaiBob(Capability),
}

/// The answers to a `CapabilityRequest`.
#[derive(Clone)]
pub enum CapabilityResponse {
    Unauthorized,
    Introduction(Capability),
    OhHaiCarol,
}

/// The outcome of an authorization.
#[derive(Clone, Copy, Debug, PartialEq, Eq, Structural)]
pub enum AuthResult {
    Deny,
    Allow,
}

/// The kinds under which a capability failure is reported.
#[derive(Clone, Copy, Debug, PartialEq, Eq, Structural)]
pub enum FailureKind {
    NotFound,
    Invalid,
}

/// Represents the failures that can occur in a capability operation.
#[derive(Clone, Copy, Debug, PartialEq, Eq, Structural)]
pub enum CapabilityError {
    ToDoOne,
    ToDoTwo,
}

impl CapabilityError {
    /// The number under which the failure is known.
    pub fn number(&self) -> (n: u32)
        ensures
            n == match *self {
                CapabilityError::ToDoOne => 1u32,
                CapabilityError::ToDoTwo => 2u32,
            },
    {
        match self {
            CapabilityError::ToDoOne => 1,
            CapabilityError::ToDoTwo => 2,
        }
    }

    /// The kind under which the failure is reported: the first failure is
    /// something not found, every other one is something invalid.
    pub fn kind(&self) -> (k: FailureKind)
        ensures
            k == match *self {
                CapabilityError::ToDoOne => FailureKind::NotFound,
                CapabilityError::ToDoTwo => FailureKind::Invalid,
            },
    {
        match self {
            CapabilityError::ToDoOne => FailureKind::NotFound,
            _ => FailureKind::Invalid,
        }
    }

    /// The text of the failure.
    pub fn message(&self) -> (m: &'static str)
        ensures
            m@ == match *self {
                CapabilityError::ToDoOne => "TODO One"@,
                CapabilityError::ToDoTwo => "TODO Two"@,
            },
    {
        match self {
            CapabilityError::ToDoOne => "TODO One",
            CapabilityError::ToDoTwo => "TODO Two",
        }
    }
}

} // verus!
