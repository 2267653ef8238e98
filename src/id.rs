//! Signed identifiers, split into a client namespace (positive values) and a
//! server namespace (negative values).
use vstd::prelude::*;

verus! {

/// A bare identifier as it travels in a message.
#[derive(Debug, Clone, Copy, PartialEq, Eq, Structural)]
pub struct Id(pub i32);

impl Id {
    pub open spec fn value_spec(self) -> i32 {
        self.0
    }

    pub fn new(id: i32) -> (r: Id)
        ensures
            r.value_spec() == id,
    {
        Id(id)
    }

    pub fn value(self) -> (r: i32)
        ensures
            r == self.value_spec(),
    {
        self.0
    }

    /// True when this bare identifier has the same value as the server identifier.
    pub fn eq_server(self, other: ServerId) -> (r: bool)
        ensures
            r == (self.value_spec() == other.value_spec()),
    {
        self.0 == other.0.0
    }

    /// True when this bare identifier has the same value as the client identifier.
    pub fn eq_client(self, other: ClientId) -> (r: bool)
        ensures
            r == (self.value_spec() == other.value_spec()),
    {
        self.0 == other.0.0
    }
}

/// Why an identifier could not be placed in a namespace.
#[derive(Debug, Clone, Copy, PartialEq, Eq, Structural)]
pub enum IdError {
    /// The value's sign does not belong to the requested namespace.
    InvalidNamespace,
}

/// An identifier allocated by the server; always negative.
#[derive(Debug, Clone, Copy, PartialEq, Eq, Structural)]
pub struct ServerId(Id);

impl ServerId {
    pub open spec fn value_spec(self) -> i32 {
        self.as_id_spec().0
    }

    #[verifier::type_invariant]
    spec fn negative(self) -> bool {
        self.0.0 < 0
    }

    /// Wraps a negative identifier.
    pub fn new(id: Id) -> (r: ServerId)
        requires
            id.value_spec() < 0,
        ensures
            r.as_id_spec() == id,
    {
        ServerId(id)
    }

    /// Wraps `id` if it is negative; fails with `InvalidNamespace` otherwise.
    pub fn try_new(id: Id) -> (r: Result<ServerId, IdError>)
        ensures
            id.value_spec() < 0 <==> r is Ok,
            r is Ok ==> r->Ok_0.as_id_spec() == id,
            r is Err ==> r->Err_0 == IdError::InvalidNamespace,
    {
        if id.0 < 0 {
            Ok(ServerId(id))
        } else {
            Err(IdError::InvalidNamespace)
        }
    }

    pub closed spec fn as_id_spec(self) -> Id {
        self.0
    }

    pub fn as_id(self) -> (r: Id)
        ensures
            r == self.as_id_spec(),
            r.value_spec() < 0,
    {
        proof {
            use_type_invariant(&self);
        }
        self.0
    }

    /// True when the bare identifier has the same value as this one.
    pub fn eq_id(self, other: Id) -> (r: bool)
        ensures
            r == (self.value_spec() == other.value_spec()),
    {
        self.0.0 == other.0
    }
}

/// An identifier chosen by a client; always positive.
#[derive(Debug, Clone, Copy, PartialEq, Eq, Structural)]
pub struct ClientId(Id);

impl ClientId {
    pub open spec fn value_spec(self) -> i32 {
        self.as_id_spec().0
    }

    #[verifier::type_invariant]
    spec fn positive(self) -> bool {
        self.0.0 > 0
    }

    /// Wraps a positive identifier.
    pub fn new(id: Id) -> (r: ClientId)
        requires
            id.value_spec() > 0,
        ensures
            r.as_id_spec() == id,
    {
        ClientId(id)
    }

    /// Wraps `id` if it is positive; fails with `InvalidNamespace` otherwise.
    pub fn try_new(id: Id) -> (r: Result<ClientId, IdError>)
        ensures
            id.value_spec() > 0 <==> r is Ok,
            r is Ok ==> r->Ok_0.as_id_spec() == id,
            r is Err ==> r->Err_0 == IdError::InvalidNamespace,
    {
        if id.0 > 0 {
            Ok(ClientId(id))
        } else {
            Err(IdError::InvalidNamespace)
        }
    }

    pub closed spec fn as_id_spec(self) -> Id {
        self.0
    }

    pub fn as_id(self) -> (r: Id)
        ensures
            r == self.as_id_spec(),
            r.value_spec() > 0,
    {
        proof {
            use_type_invariant(&self);
        }
        self.0
    }

    /// True when the bare identifier has the same value as this one.
    pub fn eq_id(self, other: Id) -> (r: bool)
        ensures
            r == (self.value_spec() == other.value_spec()),
    {
        self.0.0 == other.0
    }
}

} // verus!
