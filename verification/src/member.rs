//! Participant identity: role, unique id, and display name.
//!
//! Two members are the same participant exactly when their role and id
//! agree; the display name is presentation only and takes no part in
//! equality.

use vstd::prelude::*;

verus! {

/// The role of a connected participant.
#[derive(Clone, Copy, Debug, PartialEq, Eq, Structural)]
pub enum UserType {
    CustomerService,
    Customer,
}

/// Identity of one connected participant, produced by authentication
/// before the routing core ever sees the connection.
#[derive(Debug)]
pub struct Member {
    pub user_name: String,
    pub user_type: UserType,
    pub id: String,
}

impl Member {
    /// The `(role, id)` pair that identifies this participant.
    pub open spec fn key(self) -> (UserType, Seq<char>) {
        (self.user_type, self.id@)
    }

    pub open spec fn spec_user_type(self) -> UserType {
        self.user_type
    }

    pub open spec fn spec_id(self) -> Seq<char> {
        self.id@
    }

    pub open spec fn spec_user_name(self) -> Seq<char> {
        self.user_name@
    }

    pub fn new(user_type: UserType, id: String, user_name: String) -> (r: Self)
        ensures
            r.spec_user_type() == user_type,
            r.spec_id() == id@,
            r.spec_user_name() == user_name@,
    {
        Member { user_name, user_type, id }
    }

    pub fn user_type(&self) -> (r: UserType)
        ensures
            r == self.spec_user_type(),
    {
        self.user_type
    }

    pub fn id(&self) -> (r: &str)
        ensures
            r@ == self.spec_id(),
    {
        self.id.as_str()
    }

    pub fn user_name(&self) -> (r: &str)
        ensures
            r@ == self.spec_user_name(),
    {
        self.user_name.as_str()
    }

    pub fn is_customer_service(&self) -> (r: bool)
        ensures
            r == (self.spec_user_type() == UserType::CustomerService),
    {
        self.user_type == UserType::CustomerService
    }

    pub fn is_customer(&self) -> (r: bool)
        ensures
            r == (self.spec_user_type() == UserType::Customer),
    {
        self.user_type == UserType::Customer
    }
}

impl Clone for Member {
    fn clone(&self) -> (r: Self)
        ensures
            r == *self,
    {
        Member {
            user_name: self.user_name.clone(),
            user_type: self.user_type,
            id: self.id.clone(),
        }
    }
}

impl PartialEq for Member {
    /// Participants are compared by `(role, id)` alone.
    fn eq(&self, other: &Member) -> (r: bool) {
        self.user_type == other.user_type && self.id == other.id
    }
}

impl vstd::std_specs::cmp::PartialEqSpecImpl for Member {
    open spec fn obeys_eq_spec() -> bool {
        true
    }

    open spec fn eq_spec(&self, other: &Member) -> bool {
        self.key() == other.key()
    }
}

} // verus!
