//! The proof of a successful login that the store keeps while it runs.

use crate::auth::Permissions;
use vstd::prelude::*;

verus! {

/// Who is logged in, and with which permissions. The permissions are a copy
/// taken at login; a session is never stored.
#[derive(Debug, Clone)]
pub struct Session {
    pub user: String,
    pub permissions: Permissions,
}

/// A session as a mathematical value.
pub struct Identity {
    pub user: Seq<char>,
    pub permissions: Permissions,
}

impl View for Session {
    type V = Identity;

    open spec fn view(&self) -> Identity {
        Identity { user: self.user@, permissions: self.permissions }
    }
}

} // verus!
