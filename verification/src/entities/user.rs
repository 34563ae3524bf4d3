//! Users and their credentials.

use vstd::prelude::*;

verus! {

/// Someone who may use the store.
#[derive(Debug)]
pub struct User {
    /// The primary key.
    pub id: String,
    pub display_name: String,
    /// The public half of the credentials; no two users share one.
    pub access_key: String,
    /// The private half of the credentials.
    pub secret_access_key: String,
}

impl Clone for User {
    fn clone(&self) -> (copy: Self)
        ensures
            copy == *self,
    {
        User {
            id: self.id.clone(),
            display_name: self.display_name.clone(),
            access_key: self.access_key.clone(),
            secret_access_key: self.secret_access_key.clone(),
        }
    }
}

} // verus!
