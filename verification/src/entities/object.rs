//! Objects: the metadata of a stored payload.

use crate::entities::timestamp::Timestamp;
use crate::text::same_text;
use vstd::prelude::*;
use vstd::std_specs::cmp::PartialEqSpecImpl;

verus! {

/// The metadata of a payload. Two objects are the same object when they
/// have the same bucket and the same key.
#[derive(Debug)]
pub struct Object {
    /// Unique within the bucket.
    pub key: String,
    pub bucket: String,
    pub owner_id: String,
    /// The length of the stored payload in bytes.
    pub size: i64,
    pub last_modified: Timestamp,
}

impl Clone for Object {
    fn clone(&self) -> (copy: Self)
        ensures
            copy == *self,
    {
        Object {
            key: self.key.clone(),
            bucket: self.bucket.clone(),
            owner_id: self.owner_id.clone(),
            size: self.size,
            last_modified: self.last_modified,
        }
    }
}

impl PartialEq for Object {
    fn eq(&self, other: &Object) -> (same: bool) {
        same_text(self.bucket.as_str(), other.bucket.as_str()) && same_text(
            self.key.as_str(),
            other.key.as_str(),
        )
    }
}

impl PartialEqSpecImpl for Object {
    open spec fn obeys_eq_spec() -> bool {
        true
    }

    open spec fn eq_spec(&self, other: &Object) -> bool {
        self.bucket@ == other.bucket@ && self.key@ == other.key@
    }
}

impl Eq for Object {

}

} // verus!
