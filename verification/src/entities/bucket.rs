//! Buckets: named containers of objects.

use crate::entities::timestamp::Timestamp;
use crate::text::same_text;
use vstd::prelude::*;
use vstd::std_specs::cmp::PartialEqSpecImpl;

verus! {

/// A named container of objects. Two buckets are the same bucket when
/// their names are equal.
#[derive(Debug)]
pub struct Bucket {
    /// The primary key, unique on the node.
    pub name: String,
    pub owner_id: String,
    pub object_count: i64,
    pub size: i64,
    pub creation_date: Timestamp,
}

impl Clone for Bucket {
    fn clone(&self) -> (copy: Self)
        ensures
            copy == *self,
    {
        Bucket {
            name: self.name.clone(),
            owner_id: self.owner_id.clone(),
            object_count: self.object_count,
            size: self.size,
            creation_date: self.creation_date,
        }
    }
}

impl PartialEq for Bucket {
    fn eq(&self, other: &Bucket) -> (same: bool) {
        same_text(self.name.as_str(), other.name.as_str())
    }
}

impl PartialEqSpecImpl for Bucket {
    open spec fn obeys_eq_spec() -> bool {
        true
    }

    open spec fn eq_spec(&self, other: &Bucket) -> bool {
        self.name@ == other.name@
    }
}

impl Eq for Bucket {

}

} // verus!
