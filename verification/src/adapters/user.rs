//! The owner element of a listing.

use crate::entities::user::User;
use vstd::prelude::*;
use vstd::std_specs::convert::FromSpecImpl;
use vstd::string::*;

verus! {

/// Who owns what a listing shows.
#[derive(Debug)]
pub struct OwnerResult {
    pub id: String,
    pub display_name: String,
}

impl From<&User> for OwnerResult {
    fn from(user: &User) -> (owner: OwnerResult) {
        OwnerResult { id: user.id.clone(), display_name: user.display_name.clone() }
    }
}

impl FromSpecImpl<&User> for OwnerResult {
    open spec fn obeys_from_spec() -> bool {
        true
    }

    open spec fn from_spec(user: &User) -> OwnerResult {
        OwnerResult { id: user.id, display_name: user.display_name }
    }
}

impl OwnerResult {
    /// The owner element: the display name, then the id.
    pub open spec fn xml(self) -> Seq<char> {
        "<Owner><DisplayName>"@ + self.display_name@ + "</DisplayName><ID>"@ + self.id@
            + "</ID></Owner>"@
    }

    /// Renders the owner element.
    pub fn to_xml(&self) -> (text: String)
        ensures
            text@ == self.xml(),
    {
        let mut text = String::from_str("<Owner><DisplayName>");
        text.append(self.display_name.as_str());
        text.append("</DisplayName><ID>");
        text.append(self.id.as_str());
        text.append("</ID></Owner>");
        text
    }
}

} // verus!
