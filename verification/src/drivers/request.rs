//! An HTTP request and response as plain values: what the signer, the
//! classifier and the dispatcher read and produce.

use crate::text::{is_same_name, same_name};
use vstd::prelude::*;

verus! {

/// One header line: a name and its value.
pub struct Header {
    pub name: String,
    pub value: String,
}

/// What the store reads of a request.
pub struct Request {
    /// The method, in capitals as it was sent.
    pub method: String,
    /// The path of the URI, as received.
    pub path: String,
    /// The raw query string, if the URI has one.
    pub query: Option<String>,
    /// The header lines, in the order received.
    pub headers: Vec<Header>,
    /// The whole body.
    pub body: Vec<u8>,
}

/// What the store answers.
pub struct Response {
    pub status: u16,
    pub headers: Vec<Header>,
    pub body: Vec<u8>,
}

/// The value of the first header called `name`, ASCII case ignored.
pub open spec fn header_value(headers: Seq<Header>, name: Seq<char>) -> Option<Seq<char>>
    decreases headers.len(),
{
    if headers.len() == 0 {
        None
    } else if same_name(headers[0].name@, name) {
        Some(headers[0].value@)
    } else {
        header_value(headers.drop_first(), name)
    }
}

impl Request {
    /// Looks up a header by name, ignoring ASCII case. Of several headers
    /// with that name the first one counts.
    pub fn header(&self, name: &str) -> (value: Option<&String>)
        ensures
            match value {
                Some(text) => header_value(self.headers@, name@) == Some(text@),
                None => header_value(self.headers@, name@) is None,
            },
    {
        let mut at: usize = 0;
        assert(self.headers@.skip(0) =~= self.headers@);
        while at < self.headers.len()
            invariant
                at <= self.headers.len(),
                header_value(self.headers@, name@) == header_value(
                    self.headers@.skip(at as int),
                    name@,
                ),
            decreases self.headers.len() - at,
        {
            if is_same_name(self.headers[at].name.as_str(), name) {
                return Some(&self.headers[at].value);
            }
            assert(self.headers@.skip(at as int).drop_first() =~= self.headers@.skip(at + 1));
            at = at + 1;
        }
        None
    }
}

} // verus!
