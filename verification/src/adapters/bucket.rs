//! The answer to "list my buckets".

use crate::adapters::user::OwnerResult;
use crate::entities::bucket::Bucket;
use crate::entities::timestamp::{local_date_text, Timestamp};
use crate::text::{join_texts, join_with, texts};
use vstd::prelude::*;
use vstd::std_specs::convert::FromSpecImpl;
use vstd::string::*;

verus! {

/// The text of an instant in a listing: its ISO 8601 form at its local
/// offset, or nothing where the calendar has no such instant.
pub open spec fn date_text(instant: Timestamp) -> Seq<char> {
    match local_date_text(instant.seconds as int, instant.nanos as int, instant.offset as int) {
        Some(text) => text,
        None => Seq::empty(),
    }
}

/// Renders an instant for a listing.
pub fn render_date(instant: &Timestamp) -> (text: String)
    ensures
        text@ == date_text(*instant),
{
    match instant.local_text() {
        Some(text) => text,
        None => String::new(),
    }
}

/// One bucket of a listing.
#[derive(Debug)]
pub struct BucketResult {
    pub name: String,
    pub creation_date: Timestamp,
}

impl From<&Bucket> for BucketResult {
    fn from(bucket: &Bucket) -> (result: BucketResult) {
        BucketResult { name: bucket.name.clone(), creation_date: bucket.creation_date }
    }
}

impl FromSpecImpl<&Bucket> for BucketResult {
    open spec fn obeys_from_spec() -> bool {
        true
    }

    open spec fn from_spec(bucket: &Bucket) -> BucketResult {
        BucketResult { name: bucket.name, creation_date: bucket.creation_date }
    }
}

impl BucketResult {
    /// The bucket element: the name, then the creation date.
    pub open spec fn xml(self) -> Seq<char> {
        "<Bucket><Name>"@ + self.name@ + "</Name><CreationDate>"@ + date_text(self.creation_date)
            + "</CreationDate></Bucket>"@
    }

    /// Renders the bucket element.
    pub fn to_xml(&self) -> (text: String)
        ensures
            text@ == self.xml(),
    {
        let mut text = String::from_str("<Bucket><Name>");
        text.append(self.name.as_str());
        text.append("</Name><CreationDate>");
        text.append(render_date(&self.creation_date).as_str());
        text.append("</CreationDate></Bucket>");
        text
    }
}

/// The listing entries of `buckets`, in order.
pub open spec fn bucket_results(buckets: Seq<Bucket>) -> Seq<BucketResult> {
    buckets.map_values(
        |bucket: Bucket| BucketResult { name: bucket.name, creation_date: bucket.creation_date },
    )
}

/// The listing entries of `buckets`, in order.
pub fn to_bucket_results(buckets: &Vec<Bucket>) -> (results: Vec<BucketResult>)
    ensures
        results@ == bucket_results(buckets@),
{
    let mut results: Vec<BucketResult> = Vec::new();
    let mut at: usize = 0;
    while at < buckets.len()
        invariant
            at <= buckets.len(),
            results@ =~= bucket_results(buckets@).take(at as int),
        decreases buckets.len() - at,
    {
        results.push(BucketResult::from(&buckets[at]));
        at = at + 1;
    }
    assert(bucket_results(buckets@).take(at as int) =~= bucket_results(buckets@));
    results
}

/// The listing of `buckets` under `owner`: the bucket elements in order,
/// then the owner.
pub open spec fn all_buckets_xml(buckets: Seq<BucketResult>, owner: OwnerResult) -> Seq<char> {
    "<ListAllMyBucketsResult><Buckets>"@ + join_with(
        buckets.map_values(|bucket: BucketResult| bucket.xml()),
        Seq::empty(),
    ) + "</Buckets>"@ + owner.xml() + "</ListAllMyBucketsResult>"@
}

/// The buckets of a user, with the user as owner.
#[derive(Debug)]
pub struct ListAllMyBucketsResult {
    pub buckets: Vec<BucketResult>,
    pub owner: OwnerResult,
}

impl ListAllMyBucketsResult {
    /// The listing: the bucket elements in order, then the owner.
    pub open spec fn xml(self) -> Seq<char> {
        all_buckets_xml(self.buckets@, self.owner)
    }

    /// Renders the listing.
    pub fn to_xml(&self) -> (text: String)
        ensures
            text@ == self.xml(),
    {
        let ghost wanted = self.buckets@.map_values(|bucket: BucketResult| bucket.xml());
        let mut rendered: Vec<String> = Vec::new();
        let mut at: usize = 0;
        while at < self.buckets.len()
            invariant
                at <= self.buckets.len(),
                wanted == self.buckets@.map_values(|bucket: BucketResult| bucket.xml()),
                texts(rendered@) =~= wanted.take(at as int),
            decreases self.buckets.len() - at,
        {
            let ghost before = texts(rendered@);
            rendered.push(self.buckets[at].to_xml());
            proof {
                assert(wanted[at as int] == self.buckets@[at as int].xml());
                assert(texts(rendered@) =~= before.push(wanted[at as int]));
                assert(wanted.take(at + 1) =~= wanted.take(at as int).push(wanted[at as int]));
            }
            at = at + 1;
        }
        assert(wanted.take(at as int) =~= wanted);
        proof {
            reveal_strlit("");
            assert(""@ =~= Seq::<char>::empty());
        }
        let mut text = String::from_str("<ListAllMyBucketsResult><Buckets>");
        text.append(join_texts(&rendered, "").as_str());
        text.append("</Buckets>");
        text.append(self.owner.to_xml().as_str());
        text.append("</ListAllMyBucketsResult>");
        text
    }
}

} // verus!
