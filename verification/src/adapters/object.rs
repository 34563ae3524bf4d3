//! The answer to "list the objects of a bucket".

use crate::adapters::bucket::{date_text, render_date};
use crate::adapters::user::OwnerResult;
use crate::entities::object::Object;
use crate::entities::timestamp::Timestamp;
use crate::text::{decimal, join_texts, join_with, texts, to_decimal};
use vstd::prelude::*;
use vstd::std_specs::convert::FromSpecImpl;
use vstd::string::*;

verus! {

/// One object of a listing.
#[derive(Debug)]
pub struct ObjectResult {
    pub etag: String,
    pub key: String,
    pub owner: OwnerResult,
    pub size: i64,
    pub last_modified: Timestamp,
}

impl From<&Object> for ObjectResult {
    /// The listing entry of an object: its key, size and date, its owner by
    /// id alone, and no entity tag.
    fn from(object: &Object) -> (result: ObjectResult)
        ensures
            result.etag@ == Seq::<char>::empty(),
            result.key == object.key,
            result.owner.id == object.owner_id,
            result.owner.display_name@ == Seq::<char>::empty(),
            result.size == object.size,
            result.last_modified == object.last_modified,
    {
        ObjectResult {
            etag: String::new(),
            key: object.key.clone(),
            owner: OwnerResult { id: object.owner_id.clone(), display_name: String::new() },
            size: object.size,
            last_modified: object.last_modified,
        }
    }
}

impl FromSpecImpl<&Object> for ObjectResult {
    open spec fn obeys_from_spec() -> bool {
        false
    }

    open spec fn from_spec(object: &Object) -> ObjectResult {
        arbitrary()
    }
}

/// Whether `result` is the listing entry of `object`: its key, size and
/// date, its owner by id alone, and no entity tag.
pub open spec fn lists(result: ObjectResult, object: Object) -> bool {
    &&& result.etag@ == Seq::<char>::empty()
    &&& result.key == object.key
    &&& result.owner.id == object.owner_id
    &&& result.owner.display_name@ == Seq::<char>::empty()
    &&& result.size == object.size
    &&& result.last_modified == object.last_modified
}

/// Whether `results` are the listing entries of `objects`, in order.
pub open spec fn list_all(results: Seq<ObjectResult>, objects: Seq<Object>) -> bool {
    results.len() == objects.len() && forall|i: int|
        0 <= i < results.len() ==> lists(#[trigger] results[i], objects[i])
}

/// The listing entries of `objects`, in order.
pub fn to_object_results(objects: &Vec<Object>) -> (results: Vec<ObjectResult>)
    ensures
        list_all(results@, objects@),
{
    let mut results: Vec<ObjectResult> = Vec::new();
    let mut at: usize = 0;
    while at < objects.len()
        invariant
            at <= objects.len(),
            results@.len() == at,
            forall|i: int| 0 <= i < at ==> lists(#[trigger] results@[i], objects@[i]),
        decreases objects.len() - at,
    {
        results.push(ObjectResult::from(&objects[at]));
        at = at + 1;
    }
    results
}

/// The contents element of an object in a listing.
pub open spec fn entry_xml(object: Object) -> Seq<char> {
    "<Contents><ETag>"@ + "</ETag><Key>"@ + object.key@ + "</Key>"@ + "<Owner><DisplayName>"@
        + "</DisplayName><ID>"@ + object.owner_id@ + "</ID></Owner>"@ + "<Size>"@ + decimal(
        object.size as int,
    ) + "</Size><LastModified>"@ + date_text(object.last_modified) + "</LastModified></Contents>"@
}

/// The listing of a bucket that holds `objects`, never cut short.
pub open spec fn listing_xml(name: Seq<char>, objects: Seq<Object>) -> Seq<char> {
    "<ListBucketResult><IsTruncated>"@ + "false"@ + "</IsTruncated>"@ + join_with(
        objects.map_values(|object: Object| entry_xml(object)),
        Seq::empty(),
    ) + "<Name>"@ + name + "</Name></ListBucketResult>"@
}

/// A listing that holds the entries of `objects` renders as the listing of
/// those objects.
pub proof fn lemma_listing_xml(listing: ListBucketResult, objects: Seq<Object>)
    requires
        !listing.is_truncated,
        list_all(listing.contents@, objects),
    ensures
        listing.xml() == listing_xml(listing.name@, objects),
{
    let rendered = listing.contents@.map_values(|object: ObjectResult| object.xml());
    let wanted = objects.map_values(|object: Object| entry_xml(object));
    assert forall|i: int| 0 <= i < rendered.len() implies rendered[i] == wanted[i] by {
        let result = listing.contents@[i];
        let object = objects[i];
        assert(lists(result, object));
        assert(result.xml() =~= entry_xml(object));
    }
    assert(rendered =~= wanted);
}

/// The text of a truth value.
pub open spec fn bool_text(value: bool) -> Seq<char> {
    if value {
        "true"@
    } else {
        "false"@
    }
}

impl ObjectResult {
    /// The contents element: entity tag, key, owner, size in decimal and
    /// the date of the last change.
    pub open spec fn xml(self) -> Seq<char> {
        "<Contents><ETag>"@ + self.etag@ + "</ETag><Key>"@ + self.key@ + "</Key>"@
            + self.owner.xml() + "<Size>"@ + decimal(self.size as int) + "</Size><LastModified>"@
            + date_text(self.last_modified) + "</LastModified></Contents>"@
    }

    /// Renders the contents element.
    pub fn to_xml(&self) -> (text: String)
        ensures
            text@ == self.xml(),
    {
        let mut text = String::from_str("<Contents><ETag>");
        text.append(self.etag.as_str());
        text.append("</ETag><Key>");
        text.append(self.key.as_str());
        text.append("</Key>");
        text.append(self.owner.to_xml().as_str());
        text.append("<Size>");
        text.append(to_decimal(self.size).as_str());
        text.append("</Size><LastModified>");
        text.append(render_date(&self.last_modified).as_str());
        text.append("</LastModified></Contents>");
        text
    }
}

/// The objects of a bucket.
#[derive(Debug)]
pub struct ListBucketResult {
    pub is_truncated: bool,
    pub contents: Vec<ObjectResult>,
    pub name: String,
}

impl ListBucketResult {
    /// The listing: whether it is cut short, the contents elements in
    /// order, then the bucket's name.
    pub open spec fn xml(self) -> Seq<char> {
        "<ListBucketResult><IsTruncated>"@ + bool_text(self.is_truncated) + "</IsTruncated>"@
            + join_with(
            self.contents@.map_values(|object: ObjectResult| object.xml()),
            Seq::empty(),
        ) + "<Name>"@ + self.name@ + "</Name></ListBucketResult>"@
    }

    /// Renders the listing.
    pub fn to_xml(&self) -> (text: String)
        ensures
            text@ == self.xml(),
    {
        let ghost wanted = self.contents@.map_values(|object: ObjectResult| object.xml());
        let mut rendered: Vec<String> = Vec::new();
        let mut at: usize = 0;
        while at < self.contents.len()
            invariant
                at <= self.contents.len(),
                wanted == self.contents@.map_values(|object: ObjectResult| object.xml()),
                texts(rendered@) =~= wanted.take(at as int),
            decreases self.contents.len() - at,
        {
            let ghost before = texts(rendered@);
            rendered.push(self.contents[at].to_xml());
            proof {
                assert(wanted[at as int] == self.contents@[at as int].xml());
                assert(texts(rendered@) =~= before.push(wanted[at as int]));
                assert(wanted.take(at + 1) =~= wanted.take(at as int).push(wanted[at as int]));
            }
            at = at + 1;
        }
        assert(wanted.take(at as int) =~= wanted);
        proof {
            reveal_strlit("");
            assert(""@ =~= Seq::<char>::empty());
        }
        let mut text = String::from_str("<ListBucketResult><IsTruncated>");
        text.append(if self.is_truncated { "true" } else { "false" });
        text.append("</IsTruncated>");
        text.append(join_texts(&rendered, "").as_str());
        text.append("<Name>");
        text.append(self.name.as_str());
        text.append("</Name></ListBucketResult>");
        text
    }
}

} // verus!
