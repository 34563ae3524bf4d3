use anbar::adapters::bucket::{render_date, to_bucket_results, BucketResult, ListAllMyBucketsResult};
use anbar::adapters::object::{to_object_results, ListBucketResult, ObjectResult};
use anbar::adapters::user::OwnerResult;
use anbar::entities::bucket::Bucket;
use anbar::entities::object::Object;
use anbar::entities::timestamp::Timestamp;
use anbar::entities::user::User;

// 2024-01-01T12:00:00Z, with the local clock three and a half hours ahead.
fn noon() -> Timestamp {
    Timestamp { seconds: 1_704_110_400, nanos: 0, offset: 12_600 }
}

fn mehdy() -> User {
    User {
        id: "mehdy".to_string(),
        display_name: "Mehdy".to_string(),
        access_key: "ABC1234".to_string(),
        secret_access_key: "AbC1Zxv".to_string(),
    }
}

fn buck() -> Bucket {
    Bucket {
        name: "buck".to_string(),
        owner_id: "mehdy".to_string(),
        object_count: 0,
        size: 0,
        creation_date: noon(),
    }
}

fn hello() -> Object {
    Object {
        key: "hello".to_string(),
        bucket: "buck".to_string(),
        owner_id: "mehdy".to_string(),
        size: 5,
        last_modified: noon(),
    }
}

#[test]
fn date_is_rendered_at_its_local_offset() {
    assert_eq!(render_date(&noon()), "2024-01-01T15:30:00+03:30");
    let utc = Timestamp { seconds: 0, nanos: 0, offset: 0 };
    assert_eq!(render_date(&utc), "1970-01-01T00:00:00+00:00");
    let west = Timestamp { seconds: 1_704_110_400, nanos: 123_456_789, offset: -18_000 };
    assert_eq!(render_date(&west), "2024-01-01T07:00:00.123456789-05:00");
    let half = Timestamp { seconds: 1_704_110_400, nanos: 500_000_000, offset: 0 };
    assert_eq!(render_date(&half), "2024-01-01T12:00:00.500+00:00");
}

#[test]
fn date_outside_the_calendar_renders_as_nothing() {
    let far = Timestamp { seconds: i64::MAX, nanos: 0, offset: 0 };
    assert_eq!(render_date(&far), "");
    let skewed = Timestamp { seconds: 0, nanos: 0, offset: 86_400 };
    assert_eq!(render_date(&skewed), "");
    let fraction = Timestamp { seconds: 0, nanos: 2_000_000_000, offset: 0 };
    assert_eq!(render_date(&fraction), "");
}

#[test]
fn owner_is_taken_from_the_user() {
    let owner = OwnerResult::from(&mehdy());
    assert_eq!(owner.id, "mehdy");
    assert_eq!(owner.display_name, "Mehdy");
    assert_eq!(owner.to_xml(), "<Owner><DisplayName>Mehdy</DisplayName><ID>mehdy</ID></Owner>");
}

#[test]
fn bucket_entry_is_taken_from_the_bucket() {
    let entry = BucketResult::from(&buck());
    assert_eq!(entry.name, "buck");
    assert_eq!(entry.creation_date, noon());
    assert_eq!(
        entry.to_xml(),
        "<Bucket><Name>buck</Name><CreationDate>2024-01-01T15:30:00+03:30</CreationDate></Bucket>"
    );
}

#[test]
fn bucket_listing_holds_the_buckets_then_the_owner() {
    let mut duck = buck();
    duck.name = "duck".to_string();
    let listing = ListAllMyBucketsResult {
        buckets: to_bucket_results(&vec![buck(), duck]),
        owner: OwnerResult::from(&mehdy()),
    };
    assert_eq!(
        listing.to_xml(),
        "<ListAllMyBucketsResult><Buckets>\
         <Bucket><Name>buck</Name><CreationDate>2024-01-01T15:30:00+03:30</CreationDate></Bucket>\
         <Bucket><Name>duck</Name><CreationDate>2024-01-01T15:30:00+03:30</CreationDate></Bucket>\
         </Buckets><Owner><DisplayName>Mehdy</DisplayName><ID>mehdy</ID></Owner>\
         </ListAllMyBucketsResult>"
    );
}

#[test]
fn empty_bucket_listing_has_an_empty_buckets_element() {
    let listing =
        ListAllMyBucketsResult { buckets: Vec::new(), owner: OwnerResult::from(&mehdy()) };
    assert_eq!(
        listing.to_xml(),
        "<ListAllMyBucketsResult><Buckets></Buckets>\
         <Owner><DisplayName>Mehdy</DisplayName><ID>mehdy</ID></Owner></ListAllMyBucketsResult>"
    );
}

#[test]
fn object_entry_is_taken_from_the_object() {
    let entry = ObjectResult::from(&hello());
    assert_eq!(entry.etag, "");
    assert_eq!(entry.key, "hello");
    assert_eq!(entry.owner.id, "mehdy");
    assert_eq!(entry.owner.display_name, "");
    assert_eq!(entry.size, 5);
    assert_eq!(entry.last_modified, noon());
    assert_eq!(
        entry.to_xml(),
        "<Contents><ETag></ETag><Key>hello</Key>\
         <Owner><DisplayName></DisplayName><ID>mehdy</ID></Owner>\
         <Size>5</Size><LastModified>2024-01-01T15:30:00+03:30</LastModified></Contents>"
    );
}

#[test]
fn object_entry_renders_its_tag_and_a_negative_size() {
    let entry = ObjectResult {
        etag: "abc".to_string(),
        key: "k".to_string(),
        owner: OwnerResult { id: "i".to_string(), display_name: "d".to_string() },
        size: -12,
        last_modified: Timestamp { seconds: 0, nanos: 0, offset: 0 },
    };
    assert_eq!(
        entry.to_xml(),
        "<Contents><ETag>abc</ETag><Key>k</Key>\
         <Owner><DisplayName>d</DisplayName><ID>i</ID></Owner>\
         <Size>-12</Size><LastModified>1970-01-01T00:00:00+00:00</LastModified></Contents>"
    );
}

#[test]
fn object_listing_holds_the_flag_the_entries_and_the_name() {
    let mut big = hello();
    big.key = "big".to_string();
    big.size = 1_000_000;
    let listing = ListBucketResult {
        is_truncated: false,
        contents: to_object_results(&vec![hello(), big]),
        name: "buck".to_string(),
    };
    assert_eq!(
        listing.to_xml(),
        "<ListBucketResult><IsTruncated>false</IsTruncated>\
         <Contents><ETag></ETag><Key>hello</Key>\
         <Owner><DisplayName></DisplayName><ID>mehdy</ID></Owner>\
         <Size>5</Size><LastModified>2024-01-01T15:30:00+03:30</LastModified></Contents>\
         <Contents><ETag></ETag><Key>big</Key>\
         <Owner><DisplayName></DisplayName><ID>mehdy</ID></Owner>\
         <Size>1000000</Size><LastModified>2024-01-01T15:30:00+03:30</LastModified></Contents>\
         <Name>buck</Name></ListBucketResult>"
    );
}

#[test]
fn truncated_empty_listing() {
    let listing =
        ListBucketResult { is_truncated: true, contents: Vec::new(), name: "b".to_string() };
    assert_eq!(
        listing.to_xml(),
        "<ListBucketResult><IsTruncated>true</IsTruncated><Name>b</Name></ListBucketResult>"
    );
}
