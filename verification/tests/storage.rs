use anbar::entities::timestamp::Timestamp;
use anbar::entities::user::User;
use anbar::error::{BlobError, Error};
use anbar::interactors::storage::Storage;

fn instant(seconds: i64) -> Timestamp {
    Timestamp { seconds, nanos: 5, offset: 3600 }
}

fn store() -> (Storage, User) {
    let mut storage = Storage::new("/var/anbar");
    storage.new_user("mehdy", "Mehdy", "ABC1234", "AbC1Zxv").unwrap();
    let user = storage.find_user("ABC1234").unwrap();
    (storage, user)
}

#[test]
fn paths_lie_under_the_base() {
    let storage = Storage::new("/var/anbar");
    assert_eq!(storage.base_path, "/var/anbar");
    assert_eq!(storage.bucket_dir("buck"), "/var/anbar/buck");
    assert_eq!(storage.object_file("buck", "hello"), "/var/anbar/buck/hello");
    assert_eq!(storage.object_file("buck", "a/b"), "/var/anbar/buck/a/b");
}

#[test]
fn new_user_is_found_by_access_key() {
    let (storage, user) = store();
    assert_eq!(user.id, "mehdy");
    assert_eq!(user.display_name, "Mehdy");
    assert_eq!(user.access_key, "ABC1234");
    assert_eq!(user.secret_access_key, "AbC1Zxv");
    assert!(storage.find_user("mehdy").is_none());
    assert!(storage.find_user("").is_none());
}

#[test]
fn new_user_twice_is_a_conflict() {
    let (mut storage, _) = store();
    assert_eq!(storage.new_user("mehdy", "Again", "OTHER", "s").err(), Some(Error::Conflict));
    assert_eq!(storage.new_user("other", "Again", "ABC1234", "s").err(), Some(Error::Conflict));
    let other = storage.new_user("other", "Other", "OTHER", "s").unwrap();
    assert_eq!((other.id.as_str(), other.display_name.as_str()), ("other", "Other"));
    assert_eq!((other.access_key.as_str(), other.secret_access_key.as_str()), ("OTHER", "s"));
    assert_eq!(storage.find_user("ABC1234").unwrap().display_name, "Mehdy");
}

#[test]
fn known_user_without_buckets_lists_nothing() {
    let (storage, _) = store();
    assert_eq!(storage.list_buckets("mehdy").unwrap().len(), 0);
    assert_eq!(storage.list_buckets("nobody").err(), Some(Error::NotFound));
}

#[test]
fn bucket_is_made_empty_and_stamped() {
    let (mut storage, _) = store();
    let bucket = storage.create_bucket_at("mehdy", "buck", Ok(()), instant(100)).unwrap();
    assert_eq!(bucket.name, "buck");
    assert_eq!(bucket.owner_id, "mehdy");
    assert_eq!(bucket.object_count, 0);
    assert_eq!(bucket.size, 0);
    assert_eq!(bucket.creation_date, instant(100));
    let listed = storage.list_buckets("mehdy").unwrap();
    assert_eq!(listed.len(), 1);
    assert_eq!(listed[0].name, "buck");
    assert_eq!(listed[0].creation_date, instant(100));
    assert_eq!(storage.list_objects("buck").len(), 0);
}

#[test]
fn bucket_is_refused_when_its_directory_failed() {
    let (mut storage, _) = store();
    assert_eq!(
        storage.create_bucket_at("mehdy", "buck", Err(BlobError::Io), instant(1)).err(),
        Some(Error::Io)
    );
    assert_eq!(
        storage.create_bucket_at("mehdy", "buck", Err(BlobError::NotFound), instant(1)).err(),
        Some(Error::NotFound)
    );
    assert_eq!(storage.list_buckets("mehdy").unwrap().len(), 0);
    assert!(storage.create_bucket_at("mehdy", "buck", Ok(()), instant(1)).is_ok());
}

#[test]
fn second_bucket_of_a_name_conflicts() {
    let (mut storage, _) = store();
    assert!(storage.create_bucket_at("mehdy", "buck", Ok(()), instant(1)).is_ok());
    assert_eq!(
        storage.create_bucket_at("mehdy", "buck", Ok(()), instant(2)).err(),
        Some(Error::Conflict)
    );
    assert_eq!(storage.create_bucket("mehdy", "buck", Ok(())).err(), Some(Error::Conflict));
    assert_eq!(
        storage.create_bucket_at("mehdy", "buck", Err(BlobError::Io), instant(2)).err(),
        Some(Error::Io)
    );
    assert_eq!(storage.list_buckets("mehdy").unwrap().len(), 1);
    assert_eq!(storage.list_buckets("mehdy").unwrap()[0].creation_date, instant(1));
}

#[test]
fn engine_refuses_a_bucket_of_an_unknown_owner() {
    let (mut storage, _) = store();
    assert_eq!(
        storage.create_bucket_at("nobody", "buck", Ok(()), instant(1)).err(),
        Some(Error::NotFound)
    );
}

#[test]
fn bucket_made_now_carries_a_reading_of_the_clock() {
    let (mut storage, _) = store();
    let bucket = storage.create_bucket("mehdy", "buck", Ok(())).unwrap();
    // The reading lies after 2020-01-01 and its offset within a day.
    assert!(bucket.creation_date.seconds > 1_577_836_800);
    assert!(bucket.creation_date.nanos < 2_000_000_000);
    assert!(bucket.creation_date.offset > -86_400 && bucket.creation_date.offset < 86_400);
}

#[test]
fn put_records_the_length_of_the_payload() {
    let (mut storage, user) = store();
    storage.create_bucket_at("mehdy", "buck", Ok(()), instant(1)).unwrap();
    let object = storage.put_object_at(&user, "buck", "hello", b"world", Ok(()), instant(7)).unwrap();
    assert_eq!(object.key, "hello");
    assert_eq!(object.bucket, "buck");
    assert_eq!(object.owner_id, "mehdy");
    assert_eq!(object.size, 5);
    assert_eq!(object.last_modified, instant(7));
    let mut buf = vec![1u8, 2];
    let found = storage.get_object("buck", "hello", Ok(b"world".to_vec()), &mut buf).unwrap();
    assert_eq!(found.size, 5);
    assert_eq!(found.last_modified, instant(7));
    assert_eq!(buf, b"\x01\x02world");
}

#[test]
fn put_of_an_empty_payload_has_size_zero() {
    let (mut storage, user) = store();
    storage.create_bucket_at("mehdy", "buck", Ok(()), instant(1)).unwrap();
    let object = storage.put_object_at(&user, "buck", "empty", b"", Ok(()), instant(7)).unwrap();
    assert_eq!(object.size, 0);
    let mut buf = Vec::new();
    assert_eq!(storage.get_object("buck", "empty", Ok(Vec::new()), &mut buf).unwrap().size, 0);
    assert_eq!(buf.len(), 0);
    let listed = storage.list_objects("buck");
    assert_eq!(listed.len(), 1);
    assert_eq!(listed[0].key, "empty");
    assert_eq!(listed[0].size, 0);
}

#[test]
fn put_is_refused_when_the_write_failed() {
    let (mut storage, user) = store();
    storage.create_bucket_at("mehdy", "buck", Ok(()), instant(1)).unwrap();
    assert_eq!(
        storage.put_object_at(&user, "buck", "k", b"x", Err(BlobError::Io), instant(2)).err(),
        Some(Error::Io)
    );
    assert_eq!(
        storage.put_object_at(&user, "buck", "k", b"x", Err(BlobError::NotFound), instant(2)).err(),
        Some(Error::NotFound)
    );
    assert_eq!(storage.list_objects("buck").len(), 0);
}

#[test]
fn put_into_an_unknown_bucket_is_not_found() {
    let (mut storage, user) = store();
    assert_eq!(
        storage.put_object_at(&user, "buck", "k", b"x", Ok(()), instant(2)).err(),
        Some(Error::NotFound)
    );
    assert_eq!(storage.put_object(&user, "buck", "k", b"x", Ok(())).err(), Some(Error::NotFound));
    assert_eq!(storage.list_objects("buck").len(), 0);
}

#[test]
fn repeated_put_keeps_one_object_with_the_later_date() {
    let (mut storage, user) = store();
    storage.create_bucket_at("mehdy", "buck", Ok(()), instant(1)).unwrap();
    let first = storage.put_object_at(&user, "buck", "k", b"same", Ok(()), instant(5)).unwrap();
    let second = storage.put_object_at(&user, "buck", "k", b"same", Ok(()), instant(9)).unwrap();
    assert_eq!(first.size, second.size);
    assert!(first.last_modified.is_not_after(&second.last_modified));
    let listed = storage.list_objects("buck");
    assert_eq!(listed.len(), 1);
    assert_eq!(listed[0].last_modified, instant(9));
}

#[test]
fn put_now_carries_a_reading_of_the_clock() {
    let (mut storage, user) = store();
    storage.create_bucket_at("mehdy", "buck", Ok(()), instant(1)).unwrap();
    let first = storage.put_object(&user, "buck", "k", b"abc", Ok(())).unwrap();
    assert_eq!(first.size, 3);
    assert!(first.last_modified.seconds > 1_577_836_800);
}

#[test]
fn get_needs_both_the_blob_and_the_entry() {
    let (mut storage, user) = store();
    storage.create_bucket_at("mehdy", "buck", Ok(()), instant(1)).unwrap();
    storage.put_object_at(&user, "buck", "k", b"abc", Ok(()), instant(2)).unwrap();
    let mut buf = vec![9u8];
    assert_eq!(
        storage.get_object("buck", "k", Err(BlobError::NotFound), &mut buf).err(),
        Some(Error::NotFound)
    );
    assert_eq!(
        storage.get_object("buck", "k", Err(BlobError::Io), &mut buf).err(),
        Some(Error::NotFound)
    );
    assert_eq!(
        storage.get_object("buck", "other", Ok(b"abc".to_vec()), &mut buf).err(),
        Some(Error::NotFound)
    );
    assert_eq!(buf, vec![9u8]);
}

#[test]
fn deleted_object_is_not_found_afterwards() {
    let (mut storage, user) = store();
    storage.create_bucket_at("mehdy", "buck", Ok(()), instant(1)).unwrap();
    storage.put_object_at(&user, "buck", "k", b"abc", Ok(()), instant(2)).unwrap();
    storage.put_object_at(&user, "buck", "other", b"x", Ok(()), instant(2)).unwrap();
    assert_eq!(storage.delete_object("buck", "k", Err(BlobError::NotFound)), Err(Error::NotFound));
    assert_eq!(storage.delete_object("buck", "k", Err(BlobError::Io)), Err(Error::Io));
    assert_eq!(storage.list_objects("buck").len(), 2);
    assert_eq!(storage.delete_object("buck", "k", Ok(())), Ok(()));
    let mut buf = Vec::new();
    assert_eq!(
        storage.get_object("buck", "k", Ok(b"abc".to_vec()), &mut buf).err(),
        Some(Error::NotFound)
    );
    assert_eq!(storage.list_objects("buck").len(), 1);
    assert_eq!(storage.list_objects("buck")[0].key, "other");
}

#[test]
fn deleted_bucket_lists_no_objects() {
    let (mut storage, user) = store();
    storage.create_bucket_at("mehdy", "buck", Ok(()), instant(1)).unwrap();
    storage.put_object_at(&user, "buck", "k", b"abc", Ok(()), instant(2)).unwrap();
    assert_eq!(storage.delete_bucket("buck", Err(BlobError::Io)), Err(Error::Io));
    assert_eq!(storage.list_objects("buck").len(), 1);
    assert_eq!(storage.delete_bucket("buck", Ok(())), Ok(()));
    assert_eq!(storage.list_objects("buck").len(), 0);
    assert_eq!(storage.list_buckets("mehdy").unwrap().len(), 0);
    assert!(storage.create_bucket_at("mehdy", "buck", Ok(()), instant(3)).is_ok());
    assert_eq!(storage.list_objects("buck").len(), 0);
}
