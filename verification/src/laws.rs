//! What holds of the store across operations.

use crate::drivers::db::{
    lemma_without_key, object_with_key, without_key, Catalog, Record,
};
use crate::drivers::digest::md5_digest;
use crate::drivers::request::{Request, Response};
use crate::drivers::web_server::{
    header_texts, intent_of, is_put_reply, path_segments, reach, App, Intent, Step,
};
use crate::entities::bucket::Bucket;
use crate::entities::object::Object;
use crate::entities::timestamp::Timestamp;
use crate::entities::user::User;
use crate::error::{BlobError, Error};
use crate::interactors::storage::{bucket_path, is_safe_name, object_path, Storage};
use crate::text::{hex_lower, join_with, split_on};
use vstd::prelude::*;

verus! {

/// The writes that an operation lists bring a record store from a
/// consistent catalog before the operation to the catalog after it.
pub proof fn law_writes_make_the_change(
    catalog: Catalog,
    user: User,
    bucket: Bucket,
    object: Object,
    name: Seq<char>,
    key: Seq<char>,
)
    requires
        catalog.consistent(),
    ensures
        catalog.written_all(catalog.user_records(user)) == catalog.add_user(user),
        catalog.written_all(catalog.bucket_records(bucket)) == catalog.add_bucket(bucket),
        catalog.written_all(catalog.object_records(object)) == catalog.put_object(object),
        catalog.written_all(catalog.drop_bucket_records(name)) == catalog.drop_bucket(name),
        catalog.written_all(catalog.drop_object_records(name, key)) == catalog.drop_object(
            name,
            key,
        ),
{
    lemma_three_writes(catalog, catalog.user_records(user));
    lemma_three_writes(catalog, catalog.bucket_records(bucket));
    lemma_three_writes(catalog, catalog.object_records(object));
    lemma_three_writes(catalog, catalog.drop_bucket_records(name));
    lemma_three_writes(catalog, catalog.drop_object_records(name, key));
    if !catalog.buckets.contains_key(name) {
        assert(catalog.buckets.remove(name) =~= catalog.buckets);
    }
    let dropped = catalog.drop_bucket(name);
    let rewritten = catalog.written_all(catalog.drop_bucket_records(name));
    if !catalog.buckets.contains_key(name) {
        assert(!catalog.objects.contains_key(name));
        assert(catalog.objects.remove(name) =~= catalog.objects);
    }
    assert(rewritten.buckets =~= dropped.buckets);
    assert(rewritten.objects =~= dropped.objects);
    assert(rewritten.user_buckets =~= dropped.user_buckets);
}

/// A run of up to three writes, written out.
proof fn lemma_three_writes(catalog: Catalog, records: Seq<Record>)
    requires
        records.len() <= 3,
    ensures
        records.len() == 0 ==> catalog.written_all(records) == catalog,
        records.len() == 1 ==> catalog.written_all(records) == catalog.written(records[0]),
        records.len() == 2 ==> catalog.written_all(records) == catalog.written(
            records[0],
        ).written(records[1]),
        records.len() == 3 ==> catalog.written_all(records) == catalog.written(
            records[0],
        ).written(records[1]).written(records[2]),
    decreases records.len(),
{
    if records.len() > 0 {
        let shorter = records.drop_last();
        lemma_three_writes(catalog, shorter);
        if shorter.len() > 0 {
            assert(shorter[0] == records[0]);
        }
        if shorter.len() > 1 {
            assert(shorter[1] == records[1]);
        }
    }
}

/// A list without an object of some key yields nothing for that key.
pub proof fn lemma_key_absent(list: Seq<Object>, key: Seq<char>)
    requires
        forall|i: int| 0 <= i < list.len() ==> (#[trigger] list[i]).key@ != key,
    ensures
        object_with_key(list, key) is None,
    decreases list.len(),
{
    if list.len() > 0 {
        let rest = list.drop_first();
        assert forall|i: int| 0 <= i < rest.len() implies (#[trigger] rest[i]).key@ != key by {
            assert(rest[i] == list[i + 1]);
        }
        lemma_key_absent(rest, key);
    }
}

/// An object appended to a list without its key is what the list yields
/// for that key.
pub proof fn lemma_key_appended(list: Seq<Object>, object: Object)
    requires
        forall|i: int| 0 <= i < list.len() ==> (#[trigger] list[i]).key@ != object.key@,
    ensures
        object_with_key(list.push(object), object.key@) == Some(object),
    decreases list.len(),
{
    let longer = list.push(object);
    if list.len() > 0 {
        let rest = list.drop_first();
        assert forall|i: int| 0 <= i < rest.len() implies (#[trigger] rest[i]).key@
            != object.key@ by {
            assert(rest[i] == list[i + 1]);
        }
        lemma_key_appended(rest, object);
        assert(longer.drop_first() =~= rest.push(object));
        assert(longer[0] == list[0]);
    } else {
        assert(longer[0] == object);
    }
}

/// After an object is put, looking up its key in its bucket gives that
/// object.
pub proof fn law_catalog_put_then_find(catalog: Catalog, object: Object)
    ensures
        object_with_key(catalog.put_object(object).objects_of(object.bucket@), object.key@)
            == Some(object),
{
    let list = catalog.objects_of(object.bucket@);
    lemma_without_key(list, object.key@);
    lemma_key_appended(without_key(list, object.key@), object);
}

/// After the object under a key is dropped, looking up the key in the
/// bucket gives nothing.
pub proof fn law_catalog_drop_then_find(catalog: Catalog, bucket: Seq<char>, key: Seq<char>)
    ensures
        object_with_key(catalog.drop_object(bucket, key).objects_of(bucket), key) is None,
{
    if catalog.objects.contains_key(bucket) {
        let list = catalog.objects[bucket];
        lemma_without_key(list, key);
        lemma_key_absent(without_key(list, key), key);
    }
}

/// After a bucket is dropped it is not in the catalog and has no objects.
pub proof fn law_catalog_drop_bucket(catalog: Catalog, name: Seq<char>)
    ensures
        !catalog.drop_bucket(name).buckets.contains_key(name),
        catalog.drop_bucket(name).objects_of(name) == Seq::<Object>::empty(),
{
}

/// A user that was just added owns no buckets, and that is a list, not a
/// failure.
pub proof fn law_new_user_owns_nothing(catalog: Catalog, user: User)
    ensures
        catalog.add_user(user).user_buckets.contains_key(user.id@),
        catalog.add_user(user).user_buckets[user.id@] == Seq::<Bucket>::empty(),
{
}

/// A bucket enters the catalog only after its directory was ensured, and
/// is then found under its name and at the end of its owner's list.
pub proof fn law_bucket_after_directory(
    storage: Storage,
    owner_id: Seq<char>,
    name: Seq<char>,
    directory: Result<(), BlobError>,
    created: Timestamp,
    after: Storage,
    bucket: Bucket,
)
    requires
        storage.makes_bucket(owner_id, name, directory, created, after, Ok(bucket)),
    ensures
        directory is Ok,
        after.db@.buckets.contains_key(name),
        after.db@.buckets[name] == bucket,
        after.db@.user_buckets[owner_id].last() == bucket,
{
}

/// When the directory step fails, the bucket is refused with the kind of
/// that failure and the store stays as it was.
pub proof fn law_bucket_directory_failure(
    storage: Storage,
    owner_id: Seq<char>,
    name: Seq<char>,
    failure: BlobError,
    created: Timestamp,
    after: Storage,
    made: Result<Bucket, Error>,
)
    requires
        storage.makes_bucket(owner_id, name, Err(failure), created, after, made),
    ensures
        made == Err::<Bucket, Error>(failure.kind()),
        after == storage,
{
}

/// Once a bucket has been made, making a bucket of that name again is
/// refused with `Conflict`, whoever asks and whenever.
pub proof fn law_second_create_conflicts(
    storage: Storage,
    owner_id: Seq<char>,
    name: Seq<char>,
    directory: Result<(), BlobError>,
    created: Timestamp,
    after: Storage,
    bucket: Bucket,
    other_owner: Seq<char>,
    again: Timestamp,
    last: Storage,
    made: Result<Bucket, Error>,
)
    requires
        storage.makes_bucket(owner_id, name, directory, created, after, Ok(bucket)),
        after.makes_bucket(other_owner, name, Ok(()), again, last, made),
    ensures
        made == Err::<Bucket, Error>(Error::Conflict),
        last == after,
{
}

/// After a put succeeds, the bucket yields for the key the metadata that
/// the put returned: its size is the length of the payload and its date is
/// the instant of the put. The payload had been written before.
pub proof fn law_put_then_get(
    storage: Storage,
    user: User,
    bucket: Seq<char>,
    key: Seq<char>,
    body: Seq<u8>,
    written: Result<(), BlobError>,
    now: Timestamp,
    after: Storage,
    object: Object,
)
    requires
        storage.puts_object(user, bucket, key, body, written, now, after, Ok(object)),
    ensures
        written is Ok,
        object_with_key(after.db@.objects_of(bucket), key) == Some(object),
        object.size == body.len(),
        object.last_modified == now,
        body.len() == 0 ==> object.size == 0,
{
    law_catalog_put_then_find(storage.db@, object);
}

/// A put at an instant no earlier than `start` leaves a date no earlier
/// than `start`.
pub proof fn law_put_date_not_before_start(
    storage: Storage,
    user: User,
    bucket: Seq<char>,
    key: Seq<char>,
    body: Seq<u8>,
    written: Result<(), BlobError>,
    start: Timestamp,
    now: Timestamp,
    after: Storage,
    object: Object,
)
    requires
        storage.puts_object(user, bucket, key, body, written, now, after, Ok(object)),
        start.not_after(now),
    ensures
        start.not_after(object.last_modified),
{
}

/// Putting the same payload under the same key twice gives the same size
/// both times, leaves the second metadata in the bucket, and, if the clock
/// did not go back, a date that is not earlier.
pub proof fn law_repeated_put(
    storage: Storage,
    user: User,
    bucket: Seq<char>,
    key: Seq<char>,
    body: Seq<u8>,
    first_at: Timestamp,
    middle: Storage,
    first: Object,
    second_at: Timestamp,
    after: Storage,
    second: Object,
)
    requires
        storage.puts_object(user, bucket, key, body, Ok(()), first_at, middle, Ok(first)),
        middle.puts_object(user, bucket, key, body, Ok(()), second_at, after, Ok(second)),
    ensures
        first.size == second.size,
        object_with_key(after.db@.objects_of(bucket), key) == Some(second),
        first_at.not_after(second_at) ==> first.last_modified.not_after(second.last_modified),
{
    law_catalog_put_then_find(middle.db@, second);
}

/// After an object is deleted, the store no longer yields it.
pub proof fn law_delete_then_get(storage: Storage, bucket: Seq<char>, key: Seq<char>)
    ensures
        object_with_key(storage.db@.drop_object(bucket, key).objects_of(bucket), key) is None,
{
    law_catalog_drop_then_find(storage.db@, bucket, key);
}

/// The path `/` has no segments, so it asks for the list of buckets under
/// every method.
pub proof fn law_root_lists_buckets(method: Seq<char>)
    ensures
        path_segments("/"@) == Seq::<Seq<char>>::empty(),
        intent_of(method, "/"@) == Intent::ListBuckets,
{
    reveal_strlit("/");
    let rest = "/"@.drop_first();
    assert(rest.len() == 0);
    assert(reach(rest, '/') == 0);
    assert(path_segments("/"@) =~= Seq::<Seq<char>>::empty());
}

/// Joining the fields of a text with the separator gives back the text.
pub proof fn law_split_then_join(text: Seq<char>, separator: char)
    ensures
        join_with(split_on(text, separator), seq![separator]) == text,
        split_on(text, separator).len() >= 1,
    decreases text.len(),
{
    if text.len() == 0 {
        assert(join_with(split_on(text, separator), seq![separator]) =~= text);
    } else {
        let shorter = text.drop_last();
        let before = split_on(shorter, separator);
        law_split_then_join(shorter, separator);
        if text.last() == separator {
            let fields = before.push(Seq::empty());
            assert(fields.drop_last() =~= before);
            assert(join_with(fields, seq![separator]) =~= shorter + seq![separator]);
            assert(shorter + seq![separator] =~= text);
        } else {
            let grown = before.last().push(text.last());
            let fields = before.update(before.len() - 1, grown);
            if before.len() == 1 {
                assert(join_with(before, seq![separator]) == before[0]);
                assert(join_with(fields, seq![separator]) =~= shorter.push(text.last()));
            } else {
                assert(fields.drop_last() =~= before.drop_last());
                assert(join_with(before, seq![separator]) == join_with(
                    before.drop_last(),
                    seq![separator],
                ) + seq![separator] + before.last());
                assert(join_with(fields, seq![separator]) =~= shorter.push(text.last()));
            }
            assert(shorter.push(text.last()) =~= text);
        }
    }
}

/// In a consistent catalog no two users share an access key.
pub proof fn law_access_keys_are_unique(catalog: Catalog, first: Seq<char>, second: Seq<char>)
    requires
        catalog.consistent(),
        catalog.users.contains_key(first),
        catalog.users.contains_key(second),
        catalog.users[first].access_key@ == catalog.users[second].access_key@,
    ensures
        first == second,
{
}

/// In a consistent catalog every bucket is filed under its own name, so no
/// two buckets share a name, and its owner is a user.
pub proof fn law_buckets_are_named_and_owned(catalog: Catalog, name: Seq<char>)
    requires
        catalog.consistent(),
        catalog.buckets.contains_key(name),
    ensures
        catalog.buckets[name].name@ == name,
        catalog.users.contains_key(catalog.buckets[name].owner_id@),
        catalog.user_buckets[catalog.buckets[name].owner_id@].contains(catalog.buckets[name]),
{
    assert(catalog.user_buckets.contains_key(catalog.buckets[name].owner_id@));
}

/// In a consistent catalog the list of a user holds exactly the buckets
/// that the user owns.
pub proof fn law_lists_hold_the_owned_buckets(catalog: Catalog, owner: Seq<char>, bucket: Bucket)
    requires
        catalog.consistent(),
        catalog.user_buckets.contains_key(owner),
    ensures
        catalog.user_buckets[owner].contains(bucket) <==> (catalog.buckets.contains_key(
            bucket.name@,
        ) && catalog.buckets[bucket.name@] == bucket && bucket.owner_id@ == owner),
{
    let list = catalog.user_buckets[owner];
    if list.contains(bucket) {
        let i = choose|i: int| 0 <= i < list.len() && list[i] == bucket;
        assert(catalog.user_buckets[owner][i] == bucket);
    }
    if catalog.buckets.contains_key(bucket.name@) && catalog.buckets[bucket.name@] == bucket {
    }
}

/// In a consistent catalog objects stand only under buckets of the
/// catalog, each under its own bucket, and a key occurs once in a bucket.
pub proof fn law_objects_are_keyed(catalog: Catalog, bucket: Seq<char>, i: int, j: int)
    requires
        catalog.consistent(),
        0 <= i < catalog.objects_of(bucket).len(),
        0 <= j < catalog.objects_of(bucket).len(),
    ensures
        catalog.buckets.contains_key(bucket),
        catalog.objects_of(bucket)[i].bucket@ == bucket,
        catalog.objects_of(bucket)[i].key@ == catalog.objects_of(bucket)[j].key@ ==> i == j,
{
    assert(catalog.objects.contains_key(bucket));
    assert(catalog.objects[bucket][i].bucket@ == bucket);
}

/// When a put was answered with 200, the answer carries the MD5 of the
/// payload as its entity tag, and a later get whose blob step read
/// `payload` is answered with 200 and that payload.
pub proof fn law_put_reply_then_get_reply(
    app: App,
    user: User,
    bucket: Seq<char>,
    key: Seq<char>,
    body: Seq<u8>,
    after: App,
    put_reply: Response,
    reader: User,
    payload: Vec<u8>,
    last: App,
    get_reply: Response,
)
    requires
        app.puts_object(user, bucket, key, body, Ok(()), after, put_reply),
        put_reply.status == 200,
        after.carries_out(
            reader,
            Intent::GetObject(bucket, key),
            Seq::empty(),
            Ok(payload),
            last,
            get_reply,
        ),
    ensures
        header_texts(put_reply.headers@) == seq![("ETag"@, hex_lower(md5_digest(body)))],
        last == after,
        get_reply.status == 200,
        get_reply.body@ == payload@,
{
    let (now, made) = choose|now: Timestamp, made: Result<Object, Error>|
        {
            &&& #[trigger] app.storage.puts_object(
                user,
                bucket,
                key,
                body,
                Ok(()),
                now,
                after.storage,
                made,
            )
            &&& match made {
                Ok(_) => is_put_reply(put_reply, body),
                Err(error) => put_reply.status == error.status() && put_reply.headers@.len() == 0
                    && put_reply.body@.len() == 0,
            }
        };
    assert(made is Ok);
    law_put_then_get(app.storage, user, bucket, key, body, Ok(()), now, after.storage, made->Ok_0);
}

/// Whether `path` is the directory of `bucket` or the file of `key` in
/// `bucket` below `base`, with names that are safe.
pub open spec fn leads_to(base: Seq<char>, bucket: Seq<char>, key: Seq<char>, path: Seq<char>) -> bool {
    is_safe_name(bucket) && (path == bucket_path(base, bucket) || (is_safe_name(key) && path
        == object_path(base, bucket, key)))
}

/// Every blob step that the dispatcher asks for works on the directory of
/// a bucket or the file of an object whose names are safe: the path is the
/// base, a `/`, the bucket, and for an object a `/` and the key, and none
/// of the names holds a `/`, a NUL or two dots in a row.
pub proof fn law_steps_stay_below_base(app: App, req: Request, step: Step)
    requires
        app.first_step(req, step),
        step is Blob,
    ensures
        exists|bucket: Seq<char>, key: Seq<char>| #[trigger]
            leads_to(app.storage.base_path@, bucket, key, step->Blob_2.path@),
{
    let base = app.storage.base_path@;
    let path = step->Blob_2.path@;
    let intent = intent_of(req.method@, req.path@);
    assert(app.caller(req) is Ok);
    match intent {
        Intent::CreateBucket(bucket) => {
            assert(leads_to(base, bucket, Seq::empty(), path));
        },
        Intent::DeleteBucket(bucket) => {
            assert(leads_to(base, bucket, Seq::empty(), path));
        },
        Intent::GetObject(bucket, key) => {
            assert(leads_to(base, bucket, key, path));
        },
        Intent::PutObject(bucket, key) => {
            assert(leads_to(base, bucket, key, path));
        },
        Intent::DeleteObject(bucket, key) => {
            assert(leads_to(base, bucket, key, path));
        },
        _ => {},
    }
}

} // verus!
