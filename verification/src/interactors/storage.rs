//! The storage engine: every operation of the store, each as the blob step
//! first and the catalog step after it. The blob layer works on the file
//! system, so its steps are performed by the caller, who hands their
//! outcome in; an operation whose blob step failed leaves the catalog as it
//! was.

use crate::drivers::db::{object_with_key, Db, Record};
use crate::entities::bucket::Bucket;
use crate::entities::object::Object;
use crate::entities::timestamp::Timestamp;
use crate::entities::user::User;
use crate::error::{BlobError, Error};
use crate::text::chars_of;
use vstd::prelude::*;
use vstd::string::*;

verus! {

/// The store: where the blobs live, and the catalog.
pub struct Storage {
    pub base_path: String,
    pub db: Db,
}

/// Where the directory of a bucket lies: `base/bucket`.
pub open spec fn bucket_path(base: Seq<char>, bucket: Seq<char>) -> Seq<char> {
    base + "/"@ + bucket
}

/// Where the payload of an object lies: `base/bucket/key`.
pub open spec fn object_path(base: Seq<char>, bucket: Seq<char>, key: Seq<char>) -> Seq<char> {
    base + "/"@ + bucket + "/"@ + key
}

/// Whether a bucket name or a key can be one component of a path below the
/// base: it is not empty, is not `.`, and holds no `/`, no NUL and no two
/// dots in a row.
pub open spec fn is_safe_name(name: Seq<char>) -> bool {
    &&& name.len() > 0
    &&& name != seq!['.']
    &&& forall|i: int| 0 <= i < name.len() ==> #[trigger] name[i] != '/' && name[i] != '\0'
    &&& forall|i: int| 0 <= i && i + 1 < name.len() ==> !(#[trigger] name[i] == '.' && name[i + 1]
        == '.')
}

/// Whether a name can be one component of a path below the base.
pub fn is_safe(name: &str) -> (safe: bool)
    ensures
        safe == is_safe_name(name@),
{
    let chars = chars_of(name);
    if chars.len() == 0 {
        return false;
    }
    if chars.len() == 1 && chars[0] == '.' {
        assert(name@ =~= seq!['.']);
        return false;
    }
    let mut at: usize = 0;
    while at < chars.len()
        invariant
            chars@ == name@,
            at <= chars.len(),
            forall|i: int| 0 <= i < at ==> #[trigger] chars@[i] != '/' && chars@[i] != '\0',
            forall|i: int|
                0 <= i && i + 1 < at ==> !(#[trigger] chars@[i] == '.' && chars@[i + 1] == '.'),
        decreases chars.len() - at,
    {
        if chars[at] == '/' || chars[at] == '\0' {
            return false;
        }
        if at > 0 && chars[at - 1] == '.' && chars[at] == '.' {
            assert(chars@[at - 1] == '.' && chars@[at - 1 + 1] == '.');
            return false;
        }
        at = at + 1;
    }
    true
}

impl Storage {
    /// The catalog is well formed.
    pub open spec fn wf(&self) -> bool {
        self.db.wf()
    }

    /// A store with an empty catalog and its blobs under `base_path`.
    pub fn new(base_path: &str) -> (storage: Self)
        ensures
            storage.wf(),
            storage.base_path@ == base_path@,
            storage.db@.users == Map::<Seq<char>, User>::empty(),
            storage.db@.access_keys == Map::<Seq<char>, Seq<char>>::empty(),
            storage.db@.user_buckets == Map::<Seq<char>, Seq<Bucket>>::empty(),
            storage.db@.buckets == Map::<Seq<char>, Bucket>::empty(),
            storage.db@.objects == Map::<Seq<char>, Seq<Object>>::empty(),
            storage.db.pending() == Seq::<Record>::empty(),
    {
        Storage { base_path: base_path.to_owned(), db: Db::new() }
    }

    /// The path of a bucket's directory.
    pub fn bucket_dir(&self, bucket: &str) -> (path: String)
        ensures
            path@ == bucket_path(self.base_path@, bucket@),
    {
        let mut path = self.base_path.clone();
        path.append("/");
        path.append(bucket);
        path
    }

    /// The path of an object's payload.
    pub fn object_file(&self, bucket: &str, object: &str) -> (path: String)
        ensures
            path@ == object_path(self.base_path@, bucket@, object@),
    {
        let mut path = self.base_path.clone();
        path.append("/");
        path.append(bucket);
        path.append("/");
        path.append(object);
        path
    }

    /// Adds a user with the given credentials and returns it. Fails with
    /// `Conflict`, changing nothing, if the id or the access key is taken.
    pub fn new_user(
        &mut self,
        id: &str,
        display_name: &str,
        access_key: &str,
        secret_access_key: &str,
    ) -> (made: Result<User, Error>)
        requires
            old(self).wf(),
        ensures
            final(self).wf(),
            final(self).base_path == old(self).base_path,
            match made {
                Ok(user) => {
                    &&& user.id@ == id@
                    &&& user.display_name@ == display_name@
                    &&& user.access_key@ == access_key@
                    &&& user.secret_access_key@ == secret_access_key@
                    &&& !old(self).db@.users.contains_key(id@)
                    &&& !old(self).db@.access_keys.contains_key(access_key@)
                    &&& final(self).db@ == old(self).db@.add_user(user)
                    &&& final(self).db.pending() == old(self).db.pending() + old(
                        self,
                    ).db@.user_records(user)
                },
                Err(error) => {
                    &&& error == Error::Conflict
                    &&& (old(self).db@.users.contains_key(id@) || old(
                        self,
                    ).db@.access_keys.contains_key(access_key@))
                    &&& *final(self) == *old(self)
                },
            },
    {
        let user = User {
            id: id.to_owned(),
            display_name: display_name.to_owned(),
            access_key: access_key.to_owned(),
            secret_access_key: secret_access_key.to_owned(),
        };
        match self.db.create_user(&user) {
            Ok(_) => Ok(user),
            Err(error) => Err(error),
        }
    }

    /// The user that an access key belongs to.
    pub fn find_user(&self, id: &str) -> (user: Option<User>)
        requires
            self.wf(),
        ensures
            user == self.db@.user_by_access_key(id@),
    {
        self.db.get_user_by_access_key(id)
    }

    /// The buckets that a user owns, oldest first; `NotFound` if there is
    /// no such user. A user without buckets has an empty list.
    pub fn list_buckets(&self, owner_id: &str) -> (owned: Result<Vec<Bucket>, Error>)
        requires
            self.wf(),
        ensures
            match owned {
                Ok(list) => self.db@.user_buckets.contains_key(owner_id@) && list@
                    == self.db@.user_buckets[owner_id@],
                Err(error) => error == Error::NotFound && !self.db@.user_buckets.contains_key(
                    owner_id@,
                ),
            },
    {
        self.db.get_buckets_by_user_id(owner_id)
    }

    /// The objects in a bucket; none if the bucket has no entry.
    pub fn list_objects(&self, bucket: &str) -> (objects: Vec<Object>)
        requires
            self.wf(),
        ensures
            objects@ == self.db@.objects_of(bucket@),
    {
        self.db.get_objects_by_bucket_name(bucket)
    }

    /// Why a bucket cannot be made, if it cannot: the failure of the
    /// directory step; else `Conflict` for a name that is taken; else
    /// `NotFound` for an owner who is not a user.
    pub open spec fn bucket_refusal(
        self,
        owner_id: Seq<char>,
        name: Seq<char>,
        directory: Result<(), BlobError>,
    ) -> Option<Error> {
        match directory {
            Err(failure) => Some(failure.kind()),
            Ok(_) => if self.db@.buckets.contains_key(name) {
                Some(Error::Conflict)
            } else if !self.db@.user_buckets.contains_key(owner_id) {
                Some(Error::NotFound)
            } else {
                None
            },
        }
    }

    /// What making a bucket at the instant `created` does: unless refused,
    /// an empty bucket of that name and owner is filed and appended to the
    /// owner's list; if refused, nothing changes.
    pub open spec fn makes_bucket(
        self,
        owner_id: Seq<char>,
        name: Seq<char>,
        directory: Result<(), BlobError>,
        created: Timestamp,
        after: Storage,
        made: Result<Bucket, Error>,
    ) -> bool {
        match made {
            Ok(bucket) => {
                &&& self.bucket_refusal(owner_id, name, directory) is None
                &&& bucket.name@ == name
                &&& bucket.owner_id@ == owner_id
                &&& bucket.object_count == 0
                &&& bucket.size == 0
                &&& bucket.creation_date == created
                &&& after.base_path == self.base_path
                &&& after.db@ == self.db@.add_bucket(bucket)
                &&& after.db.pending() == self.db.pending() + self.db@.bucket_records(bucket)
            },
            Err(error) => {
                &&& self.bucket_refusal(owner_id, name, directory) == Some(error)
                &&& after == self
            },
        }
    }

    /// Makes a bucket, stamped `created`, after its directory was ensured
    /// with the outcome `directory`.
    pub fn create_bucket_at(
        &mut self,
        owner_id: &str,
        name: &str,
        directory: Result<(), BlobError>,
        created: Timestamp,
    ) -> (made: Result<Bucket, Error>)
        requires
            old(self).wf(),
        ensures
            final(self).wf(),
            old(self).makes_bucket(owner_id@, name@, directory, created, *final(self), made),
    {
        if let Err(failure) = directory {
            return Err(failure.to_error());
        }
        let bucket = Bucket {
            name: name.to_owned(),
            owner_id: owner_id.to_owned(),
            object_count: 0,
            size: 0,
            creation_date: created,
        };
        match self.db.create_bucket(&bucket) {
            Ok(_) => Ok(bucket),
            Err(error) => Err(error),
        }
    }

    /// Makes a bucket, stamped with the present time, after its directory
    /// was ensured with the outcome `directory`.
    pub fn create_bucket(&mut self, owner_id: &str, name: &str, directory: Result<(), BlobError>) -> (made:
        Result<Bucket, Error>)
        requires
            old(self).wf(),
        ensures
            final(self).wf(),
            exists|created: Timestamp|
                old(self).makes_bucket(owner_id@, name@, directory, created, *final(self), made),
    {
        let created = Timestamp::now();
        self.create_bucket_at(owner_id, name, directory, created)
    }

    /// Why an object cannot be put, if it cannot: the failure of the blob
    /// step; else `NotFound` for a bucket that is not in the catalog.
    pub open spec fn put_refusal(self, bucket: Seq<char>, written: Result<(), BlobError>) -> Option<
        Error,
    > {
        match written {
            Err(failure) => Some(failure.kind()),
            Ok(_) => if !self.db@.buckets.contains_key(bucket) {
                Some(Error::NotFound)
            } else {
                None
            },
        }
    }

    /// What putting an object at the instant `now` does: unless refused,
    /// the metadata of the payload, with its length as the size, takes the
    /// place of any object of that key in the bucket's set; if refused,
    /// nothing changes.
    pub open spec fn puts_object(
        self,
        user: User,
        bucket: Seq<char>,
        key: Seq<char>,
        body: Seq<u8>,
        written: Result<(), BlobError>,
        now: Timestamp,
        after: Storage,
        made: Result<Object, Error>,
    ) -> bool {
        match made {
            Ok(object) => {
                &&& self.put_refusal(bucket, written) is None
                &&& object.key@ == key
                &&& object.bucket@ == bucket
                &&& object.owner_id@ == user.id@
                &&& object.size == body.len()
                &&& object.last_modified == now
                &&& after.base_path == self.base_path
                &&& after.db@ == self.db@.put_object(object)
                &&& after.db.pending() == self.db.pending() + self.db@.object_records(object)
            },
            Err(error) => {
                &&& self.put_refusal(bucket, written) == Some(error)
                &&& after == self
            },
        }
    }

    /// Records an object, stamped `now`, after its payload was written with
    /// the outcome `written`.
    pub fn put_object_at(
        &mut self,
        user: &User,
        bucket: &str,
        object: &str,
        body: &[u8],
        written: Result<(), BlobError>,
        now: Timestamp,
    ) -> (made: Result<Object, Error>)
        requires
            old(self).wf(),
            body@.len() <= i64::MAX,
        ensures
            final(self).wf(),
            old(self).puts_object(*user, bucket@, object@, body@, written, now, *final(self), made),
    {
        if let Err(failure) = written {
            return Err(failure.to_error());
        }
        let entry = Object {
            key: object.to_owned(),
            bucket: bucket.to_owned(),
            owner_id: user.id.clone(),
            size: body.len() as i64,
            last_modified: now,
        };
        match self.db.create_object(&entry) {
            Ok(_) => Ok(entry),
            Err(error) => Err(error),
        }
    }

    /// Records an object, stamped with the present time, after its payload
    /// was written with the outcome `written`.
    pub fn put_object(
        &mut self,
        user: &User,
        bucket: &str,
        object: &str,
        body: &[u8],
        written: Result<(), BlobError>,
    ) -> (made: Result<Object, Error>)
        requires
            old(self).wf(),
            body@.len() <= i64::MAX,
        ensures
            final(self).wf(),
            exists|now: Timestamp|
                old(self).puts_object(
                    *user,
                    bucket@,
                    object@,
                    body@,
                    written,
                    now,
                    *final(self),
                    made,
                ),
    {
        let now = Timestamp::now();
        self.put_object_at(user, bucket, object, body, written, now)
    }

    /// Hands out an object: the payload that the blob layer read is
    /// appended to `buf` and the metadata returned. Both the blob and the
    /// catalog entry must be there; otherwise the answer is `NotFound` and
    /// `buf` stays as it was.
    pub fn get_object(
        &self,
        bucket: &str,
        object: &str,
        blob: Result<Vec<u8>, BlobError>,
        buf: &mut Vec<u8>,
    ) -> (found: Result<Object, Error>)
        requires
            self.wf(),
        ensures
            match found {
                Ok(entry) => {
                    &&& blob is Ok
                    &&& object_with_key(self.db@.objects_of(bucket@), object@) == Some(entry)
                    &&& final(buf)@ == old(buf)@ + blob->Ok_0@
                },
                Err(error) => {
                    &&& error == Error::NotFound
                    &&& blob is Err || object_with_key(self.db@.objects_of(bucket@), object@)
                        is None
                    &&& final(buf)@ == old(buf)@
                },
            },
    {
        let mut payload = match blob {
            Ok(payload) => payload,
            Err(_) => { return Err(Error::NotFound); },
        };
        match self.db.get_object(bucket, object) {
            Some(entry) => {
                buf.append(&mut payload);
                Ok(entry)
            },
            None => Err(Error::NotFound),
        }
    }

    /// Forgets a bucket after its directory was removed with the outcome
    /// `removed`: the bucket, its objects and its place in its owner's list
    /// leave the catalog. If the removal failed, that failure is the answer
    /// and nothing changes.
    pub fn delete_bucket(&mut self, bucket: &str, removed: Result<(), BlobError>) -> (done: Result<
        (),
        Error,
    >)
        requires
            old(self).wf(),
        ensures
            final(self).wf(),
            final(self).base_path == old(self).base_path,
            match removed {
                Ok(_) => {
                    &&& done is Ok
                    &&& final(self).db@ == old(self).db@.drop_bucket(bucket@)
                    &&& final(self).db.pending() == old(self).db.pending() + old(
                        self,
                    ).db@.drop_bucket_records(bucket@)
                },
                Err(failure) => {
                    &&& done == Err::<(), Error>(failure.kind())
                    &&& *final(self) == *old(self)
                },
            },
    {
        if let Err(failure) = removed {
            return Err(failure.to_error());
        }
        self.db.delete_bucket(bucket);
        Ok(())
    }

    /// Forgets an object after its payload was removed with the outcome
    /// `removed`. If the removal failed, that failure is the answer and
    /// nothing changes.
    pub fn delete_object(&mut self, bucket: &str, object: &str, removed: Result<(), BlobError>) -> (done:
        Result<(), Error>)
        requires
            old(self).wf(),
        ensures
            final(self).wf(),
            final(self).base_path == old(self).base_path,
            match removed {
                Ok(_) => {
                    &&& done is Ok
                    &&& final(self).db@ == old(self).db@.drop_object(bucket@, object@)
                    &&& final(self).db.pending() == old(self).db.pending() + old(
                        self,
                    ).db@.drop_object_records(bucket@, object@)
                },
                Err(failure) => {
                    &&& done == Err::<(), Error>(failure.kind())
                    &&& *final(self) == *old(self)
                },
            },
    {
        if let Err(failure) = removed {
            return Err(failure.to_error());
        }
        self.db.delete_object(bucket, object);
        Ok(())
    }
}

} // verus!
