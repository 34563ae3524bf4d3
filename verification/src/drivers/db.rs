//! The catalog: users, buckets and objects in five partitions, with the
//! rules that keep them consistent.

use crate::drivers::table::Table;
use crate::entities::bucket::Bucket;
use crate::entities::object::Object;
use crate::entities::user::User;
use crate::error::Error;
use crate::text::same_text;
use vstd::prelude::*;

verus! {

/// The catalog as a mathematical value: its five partitions.
pub struct Catalog {
    /// Access key to user id.
    pub access_keys: Map<Seq<char>, Seq<char>>,
    /// User id to user.
    pub users: Map<Seq<char>, User>,
    /// User id to the buckets the user owns, oldest first.
    pub user_buckets: Map<Seq<char>, Seq<Bucket>>,
    /// Bucket name to bucket.
    pub buckets: Map<Seq<char>, Bucket>,
    /// Bucket name to the objects in the bucket.
    pub objects: Map<Seq<char>, Seq<Object>>,
}

/// A write to one partition, as a mathematical value.
pub enum Record {
    /// Point an access key at a user id.
    AccessKey(Seq<char>, Seq<char>),
    /// File a user under its id.
    User(User),
    /// Set the list of buckets of a user id.
    Buckets(Seq<char>, Seq<Bucket>),
    /// File a bucket under its name.
    Bucket(Bucket),
    /// Set the objects of a bucket name.
    Objects(Seq<char>, Seq<Object>),
    /// Take away the bucket under a name.
    NoBucket(Seq<char>),
    /// Take away the objects under a bucket name.
    NoObjects(Seq<char>),
}

/// A write to one partition, as a record store has to repeat it.
pub enum Write {
    AccessKey(String, String),
    User(User),
    Buckets(String, Vec<Bucket>),
    Bucket(Bucket),
    Objects(String, Vec<Object>),
    NoBucket(String),
    NoObjects(String),
}

impl View for Write {
    type V = Record;

    open spec fn view(&self) -> Record {
        match *self {
            Write::AccessKey(access_key, user_id) => Record::AccessKey(access_key@, user_id@),
            Write::User(user) => Record::User(user),
            Write::Buckets(user_id, buckets) => Record::Buckets(user_id@, buckets@),
            Write::Bucket(bucket) => Record::Bucket(bucket),
            Write::Objects(bucket, objects) => Record::Objects(bucket@, objects@),
            Write::NoBucket(name) => Record::NoBucket(name@),
            Write::NoObjects(name) => Record::NoObjects(name@),
        }
    }
}

/// The objects of `list` whose key is not `key`, in their order.
pub open spec fn without_key(list: Seq<Object>, key: Seq<char>) -> Seq<Object>
    decreases list.len(),
{
    if list.len() == 0 {
        Seq::empty()
    } else if list.last().key@ == key {
        without_key(list.drop_last(), key)
    } else {
        without_key(list.drop_last(), key).push(list.last())
    }
}

/// The buckets of `list` whose name is not `name`, in their order.
pub open spec fn without_name(list: Seq<Bucket>, name: Seq<char>) -> Seq<Bucket>
    decreases list.len(),
{
    if list.len() == 0 {
        Seq::empty()
    } else if list.last().name@ == name {
        without_name(list.drop_last(), name)
    } else {
        without_name(list.drop_last(), name).push(list.last())
    }
}

/// `list` with `object` in place of any object of the same key.
pub open spec fn with_object(list: Seq<Object>, object: Object) -> Seq<Object> {
    without_key(list, object.key@).push(object)
}

/// The first object of `list` with key `key`.
pub open spec fn object_with_key(list: Seq<Object>, key: Seq<char>) -> Option<Object>
    decreases list.len(),
{
    if list.len() == 0 {
        None
    } else if list[0].key@ == key {
        Some(list[0])
    } else {
        object_with_key(list.drop_first(), key)
    }
}

/// No two objects of `list` have the same key.
pub open spec fn distinct_object_keys(list: Seq<Object>) -> bool {
    forall|i: int, j: int|
        0 <= i < list.len() && 0 <= j < list.len() && i != j ==> (#[trigger] list[i]).key@ != (
        #[trigger] list[j]).key@
}

/// No two buckets of `list` have the same name.
pub open spec fn distinct_bucket_names(list: Seq<Bucket>) -> bool {
    forall|i: int, j: int|
        0 <= i < list.len() && 0 <= j < list.len() && i != j ==> (#[trigger] list[i]).name@ != (
        #[trigger] list[j]).name@
}

impl Catalog {
    /// The objects of a bucket; none if the bucket has no entry.
    pub open spec fn objects_of(self, bucket: Seq<char>) -> Seq<Object> {
        if self.objects.contains_key(bucket) {
            self.objects[bucket]
        } else {
            Seq::empty()
        }
    }

    /// The user with an access key.
    pub open spec fn user_by_access_key(self, access_key: Seq<char>) -> Option<User> {
        if self.access_keys.contains_key(access_key) && self.users.contains_key(
            self.access_keys[access_key],
        ) {
            Some(self.users[self.access_keys[access_key]])
        } else {
            None
        }
    }

    /// The catalog after one write.
    pub open spec fn written(self, record: Record) -> Catalog {
        match record {
            Record::AccessKey(access_key, user_id) => Catalog {
                access_keys: self.access_keys.insert(access_key, user_id),
                ..self
            },
            Record::User(user) => Catalog { users: self.users.insert(user.id@, user), ..self },
            Record::Buckets(user_id, buckets) => Catalog {
                user_buckets: self.user_buckets.insert(user_id, buckets),
                ..self
            },
            Record::Bucket(bucket) => Catalog {
                buckets: self.buckets.insert(bucket.name@, bucket),
                ..self
            },
            Record::Objects(name, objects) => Catalog {
                objects: self.objects.insert(name, objects),
                ..self
            },
            Record::NoBucket(name) => Catalog { buckets: self.buckets.remove(name), ..self },
            Record::NoObjects(name) => Catalog { objects: self.objects.remove(name), ..self },
        }
    }

    /// The catalog after a run of writes, first to last.
    pub open spec fn written_all(self, records: Seq<Record>) -> Catalog
        decreases records.len(),
    {
        if records.len() == 0 {
            self
        } else {
            self.written_all(records.drop_last()).written(records.last())
        }
    }

    /// The writes that add `user`: the user, its empty list of buckets, and
    /// its access key.
    pub open spec fn user_records(self, user: User) -> Seq<Record> {
        seq![
            Record::User(user),
            Record::Buckets(user.id@, Seq::empty()),
            Record::AccessKey(user.access_key@, user.id@),
        ]
    }

    /// The writes that add `bucket`: the bucket, and its owner's list with
    /// the bucket appended.
    pub open spec fn bucket_records(self, bucket: Bucket) -> Seq<Record> {
        seq![
            Record::Bucket(bucket),
            Record::Buckets(
                bucket.owner_id@,
                self.user_buckets[bucket.owner_id@].push(bucket),
            ),
        ]
    }

    /// The write that puts `object`: its bucket's set with the object in
    /// it.
    pub open spec fn object_records(self, object: Object) -> Seq<Record> {
        seq![
            Record::Objects(
                object.bucket@,
                with_object(self.objects_of(object.bucket@), object),
            ),
        ]
    }

    /// The writes that drop a bucket: its owner's list without it, and the
    /// removal of its entry and of its objects. None if there is no such
    /// bucket.
    pub open spec fn drop_bucket_records(self, name: Seq<char>) -> Seq<Record> {
        if self.buckets.contains_key(name) {
            let owner = self.buckets[name].owner_id@;
            seq![
                Record::Buckets(owner, without_name(self.user_buckets[owner], name)),
                Record::NoBucket(name),
                Record::NoObjects(name),
            ]
        } else {
            Seq::empty()
        }
    }

    /// The write that drops an object: its bucket's set without it. None if
    /// the bucket has no entry.
    pub open spec fn drop_object_records(self, bucket: Seq<char>, key: Seq<char>) -> Seq<Record> {
        if self.objects.contains_key(bucket) {
            seq![Record::Objects(bucket, without_key(self.objects[bucket], key))]
        } else {
            Seq::empty()
        }
    }

    /// The catalog with `user` added: filed under its id, with an empty
    /// list of buckets, and reached by its access key.
    pub open spec fn add_user(self, user: User) -> Catalog {
        Catalog {
            access_keys: self.access_keys.insert(user.access_key@, user.id@),
            users: self.users.insert(user.id@, user),
            user_buckets: self.user_buckets.insert(user.id@, Seq::empty()),
            ..self
        }
    }

    /// The catalog with `bucket` added: filed under its name and appended
    /// to its owner's list.
    pub open spec fn add_bucket(self, bucket: Bucket) -> Catalog {
        Catalog {
            buckets: self.buckets.insert(bucket.name@, bucket),
            user_buckets: self.user_buckets.insert(
                bucket.owner_id@,
                self.user_buckets[bucket.owner_id@].push(bucket),
            ),
            ..self
        }
    }

    /// The catalog with `object` put into its bucket's set, in place of any
    /// object of the same key.
    pub open spec fn put_object(self, object: Object) -> Catalog {
        Catalog {
            objects: self.objects.insert(
                object.bucket@,
                with_object(self.objects_of(object.bucket@), object),
            ),
            ..self
        }
    }

    /// The catalog without a bucket: its entry, its objects and its place
    /// in its owner's list are gone. The same catalog if there is no such
    /// bucket.
    pub open spec fn drop_bucket(self, name: Seq<char>) -> Catalog {
        Catalog {
            buckets: self.buckets.remove(name),
            objects: self.objects.remove(name),
            user_buckets: if self.buckets.contains_key(name) {
                let owner = self.buckets[name].owner_id@;
                self.user_buckets.insert(owner, without_name(self.user_buckets[owner], name))
            } else {
                self.user_buckets
            },
            ..self
        }
    }

    /// The catalog without the object under `key` in `bucket`. The same
    /// catalog if the bucket has no entry.
    pub open spec fn drop_object(self, bucket: Seq<char>, key: Seq<char>) -> Catalog {
        Catalog {
            objects: if self.objects.contains_key(bucket) {
                self.objects.insert(bucket, without_key(self.objects[bucket], key))
            } else {
                self.objects
            },
            ..self
        }
    }

    /// Every user is filed under its id, is reached by its access key, and
    /// has a list of buckets; every access key leads to the user that has
    /// it, so no two users share one.
    pub open spec fn users_consistent(self) -> bool {
        &&& forall|id: Seq<char>| #[trigger]
            self.users.contains_key(id) ==> {
                &&& self.users[id].id@ == id
                &&& self.access_keys.contains_key(self.users[id].access_key@)
                &&& self.access_keys[self.users[id].access_key@] == id
                &&& self.user_buckets.contains_key(id)
            }
        &&& forall|key: Seq<char>| #[trigger]
            self.access_keys.contains_key(key) ==> {
                &&& self.users.contains_key(self.access_keys[key])
                &&& self.users[self.access_keys[key]].access_key@ == key
            }
        &&& forall|id: Seq<char>| #[trigger]
            self.user_buckets.contains_key(id) ==> self.users.contains_key(id)
    }

    /// Every bucket is filed under its name, has an owner that exists, and
    /// stands in its owner's list; every list holds buckets of the catalog
    /// that the user owns, each once.
    pub open spec fn buckets_consistent(self) -> bool {
        &&& forall|name: Seq<char>| #[trigger]
            self.buckets.contains_key(name) ==> {
                &&& self.buckets[name].name@ == name
                &&& self.user_buckets.contains_key(self.buckets[name].owner_id@)
                &&& self.user_buckets[self.buckets[name].owner_id@].contains(self.buckets[name])
            }
        &&& forall|id: Seq<char>, i: int|
            self.user_buckets.contains_key(id) && 0 <= i < self.user_buckets[id].len() ==> {
                let bucket = #[trigger] self.user_buckets[id][i];
                &&& bucket.owner_id@ == id
                &&& self.buckets.contains_key(bucket.name@)
                &&& self.buckets[bucket.name@] == bucket
            }
        &&& forall|id: Seq<char>| #[trigger]
            self.user_buckets.contains_key(id) ==> distinct_bucket_names(self.user_buckets[id])
    }

    /// Objects are listed only under buckets of the catalog, each under its
    /// own bucket, and no key occurs twice in a bucket.
    pub open spec fn objects_consistent(self) -> bool {
        &&& forall|bucket: Seq<char>| #[trigger]
            self.objects.contains_key(bucket) ==> {
                &&& self.buckets.contains_key(bucket)
                &&& distinct_object_keys(self.objects[bucket])
            }
        &&& forall|bucket: Seq<char>, i: int|
            self.objects.contains_key(bucket) && 0 <= i < self.objects[bucket].len() ==> (
            #[trigger] self.objects[bucket][i]).bucket@ == bucket
    }

    /// The invariants of the catalog.
    pub open spec fn consistent(self) -> bool {
        &&& self.users_consistent()
        &&& self.buckets_consistent()
        &&& self.objects_consistent()
    }
}

/// What is left after taking a key out holds no object of that key, holds
/// only objects of the list, and keeps every other object.
pub proof fn lemma_without_key(list: Seq<Object>, key: Seq<char>)
    ensures
        forall|i: int|
            0 <= i < without_key(list, key).len() ==> {
                let object = #[trigger] without_key(list, key)[i];
                object.key@ != key && list.contains(object)
            },
        forall|i: int|
            0 <= i < list.len() && (#[trigger] list[i]).key@ != key ==> without_key(
                list,
                key,
            ).contains(list[i]),
        distinct_object_keys(list) ==> distinct_object_keys(without_key(list, key)),
        without_key(list, key).len() <= list.len(),
    decreases list.len(),
{
    let kept = without_key(list, key);
    if list.len() > 0 {
        let shorter = list.drop_last();
        let before = without_key(shorter, key);
        lemma_without_key(shorter, key);
        assert forall|i: int| 0 <= i < kept.len() implies {
            let object = #[trigger] kept[i];
            object.key@ != key && list.contains(object)
        } by {
            if i < before.len() {
                let object = before[i];
                assert(shorter.contains(object));
                let j = choose|j: int| 0 <= j < shorter.len() && shorter[j] == object;
                assert(list[j] == object);
            } else {
                assert(kept[i] == list[list.len() - 1]);
            }
        }
        assert forall|i: int| 0 <= i < list.len() && (#[trigger] list[i]).key@ != key implies kept.contains(
            list[i],
        ) by {
            if i < shorter.len() {
                assert(shorter[i] == list[i]);
                assert(before.contains(shorter[i]));
                let j = choose|j: int| 0 <= j < before.len() && before[j] == list[i];
                assert(kept[j] == list[i]);
            } else {
                assert(kept[kept.len() - 1] == list[i]);
            }
        }
        if distinct_object_keys(list) {
            assert(distinct_object_keys(shorter)) by {
                assert forall|i: int, j: int|
                    0 <= i < shorter.len() && 0 <= j < shorter.len() && i != j implies (
                #[trigger] shorter[i]).key@ != (#[trigger] shorter[j]).key@ by {
                    assert(shorter[i] == list[i] && shorter[j] == list[j]);
                }
            }
            assert forall|i: int, j: int|
                0 <= i < kept.len() && 0 <= j < kept.len() && i != j implies (#[trigger] kept[i]).key@
                != (#[trigger] kept[j]).key@ by {
                let last = list.len() - 1;
                if i < before.len() && j < before.len() {
                    assert(kept[i] == before[i] && kept[j] == before[j]);
                } else {
                    let (old_one, new_one) = if i < before.len() { (i, j) } else { (j, i) };
                    assert(kept[new_one] == list[last]);
                    assert(kept[old_one] == before[old_one]);
                    assert(shorter.contains(before[old_one]));
                    let m = choose|m: int| 0 <= m < shorter.len() && shorter[m] == before[old_one];
                    assert(list[m] == before[old_one]);
                    assert(list[m].key@ != list[last].key@);
                }
            }
        }
    }
}

/// What is left after taking a name out holds no bucket of that name, holds
/// only buckets of the list, and keeps every other bucket.
pub proof fn lemma_without_name(list: Seq<Bucket>, name: Seq<char>)
    ensures
        forall|i: int|
            0 <= i < without_name(list, name).len() ==> {
                let bucket = #[trigger] without_name(list, name)[i];
                bucket.name@ != name && list.contains(bucket)
            },
        forall|i: int|
            0 <= i < list.len() && (#[trigger] list[i]).name@ != name ==> without_name(
                list,
                name,
            ).contains(list[i]),
        distinct_bucket_names(list) ==> distinct_bucket_names(without_name(list, name)),
    decreases list.len(),
{
    let kept = without_name(list, name);
    if list.len() > 0 {
        let shorter = list.drop_last();
        let before = without_name(shorter, name);
        lemma_without_name(shorter, name);
        assert forall|i: int| 0 <= i < kept.len() implies {
            let bucket = #[trigger] kept[i];
            bucket.name@ != name && list.contains(bucket)
        } by {
            if i < before.len() {
                let bucket = before[i];
                assert(shorter.contains(bucket));
                let j = choose|j: int| 0 <= j < shorter.len() && shorter[j] == bucket;
                assert(list[j] == bucket);
            } else {
                assert(kept[i] == list[list.len() - 1]);
            }
        }
        assert forall|i: int| 0 <= i < list.len() && (#[trigger] list[i]).name@ != name implies kept.contains(
            list[i],
        ) by {
            if i < shorter.len() {
                assert(shorter[i] == list[i]);
                assert(before.contains(shorter[i]));
                let j = choose|j: int| 0 <= j < before.len() && before[j] == list[i];
                assert(kept[j] == list[i]);
            } else {
                assert(kept[kept.len() - 1] == list[i]);
            }
        }
        if distinct_bucket_names(list) {
            assert(distinct_bucket_names(shorter)) by {
                assert forall|i: int, j: int|
                    0 <= i < shorter.len() && 0 <= j < shorter.len() && i != j implies (
                #[trigger] shorter[i]).name@ != (#[trigger] shorter[j]).name@ by {
                    assert(shorter[i] == list[i] && shorter[j] == list[j]);
                }
            }
            assert forall|i: int, j: int|
                0 <= i < kept.len() && 0 <= j < kept.len() && i != j implies (#[trigger] kept[i]).name@
                != (#[trigger] kept[j]).name@ by {
                let last = list.len() - 1;
                if i < before.len() && j < before.len() {
                    assert(kept[i] == before[i] && kept[j] == before[j]);
                } else {
                    let (old_one, new_one) = if i < before.len() { (i, j) } else { (j, i) };
                    assert(kept[new_one] == list[last]);
                    assert(kept[old_one] == before[old_one]);
                    assert(shorter.contains(before[old_one]));
                    let m = choose|m: int| 0 <= m < shorter.len() && shorter[m] == before[old_one];
                    assert(list[m] == before[old_one]);
                    assert(list[m].name@ != list[last].name@);
                }
            }
        }
    }
}

/// The catalog as it is held at run time, and the writes made to it that
/// a record store has not been handed yet.
pub struct Db {
    pub access_key_to_user_id: Table<String>,
    pub user_id_to_user: Table<User>,
    pub user_id_to_bucket: Table<Vec<Bucket>>,
    pub bucket_name_to_bucket: Table<Bucket>,
    pub bucket_name_to_objects: Table<Vec<Object>>,
    pub journal: Vec<Write>,
}

impl View for Db {
    type V = Catalog;

    open spec fn view(&self) -> Catalog {
        Catalog {
            access_keys: Map::new(
                |key: Seq<char>| self.access_key_to_user_id@.contains_key(key),
                |key: Seq<char>| self.access_key_to_user_id@[key]@,
            ),
            users: self.user_id_to_user@,
            user_buckets: Map::new(
                |id: Seq<char>| self.user_id_to_bucket@.contains_key(id),
                |id: Seq<char>| self.user_id_to_bucket@[id]@,
            ),
            buckets: self.bucket_name_to_bucket@,
            objects: Map::new(
                |name: Seq<char>| self.bucket_name_to_objects@.contains_key(name),
                |name: Seq<char>| self.bucket_name_to_objects@[name]@,
            ),
        }
    }
}

fn copy_buckets(list: &Vec<Bucket>) -> (copy: Vec<Bucket>)
    ensures
        copy@ == list@,
{
    let mut copy: Vec<Bucket> = Vec::new();
    let mut at: usize = 0;
    while at < list.len()
        invariant
            at <= list.len(),
            copy@ =~= list@.take(at as int),
        decreases list.len() - at,
    {
        copy.push(list[at].clone());
        at = at + 1;
    }
    assert(list@.take(at as int) =~= list@);
    copy
}

fn copy_objects(list: &Vec<Object>) -> (copy: Vec<Object>)
    ensures
        copy@ == list@,
{
    let mut copy: Vec<Object> = Vec::new();
    let mut at: usize = 0;
    while at < list.len()
        invariant
            at <= list.len(),
            copy@ =~= list@.take(at as int),
        decreases list.len() - at,
    {
        copy.push(list[at].clone());
        at = at + 1;
    }
    assert(list@.take(at as int) =~= list@);
    copy
}

fn buckets_without(list: &Vec<Bucket>, name: &str) -> (kept: Vec<Bucket>)
    ensures
        kept@ == without_name(list@, name@),
{
    let mut kept: Vec<Bucket> = Vec::new();
    let mut at: usize = 0;
    assert(list@.take(0) =~= Seq::<Bucket>::empty());
    while at < list.len()
        invariant
            at <= list.len(),
            kept@ =~= without_name(list@.take(at as int), name@),
        decreases list.len() - at,
    {
        proof {
            let longer = list@.take(at + 1);
            assert(longer.drop_last() =~= list@.take(at as int));
            assert(longer.last() == list@[at as int]);
        }
        if !same_text(list[at].name.as_str(), name) {
            kept.push(list[at].clone());
        }
        at = at + 1;
    }
    assert(list@.take(at as int) =~= list@);
    kept
}

fn objects_without(list: &Vec<Object>, key: &str) -> (kept: Vec<Object>)
    ensures
        kept@ == without_key(list@, key@),
{
    let mut kept: Vec<Object> = Vec::new();
    let mut at: usize = 0;
    assert(list@.take(0) =~= Seq::<Object>::empty());
    while at < list.len()
        invariant
            at <= list.len(),
            kept@ =~= without_key(list@.take(at as int), key@),
        decreases list.len() - at,
    {
        proof {
            let longer = list@.take(at + 1);
            assert(longer.drop_last() =~= list@.take(at as int));
            assert(longer.last() == list@[at as int]);
        }
        if !same_text(list[at].key.as_str(), key) {
            kept.push(list[at].clone());
        }
        at = at + 1;
    }
    assert(list@.take(at as int) =~= list@);
    kept
}

fn find_object(list: &Vec<Object>, key: &str) -> (found: Option<Object>)
    ensures
        found == object_with_key(list@, key@),
{
    let mut at: usize = 0;
    assert(list@.skip(0) =~= list@);
    while at < list.len()
        invariant
            at <= list.len(),
            object_with_key(list@, key@) == object_with_key(list@.skip(at as int), key@),
        decreases list.len() - at,
    {
        if same_text(list[at].key.as_str(), key) {
            return Some(list[at].clone());
        }
        assert(list@.skip(at as int).drop_first() =~= list@.skip(at + 1));
        at = at + 1;
    }
    None
}

impl Db {
    /// The partitions are well formed and the catalog is consistent.
    pub open spec fn wf(&self) -> bool {
        &&& self.access_key_to_user_id.wf()
        &&& self.user_id_to_user.wf()
        &&& self.user_id_to_bucket.wf()
        &&& self.bucket_name_to_bucket.wf()
        &&& self.bucket_name_to_objects.wf()
        &&& self@.consistent()
    }

    /// The writes that wait to be handed out, oldest first.
    pub open spec fn pending(&self) -> Seq<Record> {
        self.journal@.map_values(|write: Write| write@)
    }

    /// Hands out the writes that wait, oldest first, and forgets them. The
    /// catalog stays as it is.
    pub fn take_pending(&mut self) -> (writes: Vec<Write>)
        requires
            old(self).wf(),
        ensures
            final(self).wf(),
            final(self)@ == old(self)@,
            final(self).pending() == Seq::<Record>::empty(),
            writes@.map_values(|write: Write| write@) == old(self).pending(),
    {
        let mut writes: Vec<Write> = Vec::new();
        std::mem::swap(&mut writes, &mut self.journal);
        assert(self.pending() =~= Seq::<Record>::empty());
        writes
    }

    /// An empty catalog.
    pub fn new() -> (db: Self)
        ensures
            db.wf(),
            db.pending() == Seq::<Record>::empty(),
            db@.access_keys == Map::<Seq<char>, Seq<char>>::empty(),
            db@.users == Map::<Seq<char>, User>::empty(),
            db@.user_buckets == Map::<Seq<char>, Seq<Bucket>>::empty(),
            db@.buckets == Map::<Seq<char>, Bucket>::empty(),
            db@.objects == Map::<Seq<char>, Seq<Object>>::empty(),
    {
        let db = Db {
            access_key_to_user_id: Table::new(),
            user_id_to_user: Table::new(),
            user_id_to_bucket: Table::new(),
            bucket_name_to_bucket: Table::new(),
            bucket_name_to_objects: Table::new(),
            journal: Vec::new(),
        };
        assert(db.pending() =~= Seq::<Record>::empty());
        assert(db@.access_keys =~= Map::<Seq<char>, Seq<char>>::empty());
        assert(db@.user_buckets =~= Map::<Seq<char>, Seq<Bucket>>::empty());
        assert(db@.objects =~= Map::<Seq<char>, Seq<Object>>::empty());
        db
    }

    /// The user that an access key belongs to.
    pub fn get_user_by_access_key(&self, access_key: &str) -> (user: Option<User>)
        requires
            self.wf(),
        ensures
            user == self@.user_by_access_key(access_key@),
    {
        let user_id = match self.access_key_to_user_id.get(access_key) {
            Some(user_id) => user_id,
            None => { return None; },
        };
        match self.user_id_to_user.get(user_id.as_str()) {
            Some(user) => Some(user.clone()),
            None => None,
        }
    }

    /// Adds a user. Fails with `Conflict`, changing nothing, if the id or
    /// the access key is taken. Otherwise files the user under its id, gives
    /// it an empty list of buckets, and points its access key at it.
    pub fn create_user(&mut self, user: &User) -> (made: Result<(), Error>)
        requires
            old(self).wf(),
        ensures
            final(self).wf(),
            match made {
                Ok(_) => {
                    &&& !old(self)@.users.contains_key(user.id@)
                    &&& !old(self)@.access_keys.contains_key(user.access_key@)
                    &&& final(self)@ == old(self)@.add_user(*user)
                    &&& final(self).pending() == old(self).pending() + old(self)@.user_records(
                        *user,
                    )
                },
                Err(error) => {
                    &&& error == Error::Conflict
                    &&& (old(self)@.users.contains_key(user.id@) || old(
                        self,
                    )@.access_keys.contains_key(user.access_key@))
                    &&& *final(self) == *old(self)
                },
            },
    {
        if self.user_id_to_user.contains(user.id.as_str()) || self.access_key_to_user_id.contains(
            user.access_key.as_str(),
        ) {
            return Err(Error::Conflict);
        }
        let ghost before = self@;
        let ghost waiting = self.pending();
        self.user_id_to_user.insert(user.id.as_str(), user.clone());
        self.user_id_to_bucket.insert(user.id.as_str(), Vec::new());
        self.access_key_to_user_id.insert(user.access_key.as_str(), user.id.clone());
        self.journal.push(Write::User(user.clone()));
        self.journal.push(Write::Buckets(user.id.clone(), Vec::new()));
        self.journal.push(Write::AccessKey(user.access_key.clone(), user.id.clone()));
        proof {
            assert(self.pending() =~= waiting + before.user_records(*user));
            let after = self@;
            assert(after.access_keys =~= before.access_keys.insert(user.access_key@, user.id@));
            assert(after.user_buckets =~= before.user_buckets.insert(user.id@, Seq::empty()));
            assert(after.objects =~= before.objects);
            assert(before.consistent());
            assert(after.users_consistent()) by {
                assert forall|id: Seq<char>| #[trigger] after.users.contains_key(id) implies {
                    &&& after.users[id].id@ == id
                    &&& after.access_keys.contains_key(after.users[id].access_key@)
                    &&& after.access_keys[after.users[id].access_key@] == id
                    &&& after.user_buckets.contains_key(id)
                } by {
                    if id != user.id@ {
                        assert(before.users.contains_key(id));
                    }
                }
                assert forall|key: Seq<char>| #[trigger]
                    after.access_keys.contains_key(key) implies {
                    &&& after.users.contains_key(after.access_keys[key])
                    &&& after.users[after.access_keys[key]].access_key@ == key
                } by {
                    if key != user.access_key@ {
                        assert(before.access_keys.contains_key(key));
                    }
                }
                assert forall|id: Seq<char>| #[trigger]
                    after.user_buckets.contains_key(id) implies after.users.contains_key(id) by {
                    if id != user.id@ {
                        assert(before.user_buckets.contains_key(id));
                    }
                }
            }
            assert(after.buckets_consistent()) by {
                assert forall|name: Seq<char>| #[trigger]
                    after.buckets.contains_key(name) implies {
                    &&& after.buckets[name].name@ == name
                    &&& after.user_buckets.contains_key(after.buckets[name].owner_id@)
                    &&& after.user_buckets[after.buckets[name].owner_id@].contains(
                        after.buckets[name],
                    )
                } by {
                    assert(before.buckets.contains_key(name));
                    assert(before.user_buckets.contains_key(before.buckets[name].owner_id@));
                }
                assert forall|id: Seq<char>, i: int|
                    after.user_buckets.contains_key(id) && 0 <= i < after.user_buckets[id].len() implies {
                    let bucket = #[trigger] after.user_buckets[id][i];
                    &&& bucket.owner_id@ == id
                    &&& after.buckets.contains_key(bucket.name@)
                    &&& after.buckets[bucket.name@] == bucket
                } by {
                    assert(before.user_buckets.contains_key(id));
                    assert(before.user_buckets[id][i] == after.user_buckets[id][i]);
                }
                assert forall|id: Seq<char>| #[trigger]
                    after.user_buckets.contains_key(id) implies distinct_bucket_names(
                    after.user_buckets[id],
                ) by {
                    if id != user.id@ {
                        assert(before.user_buckets.contains_key(id));
                    }
                }
            }
            assert(after.objects_consistent()) by {
                assert forall|bucket: Seq<char>| #[trigger]
                    after.objects.contains_key(bucket) implies {
                    &&& after.buckets.contains_key(bucket)
                    &&& distinct_object_keys(after.objects[bucket])
                } by {
                    assert(before.objects.contains_key(bucket));
                }
            }
        }
        Ok(())
    }

    /// Adds a bucket. Fails with `Conflict` if the name is taken, and with
    /// `NotFound` if the owner is not a user; nothing changes then.
    /// Otherwise files the bucket under its name and appends it to its
    /// owner's list.
    pub fn create_bucket(&mut self, bucket: &Bucket) -> (made: Result<(), Error>)
        requires
            old(self).wf(),
        ensures
            final(self).wf(),
            match made {
                Ok(_) => {
                    &&& !old(self)@.buckets.contains_key(bucket.name@)
                    &&& old(self)@.user_buckets.contains_key(bucket.owner_id@)
                    &&& final(self)@ == old(self)@.add_bucket(*bucket)
                    &&& final(self).pending() == old(self).pending() + old(self)@.bucket_records(*bucket)
                },
                Err(error) => {
                    &&& *final(self) == *old(self)
                    &&& if old(self)@.buckets.contains_key(bucket.name@) {
                        error == Error::Conflict
                    } else {
                        error == Error::NotFound && !old(self)@.user_buckets.contains_key(
                            bucket.owner_id@,
                        )
                    }
                },
            },
    {
        if self.bucket_name_to_bucket.contains(bucket.name.as_str()) {
            return Err(Error::Conflict);
        }
        let mut owned = match self.user_id_to_bucket.get(bucket.owner_id.as_str()) {
            Some(owned) => copy_buckets(owned),
            None => { return Err(Error::NotFound); },
        };
        let ghost before = self@;
        let ghost waiting = self.pending();
        let ghost listed = owned@;
        owned.push(bucket.clone());
        self.journal.push(Write::Bucket(bucket.clone()));
        self.journal.push(Write::Buckets(bucket.owner_id.clone(), copy_buckets(&owned)));
        self.bucket_name_to_bucket.insert(bucket.name.as_str(), bucket.clone());
        self.user_id_to_bucket.insert(bucket.owner_id.as_str(), owned);
        proof {
            assert(listed == before.user_buckets[bucket.owner_id@]);
            assert(self.pending() =~= waiting + before.bucket_records(*bucket));
            let after = self@;
            let owner = bucket.owner_id@;
            assert(listed == before.user_buckets[owner]);
            assert(after.access_keys =~= before.access_keys);
            assert(after.user_buckets =~= before.user_buckets.insert(owner, listed.push(*bucket)));
            assert(after.objects =~= before.objects);
            assert(before.consistent());
            assert(after.users_consistent()) by {
                assert forall|id: Seq<char>| #[trigger]
                    after.user_buckets.contains_key(id) implies after.users.contains_key(id) by {
                    assert(before.user_buckets.contains_key(id));
                }
            }
            assert(after.buckets_consistent()) by {
                assert forall|name: Seq<char>| #[trigger]
                    after.buckets.contains_key(name) implies {
                    &&& after.buckets[name].name@ == name
                    &&& after.user_buckets.contains_key(after.buckets[name].owner_id@)
                    &&& after.user_buckets[after.buckets[name].owner_id@].contains(
                        after.buckets[name],
                    )
                } by {
                    if name == bucket.name@ {
                        assert(listed.push(*bucket)[listed.len() as int] == *bucket);
                    } else {
                        assert(before.buckets.contains_key(name));
                        let other = before.buckets[name];
                        let list = before.user_buckets[other.owner_id@];
                        assert(list.contains(other));
                        if other.owner_id@ == owner {
                            let i = choose|i: int| 0 <= i < list.len() && list[i] == other;
                            assert(listed.push(*bucket)[i] == other);
                        }
                    }
                }
                assert forall|id: Seq<char>, i: int|
                    after.user_buckets.contains_key(id) && 0 <= i < after.user_buckets[id].len() implies {
                    let item = #[trigger] after.user_buckets[id][i];
                    &&& item.owner_id@ == id
                    &&& after.buckets.contains_key(item.name@)
                    &&& after.buckets[item.name@] == item
                } by {
                    assert(before.user_buckets.contains_key(id));
                    if id == owner && i == listed.len() {
                    } else {
                        assert(after.user_buckets[id][i] == before.user_buckets[id][i]);
                    }
                }
                assert forall|id: Seq<char>| #[trigger]
                    after.user_buckets.contains_key(id) implies distinct_bucket_names(
                    after.user_buckets[id],
                ) by {
                    assert(before.user_buckets.contains_key(id));
                    if id == owner {
                        let longer = listed.push(*bucket);
                        assert forall|i: int, j: int|
                            0 <= i < longer.len() && 0 <= j < longer.len() && i != j implies (
                        #[trigger] longer[i]).name@ != (#[trigger] longer[j]).name@ by {
                            if i < listed.len() {
                                assert(before.user_buckets[id][i] == longer[i]);
                            }
                            if j < listed.len() {
                                assert(before.user_buckets[id][j] == longer[j]);
                            }
                        }
                    }
                }
            }
            assert(after.objects_consistent()) by {
                assert forall|name: Seq<char>| #[trigger]
                    after.objects.contains_key(name) implies {
                    &&& after.buckets.contains_key(name)
                    &&& distinct_object_keys(after.objects[name])
                } by {
                    assert(before.objects.contains_key(name));
                }
            }
        }
        Ok(())
    }

    /// The buckets that a user owns, oldest first; `NotFound` if there is
    /// no such user.
    pub fn get_buckets_by_user_id(&self, user_id: &str) -> (owned: Result<Vec<Bucket>, Error>)
        requires
            self.wf(),
        ensures
            match owned {
                Ok(list) => self@.user_buckets.contains_key(user_id@) && list@
                    == self@.user_buckets[user_id@],
                Err(error) => error == Error::NotFound && !self@.user_buckets.contains_key(
                    user_id@,
                ),
            },
    {
        match self.user_id_to_bucket.get(user_id) {
            Some(owned) => Ok(copy_buckets(owned)),
            None => Err(Error::NotFound),
        }
    }

    /// The objects in a bucket; none if the bucket has no entry.
    pub fn get_objects_by_bucket_name(&self, bucket_name: &str) -> (objects: Vec<Object>)
        requires
            self.wf(),
        ensures
            objects@ == self@.objects_of(bucket_name@),
    {
        match self.bucket_name_to_objects.get(bucket_name) {
            Some(objects) => copy_objects(objects),
            None => Vec::new(),
        }
    }

    /// Puts an object into its bucket's set, in place of any object of the
    /// same key. Fails with `NotFound`, changing nothing, if the bucket is
    /// not in the catalog.
    pub fn create_object(&mut self, object: &Object) -> (made: Result<(), Error>)
        requires
            old(self).wf(),
        ensures
            final(self).wf(),
            match made {
                Ok(_) => {
                    &&& old(self)@.buckets.contains_key(object.bucket@)
                    &&& final(self)@ == old(self)@.put_object(*object)
                    &&& final(self).pending() == old(self).pending() + old(self)@.object_records(*object)
                },
                Err(error) => {
                    &&& error == Error::NotFound
                    &&& !old(self)@.buckets.contains_key(object.bucket@)
                    &&& *final(self) == *old(self)
                },
            },
    {
        if !self.bucket_name_to_bucket.contains(object.bucket.as_str()) {
            return Err(Error::NotFound);
        }
        let ghost before = self@;
        let ghost listed = before.objects_of(object.bucket@);
        let mut objects = match self.bucket_name_to_objects.get(object.bucket.as_str()) {
            Some(objects) => objects_without(objects, object.key.as_str()),
            None => Vec::new(),
        };
        objects.push(object.clone());
        assert(objects@ == with_object(listed, *object));
        let ghost waiting = self.pending();
        self.journal.push(Write::Objects(object.bucket.clone(), copy_objects(&objects)));
        self.bucket_name_to_objects.insert(object.bucket.as_str(), objects);
        proof {
            assert(self.pending() =~= waiting + before.object_records(*object));
            let after = self@;
            let name = object.bucket@;
            let kept = without_key(listed, object.key@);
            let longer = with_object(listed, *object);
            assert(after.access_keys =~= before.access_keys);
            assert(after.user_buckets =~= before.user_buckets);
            assert(after.objects =~= before.objects.insert(name, longer));
            assert(before.consistent());
            lemma_without_key(listed, object.key@);
            assert(after.objects_consistent()) by {
                assert forall|bucket: Seq<char>| #[trigger]
                    after.objects.contains_key(bucket) implies {
                    &&& after.buckets.contains_key(bucket)
                    &&& distinct_object_keys(after.objects[bucket])
                } by {
                    if bucket == name {
                        if before.objects.contains_key(name) {
                            assert(distinct_object_keys(listed));
                        }
                        assert forall|i: int, j: int|
                            0 <= i < longer.len() && 0 <= j < longer.len() && i != j implies (
                        #[trigger] longer[i]).key@ != (#[trigger] longer[j]).key@ by {
                            if i < kept.len() {
                                assert(longer[i] == kept[i]);
                            }
                            if j < kept.len() {
                                assert(longer[j] == kept[j]);
                            }
                        }
                    } else {
                        assert(before.objects.contains_key(bucket));
                    }
                }
                assert forall|bucket: Seq<char>, i: int|
                    after.objects.contains_key(bucket) && 0 <= i < after.objects[bucket].len() implies (
                #[trigger] after.objects[bucket][i]).bucket@ == bucket by {
                    if bucket == name {
                        if i < kept.len() {
                            assert(longer[i] == kept[i]);
                            assert(listed.contains(kept[i]));
                            let m = choose|m: int| 0 <= m < listed.len() && listed[m] == kept[i];
                            assert(before.objects[name][m] == kept[i]);
                        }
                    } else {
                        assert(before.objects.contains_key(bucket));
                        assert(after.objects[bucket][i] == before.objects[bucket][i]);
                    }
                }
            }
        }
        Ok(())
    }

    /// The object under a key in a bucket.
    pub fn get_object(&self, bucket: &str, object: &str) -> (found: Option<Object>)
        requires
            self.wf(),
        ensures
            found == object_with_key(self@.objects_of(bucket@), object@),
    {
        match self.bucket_name_to_objects.get(bucket) {
            Some(objects) => find_object(objects, object),
            None => None,
        }
    }

    /// Takes a bucket out of the catalog: its entry, its objects, and its
    /// place in its owner's list. Changes nothing if there is no such
    /// bucket.
    pub fn delete_bucket(&mut self, bucket: &str)
        requires
            old(self).wf(),
        ensures
            final(self).wf(),
            final(self)@ == old(self)@.drop_bucket(bucket@),
            final(self).pending() == old(self).pending() + old(self)@.drop_bucket_records(bucket@),
    {
        let ghost before = self@;
        assert(before.consistent());
        let owner = match self.bucket_name_to_bucket.get(bucket) {
            Some(entry) => entry.owner_id.clone(),
            None => {
                proof {
                    assert(!before.objects.contains_key(bucket@));
                    assert(before.buckets.remove(bucket@) =~= before.buckets);
                    assert(before.objects.remove(bucket@) =~= before.objects);
                    assert(self.pending() + before.drop_bucket_records(bucket@) =~= self.pending());
                }
                return ;
            },
        };
        let ghost listed = before.user_buckets[owner@];
        assert(before.buckets.contains_key(bucket@));
        assert(before.user_buckets.contains_key(owner@));
        let owned = match self.user_id_to_bucket.get(owner.as_str()) {
            Some(owned) => buckets_without(owned, bucket),
            None => Vec::new(),
        };
        let ghost waiting = self.pending();
        self.journal.push(Write::Buckets(owner.clone(), copy_buckets(&owned)));
        self.journal.push(Write::NoBucket(bucket.to_owned()));
        self.journal.push(Write::NoObjects(bucket.to_owned()));
        self.user_id_to_bucket.insert(owner.as_str(), owned);
        self.bucket_name_to_bucket.remove(bucket);
        self.bucket_name_to_objects.remove(bucket);
        proof {
            assert(self.pending() =~= waiting + before.drop_bucket_records(bucket@));
            let after = self@;
            let kept = without_name(listed, bucket@);
            assert(after.access_keys =~= before.access_keys);
            assert(after.user_buckets =~= before.user_buckets.insert(owner@, kept));
            assert(after.objects =~= before.objects.remove(bucket@));
            lemma_without_name(listed, bucket@);
            assert(after.users_consistent()) by {
                assert forall|id: Seq<char>| #[trigger]
                    after.user_buckets.contains_key(id) implies after.users.contains_key(id) by {
                    assert(before.user_buckets.contains_key(id));
                }
            }
            assert(after.buckets_consistent()) by {
                assert forall|name: Seq<char>| #[trigger]
                    after.buckets.contains_key(name) implies {
                    &&& after.buckets[name].name@ == name
                    &&& after.user_buckets.contains_key(after.buckets[name].owner_id@)
                    &&& after.user_buckets[after.buckets[name].owner_id@].contains(
                        after.buckets[name],
                    )
                } by {
                    assert(before.buckets.contains_key(name));
                    let other = before.buckets[name];
                    let list = before.user_buckets[other.owner_id@];
                    assert(list.contains(other));
                    if other.owner_id@ == owner@ {
                        let i = choose|i: int| 0 <= i < list.len() && list[i] == other;
                        assert(listed[i].name@ != bucket@);
                        assert(kept.contains(listed[i]));
                    }
                }
                assert forall|id: Seq<char>, i: int|
                    after.user_buckets.contains_key(id) && 0 <= i < after.user_buckets[id].len() implies {
                    let item = #[trigger] after.user_buckets[id][i];
                    &&& item.owner_id@ == id
                    &&& after.buckets.contains_key(item.name@)
                    &&& after.buckets[item.name@] == item
                } by {
                    assert(before.user_buckets.contains_key(id));
                    if id == owner@ {
                        assert(listed.contains(kept[i]));
                        let m = choose|m: int| 0 <= m < listed.len() && listed[m] == kept[i];
                        assert(before.user_buckets[id][m] == kept[i]);
                    } else {
                        assert(after.user_buckets[id][i] == before.user_buckets[id][i]);
                    }
                }
                assert forall|id: Seq<char>| #[trigger]
                    after.user_buckets.contains_key(id) implies distinct_bucket_names(
                    after.user_buckets[id],
                ) by {
                    assert(before.user_buckets.contains_key(id));
                }
            }
            assert(after.objects_consistent()) by {
                assert forall|name: Seq<char>| #[trigger]
                    after.objects.contains_key(name) implies {
                    &&& after.buckets.contains_key(name)
                    &&& distinct_object_keys(after.objects[name])
                } by {
                    assert(before.objects.contains_key(name));
                }
                assert forall|name: Seq<char>, i: int|
                    after.objects.contains_key(name) && 0 <= i < after.objects[name].len() implies (
                #[trigger] after.objects[name][i]).bucket@ == name by {
                    assert(before.objects.contains_key(name));
                    assert(after.objects[name][i] == before.objects[name][i]);
                }
            }
        }
    }

    /// Takes the object under a key out of a bucket's set. Changes nothing
    /// if the bucket has no entry.
    pub fn delete_object(&mut self, bucket: &str, object: &str)
        requires
            old(self).wf(),
        ensures
            final(self).wf(),
            final(self)@ == old(self)@.drop_object(bucket@, object@),
            final(self).pending() == old(self).pending() + old(self)@.drop_object_records(
                bucket@,
                object@,
            ),
    {
        let ghost before = self@;
        assert(before.consistent());
        let kept = match self.bucket_name_to_objects.get(bucket) {
            Some(objects) => objects_without(objects, object),
            None => {
                assert(self.pending() + before.drop_object_records(bucket@, object@)
                    =~= self.pending());
                return ;
            },
        };
        let ghost listed = before.objects[bucket@];
        let ghost waiting = self.pending();
        self.journal.push(Write::Objects(bucket.to_owned(), copy_objects(&kept)));
        self.bucket_name_to_objects.insert(bucket, kept);
        proof {
            assert(self.pending() =~= waiting + before.drop_object_records(bucket@, object@));
            let after = self@;
            let fewer = without_key(listed, object@);
            assert(after.access_keys =~= before.access_keys);
            assert(after.user_buckets =~= before.user_buckets);
            assert(after.objects =~= before.objects.insert(bucket@, fewer));
            lemma_without_key(listed, object@);
            assert(before.objects.contains_key(bucket@));
            assert(distinct_object_keys(listed));
            assert(after.buckets == before.buckets);
            assert(after.users == before.users);
            assert(after.users_consistent());
            assert(after.buckets_consistent());
            assert(after.objects_consistent()) by {
                assert forall|name: Seq<char>| #[trigger]
                    after.objects.contains_key(name) implies {
                    &&& after.buckets.contains_key(name)
                    &&& distinct_object_keys(after.objects[name])
                } by {
                    assert(before.objects.contains_key(name));
                }
                assert forall|name: Seq<char>, i: int|
                    after.objects.contains_key(name) && 0 <= i < after.objects[name].len() implies (
                #[trigger] after.objects[name][i]).bucket@ == name by {
                    assert(before.objects.contains_key(name));
                    if name == bucket@ {
                        assert(listed.contains(fewer[i]));
                        let m = choose|m: int| 0 <= m < listed.len() && listed[m] == fewer[i];
                        assert(before.objects[name][m] == fewer[i]);
                    } else {
                        assert(after.objects[name][i] == before.objects[name][i]);
                    }
                }
            }
        }
    }
}

} // verus!
