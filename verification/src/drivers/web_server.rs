//! The dispatcher: authenticates a request, finds out what it asks for,
//! runs the operation on the store and shapes the answer. File-system work
//! is left to the caller: the dispatcher names the blob step an operation
//! needs and takes up again with the step's outcome.

use crate::adapters::bucket::{
    all_buckets_xml, bucket_results, to_bucket_results, ListAllMyBucketsResult,
};
use crate::adapters::object::{
    lemma_listing_xml, list_all, listing_xml, to_object_results, ListBucketResult,
};
use crate::adapters::user::OwnerResult;
use crate::drivers::db::object_with_key;
use crate::drivers::digest::{hmac_sha256, hmac_sha256_tag, md5, md5_digest};
use crate::drivers::request::{header_value, Header, Request, Response};
use crate::drivers::s3::{
    header_parts, in_grammar, signing_key, signing_text, Auth, Operation,
};
use crate::entities::bucket::Bucket;
use crate::entities::object::Object;
use crate::entities::timestamp::{http_date_text, Timestamp};
use crate::entities::user::User;
use crate::error::{BlobError, Error};
use crate::interactors::storage::{bucket_path, is_safe, is_safe_name, object_path, Storage};
use crate::text::{chars_of, hex_lower, same_text, split_on, texts, to_hex_lower};
use vstd::prelude::*;
use vstd::string::*;
use vstd::utf8::encode_utf8;

verus! {

/// The store behind the dispatcher.
pub struct App {
    pub storage: Storage,
}

/// What a request asks for, as a mathematical value.
pub enum Intent {
    ListBuckets,
    ListObjects(Seq<char>),
    CreateBucket(Seq<char>),
    DeleteBucket(Seq<char>),
    GetObject(Seq<char>, Seq<char>),
    PutObject(Seq<char>, Seq<char>),
    DeleteObject(Seq<char>, Seq<char>),
}

impl View for Operation {
    type V = Intent;

    open spec fn view(&self) -> Intent {
        match *self {
            Operation::ListBuckets => Intent::ListBuckets,
            Operation::ListObjects(bucket) => Intent::ListObjects(bucket@),
            Operation::CreateBucket(bucket) => Intent::CreateBucket(bucket@),
            Operation::DeleteBucket(bucket) => Intent::DeleteBucket(bucket@),
            Operation::GetObject(bucket, key) => Intent::GetObject(bucket@, key@),
            Operation::PutObject(bucket, key) => Intent::PutObject(bucket@, key@),
            Operation::DeleteObject(bucket, key) => Intent::DeleteObject(bucket@, key@),
        }
    }
}

/// How many characters of `text` stand before its first `mark`; the length
/// of `text` if it has none.
pub open spec fn reach(text: Seq<char>, mark: char) -> int
    decreases text.len(),
{
    if text.len() == 0 || text[0] == mark {
        0
    } else {
        1 + reach(text.drop_first(), mark)
    }
}

/// The non-empty segments of a path, two at most: a leading `/` is set
/// aside, the rest is divided at its first `/`, and empty pieces are
/// dropped. The second piece keeps any further `/`.
pub open spec fn path_segments(path: Seq<char>) -> Seq<Seq<char>> {
    let rest = if path.len() > 0 && path[0] == '/' {
        path.drop_first()
    } else {
        path
    };
    let cut = reach(rest, '/');
    let head = rest.take(cut);
    let tail = if cut < rest.len() {
        rest.skip(cut + 1)
    } else {
        Seq::empty()
    };
    if head.len() > 0 && tail.len() > 0 {
        seq![head, tail]
    } else if head.len() > 0 {
        seq![head]
    } else if tail.len() > 0 {
        seq![tail]
    } else {
        Seq::empty()
    }
}

/// What a method and a path ask for. `GET`, `PUT` and `DELETE` on one
/// segment concern a bucket, on two segments an object; everything else
/// lists the buckets.
pub open spec fn intent_of(method: Seq<char>, path: Seq<char>) -> Intent {
    let segments = path_segments(path);
    if segments.len() == 2 {
        if method == "GET"@ {
            Intent::GetObject(segments[0], segments[1])
        } else if method == "PUT"@ {
            Intent::PutObject(segments[0], segments[1])
        } else if method == "DELETE"@ {
            Intent::DeleteObject(segments[0], segments[1])
        } else {
            Intent::ListBuckets
        }
    } else if segments.len() == 1 {
        if method == "GET"@ {
            Intent::ListObjects(segments[0])
        } else if method == "PUT"@ {
            Intent::CreateBucket(segments[0])
        } else if method == "DELETE"@ {
            Intent::DeleteBucket(segments[0])
        } else {
            Intent::ListBuckets
        }
    } else {
        Intent::ListBuckets
    }
}

/// The signature that a caller with `secret` owes for a request: the
/// lowercase hexadecimal HMAC-SHA256 of the string to sign under the
/// signing key. Nothing if the string to sign cannot be built.
pub open spec fn due_signature(
    secret: Seq<char>,
    date: Seq<char>,
    region: Seq<char>,
    names: Seq<Seq<char>>,
    request: Request,
) -> Option<Seq<char>> {
    match signing_text(date, region, names, request) {
        Some(text) => Some(
            hex_lower(hmac_sha256_tag(signing_key(secret, date, region), encode_utf8(text))),
        ),
        None => None,
    }
}

/// The segments of a path, as owned strings.
fn split_path(path: &str) -> (segments: Vec<String>)
    ensures
        texts(segments@) == path_segments(path@),
{
    let chars = chars_of(path);
    let total: usize = chars.len();
    let begin: usize = if total > 0 && chars[0] == '/' {
        1
    } else {
        0
    };
    let ghost rest = chars@.skip(begin as int);
    assert(rest == if path@.len() > 0 && path@[0] == '/' {
        path@.drop_first()
    } else {
        path@
    }) by {
        assert(chars@.skip(0) =~= chars@);
        assert(chars@.skip(1) =~= chars@.drop_first());
    }
    let mut cut: usize = begin;
    while cut < total && chars[cut] != '/'
        invariant
            chars@ == path@,
            total == chars@.len(),
            rest == chars@.skip(begin as int),
            begin <= cut <= total,
            reach(rest, '/') == (cut - begin) + reach(chars@.skip(cut as int), '/'),
        decreases total - cut,
    {
        assert(chars@.skip(cut as int).drop_first() =~= chars@.skip(cut + 1));
        cut = cut + 1;
    }
    assert(reach(rest, '/') == cut - begin);
    let head = path.substring_char(begin, cut);
    let tail = if cut < total {
        path.substring_char(cut + 1, total)
    } else {
        path.substring_char(total, total)
    };
    proof {
        assert(head@ =~= rest.take(cut - begin));
        if cut < total {
            assert(tail@ =~= rest.skip(cut - begin + 1));
        } else {
            assert(tail@ =~= Seq::<char>::empty());
        }
    }
    let ghost before = head@;
    let ghost after = tail@;
    let mut segments: Vec<String> = Vec::new();
    if cut > begin {
        segments.push(head.to_owned());
    }
    if tail.unicode_len() > 0 {
        segments.push(tail.to_owned());
    }
    proof {
        let wanted = path_segments(path@);
        if before.len() > 0 && after.len() > 0 {
            assert(texts(segments@) =~= seq![before, after]);
        } else if before.len() > 0 {
            assert(texts(segments@) =~= seq![before]);
        } else if after.len() > 0 {
            assert(texts(segments@) =~= seq![after]);
        } else {
            assert(texts(segments@) =~= Seq::<Seq<char>>::empty());
        }
    }
    segments
}

impl App {
    /// The store is well formed.
    pub open spec fn wf(&self) -> bool {
        self.storage.wf()
    }

    /// The value of the request's `Authorization` header; empty if it has
    /// none.
    pub fn get_auth_header(&self, req: &Request) -> (text: String)
        ensures
            text@ == match header_value(req.headers@, "Authorization"@) {
                Some(value) => value,
                None => Seq::empty(),
            },
    {
        match req.header("Authorization") {
            Some(value) => value.clone(),
            None => String::new(),
        }
    }

    /// Whether the request carries the signature that `user` owes for it.
    /// The comparison looks at every byte of two signatures of one length.
    pub fn check_signature(&self, user: &User, auth: &Auth, req: &Request) -> (valid: bool)
        ensures
            valid == (due_signature(
                user.secret_access_key@,
                auth.date@,
                auth.region@,
                texts(auth.signed_headers@),
                *req,
            ) == Some(auth.signature@)),
    {
        let text = match auth.string_to_sign(req) {
            Some(text) => text,
            None => { return false; },
        };
        let key = auth.key_builder(user.secret_access_key.as_str());
        let tag = hmac_sha256(key.as_slice(), text.as_str().as_bytes());
        let due = to_hex_lower(tag.as_slice());
        same_text(due.as_str(), auth.signature.as_str())
    }

    /// Finds out what the request asks for.
    pub fn detect_operation(&self, req: &Request) -> (operation: Operation)
        ensures
            operation@ == intent_of(req.method@, req.path@),
    {
        let mut segments = split_path(req.path.as_str());
        let get = same_text(req.method.as_str(), "GET");
        let put = same_text(req.method.as_str(), "PUT");
        let delete = same_text(req.method.as_str(), "DELETE");
        if segments.len() == 2 {
            let key = segments.pop().unwrap();
            let bucket = segments.pop().unwrap();
            if get {
                Operation::GetObject(bucket, key)
            } else if put {
                Operation::PutObject(bucket, key)
            } else if delete {
                Operation::DeleteObject(bucket, key)
            } else {
                Operation::ListBuckets
            }
        } else if segments.len() == 1 {
            let bucket = segments.pop().unwrap();
            if get {
                Operation::ListObjects(bucket)
            } else if put {
                Operation::CreateBucket(bucket)
            } else if delete {
                Operation::DeleteBucket(bucket)
            } else {
                Operation::ListBuckets
            }
        } else {
            Operation::ListBuckets
        }
    }

    /// The buckets of `user`, shaped for listing; `NotFound` if the catalog
    /// has no list for the user.
    pub fn list_buckets(&self, user: &User) -> (listing: Result<ListAllMyBucketsResult, Error>)
        requires
            self.wf(),
        ensures
            match listing {
                Ok(listing) => {
                    &&& self.storage.db@.user_buckets.contains_key(user.id@)
                    &&& listing.buckets@ == bucket_results(
                        self.storage.db@.user_buckets[user.id@],
                    )
                    &&& listing.owner == (OwnerResult {
                        id: user.id,
                        display_name: user.display_name,
                    })
                },
                Err(error) => error == Error::NotFound
                    && !self.storage.db@.user_buckets.contains_key(user.id@),
            },
    {
        match self.storage.list_buckets(user.id.as_str()) {
            Ok(buckets) => Ok(
                ListAllMyBucketsResult {
                    buckets: to_bucket_results(&buckets),
                    owner: OwnerResult {
                        display_name: user.display_name.clone(),
                        id: user.id.clone(),
                    },
                },
            ),
            Err(error) => Err(error),
        }
    }

    /// The objects of a bucket, shaped for listing.
    pub fn list_objects(&self, bucket: &str) -> (listing: ListBucketResult)
        requires
            self.wf(),
        ensures
            !listing.is_truncated,
            listing.name@ == bucket@,
            list_all(listing.contents@, self.storage.db@.objects_of(bucket@)),
            listing.xml() == listing_xml(bucket@, self.storage.db@.objects_of(bucket@)),
    {
        let objects = self.storage.list_objects(bucket);
        let listing = ListBucketResult {
            is_truncated: false,
            contents: to_object_results(&objects),
            name: bucket.to_owned(),
        };
        proof {
            lemma_listing_xml(listing, objects@);
        }
        listing
    }
}

/// A step of the blob layer.
#[derive(Clone, Copy, Debug, PartialEq, Eq, Structural)]
pub enum BlobKind {
    /// Create the directory unless it is there.
    EnsureDir,
    /// Create or truncate the file, write the request's body, and sync.
    Write,
    /// Read the whole file.
    Read,
    /// Remove the file.
    RemoveFile,
    /// Remove the directory and all below it.
    RemoveDir,
}

/// A step of the blob layer and the path it works on.
pub struct BlobAction {
    pub kind: BlobKind,
    pub path: String,
}

/// How the dispatcher goes on after looking at a request.
pub enum Step {
    /// The answer is ready.
    Reply(Response),
    /// The caller is accepted and the operation needs this blob step first.
    Blob(User, Operation, BlobAction),
}

/// The names and values of header lines.
pub open spec fn header_texts(headers: Seq<Header>) -> Seq<(Seq<char>, Seq<char>)> {
    headers.map_values(|header: Header| (header.name@, header.value@))
}

/// A response of `status` without headers and without a body.
pub open spec fn is_plain(response: Response, status: u16) -> bool {
    response.status == status && response.headers@.len() == 0 && response.body@.len() == 0
}

/// A response of status 200 without headers whose body is `text` in UTF-8.
pub open spec fn is_document(response: Response, text: Seq<char>) -> bool {
    response.status == 200 && response.headers@.len() == 0 && response.body@ == encode_utf8(text)
}

/// The outcome of a blob step without what it read.
pub open spec fn settled(outcome: Result<Vec<u8>, BlobError>) -> Result<(), BlobError> {
    match outcome {
        Ok(_) => Ok(()),
        Err(failure) => Err(failure),
    }
}

/// The listing of the buckets that `user` owns.
pub open spec fn buckets_xml(user: User, buckets: Seq<Bucket>) -> Seq<char> {
    all_buckets_xml(
        bucket_results(buckets),
        OwnerResult { id: user.id, display_name: user.display_name },
    )
}

/// A response of `status` without headers and without a body.
pub fn plain(status: u16) -> (response: Response)
    ensures
        is_plain(response, status),
{
    Response { status, headers: Vec::new(), body: Vec::new() }
}

/// A response of status 200 that carries `text`.
pub fn document(text: &str) -> (response: Response)
    ensures
        is_document(response, text@),
{
    Response { status: 200, headers: Vec::new(), body: text.as_bytes_vec() }
}

impl App {
    /// Who stands behind a request, or why it is turned away:
    /// `MalformedAuth` if the authorization header is absent or not of the
    /// grammar; `AuthFailed` if the access key is unknown or the signature
    /// is not the one the user owes.
    pub open spec fn caller(self, req: Request) -> Result<User, Error> {
        let header = match header_value(req.headers@, "Authorization"@) {
            Some(value) => value,
            None => Seq::empty(),
        };
        if !in_grammar(header) {
            Err(Error::MalformedAuth)
        } else {
            let parts = header_parts(header);
            match self.storage.db@.user_by_access_key(parts[3]) {
                None => Err(Error::AuthFailed),
                Some(user) => if due_signature(
                    user.secret_access_key@,
                    parts[5],
                    parts[7],
                    split_on(parts[11], ';'),
                    req,
                ) == Some(parts[15]) {
                    Ok(user)
                } else {
                    Err(Error::AuthFailed)
                },
            }
        }
    }

    /// Authenticates a request.
    pub fn authenticate(&self, req: &Request) -> (caller: Result<User, Error>)
        requires
            self.wf(),
        ensures
            caller == self.caller(*req),
    {
        let header = self.get_auth_header(req);
        let auth = match Auth::parse(header.as_str()) {
            Ok(auth) => auth,
            Err(error) => { return Err(error); },
        };
        let user = match self.storage.find_user(auth.access_key.as_str()) {
            Some(user) => user,
            None => { return Err(Error::AuthFailed); },
        };
        if !self.check_signature(&user, &auth, req) {
            return Err(Error::AuthFailed);
        }
        Ok(user)
    }

    /// The answer to "list my buckets" for `user`.
    pub open spec fn buckets_reply(self, user: User, response: Response) -> bool {
        if self.storage.db@.user_buckets.contains_key(user.id@) {
            is_document(response, buckets_xml(user, self.storage.db@.user_buckets[user.id@]))
        } else {
            is_plain(response, Error::NotFound.status())
        }
    }

    /// The answer to "list the objects of `bucket`".
    pub open spec fn objects_reply(self, bucket: Seq<char>, response: Response) -> bool {
        is_document(response, listing_xml(bucket, self.storage.db@.objects_of(bucket)))
    }

    fn reply_buckets(&self, user: &User) -> (response: Response)
        requires
            self.wf(),
        ensures
            self.buckets_reply(*user, response),
    {
        match self.list_buckets(user) {
            Ok(listing) => document(listing.to_xml().as_str()),
            Err(error) => plain(error.to_status()),
        }
    }

    fn reply_objects(&self, bucket: &str) -> (response: Response)
        requires
            self.wf(),
        ensures
            self.objects_reply(bucket@, response),
    {
        document(self.list_objects(bucket).to_xml().as_str())
    }

    /// Whether `step` asks for the blob step of `kind` on `path` before
    /// `intent` is carried out for `user`.
    pub open spec fn asks(
        step: Step,
        user: User,
        intent: Intent,
        kind: BlobKind,
        path: Seq<char>,
    ) -> bool {
        match step {
            Step::Blob(caller, operation, action) => {
                &&& caller == user
                &&& operation@ == intent
                &&& action.kind == kind
                &&& action.path@ == path
            },
            Step::Reply(_) => false,
        }
    }

    /// Whether `step` answers with `response`-shaped content at once.
    pub open spec fn replies(step: Step, shape: spec_fn(Response) -> bool) -> bool {
        match step {
            Step::Reply(response) => shape(response),
            Step::Blob(_, _, _) => false,
        }
    }

    /// The blob step that an operation needs first, if it needs one: the
    /// bucket's directory ensured or removed, or the object's file written,
    /// read or removed.
    pub open spec fn blob_step(self, intent: Intent) -> Option<(BlobKind, Seq<char>)> {
        let base = self.storage.base_path@;
        match intent {
            Intent::ListBuckets => None,
            Intent::ListObjects(_) => None,
            Intent::CreateBucket(bucket) => Some((BlobKind::EnsureDir, bucket_path(base, bucket))),
            Intent::DeleteBucket(bucket) => Some((BlobKind::RemoveDir, bucket_path(base, bucket))),
            Intent::GetObject(bucket, key) => Some(
                (BlobKind::Read, object_path(base, bucket, key)),
            ),
            Intent::PutObject(bucket, key) => Some(
                (BlobKind::Write, object_path(base, bucket, key)),
            ),
            Intent::DeleteObject(bucket, key) => Some(
                (BlobKind::RemoveFile, object_path(base, bucket, key)),
            ),
        }
    }

    /// Whether the names in an operation can each be one component of a
    /// path below the base.
    pub open spec fn names_are_safe(intent: Intent) -> bool {
        match intent {
            Intent::ListBuckets => true,
            Intent::ListObjects(_) => true,
            Intent::CreateBucket(bucket) => is_safe_name(bucket),
            Intent::DeleteBucket(bucket) => is_safe_name(bucket),
            Intent::GetObject(bucket, key) => is_safe_name(bucket) && is_safe_name(key),
            Intent::PutObject(bucket, key) => is_safe_name(bucket) && is_safe_name(key),
            Intent::DeleteObject(bucket, key) => is_safe_name(bucket) && is_safe_name(key),
        }
    }

    /// Whether the names in an operation are safe.
    pub fn has_safe_names(operation: &Operation) -> (safe: bool)
        ensures
            safe == Self::names_are_safe(operation@),
    {
        match operation {
            Operation::ListBuckets => true,
            Operation::ListObjects(_) => true,
            Operation::CreateBucket(bucket) => is_safe(bucket.as_str()),
            Operation::DeleteBucket(bucket) => is_safe(bucket.as_str()),
            Operation::GetObject(bucket, key) => is_safe(bucket.as_str()) && is_safe(key.as_str()),
            Operation::PutObject(bucket, key) => is_safe(bucket.as_str()) && is_safe(key.as_str()),
            Operation::DeleteObject(bucket, key) => is_safe(bucket.as_str()) && is_safe(
                key.as_str(),
            ),
        }
    }

    /// How the dispatcher goes on after looking at a request. A request
    /// that is turned away is answered with the status of the failure. A
    /// listing is answered at once. Every other operation first needs its
    /// blob step; if one of its names could lead out of the base, it is
    /// answered as not found and no step is asked for.
    pub open spec fn first_step(self, req: Request, step: Step) -> bool {
        match self.caller(req) {
            Err(error) => Self::replies(step, |r: Response| is_plain(r, error.status())),
            Ok(user) => {
                let intent = intent_of(req.method@, req.path@);
                match intent {
                    Intent::ListBuckets => Self::replies(
                        step,
                        |r: Response| self.buckets_reply(user, r),
                    ),
                    Intent::ListObjects(bucket) => Self::replies(
                        step,
                        |r: Response| self.objects_reply(bucket, r),
                    ),
                    _ => if Self::names_are_safe(intent) {
                        Self::asks(
                            step,
                            user,
                            intent,
                            self.blob_step(intent)->Some_0.0,
                            self.blob_step(intent)->Some_0.1,
                        )
                    } else {
                        Self::replies(step, |r: Response| is_plain(r, Error::NotFound.status()))
                    },
                }
            },
        }
    }

    /// Looks at a request: authenticates it, finds out what it asks for,
    /// and either answers or names the blob step to take first.
    pub fn handle(&self, req: &Request) -> (step: Step)
        requires
            self.wf(),
        ensures
            self.first_step(*req, step),
    {
        let user = match self.authenticate(req) {
            Ok(user) => user,
            Err(error) => { return Step::Reply(plain(error.to_status())); },
        };
        let operation = self.detect_operation(req);
        if !Self::has_safe_names(&operation) {
            return Step::Reply(plain(Error::NotFound.to_status()));
        }
        let action = match &operation {
            Operation::ListBuckets => { return Step::Reply(self.reply_buckets(&user)); },
            Operation::ListObjects(bucket) => {
                return Step::Reply(self.reply_objects(bucket.as_str()));
            },
            Operation::CreateBucket(bucket) => BlobAction {
                kind: BlobKind::EnsureDir,
                path: self.storage.bucket_dir(bucket.as_str()),
            },
            Operation::DeleteBucket(bucket) => BlobAction {
                kind: BlobKind::RemoveDir,
                path: self.storage.bucket_dir(bucket.as_str()),
            },
            Operation::GetObject(bucket, key) => BlobAction {
                kind: BlobKind::Read,
                path: self.storage.object_file(bucket.as_str(), key.as_str()),
            },
            Operation::PutObject(bucket, key) => BlobAction {
                kind: BlobKind::Write,
                path: self.storage.object_file(bucket.as_str(), key.as_str()),
            },
            Operation::DeleteObject(bucket, key) => BlobAction {
                kind: BlobKind::RemoveFile,
                path: self.storage.object_file(bucket.as_str(), key.as_str()),
            },
        };
        Step::Blob(user, operation, action)
    }
}

/// The answer to a successful put: status 200, no body, and the lowercase
/// hexadecimal MD5 of the payload as the entity tag.
pub open spec fn is_put_reply(response: Response, body: Seq<u8>) -> bool {
    &&& response.status == 200
    &&& response.body@.len() == 0
    &&& header_texts(response.headers@) == seq![("ETag"@, hex_lower(md5_digest(body)))]
}

/// The answer to a successful get: status 200, the payload as the body,
/// and the date of the last change in RFC 1123 form, where the calendar has
/// that instant.
pub open spec fn is_get_reply(response: Response, entry: Object, payload: Seq<u8>) -> bool {
    &&& response.status == 200
    &&& response.body@ == payload
    &&& header_texts(response.headers@) == match http_date_text(
        entry.last_modified.seconds as int,
        entry.last_modified.nanos as int,
    ) {
        Some(text) => seq![("Last-Modified"@, text)],
        None => Seq::empty(),
    }
}

fn settle(outcome: &Result<Vec<u8>, BlobError>) -> (done: Result<(), BlobError>)
    ensures
        done == settled(*outcome),
{
    match outcome {
        Ok(_) => Ok(()),
        Err(failure) => Err(*failure),
    }
}

impl App {
    /// What creating a bucket does and answers: at some instant the store
    /// makes the bucket or refuses; the answer is 200 or the status of the
    /// refusal.
    pub open spec fn creates_bucket(
        self,
        user: User,
        bucket: Seq<char>,
        directory: Result<(), BlobError>,
        after: App,
        response: Response,
    ) -> bool {
        exists|created: Timestamp, made: Result<Bucket, Error>|
            {
                &&& #[trigger] self.storage.makes_bucket(
                    user.id@,
                    bucket,
                    directory,
                    created,
                    after.storage,
                    made,
                )
                &&& is_plain(
                    response,
                    match made {
                        Ok(_) => 200,
                        Err(error) => error.status(),
                    },
                )
            }
    }

    /// What putting an object does and answers: at some instant the store
    /// records the object or refuses; the answer carries the entity tag or
    /// the status of the refusal.
    pub open spec fn puts_object(
        self,
        user: User,
        bucket: Seq<char>,
        key: Seq<char>,
        body: Seq<u8>,
        written: Result<(), BlobError>,
        after: App,
        response: Response,
    ) -> bool {
        exists|now: Timestamp, made: Result<Object, Error>|
            {
                &&& #[trigger] self.storage.puts_object(
                    user,
                    bucket,
                    key,
                    body,
                    written,
                    now,
                    after.storage,
                    made,
                )
                &&& match made {
                    Ok(_) => is_put_reply(response, body),
                    Err(error) => is_plain(response, error.status()),
                }
            }
    }

    /// What carrying out an operation does, once its blob step has had the
    /// outcome `outcome`: how the store changes and what is answered.
    /// Creating a bucket answers 200, deleting answers 204, a put answers
    /// with the entity tag and a get with the payload; a failure answers
    /// with its status and leaves the store as it was. An operation with an
    /// unsafe name is answered as not found and changes nothing.
    pub open spec fn completes(
        self,
        user: User,
        intent: Intent,
        body: Seq<u8>,
        outcome: Result<Vec<u8>, BlobError>,
        after: App,
        response: Response,
    ) -> bool {
        if Self::names_are_safe(intent) {
            self.carries_out(user, intent, body, outcome, after, response)
        } else {
            after == self && is_plain(response, Error::NotFound.status())
        }
    }

    /// What carrying out an operation with safe names does.
    pub open spec fn carries_out(
        self,
        user: User,
        intent: Intent,
        body: Seq<u8>,
        outcome: Result<Vec<u8>, BlobError>,
        after: App,
        response: Response,
    ) -> bool {
        match intent {
            Intent::ListBuckets => after == self && self.buckets_reply(user, response),
            Intent::ListObjects(bucket) => after == self && self.objects_reply(bucket, response),
            Intent::CreateBucket(bucket) => self.creates_bucket(
                user,
                bucket,
                settled(outcome),
                after,
                response,
            ),
            Intent::PutObject(bucket, key) => self.puts_object(
                user,
                bucket,
                key,
                body,
                settled(outcome),
                after,
                response,
            ),
            Intent::GetObject(bucket, key) => {
                &&& after == self
                &&& match (outcome, object_with_key(self.storage.db@.objects_of(bucket), key)) {
                    (Ok(payload), Some(entry)) => is_get_reply(response, entry, payload@),
                    _ => is_plain(response, Error::NotFound.status()),
                }
            },
            Intent::DeleteBucket(bucket) => match outcome {
                Ok(_) => {
                    &&& after.storage.base_path == self.storage.base_path
                    &&& after.storage.db@ == self.storage.db@.drop_bucket(bucket)
                    &&& after.storage.db.pending() == self.storage.db.pending()
                        + self.storage.db@.drop_bucket_records(bucket)
                    &&& is_plain(response, 204)
                },
                Err(failure) => after == self && is_plain(response, failure.kind().status()),
            },
            Intent::DeleteObject(bucket, key) => match outcome {
                Ok(_) => {
                    &&& after.storage.base_path == self.storage.base_path
                    &&& after.storage.db@ == self.storage.db@.drop_object(bucket, key)
                    &&& after.storage.db.pending() == self.storage.db.pending()
                        + self.storage.db@.drop_object_records(bucket, key)
                    &&& is_plain(response, 204)
                },
                Err(failure) => after == self && is_plain(response, failure.kind().status()),
            },
        }
    }

    /// Carries out an operation for an accepted caller, after the blob step
    /// that `handle` asked for has had the outcome `outcome`. `body` is the
    /// request's body; what a read step read is inside `outcome`.
    pub fn complete(
        &mut self,
        user: &User,
        operation: &Operation,
        body: &[u8],
        outcome: Result<Vec<u8>, BlobError>,
    ) -> (response: Response)
        requires
            old(self).wf(),
            body@.len() <= i64::MAX,
        ensures
            final(self).wf(),
            old(self).completes(*user, operation@, body@, outcome, *final(self), response),
    {
        let ghost before = *self;
        if !Self::has_safe_names(operation) {
            return plain(Error::NotFound.to_status());
        }
        let response = match operation {
            Operation::ListBuckets => self.reply_buckets(user),
            Operation::ListObjects(bucket) => self.reply_objects(bucket.as_str()),
            Operation::CreateBucket(bucket) => {
                let owner: &str = user.id.as_str();
                let name: &str = bucket.as_str();
                let done = settle(&outcome);
                let made = self.storage.create_bucket(owner, name, done);
                proof {
                    let created = choose|created: Timestamp|
                        before.storage.makes_bucket(
                            owner@,
                            name@,
                            done,
                            created,
                            self.storage,
                            made,
                        );
                    assert(before.storage.makes_bucket(
                        user.id@,
                        bucket@,
                        settled(outcome),
                        created,
                        self.storage,
                        made,
                    ));
                }
                let response = match made {
                    Ok(_) => plain(200),
                    Err(error) => plain(error.to_status()),
                };
                assert(before.creates_bucket(*user, bucket@, settled(outcome), *self, response));
                response
            },
            Operation::PutObject(bucket, key) => {
                let digest = md5(body);
                let name: &str = bucket.as_str();
                let object: &str = key.as_str();
                let done = settle(&outcome);
                let made = self.storage.put_object(user, name, object, body, done);
                proof {
                    let now = choose|now: Timestamp|
                        before.storage.puts_object(
                            *user,
                            name@,
                            object@,
                            body@,
                            done,
                            now,
                            self.storage,
                            made,
                        );
                    assert(before.storage.puts_object(
                        *user,
                        bucket@,
                        key@,
                        body@,
                        settled(outcome),
                        now,
                        self.storage,
                        made,
                    ));
                }
                let response = match made {
                    Ok(_) => {
                        let mut headers: Vec<Header> = Vec::new();
                        headers.push(
                            Header {
                                name: String::from_str("ETag"),
                                value: to_hex_lower(digest.as_slice()),
                            },
                        );
                        let response = Response { status: 200, headers, body: Vec::new() };
                        assert(header_texts(response.headers@) =~= seq![
                            ("ETag"@, hex_lower(md5_digest(body@))),
                        ]);
                        response
                    },
                    Err(error) => plain(error.to_status()),
                };
                assert(before.puts_object(
                    *user,
                    bucket@,
                    key@,
                    body@,
                    settled(outcome),
                    *self,
                    response,
                ));
                response
            },
            Operation::GetObject(bucket, key) => {
                let mut payload: Vec<u8> = Vec::new();
                match self.storage.get_object(bucket.as_str(), key.as_str(), outcome, &mut payload) {
                    Ok(entry) => {
                        let mut headers: Vec<Header> = Vec::new();
                        match entry.last_modified.http_text() {
                            Some(text) => {
                                headers.push(
                                    Header { name: String::from_str("Last-Modified"), value: text },
                                );
                                assert(header_texts(headers@) =~= seq![("Last-Modified"@, text@)]);
                            },
                            None => {
                                assert(header_texts(headers@) =~= Seq::empty());
                            },
                        }
                        assert(payload@ =~= outcome->Ok_0@);
                        Response { status: 200, headers, body: payload }
                    },
                    Err(error) => plain(error.to_status()),
                }
            },
            Operation::DeleteBucket(bucket) => {
                match self.storage.delete_bucket(bucket.as_str(), settle(&outcome)) {
                    Ok(_) => plain(204),
                    Err(error) => plain(error.to_status()),
                }
            },
            Operation::DeleteObject(bucket, key) => {
                match self.storage.delete_object(bucket.as_str(), key.as_str(), settle(&outcome)) {
                    Ok(_) => plain(204),
                    Err(error) => plain(error.to_status()),
                }
            },
        };
        response
    }
}

} // verus!
