use anbar::drivers::request::{Header, Request, Response};
use anbar::drivers::s3::{Auth, Operation};
use anbar::drivers::web_server::{document, plain, App, BlobAction, BlobKind, Step};
use anbar::error::{BlobError, Error};
use anbar::interactors::storage::{is_safe, Storage};
use hmac::{Hmac, Mac, NewMac};
use sha2::Sha256;

const BASE: &str = "/srv/anbar";

// A blob layer in memory: the directories and files that exist.
struct Disk {
    dirs: Vec<String>,
    files: Vec<(String, Vec<u8>)>,
}

fn parent(path: &str) -> String {
    match path.rfind('/') {
        Some(at) => path[..at].to_string(),
        None => String::new(),
    }
}

fn perform(disk: &mut Disk, action: &BlobAction, body: &[u8]) -> Result<Vec<u8>, BlobError> {
    let path = action.path.clone();
    match action.kind {
        BlobKind::EnsureDir => {
            if !disk.dirs.contains(&path) {
                disk.dirs.push(path);
            }
            Ok(Vec::new())
        }
        BlobKind::Write => {
            if !disk.dirs.contains(&parent(&path)) {
                return Err(BlobError::NotFound);
            }
            disk.files.retain(|(name, _)| *name != path);
            disk.files.push((path, body.to_vec()));
            Ok(Vec::new())
        }
        BlobKind::Read => match disk.files.iter().find(|(name, _)| *name == path) {
            Some((_, bytes)) => Ok(bytes.clone()),
            None => Err(BlobError::NotFound),
        },
        BlobKind::RemoveFile => {
            let before = disk.files.len();
            disk.files.retain(|(name, _)| *name != path);
            if disk.files.len() == before {
                Err(BlobError::NotFound)
            } else {
                Ok(Vec::new())
            }
        }
        BlobKind::RemoveDir => {
            if !disk.dirs.contains(&path) {
                return Err(BlobError::NotFound);
            }
            disk.dirs.retain(|name| *name != path);
            let below = format!("{}/", path);
            disk.files.retain(|(name, _)| !name.starts_with(&below));
            Ok(Vec::new())
        }
    }
}

fn serve(app: &mut App, disk: &mut Disk, request: &Request) -> Response {
    match app.handle(request) {
        Step::Reply(response) => response,
        Step::Blob(user, operation, action) => {
            let outcome = perform(disk, &action, &request.body);
            app.complete(&user, &operation, &request.body, outcome)
        }
    }
}

fn header(name: &str, value: &str) -> Header {
    Header { name: name.to_string(), value: value.to_string() }
}

fn unsigned(method: &str, path: &str, body: &[u8]) -> Request {
    Request {
        method: method.to_string(),
        path: path.to_string(),
        query: None,
        headers: vec![
            header("host", "localhost:8000"),
            header("x-amz-date", "20240101T000000Z"),
            header("x-amz-content-sha256", "UNSIGNED-PAYLOAD"),
        ],
        body: body.to_vec(),
    }
}

fn signature(secret: &str, request: &Request) -> String {
    let auth = Auth {
        access_key: "ABC1234".to_string(),
        date: "20240101".to_string(),
        region: "us-east-1".to_string(),
        signature: String::new(),
        signed_headers: vec![
            "host".to_string(),
            "x-amz-content-sha256".to_string(),
            "x-amz-date".to_string(),
        ],
    };
    let text = auth.string_to_sign(request).unwrap();
    let mut mac = Hmac::<Sha256>::new_varkey(&auth.key_builder(secret)).unwrap();
    mac.update(text.as_bytes());
    anbar::text::to_hex_lower(&mac.finalize().into_bytes())
}

fn authorization(signature: &str) -> Header {
    header(
        "Authorization",
        &format!(
            "AWS4-HMAC-SHA256 Credential=ABC1234/20240101/us-east-1/s3/aws4_request, \
             SignedHeaders=host;x-amz-content-sha256;x-amz-date, Signature={}",
            signature
        ),
    )
}

fn signed(method: &str, path: &str, body: &[u8]) -> Request {
    let mut request = unsigned(method, path, body);
    let signature = signature("AbC1Zxv", &request);
    request.headers.push(authorization(&signature));
    request
}

fn fresh() -> (App, Disk) {
    let mut storage = Storage::new(BASE);
    storage.new_user("mehdy", "Mehdy", "ABC1234", "AbC1Zxv").unwrap();
    (App { storage }, Disk { dirs: vec![BASE.to_string()], files: Vec::new() })
}

fn with_bucket() -> (App, Disk) {
    let (mut app, mut disk) = fresh();
    let made = serve(&mut app, &mut disk, &signed("PUT", "/buck", b""));
    assert_eq!(made.status, 200);
    (app, disk)
}

fn text(response: &Response) -> String {
    String::from_utf8(response.body.clone()).unwrap()
}

fn value_of(response: &Response, name: &str) -> Option<String> {
    response.headers.iter().find(|h| h.name == name).map(|h| h.value.clone())
}

fn intent(method: &str, path: &str) -> Operation {
    let (app, _) = fresh();
    app.detect_operation(&unsigned(method, path, b""))
}

#[test]
fn path_of_only_a_slash_lists_buckets() {
    for method in ["GET", "PUT", "DELETE", "POST", "HEAD", ""] {
        assert!(matches!(intent(method, "/"), Operation::ListBuckets));
    }
}

#[test]
fn one_segment_concerns_a_bucket() {
    assert!(matches!(intent("GET", "/buck"), Operation::ListObjects(b) if b == "buck"));
    assert!(matches!(intent("PUT", "/buck"), Operation::CreateBucket(b) if b == "buck"));
    assert!(matches!(intent("DELETE", "/buck"), Operation::DeleteBucket(b) if b == "buck"));
    assert!(matches!(intent("GET", "/buck/"), Operation::ListObjects(b) if b == "buck"));
    assert!(matches!(intent("GET", "//key"), Operation::ListObjects(b) if b == "key"));
    assert!(matches!(intent("GET", "buck"), Operation::ListObjects(b) if b == "buck"));
}

#[test]
fn two_segments_concern_an_object() {
    assert!(matches!(intent("GET", "/buck/hello"),
        Operation::GetObject(b, k) if b == "buck" && k == "hello"));
    assert!(matches!(intent("PUT", "/buck/hello"),
        Operation::PutObject(b, k) if b == "buck" && k == "hello"));
    assert!(matches!(intent("DELETE", "/buck/hello"),
        Operation::DeleteObject(b, k) if b == "buck" && k == "hello"));
    assert!(matches!(intent("GET", "/buck/a/b/"),
        Operation::GetObject(b, k) if b == "buck" && k == "a/b/"));
    assert!(matches!(intent("GET", "/buck//x"),
        Operation::GetObject(b, k) if b == "buck" && k == "/x"));
    assert!(matches!(intent("GET", "/bück/schlüssel"),
        Operation::GetObject(b, k) if b == "bück" && k == "schlüssel"));
}

#[test]
fn other_methods_fall_back_to_listing_buckets() {
    assert!(matches!(intent("POST", "/buck"), Operation::ListBuckets));
    assert!(matches!(intent("POST", "/buck/key"), Operation::ListBuckets));
    assert!(matches!(intent("get", "/buck/key"), Operation::ListBuckets));
    assert!(matches!(intent("GET", ""), Operation::ListBuckets));
    assert!(matches!(intent("DELETE", "//"), Operation::ListBuckets));
}

#[test]
fn authorization_header_is_read_without_regard_to_case() {
    let (app, _) = fresh();
    let mut request = unsigned("GET", "/", b"");
    assert_eq!(app.get_auth_header(&request), "");
    request.headers.push(header("authorization", "first"));
    request.headers.push(header("Authorization", "second"));
    assert_eq!(app.get_auth_header(&request), "first");
}

#[test]
fn signature_is_checked_against_the_secret() {
    let (app, _) = fresh();
    let user = app.storage.find_user("ABC1234").unwrap();
    let request = signed("GET", "/", b"");
    let auth = Auth::parse(&app.get_auth_header(&request)).unwrap();
    assert!(app.check_signature(&user, &auth, &request));
    let mut other = user.clone();
    other.secret_access_key = "AbC1Zxw".to_string();
    assert!(!app.check_signature(&other, &auth, &request));
    let moved = Request { path: "/buck".to_string(), ..signed("GET", "/", b"") };
    assert!(!app.check_signature(&user, &auth, &moved));
    let mut short = Auth::parse(&app.get_auth_header(&request)).unwrap();
    short.signature.pop();
    assert!(!app.check_signature(&user, &short, &request));
}

#[test]
fn plain_and_document_responses() {
    let empty = plain(204);
    assert_eq!((empty.status, empty.headers.len(), empty.body.len()), (204, 0, 0));
    let page = document("<a>é</a>");
    assert_eq!(page.status, 200);
    assert_eq!(page.headers.len(), 0);
    assert_eq!(page.body, "<a>é</a>".as_bytes());
}

#[test]
fn failures_have_their_statuses() {
    assert_eq!(Error::MalformedAuth.to_status(), 400);
    assert_eq!(Error::AuthFailed.to_status(), 401);
    assert_eq!(Error::NotFound.to_status(), 404);
    assert_eq!(Error::Conflict.to_status(), 409);
    assert_eq!(Error::Io.to_status(), 500);
    assert_eq!(Error::Backend.to_status(), 500);
    assert_eq!(BlobError::NotFound.to_error(), Error::NotFound);
    assert_eq!(BlobError::Io.to_error(), Error::Io);
}

#[test]
fn signed_list_buckets() {
    let (mut app, mut disk) = with_bucket();
    let response = serve(&mut app, &mut disk, &signed("GET", "/", b""));
    assert_eq!(response.status, 200);
    let xml = text(&response);
    assert_eq!(xml.matches("<Bucket>").count(), 1);
    assert!(xml.starts_with("<ListAllMyBucketsResult><Buckets><Bucket><Name>buck</Name><CreationDate>"));
    assert!(xml.ends_with(
        "</CreationDate></Bucket></Buckets>\
         <Owner><DisplayName>Mehdy</DisplayName><ID>mehdy</ID></Owner></ListAllMyBucketsResult>"
    ));
    assert!(disk.dirs.contains(&"/srv/anbar/buck".to_string()));
}

#[test]
fn list_buckets_of_a_user_without_buckets() {
    let (mut app, mut disk) = fresh();
    let response = serve(&mut app, &mut disk, &signed("GET", "/", b""));
    assert_eq!(response.status, 200);
    assert_eq!(
        text(&response),
        "<ListAllMyBucketsResult><Buckets></Buckets>\
         <Owner><DisplayName>Mehdy</DisplayName><ID>mehdy</ID></Owner></ListAllMyBucketsResult>"
    );
}

#[test]
fn put_then_get_round_trip() {
    let (mut app, mut disk) = with_bucket();
    let put = serve(&mut app, &mut disk, &signed("PUT", "/buck/hello", b"world"));
    assert_eq!(put.status, 200);
    assert_eq!(put.body.len(), 0);
    assert_eq!(put.headers.len(), 1);
    assert_eq!(value_of(&put, "ETag"), Some("7d793037a0760186574b0282f2f435e7".to_string()));
    let get = serve(&mut app, &mut disk, &signed("GET", "/buck/hello", b""));
    assert_eq!(get.status, 200);
    assert_eq!(get.body, b"world");
    let date = value_of(&get, "Last-Modified").unwrap();
    let parts: Vec<&str> = date.split(' ').collect();
    assert_eq!(parts.len(), 6);
    assert!(["Mon,", "Tue,", "Wed,", "Thu,", "Fri,", "Sat,", "Sun,"].contains(&parts[0]));
    assert_eq!(parts[1].len(), 2);
    assert_eq!(parts[2].len(), 3);
    assert_eq!(parts[3].len(), 4);
    assert_eq!(parts[4].len(), 8);
    assert_eq!(parts[5], "GMT");
}

#[test]
fn get_tells_the_date_of_the_last_change() {
    let (mut app, _) = with_bucket();
    let user = app.storage.find_user("ABC1234").unwrap();
    let noon = anbar::entities::timestamp::Timestamp {
        seconds: 1_704_110_400,
        nanos: 0,
        offset: 12_600,
    };
    app.storage.put_object_at(&user, "buck", "hello", b"world", Ok(()), noon).unwrap();
    let operation = Operation::GetObject("buck".to_string(), "hello".to_string());
    let get = app.complete(&user, &operation, b"", Ok(b"world".to_vec()));
    assert_eq!(get.status, 200);
    assert_eq!(value_of(&get, "Last-Modified"), Some("Mon, 01 Jan 2024 12:00:00 GMT".to_string()));
    assert_eq!(get.body, b"world");
}

#[test]
fn put_of_an_empty_body_is_listed_with_size_zero() {
    let (mut app, mut disk) = with_bucket();
    let put = serve(&mut app, &mut disk, &signed("PUT", "/buck/none", b""));
    assert_eq!(put.status, 200);
    assert_eq!(value_of(&put, "ETag"), Some("d41d8cd98f00b204e9800998ecf8427e".to_string()));
    let get = serve(&mut app, &mut disk, &signed("GET", "/buck/none", b""));
    assert_eq!((get.status, get.body.len()), (200, 0));
    let list = text(&serve(&mut app, &mut disk, &signed("GET", "/buck", b"")));
    assert!(list.contains("<Key>none</Key>"));
    assert!(list.contains("<Size>0</Size>"));
}

#[test]
fn repeated_put_gives_the_same_tag() {
    let (mut app, mut disk) = with_bucket();
    let first = serve(&mut app, &mut disk, &signed("PUT", "/buck/k", b"same bytes"));
    let second = serve(&mut app, &mut disk, &signed("PUT", "/buck/k", b"same bytes"));
    assert_eq!(first.status, 200);
    assert_eq!(second.status, 200);
    assert_eq!(value_of(&first, "ETag"), value_of(&second, "ETag"));
    let listed = app.storage.list_objects("buck");
    assert_eq!(listed.len(), 1);
    assert_eq!(listed[0].size, 10);
}

#[test]
fn bad_signature_is_refused_and_creates_nothing() {
    let (mut app, mut disk) = with_bucket();
    let mut request = unsigned("PUT", "/buck/hello", b"world");
    let mut wrong = signature("AbC1Zxv", &request);
    let last = wrong.pop().unwrap();
    wrong.push(if last == '0' { '1' } else { '0' });
    request.headers.push(authorization(&wrong));
    let refused = serve(&mut app, &mut disk, &request);
    assert_eq!(refused.status, 401);
    assert_eq!(refused.body.len(), 0);
    assert_eq!(refused.headers.len(), 0);
    assert_eq!(disk.files.len(), 0);
    let get = serve(&mut app, &mut disk, &signed("GET", "/buck/hello", b""));
    assert_eq!(get.status, 404);
    assert_eq!(get.body.len(), 0);
}

#[test]
fn missing_or_malformed_authorization_is_a_bad_request() {
    let (mut app, mut disk) = with_bucket();
    let bare = serve(&mut app, &mut disk, &unsigned("GET", "/", b""));
    assert_eq!((bare.status, bare.body.len()), (400, 0));
    let mut request = unsigned("GET", "/", b"");
    request.headers.push(header("Authorization", "Basic dXNlcjpwYXNz"));
    assert_eq!(serve(&mut app, &mut disk, &request).status, 400);
    let mut request = unsigned("GET", "/", b"");
    request.headers.push(header("Authorization", ""));
    assert_eq!(serve(&mut app, &mut disk, &request).status, 400);
}

#[test]
fn unknown_access_key_is_refused() {
    let (mut app, mut disk) = with_bucket();
    let mut request = unsigned("GET", "/", b"");
    let signature = signature("AbC1Zxv", &request);
    request.headers.push(header(
        "Authorization",
        &format!(
            "AWS4-HMAC-SHA256 Credential=NOBODY/20240101/us-east-1/s3/aws4_request, \
             SignedHeaders=host;x-amz-content-sha256;x-amz-date, Signature={}",
            signature
        ),
    ));
    assert_eq!(serve(&mut app, &mut disk, &request).status, 401);
}

#[test]
fn request_without_a_signed_header_is_refused() {
    let (mut app, mut disk) = with_bucket();
    let mut request = signed("GET", "/", b"");
    request.headers.remove(0);
    assert_eq!(serve(&mut app, &mut disk, &request).status, 401);
}

#[test]
fn delete_bucket_then_list_its_objects() {
    let (mut app, mut disk) = with_bucket();
    assert_eq!(serve(&mut app, &mut disk, &signed("PUT", "/buck/hello", b"world")).status, 200);
    let deleted = serve(&mut app, &mut disk, &signed("DELETE", "/buck", b""));
    assert_eq!((deleted.status, deleted.body.len(), deleted.headers.len()), (204, 0, 0));
    let list = serve(&mut app, &mut disk, &signed("GET", "/buck", b""));
    assert_eq!(list.status, 200);
    assert_eq!(
        text(&list),
        "<ListBucketResult><IsTruncated>false</IsTruncated><Name>buck</Name></ListBucketResult>"
    );
    assert!(!disk.dirs.contains(&"/srv/anbar/buck".to_string()));
    assert_eq!(disk.files.len(), 0);
    let buckets = text(&serve(&mut app, &mut disk, &signed("GET", "/", b"")));
    assert!(!buckets.contains("<Bucket>"));
    assert_eq!(serve(&mut app, &mut disk, &signed("GET", "/buck/hello", b"")).status, 404);
}

#[test]
fn duplicate_bucket_is_a_conflict() {
    let (mut app, mut disk) = fresh();
    assert_eq!(serve(&mut app, &mut disk, &signed("PUT", "/buck", b"")).status, 200);
    let second = serve(&mut app, &mut disk, &signed("PUT", "/buck", b""));
    assert_eq!((second.status, second.body.len()), (409, 0));
    assert_eq!(app.storage.list_buckets("mehdy").unwrap().len(), 1);
}

#[test]
fn list_objects_after_two_puts() {
    let (mut app, mut disk) = with_bucket();
    assert_eq!(serve(&mut app, &mut disk, &signed("PUT", "/buck/a", b"1")).status, 200);
    assert_eq!(serve(&mut app, &mut disk, &signed("PUT", "/buck/b", b"22")).status, 200);
    let list = serve(&mut app, &mut disk, &signed("GET", "/buck", b""));
    assert_eq!(list.status, 200);
    let xml = text(&list);
    assert_eq!(xml.matches("<Contents>").count(), 2);
    assert!(xml.starts_with("<ListBucketResult><IsTruncated>false</IsTruncated><Contents>"));
    assert!(xml.ends_with("</Contents><Name>buck</Name></ListBucketResult>"));
    assert!(xml.contains(
        "<Key>a</Key><Owner><DisplayName></DisplayName><ID>mehdy</ID></Owner><Size>1</Size>"
    ));
    assert!(xml.contains(
        "<Key>b</Key><Owner><DisplayName></DisplayName><ID>mehdy</ID></Owner><Size>2</Size>"
    ));
}

#[test]
fn delete_object_then_get_is_not_found() {
    let (mut app, mut disk) = with_bucket();
    assert_eq!(serve(&mut app, &mut disk, &signed("PUT", "/buck/hello", b"world")).status, 200);
    let deleted = serve(&mut app, &mut disk, &signed("DELETE", "/buck/hello", b""));
    assert_eq!((deleted.status, deleted.body.len()), (204, 0));
    assert_eq!(serve(&mut app, &mut disk, &signed("GET", "/buck/hello", b"")).status, 404);
    assert_eq!(serve(&mut app, &mut disk, &signed("DELETE", "/buck/hello", b"")).status, 404);
    assert_eq!(app.storage.list_objects("buck").len(), 0);
}

#[test]
fn put_into_a_missing_bucket_is_not_found() {
    let (mut app, mut disk) = fresh();
    let put = serve(&mut app, &mut disk, &signed("PUT", "/nope/hello", b"world"));
    assert_eq!(put.status, 404);
    assert_eq!(put.headers.len(), 0);
    assert_eq!(app.storage.list_objects("nope").len(), 0);
}

#[test]
fn handle_names_the_blob_step() {
    let (app, _) = with_bucket();
    let cases = [
        ("PUT", "/duck", BlobKind::EnsureDir, "/srv/anbar/duck"),
        ("DELETE", "/duck", BlobKind::RemoveDir, "/srv/anbar/duck"),
        ("PUT", "/buck/k", BlobKind::Write, "/srv/anbar/buck/k"),
        ("GET", "/buck/k", BlobKind::Read, "/srv/anbar/buck/k"),
        ("DELETE", "/buck/k", BlobKind::RemoveFile, "/srv/anbar/buck/k"),
    ];
    for (method, path, kind, file) in cases {
        match app.handle(&signed(method, path, b"")) {
            Step::Blob(user, _, action) => {
                assert_eq!(user.id, "mehdy");
                assert_eq!(action.kind, kind);
                assert_eq!(action.path, file);
            }
            Step::Reply(response) => panic!("{} {} answered {}", method, path, response.status),
        }
    }
}

#[test]
fn failed_blob_steps_answer_with_their_status() {
    let (mut app, _) = with_bucket();
    let user = app.storage.find_user("ABC1234").unwrap();
    let create = Operation::CreateBucket("duck".to_string());
    assert_eq!(app.complete(&user, &create, b"", Err(BlobError::Io)).status, 500);
    let put = Operation::PutObject("buck".to_string(), "k".to_string());
    assert_eq!(app.complete(&user, &put, b"x", Err(BlobError::Io)).status, 500);
    let get = Operation::GetObject("buck".to_string(), "k".to_string());
    assert_eq!(app.complete(&user, &get, b"", Err(BlobError::Io)).status, 404);
    let remove = Operation::DeleteBucket("buck".to_string());
    assert_eq!(app.complete(&user, &remove, b"", Err(BlobError::Io)).status, 500);
    assert_eq!(app.complete(&user, &remove, b"", Err(BlobError::NotFound)).status, 404);
    let forget = Operation::DeleteObject("buck".to_string(), "k".to_string());
    assert_eq!(app.complete(&user, &forget, b"", Err(BlobError::Io)).status, 500);
    assert_eq!(app.storage.list_buckets("mehdy").unwrap().len(), 1);
    let listing = app.complete(&user, &Operation::ListBuckets, b"", Ok(Vec::new()));
    assert_eq!(listing.status, 200);
    let objects =
        app.complete(&user, &Operation::ListObjects("buck".to_string()), b"", Ok(Vec::new()));
    assert_eq!(objects.status, 200);
}

#[test]
fn names_that_could_leave_the_base_are_unsafe() {
    for name in ["buck", "hello.txt", "a.b.c", ".hidden", "x.", "ü"] {
        assert!(is_safe(name), "{}", name);
    }
    for name in ["", ".", "..", "a/b", "/x", "x/", "a..b", "..a", "a..", "a\0b", "..."] {
        assert!(!is_safe(name), "{}", name);
    }
}

#[test]
fn unsafe_names_are_not_found_and_ask_for_no_step() {
    let (mut app, mut disk) = with_bucket();
    let before = disk.dirs.len();
    for (method, path) in [
        ("PUT", "/.."),
        ("PUT", "/."),
        ("DELETE", "/.."),
        ("PUT", "/buck/../escape"),
        ("GET", "/buck/a/b"),
        ("PUT", "/buck//x"),
        ("DELETE", "/../buck"),
        ("PUT", "/buck/.."),
    ] {
        let request = signed(method, path, b"x");
        assert!(matches!(app.handle(&request), Step::Reply(_)), "{} {}", method, path);
        let response = serve(&mut app, &mut disk, &request);
        assert_eq!((response.status, response.body.len()), (404, 0), "{} {}", method, path);
    }
    assert_eq!(disk.dirs.len(), before);
    assert_eq!(disk.files.len(), 0);
    assert_eq!(app.storage.list_buckets("mehdy").unwrap().len(), 1);
}
