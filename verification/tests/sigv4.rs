use anbar::drivers::request::{Header, Request};
use anbar::drivers::s3::Auth;
use anbar::error::Error;
use hmac::{Hmac, Mac, NewMac};
use regex::Regex;
use sha2::{Digest, Sha256};

const HEADER: &str = "AWS4-HMAC-SHA256 Credential=ABC1234/20240101/us-east-1/s3/aws4_request, SignedHeaders=host;x-amz-content-sha256;x-amz-date, Signature=0123456789abcdef";

fn header(name: &str, value: &str) -> Header {
    Header { name: name.to_string(), value: value.to_string() }
}

fn sample_request() -> Request {
    Request {
        method: "GET".to_string(),
        path: "/buck/hello".to_string(),
        query: Some("a=1&b=2".to_string()),
        headers: vec![
            header("Host", "  example.com:8000 "),
            header("x-amz-date", "20240101T000000Z"),
            header("x-amz-content-sha256", "UNSIGNED-PAYLOAD"),
        ],
        body: Vec::new(),
    }
}

fn mac(key: &[u8], message: &[u8]) -> Vec<u8> {
    let mut mac = Hmac::<Sha256>::new_varkey(key).unwrap();
    mac.update(message);
    mac.finalize().into_bytes().to_vec()
}

#[test]
fn parse_reads_the_fields() {
    let auth = Auth::parse(HEADER).unwrap();
    assert_eq!(auth.access_key, "ABC1234");
    assert_eq!(auth.date, "20240101");
    assert_eq!(auth.region, "us-east-1");
    assert_eq!(auth.signature, "0123456789abcdef");
    assert_eq!(auth.signed_headers, vec!["host", "x-amz-content-sha256", "x-amz-date"]);
}

#[test]
fn parse_allows_any_white_space_after_the_commas() {
    let tight = "AWS4-HMAC-SHA256\tCredential=k/d/r/s3/aws4_request,SignedHeaders=h,Signature=0";
    let auth = Auth::parse(tight).unwrap();
    assert_eq!(auth.access_key, "k");
    assert_eq!(auth.date, "d");
    assert_eq!(auth.region, "r");
    assert_eq!(auth.signed_headers, vec!["h"]);
    assert_eq!(auth.signature, "0");
    let loose =
        "AWS4-HMAC-SHA256 Credential=k/d/r/s3/aws4_request, \t\n SignedHeaders=h,   Signature=0";
    assert!(Auth::parse(loose).is_ok());
}

#[test]
fn parse_keeps_empty_header_names() {
    let text = "AWS4-HMAC-SHA256 Credential=k/d/r/s3/aws4_request, SignedHeaders=a;;b;, Signature=0";
    let auth = Auth::parse(text).unwrap();
    assert_eq!(auth.signed_headers, vec!["a", "", "b", ""]);
}

#[test]
fn parse_refuses_what_is_not_of_the_grammar() {
    let bad = [
        "",
        "AWS4-HMAC-SHA256",
        "Bearer token",
        "AWS4-HMAC-SHA256  Credential=k/d/r/s3/aws4_request, SignedHeaders=h, Signature=0",
        "AWS4-HMAC-SHA256Credential=k/d/r/s3/aws4_request, SignedHeaders=h, Signature=0",
        " AWS4-HMAC-SHA256 Credential=k/d/r/s3/aws4_request, SignedHeaders=h, Signature=0",
        "AWS4-HMAC-SHA256 Credential=/d/r/s3/aws4_request, SignedHeaders=h, Signature=0",
        "AWS4-HMAC-SHA256 Credential=k//r/s3/aws4_request, SignedHeaders=h, Signature=0",
        "AWS4-HMAC-SHA256 Credential=k/d//s3/aws4_request, SignedHeaders=h, Signature=0",
        "AWS4-HMAC-SHA256 Credential=k-1/d/r/s3/aws4_request, SignedHeaders=h, Signature=0",
        "AWS4-HMAC-SHA256 Credential=k/d/r/ec2/aws4_request, SignedHeaders=h, Signature=0",
        "AWS4-HMAC-SHA256 Credential=k/d/r/s3/aws4_request SignedHeaders=h, Signature=0",
        "AWS4-HMAC-SHA256 Credential=k/d/r/s3/aws4_request, SignedHeaders=, Signature=0",
        "AWS4-HMAC-SHA256 Credential=k/d/r/s3/aws4_request, SignedHeaders=h Signature=0",
        "AWS4-HMAC-SHA256 Credential=k/d/r/s3/aws4_request, SignedHeaders=h, Signature=",
        "AWS4-HMAC-SHA256 Credential=k/d/r/s3/aws4_request, SignedHeaders=h, Signature=0G",
        "AWS4-HMAC-SHA256 Credential=k/d/r/s3/aws4_request, SignedHeaders=h, Signature=0A",
        "AWS4-HMAC-SHA256 Credential=k/d/r/s3/aws4_request, SignedHeaders=h, Signature=0 ",
        "AWS4-HMAC-SHA256 Credential=k/d/r/s3/aws4_request, SignedHeaders=h, Signature=0\n",
        "AWS4-HMAC-SHA256 Credential=k/d/r/s3/aws4_request, SignedHeaders=h:x, Signature=0",
        "aws4-hmac-sha256 Credential=k/d/r/s3/aws4_request, SignedHeaders=h, Signature=0",
    ];
    for text in bad {
        assert_eq!(Auth::parse(text).err(), Some(Error::MalformedAuth), "{}", text);
    }
}

#[test]
fn parse_refuses_letters_outside_ascii() {
    let text = "AWS4-HMAC-SHA256 Credential=clé/d/r/s3/aws4_request, SignedHeaders=h, Signature=0";
    assert_eq!(Auth::parse(text).err(), Some(Error::MalformedAuth));
    let gap = "AWS4-HMAC-SHA256\u{a0}Credential=k/d/r/s3/aws4_request, SignedHeaders=h, Signature=0";
    assert_eq!(Auth::parse(gap).err(), Some(Error::MalformedAuth));
}

#[test]
fn parse_agrees_with_the_pattern_on_ascii_headers() {
    let pattern = Regex::new(
        r"^AWS4-HMAC-SHA256\sCredential=(?P<access_key>\w+)/(?P<date>\w+)/(?P<region>[\w-]+)/s3/aws4_request,\s*SignedHeaders=(?P<headers>[\w\-;]+),\s*Signature=(?P<signature>[0-9a-f]+)$",
    )
    .unwrap();
    let samples = [
        HEADER,
        "",
        "AWS4-HMAC-SHA256 Credential=A_b9/2024/eu-west-1/s3/aws4_request,SignedHeaders=host,Signature=ff",
        "AWS4-HMAC-SHA256\nCredential=a/b/c/s3/aws4_request,\r\n SignedHeaders=-;-,\x0b\x0cSignature=00",
        "AWS4-HMAC-SHA256 Credential=a/b/c-/s3/aws4_request, SignedHeaders=;, Signature=abcdef0123456789",
        "AWS4-HMAC-SHA256 Credential=a/b/c/s3/aws4_request, SignedHeaders=x, Signature=abcdefg",
        "AWS4-HMAC-SHA256 Credential=a/b/c/d/s3/aws4_request, SignedHeaders=x, Signature=1",
        "AWS4-HMAC-SHA256 Credential=a/b/c/s3/aws4_request, SignedHeaders=x, Signature=1, Signature=2",
        "AWS4-HMAC-SHA256 Credential=a/b/c/s3/aws4_request, SignedHeaders=x,Signature=1,",
        "AWS4-HMAC-SHA256 Credential=a b/b/c/s3/aws4_request, SignedHeaders=x, Signature=1",
        "xAWS4-HMAC-SHA256 Credential=a/b/c/s3/aws4_request, SignedHeaders=x, Signature=1",
    ];
    for text in samples {
        match (Auth::parse(text), pattern.captures(text)) {
            (Ok(auth), Some(found)) => {
                assert_eq!(auth.access_key, &found["access_key"]);
                assert_eq!(auth.date, &found["date"]);
                assert_eq!(auth.region, &found["region"]);
                assert_eq!(auth.signature, &found["signature"]);
                let names: Vec<String> = found["headers"].split(';').map(|s| s.to_string()).collect();
                assert_eq!(auth.signed_headers, names);
            }
            (Err(error), None) => assert_eq!(error, Error::MalformedAuth),
            (parsed, found) => panic!("{:?} against {:?} on {}", parsed, found.is_some(), text),
        }
    }
}

#[test]
fn signing_key_is_the_chain_of_four_codes() {
    let auth = Auth::parse(HEADER).unwrap();
    let key = auth.key_builder("AbC1Zxv");
    let date_key = mac(b"AWS4AbC1Zxv", b"20240101");
    let region_key = mac(&date_key, b"us-east-1");
    let service_key = mac(&region_key, b"s3");
    let expected = mac(&service_key, b"aws4_request");
    assert_eq!(key, expected);
    assert_eq!(key.len(), 32);
    assert_ne!(key, auth.key_builder("AbC1Zxw"));
}

#[test]
fn signing_key_known_answer() {
    // A published HMAC-SHA256 example: key "Jefe" of RFC 4231.
    let tag = mac(b"Jefe", b"what do ya want for nothing?");
    assert_eq!(
        anbar::text::to_hex_lower(&tag),
        "5bdcc146bf60754e6a042426089575c75a003f089d2739839dec58b964ec3843"
    );
}

#[test]
fn canonical_request_has_seven_parts() {
    let auth = Auth::parse(HEADER).unwrap();
    let canonical = auth.canonical_request(&sample_request()).unwrap();
    assert_eq!(
        canonical,
        "GET\n/buck/hello\na=1&b=2\nhost:example.com:8000\nx-amz-content-sha256:UNSIGNED-PAYLOAD\nx-amz-date:20240101T000000Z\n\nhost;x-amz-content-sha256;x-amz-date\nUNSIGNED-PAYLOAD"
    );
}

#[test]
fn canonical_request_without_a_query_has_an_empty_line() {
    let auth = Auth::parse(HEADER).unwrap();
    let mut request = sample_request();
    request.query = None;
    request.method = "PUT".to_string();
    let canonical = auth.canonical_request(&request).unwrap();
    assert!(canonical.starts_with("PUT\n/buck/hello\n\nhost:example.com:8000\n"));
}

#[test]
fn canonical_request_needs_every_signed_header() {
    let auth = Auth::parse(HEADER).unwrap();
    let mut request = sample_request();
    request.headers.remove(0);
    assert_eq!(auth.canonical_request(&request), None);
    assert_eq!(auth.string_to_sign(&request), None);
    let mut request = sample_request();
    request.headers.remove(2);
    assert_eq!(auth.canonical_request(&request), None);
}

#[test]
fn first_header_of_a_name_counts() {
    let auth = Auth::parse(HEADER).unwrap();
    let mut request = sample_request();
    request.headers.push(header("host", "other"));
    let canonical = auth.canonical_request(&request).unwrap();
    assert!(canonical.contains("\nhost:example.com:8000\n"));
    assert_eq!(request.header("HOST").map(|v| v.as_str()), Some("  example.com:8000 "));
    assert_eq!(request.header("missing"), None);
}

#[test]
fn string_to_sign_ends_with_the_digest_of_the_canonical_request() {
    let auth = Auth::parse(HEADER).unwrap();
    let request = sample_request();
    let canonical = auth.canonical_request(&request).unwrap();
    let digest = anbar::text::to_hex_lower(&Sha256::digest(canonical.as_bytes()));
    let text = auth.string_to_sign(&request).unwrap();
    assert_eq!(
        text,
        format!("AWS4-HMAC-SHA256\n20240101T000000Z\n20240101/us-east-1/s3/aws4_request\n{}", digest)
    );
    assert_eq!(digest.len(), 64);
}

#[test]
fn string_to_sign_known_digest() {
    let auth = Auth {
        access_key: "k".to_string(),
        date: "d".to_string(),
        region: "r".to_string(),
        signature: "0".to_string(),
        signed_headers: vec![],
    };
    // An empty method, path and content hash with no signed headers give the
    // canonical request "\n\n\n\n\n\n", six line feeds.
    let request = Request {
        method: String::new(),
        path: String::new(),
        query: None,
        headers: vec![header("x-amz-content-sha256", ""), header("x-amz-date", "t")],
        body: Vec::new(),
    };
    assert_eq!(auth.canonical_request(&request).unwrap(), "\n\n\n\n\n\n");
    let digest = anbar::text::to_hex_lower(&Sha256::digest(b"\n\n\n\n\n\n"));
    assert_eq!(
        auth.string_to_sign(&request).unwrap(),
        format!("AWS4-HMAC-SHA256\nt\nd/r/s3/aws4_request\n{}", digest)
    );
}

#[test]
fn string_to_sign_needs_the_date_header() {
    let auth = Auth::parse(HEADER).unwrap();
    let mut request = sample_request();
    request.headers.remove(1);
    assert_eq!(auth.string_to_sign(&request), None);
}

fn agree(pattern: &Regex, text: &str) {
    match (Auth::parse(text), pattern.captures(text)) {
        (Ok(auth), Some(found)) => {
            assert_eq!(auth.access_key, &found["access_key"], "{:?}", text);
            assert_eq!(auth.date, &found["date"], "{:?}", text);
            assert_eq!(auth.region, &found["region"], "{:?}", text);
            assert_eq!(auth.signature, &found["signature"], "{:?}", text);
            let names: Vec<String> = found["headers"].split(';').map(|s| s.to_string()).collect();
            assert_eq!(auth.signed_headers, names, "{:?}", text);
        }
        (Err(error), None) => assert_eq!(error, Error::MalformedAuth),
        (parsed, found) => panic!("{:?} against {:?} on {:?}", parsed, found.is_some(), text),
    }
}

#[test]
fn parse_agrees_with_the_pattern_on_every_small_change() {
    let pattern = Regex::new(
        r"^AWS4-HMAC-SHA256\sCredential=(?P<access_key>\w+)/(?P<date>\w+)/(?P<region>[\w-]+)/s3/aws4_request,\s*SignedHeaders=(?P<headers>[\w\-;]+),\s*Signature=(?P<signature>[0-9a-f]+)$",
    )
    .unwrap();
    let valid = "AWS4-HMAC-SHA256 Credential=Ab_1/2024/eu-1/s3/aws4_request, SignedHeaders=a;b-c,Signature=0af9";
    let marks = [' ', '\t', '\n', '/', ',', ';', '-', '_', '=', 'x', 'Z', '0', 'f', 'g', '.'];
    let chars: Vec<char> = valid.chars().collect();
    let mut tried = 0;
    for at in 0..=chars.len() {
        for mark in marks {
            let mut inserted = chars.clone();
            inserted.insert(at, mark);
            agree(&pattern, &inserted.iter().collect::<String>());
            tried += 1;
            if at < chars.len() {
                let mut replaced = chars.clone();
                replaced[at] = mark;
                agree(&pattern, &replaced.iter().collect::<String>());
                tried += 1;
            }
        }
        if at < chars.len() {
            let mut removed = chars.clone();
            removed.remove(at);
            agree(&pattern, &removed.iter().collect::<String>());
            tried += 1;
        }
    }
    assert!(tried > 2000);
    agree(&pattern, valid);
    assert!(Auth::parse(valid).is_ok());
}
