//! AWS Signature Version 4 for the S3 dialect: the authorization header,
//! the signing key, the canonical request and the string to sign; and the
//! operations that a request can ask for.

use crate::drivers::digest::{hmac_sha256, hmac_sha256_tag, sha256, sha256_digest};
use crate::drivers::grammar::{
    is_cutting, is_match, lemma_match_unique, match_pattern, parts_at, rules, start, unambiguous,
    Class, Piece, Rule,
};
use crate::drivers::request::{header_value, Header, Request};
use crate::error::Error;
use crate::text::{
    chars_of, hex_lower, join_texts, join_with, split_on, split_text, texts, to_hex_lower,
    trim_text, trimmed,
};
use vstd::prelude::*;
use vstd::string::*;
use vstd::utf8::encode_utf8;

verus! {

/// The fields of an `AWS4-HMAC-SHA256` authorization header.
#[derive(Debug)]
pub struct Auth {
    pub access_key: String,
    pub date: String,
    pub region: String,
    pub signature: String,
    pub signed_headers: Vec<String>,
}

/// What a request asks the store to do.
pub enum Operation {
    ListBuckets,
    ListObjects(String),
    CreateBucket(String),
    DeleteBucket(String),
    GetObject(String, String),
    PutObject(String, String),
    DeleteObject(String, String),
}

/// The grammar of the authorization header:
/// `AWS4-HMAC-SHA256 Credential=<access key>/<date>/<region>/s3/aws4_request,
/// SignedHeaders=<names joined by ;>, Signature=<lowercase hex>`, with one
/// white-space character after the scheme and any white space after each
/// comma.
pub open spec fn header_grammar() -> Seq<Rule> {
    seq![
        Rule::Literal("AWS4-HMAC-SHA256"@),
        Rule::One(Class::Space),
        Rule::Literal("Credential="@),
        Rule::Run(Class::Word),
        Rule::Literal("/"@),
        Rule::Run(Class::Word),
        Rule::Literal("/"@),
        Rule::Run(Class::Region),
        Rule::Literal("/s3/aws4_request,"@),
        Rule::Any(Class::Space),
        Rule::Literal("SignedHeaders="@),
        Rule::Run(Class::HeaderList),
        Rule::Literal(","@),
        Rule::Any(Class::Space),
        Rule::Literal("Signature="@),
        Rule::Run(Class::Hex),
    ]
}

/// Whether `auth` holds the fields of a header divided into `parts` by the
/// grammar: the access key, the date, the region, the signed header names
/// split at `;`, and the signature.
pub open spec fn holds_fields(auth: Auth, parts: Seq<Seq<char>>) -> bool {
    &&& auth.access_key@ == parts[3]
    &&& auth.date@ == parts[5]
    &&& auth.region@ == parts[7]
    &&& texts(auth.signed_headers@) == split_on(parts[11], ';')
    &&& auth.signature@ == parts[15]
}

/// Whether `header` is a text of the grammar.
pub open spec fn in_grammar(header: Seq<char>) -> bool {
    exists|parts: Seq<Seq<char>>| #[trigger] is_match(header_grammar(), parts, header)
}

/// The parts of a header of the grammar. The grammar is unambiguous, so a
/// header has one division only.
pub open spec fn header_parts(header: Seq<char>) -> Seq<Seq<char>> {
    choose|parts: Seq<Seq<char>>| #[trigger] is_match(header_grammar(), parts, header)
}

/// In the header grammar every run is followed by a literal that starts
/// outside the run's class.
pub proof fn lemma_header_grammar_unambiguous()
    ensures
        unambiguous(header_grammar()),
{
    reveal_strlit("/");
    reveal_strlit("/s3/aws4_request,");
    reveal_strlit("SignedHeaders=");
    reveal_strlit(",");
    reveal_strlit("Signature=");
    let grammar = header_grammar();
    assert(grammar[4] == Rule::Literal("/"@));
    assert(grammar[6] == Rule::Literal("/"@));
    assert(grammar[8] == Rule::Literal("/s3/aws4_request,"@));
    assert(grammar[10] == Rule::Literal("SignedHeaders="@));
    assert(grammar[12] == Rule::Literal(","@));
    assert(grammar[14] == Rule::Literal("Signature="@));
}

/// A header has at most one division into the parts of the grammar, so
/// its fields are determined by its text.
pub proof fn law_header_has_one_division(
    header: Seq<char>,
    first: Seq<Seq<char>>,
    second: Seq<Seq<char>>,
)
    requires
        is_match(header_grammar(), first, header),
        is_match(header_grammar(), second, header),
    ensures
        first == second,
        first == header_parts(header),
{
    lemma_header_grammar_unambiguous();
    lemma_match_unique(header_grammar(), first, second, header);
    lemma_match_unique(header_grammar(), first, header_parts(header), header);
}

fn header_pattern() -> (pattern: Vec<Piece>)
    ensures
        rules(pattern@) == header_grammar(),
{
    let mut pattern: Vec<Piece> = Vec::new();
    pattern.push(Piece::Literal(chars_of("AWS4-HMAC-SHA256")));
    pattern.push(Piece::One(Class::Space));
    pattern.push(Piece::Literal(chars_of("Credential=")));
    pattern.push(Piece::Run(Class::Word));
    pattern.push(Piece::Literal(chars_of("/")));
    pattern.push(Piece::Run(Class::Word));
    pattern.push(Piece::Literal(chars_of("/")));
    pattern.push(Piece::Run(Class::Region));
    pattern.push(Piece::Literal(chars_of("/s3/aws4_request,")));
    pattern.push(Piece::Any(Class::Space));
    pattern.push(Piece::Literal(chars_of("SignedHeaders=")));
    pattern.push(Piece::Run(Class::HeaderList));
    pattern.push(Piece::Literal(chars_of(",")));
    pattern.push(Piece::Any(Class::Space));
    pattern.push(Piece::Literal(chars_of("Signature=")));
    pattern.push(Piece::Run(Class::Hex));
    assert(rules(pattern@) =~= header_grammar());
    pattern
}

/// The part of `text` that ends at cut `k`, as an owned string.
fn part_text(text: &str, cuts: &Vec<usize>, k: usize) -> (part: String)
    requires
        k < cuts.len(),
        is_cutting(cuts@, text@.len() as int),
    ensures
        part@ == parts_at(text@, cuts@)[k as int],
{
    let from: usize = if k == 0 {
        0
    } else {
        cuts[k - 1]
    };
    assert(from == start(cuts@, k as int));
    assert(start(cuts@, k as int) <= cuts@[k as int] <= text@.len());
    text.substring_char(from, cuts[k]).to_owned()
}

impl Auth {
    /// Reads an authorization header. Succeeds exactly on the texts that
    /// the grammar describes, and then returns the fields of the one
    /// division that the text has.
    pub fn parse(header: &str) -> (parsed: Result<Auth, Error>)
        ensures
            match parsed {
                Ok(auth) => in_grammar(header@) && holds_fields(auth, header_parts(header@)),
                Err(error) => error == Error::MalformedAuth && !in_grammar(header@),
            },
    {
        let pattern = header_pattern();
        proof {
            lemma_header_grammar_unambiguous();
        }
        let chars = chars_of(header);
        match match_pattern(&chars, &pattern) {
            None => Err(Error::MalformedAuth),
            Some(cuts) => {
                let names = part_text(header, &cuts, 11);
                let auth = Auth {
                    access_key: part_text(header, &cuts, 3),
                    date: part_text(header, &cuts, 5),
                    region: part_text(header, &cuts, 7),
                    signature: part_text(header, &cuts, 15),
                    signed_headers: split_text(names.as_str(), ';'),
                };
                proof {
                    let parts = parts_at(header@, cuts@);
                    assert(is_match(header_grammar(), parts, header@));
                    assert(is_match(header_grammar(), header_parts(header@), header@));
                    assert(header_parts(header@) == parts);
                    assert(holds_fields(auth, parts));
                }
                Ok(auth)
            },
        }
    }
}

/// The signing key for a secret, a date and a region: the chain
/// `HMAC(HMAC(HMAC(HMAC("AWS4" + secret, date), region), "s3"), "aws4_request")`
/// over the UTF-8 bytes of the texts.
pub open spec fn signing_key(secret: Seq<char>, date: Seq<char>, region: Seq<char>) -> Seq<u8> {
    let date_key = hmac_sha256_tag(encode_utf8("AWS4"@ + secret), encode_utf8(date));
    let region_key = hmac_sha256_tag(date_key, encode_utf8(region));
    let service_key = hmac_sha256_tag(region_key, encode_utf8("s3"@));
    hmac_sha256_tag(service_key, encode_utf8("aws4_request"@))
}

/// The canonical header lines for the signed header `names`: for each name
/// in order, the name, a colon and the trimmed value of that header.
/// Nothing if the request lacks one of them.
pub open spec fn signed_lines(names: Seq<Seq<char>>, headers: Seq<Header>) -> Option<
    Seq<Seq<char>>,
>
    decreases names.len(),
{
    if names.len() == 0 {
        Some(Seq::empty())
    } else {
        match (signed_lines(names.drop_last(), headers), header_value(headers, names.last())) {
            (Some(lines), Some(value)) => Some(lines.push(names.last() + ":"@ + trimmed(value))),
            _ => None,
        }
    }
}

/// The raw query string of a request, empty if it has none.
pub open spec fn query_text(request: Request) -> Seq<char> {
    match request.query {
        Some(query) => query@,
        None => Seq::empty(),
    }
}

/// The canonical request: seven items joined by line feeds. They are the
/// method, the path, the raw query string, the signed header lines (joined
/// by line feeds), an empty line, the signed header names (joined by `;`)
/// and the value of `x-amz-content-sha256`. Nothing if the request lacks a
/// signed header or the content hash.
pub open spec fn canonical_text(names: Seq<Seq<char>>, request: Request) -> Option<Seq<char>> {
    match (
        signed_lines(names, request.headers@),
        header_value(request.headers@, "x-amz-content-sha256"@),
    ) {
        (Some(lines), Some(content_hash)) => Some(
            join_with(
                seq![
                    request.method@,
                    request.path@,
                    query_text(request),
                    join_with(lines, "\n"@),
                    Seq::empty(),
                    join_with(names, ";"@),
                    content_hash,
                ],
                "\n"@,
            ),
        ),
        _ => None,
    }
}

/// The string to sign: the scheme, the value of `x-amz-date`, the
/// credential scope and the lowercase hexadecimal SHA-256 of the canonical
/// request, each on a line of its own. Nothing if the canonical request
/// cannot be built or the request has no `x-amz-date`.
pub open spec fn signing_text(
    date: Seq<char>,
    region: Seq<char>,
    names: Seq<Seq<char>>,
    request: Request,
) -> Option<Seq<char>> {
    match (canonical_text(names, request), header_value(request.headers@, "x-amz-date"@)) {
        (Some(canonical), Some(stamp)) => Some(
            "AWS4-HMAC-SHA256\n"@ + stamp + "\n"@ + date + "/"@ + region
                + "/s3/aws4_request\n"@ + hex_lower(sha256_digest(encode_utf8(canonical))),
        ),
        _ => None,
    }
}

impl Auth {
    /// Derives the signing key from the caller's secret.
    pub fn key_builder(&self, secret_access_key: &str) -> (key: Vec<u8>)
        ensures
            key@ == signing_key(secret_access_key@, self.date@, self.region@),
    {
        let mut seed = String::from_str("AWS4");
        seed.append(secret_access_key);
        let date_key = hmac_sha256(seed.as_str().as_bytes(), self.date.as_str().as_bytes());
        let region_key = hmac_sha256(date_key.as_slice(), self.region.as_str().as_bytes());
        let service_key = hmac_sha256(region_key.as_slice(), "s3".as_bytes());
        hmac_sha256(service_key.as_slice(), "aws4_request".as_bytes())
    }

    /// The canonical header lines of `request` for the signed headers.
    fn header_lines(&self, request: &Request) -> (lines: Option<Vec<String>>)
        ensures
            match lines {
                Some(lines) => signed_lines(texts(self.signed_headers@), request.headers@) == Some(
                    texts(lines@),
                ),
                None => signed_lines(texts(self.signed_headers@), request.headers@) is None,
            },
    {
        let ghost names = texts(self.signed_headers@);
        let mut lines: Vec<String> = Vec::new();
        let mut at: usize = 0;
        assert(names.take(0) =~= Seq::<Seq<char>>::empty());
        assert(texts(lines@) =~= Seq::<Seq<char>>::empty());
        while at < self.signed_headers.len()
            invariant
                names == texts(self.signed_headers@),
                at <= self.signed_headers.len(),
                signed_lines(names.take(at as int), request.headers@) == Some(texts(lines@)),
            decreases self.signed_headers.len() - at,
        {
            let name = self.signed_headers[at].as_str();
            proof {
                let longer = names.take(at + 1);
                assert(longer.drop_last() =~= names.take(at as int));
                assert(longer.last() == name@);
            }
            match request.header(name) {
                None => {
                    proof {
                        lemma_signed_lines_fail(names, request.headers@, at + 1);
                    }
                    return None;
                },
                Some(value) => {
                    let ghost before = texts(lines@);
                    let mut line = String::from_str(name);
                    line.append(":");
                    line.append(trim_text(value.as_str()));
                    lines.push(line);
                    assert(texts(lines@) =~= before.push(name@ + ":"@ + trimmed(value@)));
                },
            }
            at = at + 1;
        }
        assert(names.take(at as int) =~= names);
        Some(lines)
    }

    /// Builds the canonical request.
    pub fn canonical_request(&self, request: &Request) -> (canonical: Option<String>)
        ensures
            match canonical {
                Some(text) => canonical_text(texts(self.signed_headers@), *request) == Some(
                    text@,
                ),
                None => canonical_text(texts(self.signed_headers@), *request) is None,
            },
    {
        let lines = match self.header_lines(request) {
            Some(lines) => lines,
            None => { return None; },
        };
        let content_hash = match request.header("x-amz-content-sha256") {
            Some(value) => value,
            None => { return None; },
        };
        let query = match &request.query {
            Some(query) => query.clone(),
            None => String::new(),
        };
        let mut items: Vec<String> = Vec::new();
        items.push(request.method.clone());
        items.push(request.path.clone());
        items.push(query);
        items.push(join_texts(&lines, "\n"));
        items.push(String::new());
        items.push(join_texts(&self.signed_headers, ";"));
        items.push(content_hash.clone());
        proof {
            assert(texts(items@) =~= seq![
                request.method@,
                request.path@,
                query_text(*request),
                join_with(texts(lines@), "\n"@),
                Seq::empty(),
                join_with(texts(self.signed_headers@), ";"@),
                content_hash@,
            ]);
        }
        Some(join_texts(&items, "\n"))
    }

    /// Builds the string to sign.
    pub fn string_to_sign(&self, request: &Request) -> (text: Option<String>)
        ensures
            match text {
                Some(text) => signing_text(
                    self.date@,
                    self.region@,
                    texts(self.signed_headers@),
                    *request,
                ) == Some(text@),
                None => signing_text(
                    self.date@,
                    self.region@,
                    texts(self.signed_headers@),
                    *request,
                ) is None,
            },
    {
        let canonical = match self.canonical_request(request) {
            Some(canonical) => canonical,
            None => { return None; },
        };
        let stamp = match request.header("x-amz-date") {
            Some(value) => value,
            None => { return None; },
        };
        let digest = sha256(canonical.as_str().as_bytes());
        let mut text = String::from_str("AWS4-HMAC-SHA256\n");
        text.append(stamp.as_str());
        text.append("\n");
        text.append(self.date.as_str());
        text.append("/");
        text.append(self.region.as_str());
        text.append("/s3/aws4_request\n");
        text.append(to_hex_lower(digest.as_slice()).as_str());
        Some(text)
    }
}

/// Once a signed header is missing, no longer list of names has lines.
proof fn lemma_signed_lines_fail(names: Seq<Seq<char>>, headers: Seq<Header>, upto: int)
    requires
        0 <= upto <= names.len(),
        signed_lines(names.take(upto), headers) is None,
    ensures
        signed_lines(names, headers) is None,
    decreases names.len() - upto,
{
    if upto == names.len() {
        assert(names.take(upto) =~= names);
    } else {
        let longer = names.take(upto + 1);
        assert(longer.drop_last() =~= names.take(upto));
        lemma_signed_lines_fail(names, headers, upto + 1);
    }
}

} // verus!
