//! Signed request descriptions for the S3-compatible destination: the
//! store URL forms, and the fully signed write request for one object.
//! The caller performs the HTTP call; everything in the description is
//! computed here.

use vstd::prelude::*;

use crate::crypto::{sha256_hex, spec_sha256};
use crate::sigv4::{generate_aws_signature_v4, spec_sigv4_authorization, SigningError};
use crate::text::{hex_of, starts_with, str_starts_with};
use crate::timestamp::{basic_timestamp, spec_basic_timestamp, UtcTime};
use crate::urlparse::{
    host_header, spec_host_header, split_url, spec_url_host, spec_url_ok, spec_url_path,
    spec_url_port, spec_url_query,
};

verus! {

/// An endpoint grown into an absolute base URL: left alone when it
/// already names a scheme, otherwise read as HTTPS.
pub open spec fn spec_base_url(endpoint: Seq<char>) -> Seq<char> {
    if starts_with(endpoint, "http"@) {
        endpoint
    } else {
        "https://"@ + endpoint
    }
}

/// The path-style URL of one object: `base/bucket/key`.
pub open spec fn spec_object_url(endpoint: Seq<char>, bucket: Seq<char>, key: Seq<char>) -> Seq<
    char,
> {
    spec_base_url(endpoint) + seq!['/'] + bucket + seq!['/'] + key
}

/// The path-style URL of a bucket: `base/bucket`.
pub open spec fn spec_bucket_url(endpoint: Seq<char>, bucket: Seq<char>) -> Seq<char> {
    spec_base_url(endpoint) + seq!['/'] + bucket
}

fn base_url(endpoint: &str) -> (r: String)
    ensures
        r@ == spec_base_url(endpoint@),
{
    if str_starts_with(endpoint, "http") {
        endpoint.to_owned()
    } else {
        let mut r = String::from_str("https://");
        r.append(endpoint);
        r
    }
}

pub fn object_url(endpoint: &str, bucket: &str, key: &str) -> (r: String)
    ensures
        r@ == spec_object_url(endpoint@, bucket@, key@),
{
    let mut r = base_url(endpoint);
    crate::text::push_char(&mut r, '/');
    r.append(bucket);
    crate::text::push_char(&mut r, '/');
    r.append(key);
    proof {
        assert(r@ =~= spec_object_url(endpoint@, bucket@, key@));
    }
    r
}

pub fn bucket_url(endpoint: &str, bucket: &str) -> (r: String)
    ensures
        r@ == spec_bucket_url(endpoint@, bucket@),
{
    let mut r = base_url(endpoint);
    crate::text::push_char(&mut r, '/');
    r.append(bucket);
    proof {
        assert(r@ =~= spec_bucket_url(endpoint@, bucket@));
    }
    r
}

/// Everything the caller needs to issue one signed request: the URL,
/// the header values that were signed, and the Authorization value.
pub struct SignedRequest {
    pub url: String,
    pub host_header: String,
    pub timestamp: String,
    pub content_hash: String,
    pub authorization: String,
}

/// The three headers every store-bound request signs.
pub open spec fn spec_signed_header_pairs(
    host: Seq<char>,
    timestamp: Seq<char>,
    content_hash: Seq<char>,
) -> Seq<(Seq<char>, Seq<char>)> {
    seq![
        ("host"@, host),
        ("x-amz-date"@, timestamp),
        ("x-amz-content-sha256"@, content_hash),
    ]
}

/// Builds the signed write request that stores one object under the
/// given key: path-style URL, payload hash over the object's bytes,
/// and an Authorization value over host, date and content hash.  Fails
/// exactly when the endpoint does not yield a well-formed URL.
pub fn build_put_request(
    endpoint: &str,
    bucket: &str,
    key: &str,
    content: &[u8],
    access_key: &str,
    secret_key: &str,
    region: &str,
    t: &UtcTime,
) -> (r: Result<SignedRequest, SigningError>)
    requires
        t.wf(),
    ensures
        r is Ok <==> spec_url_ok(spec_object_url(endpoint@, bucket@, key@)),
        r matches Ok(req) ==> {
            let url = spec_object_url(endpoint@, bucket@, key@);
            let host = spec_host_header(spec_url_host(url), spec_url_port(url));
            let hash = hex_of(spec_sha256(content@));
            &&& req.url@ == url
            &&& req.host_header@ == host
            &&& req.timestamp@ == spec_basic_timestamp(*t)
            &&& req.content_hash@ == hash
            &&& req.authorization@ == spec_sigv4_authorization(
                "PUT"@,
                spec_url_path(url),
                spec_url_query(url),
                spec_signed_header_pairs(host, spec_basic_timestamp(*t), hash),
                access_key@,
                secret_key@,
                region@,
                *t,
                hash,
            )
        },
{
    let url = object_url(endpoint, bucket, key);
    let parts = match split_url(url.as_str()) {
        Some(p) => p,
        None => {
            return Err(SigningError::InvalidUrl);
        },
    };
    let host = host_header(&parts);
    let ts = basic_timestamp(t);
    let hash = sha256_hex(content);
    let mut headers: Vec<(String, String)> = Vec::new();
    headers.push((String::from_str("host"), host.clone()));
    headers.push((String::from_str("x-amz-date"), ts.clone()));
    headers.push((String::from_str("x-amz-content-sha256"), hash.clone()));
    proof {
        assert(crate::sigv4::pair_views(headers@) =~= spec_signed_header_pairs(
            host@,
            ts@,
            hash@,
        ));
    }
    let auth = match generate_aws_signature_v4(
        "PUT",
        url.as_str(),
        &headers,
        access_key,
        secret_key,
        region,
        t,
        hash.as_str(),
    ) {
        Ok(a) => a,
        Err(e) => {
            return Err(e);
        },
    };
    Ok(
        SignedRequest {
            url,
            host_header: host,
            timestamp: ts,
            content_hash: hash,
            authorization: auth,
        },
    )
}

} // verus!
