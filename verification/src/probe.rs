//! The connectivity prober: one signed metadata-only request against a
//! destination, and the classification of its outcome into a closed
//! set of results.  It never touches the task registry and never
//! raises; every outcome is a structured result.

use vstd::prelude::*;

use crate::s3_request::{bucket_url, spec_bucket_url, SignedRequest};
use crate::sigv4::{generate_aws_signature_v4, spec_sigv4_authorization, SigningError};
use crate::text::u64_dec;
use crate::timestamp::{basic_timestamp, spec_basic_timestamp, UtcTime};
use crate::urlparse::{split_url, spec_url_host, spec_url_ok, spec_url_path, spec_url_query};

verus! {

/// An S3-compatible destination to validate: where it lives and the
/// credentials to present.
#[derive(Clone, Debug)]
pub struct S3ConnectionConfig {
    pub bucket_name: String,
    pub endpoint: String,
    pub region: Option<String>,
    pub access_key_id: String,
    pub secret_access_key: String,
}

/// The structured outcome of a probe.
#[derive(Clone, Debug)]
pub struct S3ConnectionResult {
    pub success: bool,
    pub message: String,
}

/// The region a probe signs for: the configured one, or the default.
pub open spec fn spec_probe_region(region: Option<String>) -> Seq<char> {
    match region {
        Option::Some(r) => r@,
        Option::None => "us-east-1"@,
    }
}

/// The payload sentinel of a metadata-only request.
pub open spec fn spec_unsigned_payload() -> Seq<char> {
    "UNSIGNED-PAYLOAD"@
}

/// Builds the signed metadata-only request that validates a
/// destination: a path-style bucket URL, the unsigned-payload sentinel,
/// and an Authorization value over host, date and sentinel.  The host
/// header is the bare host name.  Fails exactly when the endpoint does
/// not yield a well-formed URL.
pub fn build_probe_request(config: &S3ConnectionConfig, t: &UtcTime) -> (r: Result<
    SignedRequest,
    SigningError,
>)
    requires
        t.wf(),
    ensures
        r is Ok <==> spec_url_ok(spec_bucket_url(config.endpoint@, config.bucket_name@)),
        r matches Ok(req) ==> {
            let url = spec_bucket_url(config.endpoint@, config.bucket_name@);
            let host = spec_url_host(url);
            &&& req.url@ == url
            &&& req.host_header@ == host
            &&& req.timestamp@ == spec_basic_timestamp(*t)
            &&& req.content_hash@ == spec_unsigned_payload()
            &&& req.authorization@ == spec_sigv4_authorization(
                "HEAD"@,
                spec_url_path(url),
                spec_url_query(url),
                crate::s3_request::spec_signed_header_pairs(
                    host,
                    spec_basic_timestamp(*t),
                    spec_unsigned_payload(),
                ),
                config.access_key_id@,
                config.secret_access_key@,
                spec_probe_region(config.region),
                *t,
                spec_unsigned_payload(),
            )
        },
{
    let url = bucket_url(config.endpoint.as_str(), config.bucket_name.as_str());
    let parts = match split_url(url.as_str()) {
        Some(p) => p,
        None => {
            return Err(SigningError::InvalidUrl);
        },
    };
    let host = parts.host;
    let ts = basic_timestamp(t);
    let sentinel = String::from_str("UNSIGNED-PAYLOAD");
    let mut headers: Vec<(String, String)> = Vec::new();
    headers.push((String::from_str("host"), host.clone()));
    headers.push((String::from_str("x-amz-date"), ts.clone()));
    headers.push((String::from_str("x-amz-content-sha256"), sentinel.clone()));
    proof {
        assert(crate::sigv4::pair_views(headers@) =~= crate::s3_request::spec_signed_header_pairs(
            host@,
            ts@,
            sentinel@,
        ));
    }
    let region_default = String::from_str("us-east-1");
    let region: &str = match &config.region {
        Some(r) => r.as_str(),
        None => region_default.as_str(),
    };
    let auth = match generate_aws_signature_v4(
        "HEAD",
        url.as_str(),
        &headers,
        config.access_key_id.as_str(),
        config.secret_access_key.as_str(),
        region,
        t,
        sentinel.as_str(),
    ) {
        Ok(a) => a,
        Err(e) => {
            return Err(e);
        },
    };
    Ok(
        SignedRequest {
            url,
            host_header: host,
            timestamp: ts,
            content_hash: sentinel,
            authorization: auth,
        },
    )
}

/// Classifies the HTTP status of a probe response into the closed
/// outcome set: success, authentication failure, authorization
/// failure, not found, precondition failed, or a generic status
/// failure.
pub fn classify_probe_status(status: u16) -> (r: S3ConnectionResult)
    ensures
        r.success == (200 <= status < 300),
        200 <= status < 300 ==> r.message@ == "Successfully connected to S3-compatible service!"@,
        status == 401 ==> r.message@
            == "Authentication failed (401 Unauthorized). Please check your access key ID and secret access key."@,
        status == 403 ==> r.message@
            == "Access denied (403 Forbidden). The credentials are valid but do not have permission to access this bucket."@,
        status == 404 ==> r.message@
            == "Bucket not found (404). Please verify the bucket name and endpoint URL."@,
        status == 412 ==> r.message@
            == "Precondition Failed (412). This usually indicates the S3 service doesn't support the required headers or authentication method. Try checking if your endpoint URL is correct and if the service supports AWS Signature V4."@,
        !(200 <= status < 300) && status != 401 && status != 403 && status != 404 && status != 412
            ==> r.message@ == "Connection failed with status: "@ + u64_dec(status as int),
{
    if 200 <= status && status < 300 {
        S3ConnectionResult {
            success: true,
            message: String::from_str("Successfully connected to S3-compatible service!"),
        }
    } else if status == 401 {
        S3ConnectionResult {
            success: false,
            message: String::from_str(
                "Authentication failed (401 Unauthorized). Please check your access key ID and secret access key.",
            ),
        }
    } else if status == 403 {
        S3ConnectionResult {
            success: false,
            message: String::from_str(
                "Access denied (403 Forbidden). The credentials are valid but do not have permission to access this bucket.",
            ),
        }
    } else if status == 404 {
        S3ConnectionResult {
            success: false,
            message: String::from_str(
                "Bucket not found (404). Please verify the bucket name and endpoint URL.",
            ),
        }
    } else if status == 412 {
        S3ConnectionResult {
            success: false,
            message: String::from_str(
                "Precondition Failed (412). This usually indicates the S3 service doesn't support the required headers or authentication method. Try checking if your endpoint URL is correct and if the service supports AWS Signature V4.",
            ),
        }
    } else {
        let mut message = String::from_str("Connection failed with status: ");
        crate::text::push_dec(&mut message, status as u64);
        S3ConnectionResult { success: false, message }
    }
}

/// Classifies a transport-level probe failure: connect failure,
/// timeout, or a generic failure carrying the transport's own words.
pub fn classify_probe_failure(is_connect: bool, is_timeout: bool, detail: &str) -> (r:
    S3ConnectionResult)
    ensures
        !r.success,
        is_connect ==> r.message@
            == "Cannot reach the S3-compatible service endpoint. Check your endpoint URL and network connectivity."@,
        !is_connect && is_timeout ==> r.message@
            == "Connection timeout. The service may be slow or unreachable."@,
        !is_connect && !is_timeout ==> r.message@ == "Connection failed: "@ + detail@,
{
    if is_connect {
        S3ConnectionResult {
            success: false,
            message: String::from_str(
                "Cannot reach the S3-compatible service endpoint. Check your endpoint URL and network connectivity.",
            ),
        }
    } else if is_timeout {
        S3ConnectionResult {
            success: false,
            message: String::from_str("Connection timeout. The service may be slow or unreachable."),
        }
    } else {
        let mut message = String::from_str("Connection failed: ");
        message.append(detail);
        S3ConnectionResult { success: false, message }
    }
}

} // verus!
