use dataset_transfer::crypto::{hmac_sha256, sha256_hex};
use dataset_transfer::sigv4::generate_aws_signature_v4;
use dataset_transfer::timestamp::UtcTime;

fn example_time() -> UtcTime {
    UtcTime { year: 2013, month: 5, day: 24, hour: 0, minute: 0, second: 0 }
}

const EMPTY_BODY_SHA256: &str =
    "e3b0c44298fc1c149afbf4c8996fb92427ae41e4649b934ca495991b7852b855";

fn example_headers() -> Vec<(String, String)> {
    vec![
        ("Host".to_string(), "examplebucket.s3.amazonaws.com".to_string()),
        ("x-amz-date".to_string(), "20130524T000000Z".to_string()),
        ("Range".to_string(), "bytes=0-9".to_string()),
        ("x-amz-content-sha256".to_string(), EMPTY_BODY_SHA256.to_string()),
    ]
}

/// The published AWS Signature Version 4 example for a GET of an
/// object, byte for byte.
#[test]
fn matches_published_test_vector() {
    let auth = generate_aws_signature_v4(
        "GET",
        "https://examplebucket.s3.amazonaws.com/test.txt",
        &example_headers(),
        "SECRET-REDACTED",
        "wJalrXUtnFEMI/K7MDENG/bPxRfiCYEXAMPLEKEY",
        "us-east-1",
        &example_time(),
        EMPTY_BODY_SHA256,
    )
    .unwrap();
    assert_eq!(
        auth,
        "AWS4-HMAC-SHA256 Credential=SECRET-REDACTED/20130524/us-east-1/s3/aws4_request, \
         SignedHeaders=host;range;x-amz-content-sha256;x-amz-date, \
         Signature=f0e8bdb87c964420e857bd35b5d6ed310bd44f0170aba48dd91039c6036bdb41"
    );
}

#[test]
fn identical_inputs_identical_signature() {
    let a = generate_aws_signature_v4(
        "GET",
        "https://examplebucket.s3.amazonaws.com/test.txt",
        &example_headers(),
        "SECRET-REDACTED",
        "wJalrXUtnFEMI/K7MDENG/bPxRfiCYEXAMPLEKEY",
        "us-east-1",
        &example_time(),
        EMPTY_BODY_SHA256,
    )
    .unwrap();
    let b = generate_aws_signature_v4(
        "GET",
        "https://examplebucket.s3.amazonaws.com/test.txt",
        &example_headers(),
        "SECRET-REDACTED",
        "wJalrXUtnFEMI/K7MDENG/bPxRfiCYEXAMPLEKEY",
        "us-east-1",
        &example_time(),
        EMPTY_BODY_SHA256,
    )
    .unwrap();
    assert_eq!(a, b);
}

#[test]
fn changed_header_value_changes_signature() {
    let base = generate_aws_signature_v4(
        "GET",
        "https://examplebucket.s3.amazonaws.com/test.txt",
        &example_headers(),
        "SECRET-REDACTED",
        "wJalrXUtnFEMI/K7MDENG/bPxRfiCYEXAMPLEKEY",
        "us-east-1",
        &example_time(),
        EMPTY_BODY_SHA256,
    )
    .unwrap();
    let mut headers = example_headers();
    headers[2].1 = "bytes=0-8".to_string();
    let changed = generate_aws_signature_v4(
        "GET",
        "https://examplebucket.s3.amazonaws.com/test.txt",
        &headers,
        "SECRET-REDACTED",
        "wJalrXUtnFEMI/K7MDENG/bPxRfiCYEXAMPLEKEY",
        "us-east-1",
        &example_time(),
        EMPTY_BODY_SHA256,
    )
    .unwrap();
    assert_ne!(base, changed);
}

#[test]
fn invalid_url_is_refused() {
    let r = generate_aws_signature_v4(
        "GET",
        "not a url",
        &example_headers(),
        "k",
        "s",
        "us-east-1",
        &example_time(),
        EMPTY_BODY_SHA256,
    );
    assert!(r.is_err());
}

#[test]
fn sha256_hex_of_known_input() {
    // The digest of `abc`, lower-case, high nibble first.
    assert_eq!(
        sha256_hex(b"abc"),
        "ba7816bf8f01cfea414140de5dae2223b00361a396177a9cb410ff61f20015ad"
    );
}

#[test]
fn hmac_sha256_known_vector() {
    // RFC 4231, test case 2.
    let tag = hmac_sha256(b"Jefe", b"what do ya want for nothing?");
    let expected =
        hex::decode("5bdcc146bf60754e6a042426089575c75a003f089d2739839dec58b964ec3843").unwrap();
    assert_eq!(tag, expected);
}
