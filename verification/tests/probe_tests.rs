use dataset_transfer::probe::{
    build_probe_request, classify_probe_failure, classify_probe_status, S3ConnectionConfig,
};
use dataset_transfer::s3_request::build_put_request;
use dataset_transfer::timestamp::UtcTime;

fn t0() -> UtcTime {
    UtcTime { year: 2024, month: 6, day: 7, hour: 8, minute: 9, second: 10 }
}

fn config() -> S3ConnectionConfig {
    S3ConnectionConfig {
        bucket_name: "bucket".to_string(),
        endpoint: "play.min.io".to_string(),
        region: None,
        access_key_id: "AK".to_string(),
        secret_access_key: "SK".to_string(),
    }
}

#[test]
fn probe_request_is_metadata_only() {
    let req = build_probe_request(&config(), &t0()).unwrap();
    assert_eq!(req.url, "https://play.min.io/bucket");
    assert_eq!(req.host_header, "play.min.io");
    assert_eq!(req.timestamp, "20240607T080910Z");
    assert_eq!(req.content_hash, "UNSIGNED-PAYLOAD");
    assert!(req.authorization.starts_with(
        "AWS4-HMAC-SHA256 Credential=AK/20240607/us-east-1/s3/aws4_request, \
         SignedHeaders=host;x-amz-content-sha256;x-amz-date, Signature="
    ));
}

#[test]
fn explicit_scheme_and_port_are_kept() {
    let mut cfg = config();
    cfg.endpoint = "http://localhost:9000".to_string();
    let req = build_probe_request(&cfg, &t0()).unwrap();
    assert_eq!(req.url, "http://localhost:9000/bucket");
    // The probe signs the bare host name.
    assert_eq!(req.host_header, "localhost");
}

#[test]
fn put_request_carries_payload_hash_and_port() {
    let req = build_put_request(
        "http://localhost:9000",
        "bucket",
        "prefix/a.txt",
        b"hello",
        "AK",
        "SK",
        "us-east-1",
        &t0(),
    )
    .unwrap();
    assert_eq!(req.url, "http://localhost:9000/bucket/prefix/a.txt");
    assert_eq!(req.host_header, "localhost:9000");
    assert_eq!(
        req.content_hash,
        "2cf24dba5fb0a30e26e83b2ac5b9e29e1b161e5c1fa7425e73043362938b9824"
    );
    assert!(req.authorization.contains("SignedHeaders=host;x-amz-content-sha256;x-amz-date"));
}

#[test]
fn status_classification_is_closed() {
    assert!(classify_probe_status(200).success);
    assert!(classify_probe_status(204).success);
    let r = classify_probe_status(401);
    assert!(!r.success);
    assert!(r.message.contains("401 Unauthorized"));
    let r = classify_probe_status(403);
    assert!(!r.success);
    assert!(r.message.contains("403 Forbidden"));
    let r = classify_probe_status(404);
    assert!(!r.success);
    assert!(r.message.contains("Bucket not found (404)"));
    let r = classify_probe_status(412);
    assert!(!r.success);
    assert!(r.message.contains("Precondition Failed (412)"));
    let r = classify_probe_status(500);
    assert!(!r.success);
    assert_eq!(r.message, "Connection failed with status: 500");
}

#[test]
fn transport_failures_are_classified() {
    let r = classify_probe_failure(true, false, "");
    assert!(!r.success);
    assert!(r.message.contains("Cannot reach"));
    let r = classify_probe_failure(false, true, "");
    assert!(!r.success);
    assert!(r.message.contains("timeout"));
    let r = classify_probe_failure(false, false, "tls handshake failed");
    assert!(!r.success);
    assert_eq!(r.message, "Connection failed: tls handshake failed");
}
