use dataset_transfer::engine::{
    validate_task, ConfigError, Destination, EntryDestination, StorageLocationInput,
    TransferSession,
};
use dataset_transfer::manifest::ManifestEntry;
use dataset_transfer::registry::TaskRegistry;
use dataset_transfer::task::TaskStatus;
use dataset_transfer::timestamp::UtcTime;

fn t0() -> UtcTime {
    UtcTime { year: 2024, month: 6, day: 7, hour: 8, minute: 9, second: 10 }
}

fn local_location(path: &str) -> StorageLocationInput {
    StorageLocationInput {
        kind: Some("local".to_string()),
        path: Some(path.to_string()),
        bucket_name: None,
        endpoint: None,
        access_key_id: None,
        secret_access_key: None,
        region: None,
    }
}

fn s3_location() -> StorageLocationInput {
    StorageLocationInput {
        kind: Some("s3-compatible".to_string()),
        path: Some("/ignored".to_string()),
        bucket_name: Some("bucket".to_string()),
        endpoint: Some("play.min.io".to_string()),
        access_key_id: Some("AK".to_string()),
        secret_access_key: Some("SK".to_string()),
        region: None,
    }
}

fn entries() -> Vec<ManifestEntry> {
    vec![
        ManifestEntry { key: "ds1/a.txt".to_string(), size: 40 },
        ManifestEntry { key: "ds1/b.txt".to_string(), size: 40 },
        ManifestEntry { key: "ds1/c.txt".to_string(), size: 20 },
    ]
}

#[test]
fn local_config_is_validated() {
    let cfg = validate_task(
        &Some("OpenNeuro".to_string()),
        &Some("ds1".to_string()),
        &vec![local_location("/data")],
    )
    .unwrap();
    assert_eq!(cfg.accession, "ds1");
    assert_eq!(cfg.download_path, "ds1");
    match &cfg.destination {
        Destination::Local { dest_dir } => assert_eq!(dest_dir, "/data/ds1"),
        _ => panic!("expected a local destination"),
    }
}

#[test]
fn s3_config_defaults_region() {
    let cfg = validate_task(
        &Some("openneuro".to_string()),
        &Some("10.18112_openneuro.ds006486.v1.0.0".to_string()),
        &vec![s3_location()],
    )
    .unwrap();
    assert_eq!(cfg.accession, "ds006486");
    match &cfg.destination {
        Destination::S3Compatible { endpoint, bucket, region, .. } => {
            assert_eq!(endpoint, "play.min.io");
            assert_eq!(bucket, "bucket");
            assert_eq!(region, "us-east-1");
        },
        _ => panic!("expected an s3-compatible destination"),
    }
}

#[test]
fn config_rejections() {
    assert_eq!(
        validate_task(&Some("openneuro".to_string()), &None, &vec![]).unwrap_err(),
        ConfigError::NoDownloadPath
    );
    assert_eq!(
        validate_task(&Some("openneuro".to_string()), &Some("ds1".to_string()), &vec![])
            .unwrap_err(),
        ConfigError::NoCompatibleLocation
    );
    let mut no_path = local_location("/data");
    no_path.path = None;
    assert_eq!(
        validate_task(&Some("openneuro".to_string()), &Some("ds1".to_string()), &vec![no_path])
            .unwrap_err(),
        ConfigError::NoStoragePath
    );
    let mut no_bucket = s3_location();
    no_bucket.bucket_name = None;
    assert_eq!(
        validate_task(&Some("openneuro".to_string()), &Some("ds1".to_string()), &vec![no_bucket])
            .unwrap_err(),
        ConfigError::NoBucketName
    );
    let mut no_endpoint = s3_location();
    no_endpoint.endpoint = None;
    assert_eq!(
        validate_task(&Some("openneuro".to_string()), &Some("ds1".to_string()), &vec![no_endpoint])
            .unwrap_err(),
        ConfigError::NoEndpoint
    );
    let mut no_access = s3_location();
    no_access.access_key_id = None;
    assert_eq!(
        validate_task(&Some("openneuro".to_string()), &Some("ds1".to_string()), &vec![no_access])
            .unwrap_err(),
        ConfigError::NoAccessKey
    );
    let mut no_secret = s3_location();
    no_secret.secret_access_key = None;
    assert_eq!(
        validate_task(&Some("openneuro".to_string()), &Some("ds1".to_string()), &vec![no_secret])
            .unwrap_err(),
        ConfigError::NoSecretKey
    );
    assert_eq!(
        ConfigError::NoSecretKey.message(),
        "No secret access key in S3 storage location"
    );
    assert_eq!(
        ConfigError::UnsupportedProvider.message(),
        "Only OpenNeuro datasets are currently supported"
    );
    assert_eq!(
        validate_task(
            &Some("datalad".to_string()),
            &Some("ds1".to_string()),
            &vec![local_location("/data")]
        )
        .unwrap_err(),
        ConfigError::UnsupportedProvider
    );
    assert_eq!(
        validate_task(&None, &Some("ds1".to_string()), &vec![local_location("/data")])
            .unwrap_err(),
        ConfigError::UnsupportedProvider
    );
}

#[test]
fn first_compatible_location_wins() {
    let incompatible = StorageLocationInput {
        kind: Some("ftp".to_string()),
        path: Some("/x".to_string()),
        bucket_name: None,
        endpoint: None,
        access_key_id: None,
        secret_access_key: None,
        region: None,
    };
    let cfg = validate_task(
        &Some("openneuro".to_string()),
        &Some("ds1".to_string()),
        &vec![incompatible, local_location("/data")],
    )
    .unwrap();
    match &cfg.destination {
        Destination::Local { dest_dir } => assert_eq!(dest_dir, "/data/ds1"),
        _ => panic!("expected a local destination"),
    }
}

fn session_over_entries() -> (TransferSession, TaskRegistry) {
    let mut reg = TaskRegistry::new();
    reg.create("t1", &t0()).unwrap();
    let cfg = validate_task(
        &Some("openneuro".to_string()),
        &Some("ds1".to_string()),
        &vec![local_location("/data")],
    )
    .unwrap();
    let session = TransferSession::start("t1".to_string(), cfg, entries(), &mut reg);
    (session, reg)
}

#[test]
fn session_plans_entries_in_manifest_order() {
    let (session, reg) = session_over_entries();
    assert_eq!(reg.read("t1").unwrap().total_size, 100);
    assert_eq!(reg.read("t1").unwrap().status, TaskStatus::Transferring);
    let plan = session.next_entry().unwrap();
    assert_eq!(plan.source_url, "https://s3.amazonaws.com/openneuro.org/ds1/a.txt");
    assert_eq!(plan.relative, "a.txt");
    assert_eq!(plan.size, 40);
    match &plan.dest {
        EntryDestination::LocalFile { path } => assert_eq!(path, "/data/ds1/a.txt"),
        _ => panic!("expected a local file destination"),
    }
}

#[test]
fn percent_is_clamped_and_never_decreases() {
    let (mut session, mut reg) = session_over_entries();
    let mut last = 0u64;
    let reported = [40u64, 40, 20];
    for bytes in reported {
        let plan = session.next_entry().unwrap();
        let ev = session.record_entry_done(&mut reg, &plan.relative, bytes);
        assert!(ev.percent <= 100);
        assert!(ev.percent >= last);
        last = ev.percent;
    }
    assert_eq!(last, 100);
    assert!(session.next_entry().is_none());
    session.finish(&mut reg, &t0());
    let p = reg.read("t1").unwrap();
    assert_eq!(p.status, TaskStatus::Completed);
    assert_eq!(p.percent, 100);
    assert!(p.completed_at.is_some());
}

#[test]
fn percent_stays_clamped_when_more_bytes_arrive_than_declared() {
    let (mut session, mut reg) = session_over_entries();
    let plan = session.next_entry().unwrap();
    // The actual stream was larger than the declared size.
    let ev = session.record_entry_done(&mut reg, &plan.relative, 1000);
    assert_eq!(ev.percent, 100);
    let plan = session.next_entry().unwrap();
    let ev = session.record_entry_done(&mut reg, &plan.relative, 40);
    assert_eq!(ev.percent, 100);
}

#[test]
fn mid_transfer_failure_is_terminal_and_silent_afterwards() {
    let (mut session, mut reg) = session_over_entries();
    let plan = session.next_entry().unwrap();
    let ev = session.record_entry_done(&mut reg, &plan.relative, 40);
    assert_eq!(ev.completed_files, 1);
    let plan = session.next_entry().unwrap();
    session.record_entry_failed(&mut reg, &plan.relative, "connection reset", &t0());
    let p = reg.read("t1").unwrap();
    assert_eq!(p.status, TaskStatus::Failed);
    let msg = p.error_message.unwrap();
    assert!(!msg.is_empty());
    assert_eq!(msg, "Failed to transfer b.txt: connection reset");
    assert!(p.completed_at.is_some());
    // No further entry is planned: no progress event can follow.
    assert!(session.next_entry().is_none());
}

#[test]
fn s3_session_plans_object_keys() {
    let mut reg = TaskRegistry::new();
    reg.create("t2", &t0()).unwrap();
    let cfg = validate_task(
        &Some("openneuro".to_string()),
        &Some("ds1".to_string()),
        &vec![s3_location()],
    )
    .unwrap();
    let session = TransferSession::start("t2".to_string(), cfg, entries(), &mut reg);
    let plan = session.next_entry().unwrap();
    match &plan.dest {
        EntryDestination::S3Object { key } => assert_eq!(key, "ds1/a.txt"),
        _ => panic!("expected an object destination"),
    }
}
