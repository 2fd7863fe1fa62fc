use dataset_transfer::engine::manifest_error_message;
use dataset_transfer::manifest::{
    check_listing_status, entry_source_url, list_manifest_entries, manifest_url, parse_s3_listing,
    relative_path, total_size, ManifestEntry, ManifestError,
};

fn listing(pairs: &[(&str, &str)]) -> String {
    let mut xml = String::from("<ListBucketResult>");
    for (key, size) in pairs {
        xml.push_str("<Contents><Key>");
        xml.push_str(key);
        xml.push_str("</Key><Size>");
        xml.push_str(size);
        xml.push_str("</Size></Contents>");
    }
    xml.push_str("</ListBucketResult>");
    xml
}

#[test]
fn directory_keys_are_dropped_order_preserved() {
    let xml = listing(&[
        ("ds1/", "0"),
        ("ds1/a.txt", "10"),
        ("ds1/sub/b.dat", "20"),
    ]);
    let entries = parse_s3_listing(&xml);
    assert_eq!(entries.len(), 2);
    assert_eq!(entries[0].key, "ds1/a.txt");
    assert_eq!(entries[0].size, 10);
    assert_eq!(entries[1].key, "ds1/sub/b.dat");
    assert_eq!(entries[1].size, 20);
}

#[test]
fn keys_and_sizes_pair_positionally() {
    let xml = "<Key>a</Key><Key>b</Key><Size>1</Size><Size>2</Size>";
    let entries = parse_s3_listing(xml);
    assert_eq!(entries.len(), 2);
    assert_eq!(entries[0].key, "a");
    assert_eq!(entries[0].size, 1);
    assert_eq!(entries[1].key, "b");
    assert_eq!(entries[1].size, 2);
}

#[test]
fn unreadable_size_reads_as_zero() {
    let xml = listing(&[("k1", "abc"), ("k2", "+123"), ("k3", "99999999999999999999999")]);
    let entries = parse_s3_listing(&xml);
    assert_eq!(entries[0].size, 0);
    assert_eq!(entries[1].size, 123);
    assert_eq!(entries[2].size, 0);
}

#[test]
fn empty_element_is_no_match() {
    let xml = "<Key></Key><Key>real</Key><Size>5</Size>";
    let entries = parse_s3_listing(xml);
    assert_eq!(entries.len(), 1);
    assert_eq!(entries[0].key, "real");
    assert_eq!(entries[0].size, 5);
}

#[test]
fn document_without_keys_is_malformed() {
    let r = list_manifest_entries("<ListBucketResult></ListBucketResult>");
    assert_eq!(r, Err(ManifestError::Parse));
}

#[test]
fn only_directories_is_empty() {
    let xml = listing(&[("ds1/", "0")]);
    let r = list_manifest_entries(&xml);
    assert_eq!(r, Err(ManifestError::Empty));
}

#[test]
fn good_listing_is_returned() {
    let xml = listing(&[("ds1/a", "7")]);
    let r = list_manifest_entries(&xml).unwrap();
    assert_eq!(r.len(), 1);
    assert_eq!(r[0].key, "ds1/a");
}

#[test]
fn listing_url_shape() {
    assert_eq!(
        manifest_url("ds006486"),
        "https://s3.amazonaws.com/openneuro.org?list-type=2&prefix=ds006486/"
    );
    assert_eq!(
        entry_source_url("ds006486/sub-01/anat.nii"),
        "https://s3.amazonaws.com/openneuro.org/ds006486/sub-01/anat.nii"
    );
}

#[test]
fn relative_path_strips_accession_prefix() {
    assert_eq!(relative_path("ds1/sub/x.txt", "ds1"), "sub/x.txt");
    assert_eq!(relative_path("other/x.txt", "ds1"), "other/x.txt");
    assert_eq!(relative_path("ds1", "ds1"), "ds1");
}

#[test]
fn listing_status_is_classified() {
    assert_eq!(check_listing_status(200), Ok(()));
    assert_eq!(check_listing_status(299), Ok(()));
    assert_eq!(check_listing_status(404), Err(ManifestError::Fetch { status: 404 }));
    assert_eq!(
        manifest_error_message(&ManifestError::Fetch { status: 404 }, "ds1"),
        "Failed to list files: HTTP 404"
    );
    assert_eq!(
        manifest_error_message(&ManifestError::Parse, "ds1"),
        "Failed to parse dataset listing"
    );
    assert_eq!(
        manifest_error_message(&ManifestError::Empty, "ds1"),
        "No files found for dataset: ds1"
    );
}

#[test]
fn total_size_sums_and_saturates() {
    let entries = vec![
        ManifestEntry { key: String::from("a"), size: 10 },
        ManifestEntry { key: String::from("b"), size: 32 },
    ];
    assert_eq!(total_size(&entries), 42);
    let big = vec![
        ManifestEntry { key: String::from("a"), size: u64::MAX },
        ManifestEntry { key: String::from("b"), size: 5 },
    ];
    assert_eq!(total_size(&big), u64::MAX);
}
