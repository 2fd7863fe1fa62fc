use dataset_transfer::accession::extract_openneuro_accession;

#[test]
fn canonical_accession_is_unchanged() {
    let r = extract_openneuro_accession("ds006486");
    assert_eq!(r, "ds006486");
}

#[test]
fn normalization_is_idempotent() {
    let once = extract_openneuro_accession("10.18112_openneuro.ds006486.v1.0.0");
    let twice = extract_openneuro_accession(&once);
    assert_eq!(once, twice);
    let once2 = extract_openneuro_accession("no accession here");
    let twice2 = extract_openneuro_accession(&once2);
    assert_eq!(once2, twice2);
}

#[test]
fn doi_path_extracts_accession() {
    let r = extract_openneuro_accession("10.18112_openneuro.ds006486.v1.0.0");
    assert_eq!(r, "ds006486");
}

#[test]
fn input_without_accession_passes_through() {
    let r = extract_openneuro_accession("hello_world.v1");
    assert_eq!(r, "hello_world.v1");
}

#[test]
fn upper_case_marker_is_not_an_accession() {
    // The canonical form is lower case; `DS` does not match.
    let r = extract_openneuro_accession("DS006486");
    assert_eq!(r, "DS006486");
}

#[test]
fn first_accession_wins() {
    let r = extract_openneuro_accession("x.ds111.y.ds222");
    assert_eq!(r, "ds111");
}

#[test]
fn digits_run_to_first_non_digit() {
    let r = extract_openneuro_accession("ds0012abc");
    assert_eq!(r, "ds0012");
}
