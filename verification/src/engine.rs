//! The transfer engine's decision core: turning a task description
//! into a validated configuration, and driving one task's manifest
//! through its destination entry by entry.  The surrounding
//! application performs the HTTP and disk work and feeds the outcomes
//! back in; every decision, every URL and every progress figure is
//! computed here.

use vstd::prelude::*;

use crate::accession::{extract_openneuro_accession, normalize_accession};
use crate::manifest::{
    entries_view, entry_source_url, relative_path, spec_relative_path, spec_total_size,
    total_size, ManifestEntry,
};
use crate::registry::{
    spec_begin_transfer, spec_mark_completed, spec_mark_failed, spec_record_entry, TaskRegistry,
};
use crate::task::{opt_str_view, percent_of, spec_percent};
use crate::text::{eq_ignore_case, lower_chars};
use crate::timestamp::{spec_rfc3339, UtcTime};

verus! {

/// One storage location of the task description, as plain values: the
/// document's fields, each possibly absent.
#[derive(Clone, Debug)]
pub struct StorageLocationInput {
    pub kind: Option<String>,
    pub path: Option<String>,
    pub bucket_name: Option<String>,
    pub endpoint: Option<String>,
    pub access_key_id: Option<String>,
    pub secret_access_key: Option<String>,
    pub region: Option<String>,
}

/// The mathematical shadow of a storage location input.
pub ghost struct LocModel {
    pub kind: Option<Seq<char>>,
    pub path: Option<Seq<char>>,
    pub bucket_name: Option<Seq<char>>,
    pub endpoint: Option<Seq<char>>,
    pub access_key_id: Option<Seq<char>>,
    pub secret_access_key: Option<Seq<char>>,
    pub region: Option<Seq<char>>,
}

impl View for StorageLocationInput {
    type V = LocModel;

    open spec fn view(&self) -> LocModel {
        LocModel {
            kind: opt_str_view(self.kind),
            path: opt_str_view(self.path),
            bucket_name: opt_str_view(self.bucket_name),
            endpoint: opt_str_view(self.endpoint),
            access_key_id: opt_str_view(self.access_key_id),
            secret_access_key: opt_str_view(self.secret_access_key),
            region: opt_str_view(self.region),
        }
    }
}

/// A validated destination.
#[derive(Debug)]
pub enum Destination {
    Local { dest_dir: String },
    S3Compatible {
        endpoint: String,
        bucket: String,
        region: String,
        access_key: String,
        secret_key: String,
    },
}

pub ghost enum DestModel {
    Local { dest_dir: Seq<char> },
    S3Compatible {
        endpoint: Seq<char>,
        bucket: Seq<char>,
        region: Seq<char>,
        access_key: Seq<char>,
        secret_key: Seq<char>,
    },
}

impl View for Destination {
    type V = DestModel;

    open spec fn view(&self) -> DestModel {
        match self {
            Destination::Local { dest_dir } => DestModel::Local { dest_dir: dest_dir@ },
            Destination::S3Compatible { endpoint, bucket, region, access_key, secret_key } => {
                DestModel::S3Compatible {
                    endpoint: endpoint@,
                    bucket: bucket@,
                    region: region@,
                    access_key: access_key@,
                    secret_key: secret_key@,
                }
            },
        }
    }
}

/// A validated task configuration: the accession to fetch, the key
/// prefix the destination files live under, and the destination.
#[derive(Debug)]
pub struct TaskConfig {
    pub accession: String,
    pub download_path: String,
    pub destination: Destination,
}

pub ghost struct ConfigModel {
    pub accession: Seq<char>,
    pub download_path: Seq<char>,
    pub destination: DestModel,
}

impl View for TaskConfig {
    type V = ConfigModel;

    open spec fn view(&self) -> ConfigModel {
        ConfigModel {
            accession: self.accession@,
            download_path: self.download_path@,
            destination: self.destination@,
        }
    }
}

/// A missing or invalid required field of the task description,
/// reported to the submitter before any background work starts.
#[derive(Clone, Copy, Debug, PartialEq, Eq, Structural)]
pub enum ConfigError {
    NoDownloadPath,
    NoCompatibleLocation,
    NoStoragePath,
    NoBucketName,
    NoEndpoint,
    NoAccessKey,
    NoSecretKey,
    UnsupportedProvider,
}

impl ConfigError {
    /// The submitter-facing words for each rejection.
    pub fn message(&self) -> (r: String)
        ensures
            self is NoDownloadPath ==> r@ == "No download path specified"@,
            self is NoCompatibleLocation ==> r@
                == "No compatible storage location found (local or s3-compatible)"@,
            self is NoStoragePath ==> r@ == "No storage path specified"@,
            self is NoBucketName ==> r@ == "No bucket name in S3 storage location"@,
            self is NoEndpoint ==> r@ == "No endpoint in S3 storage location"@,
            self is NoAccessKey ==> r@ == "No access key ID in S3 storage location"@,
            self is NoSecretKey ==> r@ == "No secret access key in S3 storage location"@,
            self is UnsupportedProvider ==> r@
                == "Only OpenNeuro datasets are currently supported"@,
    {
        match self {
            ConfigError::NoDownloadPath => String::from_str("No download path specified"),
            ConfigError::NoCompatibleLocation => String::from_str(
                "No compatible storage location found (local or s3-compatible)",
            ),
            ConfigError::NoStoragePath => String::from_str("No storage path specified"),
            ConfigError::NoBucketName => String::from_str("No bucket name in S3 storage location"),
            ConfigError::NoEndpoint => String::from_str("No endpoint in S3 storage location"),
            ConfigError::NoAccessKey => String::from_str(
                "No access key ID in S3 storage location",
            ),
            ConfigError::NoSecretKey => String::from_str(
                "No secret access key in S3 storage location",
            ),
            ConfigError::UnsupportedProvider => String::from_str(
                "Only OpenNeuro datasets are currently supported",
            ),
        }
    }
}

/// Whether a location is of a kind the engine can serve.
pub open spec fn spec_loc_compatible(l: LocModel) -> bool {
    l.kind == Option::Some("local"@) || l.kind == Option::Some("s3-compatible"@)
}

/// The first compatible location at or after `i`, or -1.
pub open spec fn spec_first_compatible(ls: Seq<LocModel>, i: int) -> int
    decreases ls.len() - i,
{
    if i < 0 || i >= ls.len() {
        -1
    } else if spec_loc_compatible(ls[i]) {
        i
    } else {
        spec_first_compatible(ls, i + 1)
    }
}

/// Whether the provider names the one supported dataset source,
/// compared without regard to ASCII case; an absent provider reads as
/// unknown.
pub open spec fn spec_provider_supported(provider: Option<Seq<char>>) -> bool {
    match provider {
        Option::Some(p) => lower_chars(p) == lower_chars("openneuro"@),
        Option::None => false,
    }
}

/// What validation decides for a task description, in order: a
/// download path is required; some compatible location must exist; the
/// chosen location needs its path; an S3-compatible one needs bucket,
/// endpoint and both credentials, with the region defaulted; and only
/// the supported provider is served.
pub open spec fn spec_validate(
    provider: Option<Seq<char>>,
    download_path: Option<Seq<char>>,
    ls: Seq<LocModel>,
) -> Result<ConfigModel, ConfigError> {
    if download_path is None {
        Result::Err(ConfigError::NoDownloadPath)
    } else {
        let path = download_path->Some_0;
        let f = spec_first_compatible(ls, 0);
        if f < 0 {
            Result::Err(ConfigError::NoCompatibleLocation)
        } else {
            let l = ls[f];
            if l.path is None {
                Result::Err(ConfigError::NoStoragePath)
            } else if l.kind == Option::Some("local"@) {
                if !spec_provider_supported(provider) {
                    Result::Err(ConfigError::UnsupportedProvider)
                } else {
                    Result::Ok(
                        ConfigModel {
                            accession: normalize_accession(path),
                            download_path: path,
                            destination: DestModel::Local {
                                dest_dir: l.path->Some_0 + seq!['/'] + path,
                            },
                        },
                    )
                }
            } else {
                if l.bucket_name is None {
                    Result::Err(ConfigError::NoBucketName)
                } else if l.endpoint is None {
                    Result::Err(ConfigError::NoEndpoint)
                } else if l.access_key_id is None {
                    Result::Err(ConfigError::NoAccessKey)
                } else if l.secret_access_key is None {
                    Result::Err(ConfigError::NoSecretKey)
                } else if !spec_provider_supported(provider) {
                    Result::Err(ConfigError::UnsupportedProvider)
                } else {
                    Result::Ok(
                        ConfigModel {
                            accession: normalize_accession(path),
                            download_path: path,
                            destination: DestModel::S3Compatible {
                                endpoint: l.endpoint->Some_0,
                                bucket: l.bucket_name->Some_0,
                                region: match l.region {
                                    Option::Some(r) => r,
                                    Option::None => "us-east-1"@,
                                },
                                access_key: l.access_key_id->Some_0,
                                secret_key: l.secret_access_key->Some_0,
                            },
                        },
                    )
                }
            }
        }
    }
}

/// The views of a list of storage locations.
pub open spec fn locs_view(ls: Seq<StorageLocationInput>) -> Seq<LocModel> {
    ls.map_values(|l: StorageLocationInput| l@)
}

/// Validates a task description into a closed configuration, rejecting
/// it at the boundary rather than probing fields at each later call
/// site.
pub fn validate_task(
    provider: &Option<String>,
    download_path: &Option<String>,
    locations: &Vec<StorageLocationInput>,
) -> (r: Result<TaskConfig, ConfigError>)
    ensures
        r matches Err(e) ==> spec_validate(
            opt_str_view(*provider),
            opt_str_view(*download_path),
            locs_view(locations@),
        ) == Result::<ConfigModel, ConfigError>::Err(e),
        r matches Ok(c) ==> spec_validate(
            opt_str_view(*provider),
            opt_str_view(*download_path),
            locs_view(locations@),
        ) == Result::<ConfigModel, ConfigError>::Ok(c@),
{
    let path: &String = match download_path {
        Some(p) => p,
        None => {
            return Err(ConfigError::NoDownloadPath);
        },
    };
    let found: usize = match find_compatible(locations) {
        Some(k) => k,
        None => {
            return Err(ConfigError::NoCompatibleLocation);
        },
    };
    let loc = &locations[found];
    let storage_path: &String = match &loc.path {
        Some(p) => p,
        None => {
            return Err(ConfigError::NoStoragePath);
        },
    };
    let provider_ok = match provider {
        Some(p) => eq_ignore_case(p.as_str(), "openneuro"),
        None => false,
    };
    let is_local = match &loc.kind {
        Some(k) => crate::text::str_eq(k.as_str(), "local"),
        None => false,
    };
    if is_local {
        if !provider_ok {
            return Err(ConfigError::UnsupportedProvider);
        }
        let accession = extract_openneuro_accession(path.as_str());
        let mut dest_dir = storage_path.clone();
        crate::text::push_char(&mut dest_dir, '/');
        dest_dir.append(path.as_str());
        proof {
            assert(dest_dir@ =~= loc@.path->Some_0 + seq!['/'] + path@);
        }
        Ok(
            TaskConfig {
                accession,
                download_path: path.clone(),
                destination: Destination::Local { dest_dir },
            },
        )
    } else {
        let bucket: &String = match &loc.bucket_name {
            Some(b) => b,
            None => {
                return Err(ConfigError::NoBucketName);
            },
        };
        let endpoint: &String = match &loc.endpoint {
            Some(e) => e,
            None => {
                return Err(ConfigError::NoEndpoint);
            },
        };
        let access_key: &String = match &loc.access_key_id {
            Some(a) => a,
            None => {
                return Err(ConfigError::NoAccessKey);
            },
        };
        let secret_key: &String = match &loc.secret_access_key {
            Some(s) => s,
            None => {
                return Err(ConfigError::NoSecretKey);
            },
        };
        if !provider_ok {
            return Err(ConfigError::UnsupportedProvider);
        }
        let region: String = match &loc.region {
            Some(r) => r.clone(),
            None => String::from_str("us-east-1"),
        };
        let accession = extract_openneuro_accession(path.as_str());
        Ok(
            TaskConfig {
                accession,
                download_path: path.clone(),
                destination: Destination::S3Compatible {
                    endpoint: endpoint.clone(),
                    bucket: bucket.clone(),
                    region,
                    access_key: access_key.clone(),
                    secret_key: secret_key.clone(),
                },
            },
        )
    }
}

/// The position of the first storage location of a servable kind.
fn find_compatible(locations: &Vec<StorageLocationInput>) -> (r: Option<usize>)
    ensures
        r is Some <==> spec_first_compatible(locs_view(locations@), 0) >= 0,
        r matches Some(k) ==> k == spec_first_compatible(locs_view(locations@), 0) && k
            < locations@.len() && spec_loc_compatible(locs_view(locations@)[k as int]),
{
    let n = locations.len();
    let mut i: usize = 0;
    while i < n
        invariant
            n == locations@.len(),
            i <= n,
            forall|k: int| 0 <= k < i ==> !spec_loc_compatible(#[trigger] locs_view(locations@)[k]),
        decreases n - i,
    {
        let compatible = match &locations[i].kind {
            Some(k) => {
                crate::text::str_eq(k.as_str(), "local") || crate::text::str_eq(
                    k.as_str(),
                    "s3-compatible",
                )
            },
            None => false,
        };
        proof {
            assert(locs_view(locations@)[i as int] == locations@[i as int]@);
        }
        if compatible {
            proof {
                lemma_first_compatible_prefix(locs_view(locations@), i as int);
            }
            return Some(i);
        }
        i = i + 1;
    }
    proof {
        lemma_first_compatible_prefix(locs_view(locations@), n as int);
    }
    None
}

proof fn lemma_first_compatible_prefix(ls: Seq<LocModel>, i: int)
    requires
        0 <= i <= ls.len(),
        forall|k: int| 0 <= k < i ==> !spec_loc_compatible(#[trigger] ls[k]),
    ensures
        spec_first_compatible(ls, 0) == spec_first_compatible(ls, i),
    decreases i,
{
    if i > 0 {
        lemma_first_compatible_prefix(ls, i - 1);
    }
}

/// Where one manifest entry's bytes go.
pub enum EntryDestination {
    LocalFile { path: String },
    S3Object { key: String },
}

/// Everything the caller needs to move one manifest entry: where to
/// read it, its path inside the dataset, its declared size, and where
/// to put it.
pub struct EntryPlan {
    pub source_url: String,
    pub relative: String,
    pub size: u64,
    pub dest: EntryDestination,
}

/// The event reported to the external subscriber after each entry.
pub struct ProgressEvent {
    pub task_id: String,
    pub percent: u64,
    pub transferred_size: u64,
    pub total_size: u64,
    pub current_file: String,
    pub completed_files: u32,
    pub total_files: u32,
    pub status_tag: String,
}

/// One task's transfer, driven strictly one entry at a time.  The
/// caller performs the per-entry I/O and reports each outcome; the
/// session accounts for it, updates the registry, and produces the
/// progress events.  The first failure is terminal: afterwards no
/// entry is planned and no event can be produced.
pub struct TransferSession {
    pub task_id: String,
    pub config: TaskConfig,
    pub entries: Vec<ManifestEntry>,
    pub next_index: usize,
    pub transferred: u64,
    pub total: u64,
    pub completed: u32,
    pub failed: bool,
}

impl TransferSession {
    pub open spec fn wf(&self) -> bool {
        &&& self.next_index <= self.entries@.len()
        &&& self.entries@.len() <= u32::MAX
        &&& self.completed == self.next_index
    }

    /// Whether the session takes no further work: it failed, or every
    /// entry went through.
    pub open spec fn spec_terminal(&self) -> bool {
        self.failed || self.next_index == self.entries@.len()
    }

    pub fn is_terminal(&self) -> (r: bool)
        ensures
            r == self.spec_terminal(),
    {
        self.failed || self.next_index == self.entries.len()
    }

    /// The transferred share of the total so far, in clamped percent.
    pub open spec fn spec_session_percent(&self) -> int {
        spec_percent(self.transferred as int, self.total as int)
    }

    /// Opens a session over a freshly listed manifest: the registry
    /// learns the totals, once, and the task enters the transfer
    /// phase.
    pub fn start(
        task_id: String,
        config: TaskConfig,
        entries: Vec<ManifestEntry>,
        registry: &mut TaskRegistry,
    ) -> (r: TransferSession)
        requires
            old(registry).wf(),
            entries@.len() <= u32::MAX,
        ensures
            final(registry).wf(),
            r.wf(),
            r.task_id == task_id,
            r.config == config,
            r.entries == entries,
            r.next_index == 0,
            r.transferred == 0,
            r.completed == 0,
            !r.failed,
            r.total as int == if spec_total_size(entries_view(entries@)) <= u64::MAX {
                spec_total_size(entries_view(entries@))
            } else {
                u64::MAX as int
            },
            !old(registry)@.contains_key(task_id@) ==> final(registry)@ == old(registry)@,
            old(registry)@.contains_key(task_id@) ==> final(registry)@ == old(registry)@.insert(
                task_id@,
                spec_begin_transfer(old(registry)@[task_id@], r.total, entries@.len() as u32),
            ),
    {
        let total = total_size(&entries);
        let count: u32 = entries.len() as u32;
        registry.begin_transfer(task_id.as_str(), total, count);
        TransferSession {
            task_id,
            config,
            entries,
            next_index: 0,
            transferred: 0,
            total,
            completed: 0,
            failed: false,
        }
    }

    /// The next entry to move, or nothing once the session is
    /// terminal.  After a failure no entry is ever planned again.
    pub fn next_entry(&self) -> (r: Option<EntryPlan>)
        requires
            self.wf(),
        ensures
            r is Some <==> !self.spec_terminal(),
            r matches Some(p) ==> {
                let e = self.entries@[self.next_index as int]@;
                let rel = spec_relative_path(e.0, self.config.accession@);
                &&& p.source_url@ == "https://s3.amazonaws.com/openneuro.org/"@ + e.0
                &&& p.relative@ == rel
                &&& p.size == e.1
                &&& match self.config.destination@ {
                    DestModel::Local { dest_dir } => p.dest matches EntryDestination::LocalFile {
                        path,
                    } && path@ == dest_dir + seq!['/'] + rel,
                    DestModel::S3Compatible { .. } => p.dest matches EntryDestination::S3Object {
                        key,
                    } && key@ == self.config.download_path@ + seq!['/'] + rel,
                }
            },
    {
        if self.failed || self.next_index >= self.entries.len() {
            return None;
        }
        let entry = &self.entries[self.next_index];
        let source_url = entry_source_url(entry.key.as_str());
        let rel = relative_path(entry.key.as_str(), self.config.accession.as_str());
        let dest = match &self.config.destination {
            Destination::Local { dest_dir } => {
                let mut path = dest_dir.clone();
                crate::text::push_char(&mut path, '/');
                path.append(rel.as_str());
                proof {
                    assert(path@ =~= dest_dir@ + seq!['/'] + rel@);
                }
                EntryDestination::LocalFile { path }
            },
            Destination::S3Compatible { .. } => {
                let mut key = self.config.download_path.clone();
                crate::text::push_char(&mut key, '/');
                key.append(rel.as_str());
                proof {
                    assert(key@ =~= self.config.download_path@ + seq!['/'] + rel@);
                }
                EntryDestination::S3Object { key }
            },
        };
        Some(EntryPlan { source_url, relative: rel, size: entry.size, dest })
    }

    /// Accounts for one entry that went through: bytes accumulate
    /// (saturating), the counters step, the registry snapshot is
    /// updated, and the event for the subscriber is produced.  The
    /// reported percentage never exceeds 100 and never decreases.
    pub fn record_entry_done(
        &mut self,
        registry: &mut TaskRegistry,
        relative: &str,
        bytes: u64,
    ) -> (ev: ProgressEvent)
        requires
            old(self).wf(),
            !old(self).spec_terminal(),
            old(registry).wf(),
        ensures
            final(self).wf(),
            final(registry).wf(),
            final(self).next_index == old(self).next_index + 1,
            final(self).transferred as int == if old(self).transferred + bytes <= u64::MAX {
                old(self).transferred + bytes
            } else {
                u64::MAX as int
            },
            final(self).total == old(self).total,
            final(self).failed == old(self).failed,
            final(self).task_id == old(self).task_id,
            final(self).config == old(self).config,
            final(self).entries == old(self).entries,
            ev.percent as int == final(self).spec_session_percent(),
            ev.percent <= 100,
            old(self).spec_session_percent() <= ev.percent as int,
            ev.task_id@ == old(self).task_id@,
            ev.transferred_size == final(self).transferred,
            ev.total_size == old(self).total,
            ev.current_file@ == relative@,
            ev.completed_files == final(self).next_index,
            ev.total_files == old(self).entries@.len(),
            ev.status_tag@ == "transferring"@,
            !old(registry)@.contains_key(old(self).task_id@) ==> final(registry)@ == old(registry)@,
            old(registry)@.contains_key(old(self).task_id@) ==> final(registry)@ == old(
                registry,
            )@.insert(
                old(self).task_id@,
                spec_record_entry(old(registry)@[old(self).task_id@], bytes, relative@),
            ),
    {
        let t = self.transferred.saturating_add(bytes);
        self.transferred = t;
        self.next_index = self.next_index + 1;
        self.completed = self.completed + 1;
        registry.record_entry(self.task_id.as_str(), bytes, relative);
        let percent = percent_of(t, self.total);
        proof {
            crate::task::lemma_percent_bounds(t as int, self.total as int);
            crate::task::lemma_percent_monotonic(
                old(self).transferred as int,
                t as int,
                self.total as int,
            );
        }
        ProgressEvent {
            task_id: self.task_id.clone(),
            percent,
            transferred_size: t,
            total_size: self.total,
            current_file: relative.to_owned(),
            completed_files: self.completed,
            total_files: self.entries.len() as u32,
            status_tag: String::from_str("transferring"),
        }
    }

    /// Accounts for the first failure: the session becomes terminal
    /// and the task is marked `Failed` with a human-readable,
    /// never-empty message and a completion timestamp.
    pub fn record_entry_failed(
        &mut self,
        registry: &mut TaskRegistry,
        relative: &str,
        detail: &str,
        now: &UtcTime,
    )
        requires
            old(self).wf(),
            old(registry).wf(),
            now.wf(),
        ensures
            final(self).wf(),
            final(registry).wf(),
            final(self).failed,
            final(self).spec_terminal(),
            final(self).task_id == old(self).task_id,
            final(self).config == old(self).config,
            final(self).entries == old(self).entries,
            final(self).next_index == old(self).next_index,
            !old(registry)@.contains_key(old(self).task_id@) ==> final(registry)@ == old(registry)@,
            old(registry)@.contains_key(old(self).task_id@) ==> final(registry)@ == old(
                registry,
            )@.insert(
                old(self).task_id@,
                spec_mark_failed(
                    old(registry)@[old(self).task_id@],
                    spec_failure_message(relative@, detail@),
                    spec_rfc3339(*now),
                ),
            ),
            spec_failure_message(relative@, detail@).len() > 0,
    {
        self.failed = true;
        let message = failure_message(relative, detail);
        registry.mark_failed(self.task_id.as_str(), message.as_str(), now);
    }

    /// Closes a session whose every entry went through: the task is
    /// marked `Completed` at one hundred percent with a completion
    /// timestamp.
    pub fn finish(&self, registry: &mut TaskRegistry, now: &UtcTime)
        requires
            self.wf(),
            !self.failed,
            self.next_index == self.entries@.len(),
            old(registry).wf(),
            now.wf(),
        ensures
            final(registry).wf(),
            !old(registry)@.contains_key(self.task_id@) ==> final(registry)@ == old(registry)@,
            old(registry)@.contains_key(self.task_id@) ==> final(registry)@ == old(registry)@.insert(
                self.task_id@,
                spec_mark_completed(old(registry)@[self.task_id@], spec_rfc3339(*now)),
            ),
    {
        registry.mark_completed(self.task_id.as_str(), now);
    }
}

/// The words recorded for a failed entry: the path that failed and the
/// transport's or destination's own words.
pub open spec fn spec_failure_message(relative: Seq<char>, detail: Seq<char>) -> Seq<char> {
    "Failed to transfer "@ + relative + ": "@ + detail
}

pub fn failure_message(relative: &str, detail: &str) -> (r: String)
    ensures
        r@ == spec_failure_message(relative@, detail@),
        r@.len() > 0,
{
    let mut r = String::from_str("Failed to transfer ");
    r.append(relative);
    r.append(": ");
    r.append(detail);
    proof {
        assert(r@ =~= spec_failure_message(relative@, detail@));
        reveal_strlit("Failed to transfer ");
    }
    r
}

/// The words recorded when the listing cannot be fetched, cannot be
/// read, or is empty.
pub fn manifest_error_message(e: &crate::manifest::ManifestError, accession: &str) -> (r: String)
    ensures
        e matches crate::manifest::ManifestError::Fetch { status } ==> r@
            == "Failed to list files: HTTP "@ + crate::text::u64_dec(status as int),
        e is Parse ==> r@ == "Failed to parse dataset listing"@,
        e is Empty ==> r@ == "No files found for dataset: "@ + accession@,
{
    match e {
        crate::manifest::ManifestError::Fetch { status } => {
            let mut r = String::from_str("Failed to list files: HTTP ");
            crate::text::push_dec(&mut r, *status as u64);
            r
        },
        crate::manifest::ManifestError::Parse => String::from_str(
            "Failed to parse dataset listing",
        ),
        crate::manifest::ManifestError::Empty => {
            let mut r = String::from_str("No files found for dataset: ");
            r.append(accession);
            r
        },
    }
}

} // verus!
