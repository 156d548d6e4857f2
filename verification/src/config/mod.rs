//! What the service is configured with.

pub mod schedule;

use crate::config::schedule::{
    can_be_summed, fault_of, validate_cleanup_config, CleanupConfig,
};
use crate::dispatcher::docker::{DockerConnectOptions, ManagedQueue, TlsFiles};
use crate::engine::types::{copy_optional_text, text_view, JobQueue, JobQueueView};
use crate::engine::{dispatch_fault, DispatchOptions};
use crate::persistence::options::{
    write_fault, BatchOptions, DurabilityMode, Factor, SqliteWriteOptions,
};
use crate::persistence::rows::{default_results_path, results_path};
use crate::span::Span;
use crate::text::{
    begins_with, chars_of, concat, concat3, contains, ends_with, find_last, finishes_with, is_blank,
    last_position, lines, lines_of, occurs_in, quoted, quoted_text, same_text, starts_with, text_of,
    texts, trim, trim_end_char, trimmed, without_trailing,
};
use vstd::prelude::*;

verus! {

/// The part of the configuration that says how the Docker daemon is reached.
#[derive(Debug, Clone, PartialEq, Eq)]
pub struct DockerConfig {
    pub endpoint: Option<String>,
    pub ca_cert_path: Option<String>,
    pub cert_path: Option<String>,
    pub key_path: Option<String>,
}

impl Default for DockerConfig {
    fn default() -> (r: Self)
        ensures
            r.endpoint is None,
            r.ca_cert_path is None,
            r.cert_path is None,
            r.key_path is None,
    {
        DockerConfig { endpoint: None, ca_cert_path: None, cert_path: None, key_path: None }
    }
}

impl DockerConfig {
    pub fn connect_options(&self) -> (r: DockerConnectOptions)
        ensures
            text_view(r.endpoint) == text_view(self.endpoint),
            text_view(r.ca_cert_path) == text_view(self.ca_cert_path),
            text_view(r.cert_path) == text_view(self.cert_path),
            text_view(r.key_path) == text_view(self.key_path),
    {
        DockerConnectOptions {
            endpoint: copy_optional_text(&self.endpoint),
            ca_cert_path: copy_optional_text(&self.ca_cert_path),
            cert_path: copy_optional_text(&self.cert_path),
            key_path: copy_optional_text(&self.key_path),
        }
    }
}

/// Whether an endpoint starts with a scheme that the daemon can be reached by.
pub open spec fn known_scheme(endpoint: Seq<char>) -> bool {
    ||| begins_with(endpoint, "unix://"@)
    ||| begins_with(endpoint, "npipe://"@)
    ||| begins_with(endpoint, "tcp://"@)
    ||| begins_with(endpoint, "http://"@)
    ||| begins_with(endpoint, "https://"@)
}

/// Whether an endpoint names nothing past its scheme.
pub open spec fn only_scheme(endpoint: Seq<char>) -> bool {
    ||| finishes_with(without_trailing(endpoint, '/'), "://"@)
    ||| endpoint == "unix://"@
    ||| endpoint == "npipe://"@
}

/// What is wrong with the way to the Docker daemon, if anything: the first
/// fault.
pub open spec fn docker_fault(docker: DockerConfig) -> Option<Seq<char>> {
    let some = docker.ca_cert_path is Some || docker.cert_path is Some || docker.key_path is Some;
    let all = docker.ca_cert_path is Some && docker.cert_path is Some && docker.key_path is Some;
    if some && !all {
        Some("docker TLS requires ca_cert_path, cert_path, and key_path together"@)
    } else {
        match docker.endpoint {
            None => if all {
                Some("docker TLS requires a tcp:// or https:// endpoint"@)
            } else {
                None
            },
            Some(endpoint) => if begins_with(endpoint@, "https://"@) && !all {
                Some("https:// Docker endpoints require ca_cert_path, cert_path, and key_path"@)
            } else if all && !(begins_with(endpoint@, "tcp://"@) || begins_with(
                endpoint@,
                "https://"@,
            )) {
                Some("docker TLS is only valid with a tcp:// or https:// endpoint"@)
            } else if !known_scheme(endpoint@) {
                Some("docker.endpoint must use unix://, npipe://, tcp://, http://, or https://"@)
            } else if only_scheme(endpoint@) {
                Some("docker.endpoint must include a path or host"@)
            } else {
                None
            },
        }
    }
}

/// Checks the way to the Docker daemon.
pub fn validate_docker_config(docker: &DockerConfig) -> (r: Result<(), String>)
    ensures
        fault_of(r) == docker_fault(*docker),
{
    let some = docker.ca_cert_path.is_some() || docker.cert_path.is_some()
        || docker.key_path.is_some();
    let all = docker.ca_cert_path.is_some() && docker.cert_path.is_some()
        && docker.key_path.is_some();
    if some && !all {
        return Err(
            "docker TLS requires ca_cert_path, cert_path, and key_path together".to_owned(),
        );
    }
    match &docker.endpoint {
        None => {
            if all {
                return Err("docker TLS requires a tcp:// or https:// endpoint".to_owned());
            }
        },
        Some(endpoint) => {
            let text = endpoint.as_str();
            let https = starts_with(text, "https://");
            let tcp = starts_with(text, "tcp://");
            if https && !all {
                return Err(
                    "https:// Docker endpoints require ca_cert_path, cert_path, and key_path".to_owned(),
                );
            }
            if all && !(tcp || https) {
                return Err(
                    "docker TLS is only valid with a tcp:// or https:// endpoint".to_owned(),
                );
            }
            if !(starts_with(text, "unix://") || starts_with(text, "npipe://") || tcp
                || starts_with(text, "http://") || https) {
                return Err(
                    "docker.endpoint must use unix://, npipe://, tcp://, http://, or https://".to_owned(),
                );
            }
            let rest = trim_end_char(text, '/');
            if ends_with(rest.as_str(), "://") || same_text(text, "unix://") || same_text(
                text,
                "npipe://",
            ) {
                return Err("docker.endpoint must include a path or host".to_owned());
            }
        },
    }
    Ok(())
}

/// What the configuration changes about one kind of batch.
#[derive(Debug, Clone, Copy, PartialEq, Eq)]
pub struct BatchConfig {
    pub batch_size_min: Option<usize>,
    pub batch_size_max: Option<usize>,
    pub batch_wait_min_ms: Option<u64>,
    pub batch_wait_max_ms: Option<u64>,
    pub ewma_window: Option<usize>,
    pub batch_probe_factor: Option<Factor>,
    pub batch_backoff_factor: Option<Factor>,
}

impl Default for BatchConfig {
    fn default() -> (r: Self)
        ensures
            r == unchanged_batches(),
    {
        BatchConfig {
            batch_size_min: None,
            batch_size_max: None,
            batch_wait_min_ms: None,
            batch_wait_max_ms: None,
            ewma_window: None,
            batch_probe_factor: None,
            batch_backoff_factor: None,
        }
    }
}

/// A configuration that changes nothing about a kind of batch.
pub open spec fn unchanged_batches() -> BatchConfig {
    BatchConfig {
        batch_size_min: None,
        batch_size_max: None,
        batch_wait_min_ms: None,
        batch_wait_max_ms: None,
        ewma_window: None,
        batch_probe_factor: None,
        batch_backoff_factor: None,
    }
}

/// `chosen` if there is one, else `standard`.
pub open spec fn chosen_or<T>(chosen: Option<T>, standard: T) -> T {
    match chosen {
        Some(value) => value,
        None => standard,
    }
}

/// A length of time from its milliseconds, or the whole milliseconds of the
/// standard one.
pub open spec fn wait_or(chosen: Option<u64>, standard: Span) -> Span {
    Span {
        nanos: (chosen_or(chosen, (standard.nanos / 1_000_000) as u64) * 1_000_000) as u128,
    }
}

/// The options with what the configuration changes about them.
pub open spec fn applied(config: BatchConfig, options: BatchOptions) -> BatchOptions {
    BatchOptions {
        batch_size_min: chosen_or(config.batch_size_min, options.batch_size_min),
        batch_size_max: chosen_or(config.batch_size_max, options.batch_size_max),
        batch_wait_min: wait_or(config.batch_wait_min_ms, options.batch_wait_min),
        batch_wait_max: wait_or(config.batch_wait_max_ms, options.batch_wait_max),
        ewma_window: chosen_or(config.ewma_window, options.ewma_window),
        batch_probe_factor: chosen_or(config.batch_probe_factor, options.batch_probe_factor),
        batch_backoff_factor: chosen_or(config.batch_backoff_factor, options.batch_backoff_factor),
    }
}

/// A count, or the standard one.
fn count_or(chosen: Option<usize>, standard: usize) -> (r: usize)
    ensures
        r == chosen_or(chosen, standard),
{
    match chosen {
        Some(value) => value,
        None => standard,
    }
}

/// A ratio, or the standard one.
fn factor_or(chosen: Option<Factor>, standard: Factor) -> (r: Factor)
    ensures
        r == chosen_or(chosen, standard),
{
    match chosen {
        Some(value) => value,
        None => standard,
    }
}

/// A length of time from its milliseconds, or the whole milliseconds of the
/// standard one.
fn millis_or(chosen: Option<u64>, standard: Span) -> (r: Span)
    ensures
        r == wait_or(chosen, standard),
{
    match chosen {
        Some(millis) => Span::from_millis(millis),
        None => {
            #[verifier::truncate]
            let millis: u64 = standard.as_millis() as u64;
            Span::from_millis(millis)
        },
    }
}

impl BatchConfig {
    /// Puts what the configuration changes into `options`.
    pub fn apply(&self, options: &mut BatchOptions)
        ensures
            *final(options) == applied(*self, *old(options)),
    {
        options.batch_size_min = count_or(self.batch_size_min, options.batch_size_min);
        options.batch_size_max = count_or(self.batch_size_max, options.batch_size_max);
        options.batch_wait_min = millis_or(self.batch_wait_min_ms, options.batch_wait_min);
        options.batch_wait_max = millis_or(self.batch_wait_max_ms, options.batch_wait_max);
        options.ewma_window = count_or(self.ewma_window, options.ewma_window);
        options.batch_probe_factor = factor_or(self.batch_probe_factor, options.batch_probe_factor);
        options.batch_backoff_factor =
        factor_or(self.batch_backoff_factor, options.batch_backoff_factor);
    }
}

/// What becomes of leases that ran out while the service was down.
#[derive(Debug, Clone, Copy, PartialEq, Eq, Structural)]
pub enum StartupPolicy {
    Recover,
    Preserve,
}

impl Default for StartupPolicy {
    fn default() -> (r: Self)
        ensures
            r == StartupPolicy::Recover,
    {
        StartupPolicy::Recover
    }
}

/// The part of the configuration that says where jobs are kept, and how.
#[derive(Debug, Clone)]
pub struct PersistenceConfig {
    pub ingest_database: Option<String>,
    pub results_database: Option<String>,
    pub durability: DurabilityMode,
    pub cleanup: Option<CleanupConfig>,
    pub startup: StartupPolicy,
    pub enqueue: BatchConfig,
    pub completion: BatchConfig,
}

impl Default for PersistenceConfig {
    fn default() -> (r: Self)
        ensures
            r.ingest_database is None,
            r.results_database is None,
            r.durability == DurabilityMode::Off,
            r.cleanup is None,
            r.startup == StartupPolicy::Recover,
            r.enqueue == unchanged_batches(),
            r.completion == unchanged_batches(),
    {
        PersistenceConfig {
            ingest_database: None,
            results_database: None,
            durability: DurabilityMode::default(),
            cleanup: None,
            startup: StartupPolicy::default(),
            enqueue: BatchConfig::default(),
            completion: BatchConfig::default(),
        }
    }
}

/// The limits for accepting jobs, where nothing is configured.
pub open spec fn standard_enqueue() -> BatchOptions {
    BatchOptions {
        batch_size_min: 64,
        batch_size_max: 8_192,
        batch_wait_min: Span { nanos: 1_000_000 },
        batch_wait_max: Span { nanos: 100_000_000 },
        ewma_window: 16,
        batch_probe_factor: Factor { bits: 0x3ff1_9999_9999_999a },
        batch_backoff_factor: Factor { bits: 0x3fe9_9999_9999_999a },
    }
}

/// The limits for taking results in, where nothing is configured.
pub open spec fn standard_completion() -> BatchOptions {
    BatchOptions {
        batch_size_min: 128,
        batch_size_max: 8_192,
        batch_wait_min: Span { nanos: 1_000_000 },
        batch_wait_max: Span { nanos: 20_000_000 },
        ewma_window: 16,
        batch_probe_factor: Factor { bits: 0x3ff4_0000_0000_0000 },
        batch_backoff_factor: Factor { bits: 0x3fe9_9999_9999_999a },
    }
}

impl PersistenceConfig {
    /// Where accepted jobs are kept.
    pub open spec fn ingest_path(self) -> Seq<char> {
        match self.ingest_database {
            Some(path) => path@,
            None => "./data/maqistor-ingest.db"@,
        }
    }

    /// Where results are kept: next to the accepted jobs, unless a place is
    /// configured.
    pub open spec fn results_place(self) -> Seq<char> {
        match (self.results_database, self.ingest_database) {
            (Some(path), _) => path@,
            (None, None) => "./data/maqistor-results.db"@,
            (None, Some(ingest)) => results_path(ingest@),
        }
    }

    /// How the writers are set up.
    pub open spec fn writes(self) -> SqliteWriteOptions {
        SqliteWriteOptions {
            durability: self.durability,
            enqueue: applied(self.enqueue, standard_enqueue()),
            completion: applied(self.completion, standard_completion()),
        }
    }

    pub fn ingest_database_path(&self) -> (r: &str)
        ensures
            r@ == self.ingest_path(),
    {
        match &self.ingest_database {
            Some(path) => path.as_str(),
            None => "./data/maqistor-ingest.db",
        }
    }

    pub fn results_database_path(&self) -> (r: String)
        ensures
            r@ == self.results_place(),
    {
        match &self.results_database {
            Some(path) => path.clone(),
            None => match &self.ingest_database {
                None => "./data/maqistor-results.db".to_owned(),
                Some(ingest) => default_results_path(ingest.as_str()),
            },
        }
    }

    /// How the writers are set up, unless that is at fault.
    pub fn write_options(&self) -> (r: Result<SqliteWriteOptions, String>)
        ensures
            match (r, write_fault(self.writes())) {
                (Ok(options), None) => options == self.writes(),
                (Err(message), Some(fault)) => message@ == fault,
                _ => false,
            },
    {
        let mut enqueue = BatchOptions::enqueue_defaults();
        let mut completion = BatchOptions::completion_defaults();
        proof {
            assert(enqueue == standard_enqueue());
            assert(completion == standard_completion());
        }
        self.enqueue.apply(&mut enqueue);
        self.completion.apply(&mut completion);
        let options = SqliteWriteOptions { durability: self.durability, enqueue, completion };
        match options.validate() {
            Ok(()) => Ok(options),
            Err(message) => Err(message),
        }
    }
}

/// The part of the configuration that says how jobs are dispatched.
#[derive(Debug, Clone, Copy, PartialEq, Eq)]
pub struct DispatchConfig {
    pub batch_size_max: Option<usize>,
    pub max_delivery_in_flight: Option<usize>,
    pub idle_probe_interval_ms: Option<u64>,
    pub idle_probe_batch_size: Option<usize>,
}

impl Default for DispatchConfig {
    fn default() -> (r: Self)
        ensures
            r.batch_size_max is None,
            r.max_delivery_in_flight is None,
            r.idle_probe_interval_ms is None,
            r.idle_probe_batch_size is None,
    {
        DispatchConfig {
            batch_size_max: None,
            max_delivery_in_flight: None,
            idle_probe_interval_ms: None,
            idle_probe_batch_size: None,
        }
    }
}

impl DispatchConfig {
    /// The options that this configuration asks for.
    pub open spec fn asked(self) -> DispatchOptions {
        DispatchOptions {
            batch_size_max: chosen_or(self.batch_size_max, 8_192),
            max_delivery_in_flight: chosen_or(self.max_delivery_in_flight, 1_024),
            idle_probe_interval: wait_or(
                self.idle_probe_interval_ms,
                Span { nanos: 1_000_000_000 },
            ),
            idle_probe_batch_size: chosen_or(self.idle_probe_batch_size, 64),
        }
    }

    /// How jobs are dispatched, unless that is at fault.
    pub fn options(&self) -> (r: Result<DispatchOptions, String>)
        ensures
            match (r, dispatch_fault(self.asked())) {
                (Ok(options), None) => options == self.asked(),
                (Err(message), Some(fault)) => message@ == fault,
                _ => false,
            },
    {
        let standard = DispatchOptions::default();
        let options = DispatchOptions {
            batch_size_max: count_or(self.batch_size_max, standard.batch_size_max),
            max_delivery_in_flight: count_or(
                self.max_delivery_in_flight,
                standard.max_delivery_in_flight,
            ),
            idle_probe_interval: millis_or(
                self.idle_probe_interval_ms,
                standard.idle_probe_interval,
            ),
            idle_probe_batch_size: count_or(
                self.idle_probe_batch_size,
                standard.idle_probe_batch_size,
            ),
        };
        match options.validate() {
            Ok(()) => Ok(options),
            Err(message) => Err(message),
        }
    }
}

/// The files with which workers are spoken to.
#[derive(Debug, Clone)]
pub struct WorkerTlsConfig {
    pub ca_cert_path: String,
    pub cert_path: String,
    pub key_path: String,
}

impl WorkerTlsConfig {
    pub fn files(&self) -> (r: TlsFiles)
        ensures
            r.ca_cert_path@ == self.ca_cert_path@,
            r.cert_path@ == self.cert_path@,
            r.key_path@ == self.key_path@,
    {
        TlsFiles {
            ca_cert_path: self.ca_cert_path.clone(),
            cert_path: self.cert_path.clone(),
            key_path: self.key_path.clone(),
        }
    }
}

/// The workers that the service itself runs for a queue.
#[derive(Debug, Clone)]
pub struct ManagedConfig {
    pub image: String,
    pub replicas: u32,
    pub env_file: Option<String>,
    pub env_vars: Option<Vec<(String, String)>>,
}

/// What follows the last occurrence of `c` in `text`, or all of it.
pub open spec fn after_last(text: Seq<char>, c: char) -> Seq<char> {
    text.skip(last_position(text, c) + 1)
}

/// What follows the last occurrence of `c` in `text`, or all of it.
fn rest_after(text: &str, c: char) -> (r: String)
    ensures
        r@ == after_last(text@, c),
{
    let chars = chars_of(text);
    let from = match find_last(&chars, c) {
        Some(position) => position + 1,
        None => 0,
    };
    let r = text_of(&chars, from, chars.len());
    proof {
        assert(r@ =~= after_last(text@, c));
    }
    r
}

/// What is wrong with the image of managed workers, if anything: an image has
/// to be pinned by a digest or by a tag that does not move.
pub open spec fn image_fault(image: Seq<char>) -> Option<Seq<char>> {
    let reference = after_last(image, '/');
    let tagged = last_position(reference, ':') >= 0;
    let tag = after_last(reference, ':');
    if !occurs_in(image, "@sha256:"@) && !tagged {
        Some(
            "managed image "@ + quoted_text(image)
                + " must use an explicit version tag or immutable digest"@,
        )
    } else if tagged && (tag == "latest"@ || tag == "stable"@) {
        Some(
            "managed image "@ + quoted_text(image)
                + " uses unsupported floating tag; use an explicit version tag or immutable digest"@,
        )
    } else {
        None
    }
}

/// Checks the image of managed workers.
pub fn validate_managed_image(image: &str) -> (r: Result<(), String>)
    ensures
        fault_of(r) == image_fault(image@),
{
    let reference = rest_after(image, '/');
    let chars = chars_of(reference.as_str());
    let tagged = find_last(&chars, ':').is_some();
    let tag = rest_after(reference.as_str(), ':');
    if !contains(image, "@sha256:") && !tagged {
        let name = quoted(image);
        return Err(
            concat3(
                "managed image ",
                name.as_str(),
                " must use an explicit version tag or immutable digest",
            ),
        );
    }
    if tagged && (same_text(tag.as_str(), "latest") || same_text(tag.as_str(), "stable")) {
        let name = quoted(image);
        return Err(
            concat3(
                "managed image ",
                name.as_str(),
                " uses unsupported floating tag; use an explicit version tag or immutable digest",
            ),
        );
    }
    Ok(())
}

/// What is wrong with the environment file of managed workers, if anything.
pub open spec fn env_file_fault(env_file: Option<String>, is_file: bool) -> Option<Seq<char>> {
    match env_file {
        Some(path) => if is_file {
            None
        } else {
            Some("managed env file "@ + quoted_text(path@) + " does not exist"@)
        },
        None => None,
    }
}

/// Checks the environment file of managed workers; `is_file` says whether a
/// file lies at its path.
pub fn validate_managed_env_file(env_file: &Option<String>, is_file: bool) -> (r: Result<
    (),
    String,
>)
    ensures
        fault_of(r) == env_file_fault(*env_file, is_file),
{
    match env_file {
        Some(path) => {
            if is_file {
                Ok(())
            } else {
                let name = quoted(path.as_str());
                Err(concat3("managed env file ", name.as_str(), " does not exist"))
            }
        },
        None => Ok(()),
    }
}

/// Whether a variable has no name or no value.
pub open spec fn is_hollow(var: (String, String)) -> bool {
    var.0@.len() == 0 || var.1@.len() == 0
}

/// What is wrong with the variables of managed workers, if anything.
pub open spec fn env_vars_fault(env_vars: Option<Vec<(String, String)>>) -> Option<Seq<char>> {
    match env_vars {
        Some(vars) => if exists|i: int| 0 <= i < vars@.len() && #[trigger] is_hollow(vars@[i]) {
            Some("managed env vars must be nonempty"@)
        } else {
            None
        },
        None => None,
    }
}

/// Checks the variables of managed workers.
pub fn validate_managed_env_vars(env_vars: &Option<Vec<(String, String)>>) -> (r: Result<
    (),
    String,
>)
    ensures
        fault_of(r) == env_vars_fault(*env_vars),
{
    if let Some(vars) = env_vars {
        let mut i: usize = 0;
        while i < vars.len()
            invariant
                i <= vars.len(),
                env_vars matches Some(held) && held@ == vars@,
                forall|k: int| 0 <= k < i ==> !#[trigger] is_hollow(vars@[k]),
            decreases vars.len() - i,
        {
            if vars[i].0.as_str().is_empty() || vars[i].1.as_str().is_empty() {
                proof {
                    assert(is_hollow(vars@[i as int]));
                    assert(env_vars_fault(*env_vars) is Some);
                }
                return Err("managed env vars must be nonempty".to_owned());
            }
            i += 1;
        }
    }
    Ok(())
}

/// The variables as the lines of an environment.
pub open spec fn env_lines(vars: Seq<(String, String)>) -> Seq<Seq<char>> {
    vars.map_values(|var: (String, String)| var.0@ + "="@ + var.1@)
}

/// The variables as the lines of an environment.
fn lines_of_vars(vars: &Vec<(String, String)>) -> (r: Vec<String>)
    ensures
        texts(r@) == env_lines(vars@),
{
    let mut r: Vec<String> = Vec::new();
    let mut i: usize = 0;
    while i < vars.len()
        invariant
            i <= vars.len(),
            texts(r@) == env_lines(vars@.take(i as int)),
        decreases vars.len() - i,
    {
        let line = concat3(vars[i].0.as_str(), "=", vars[i].1.as_str());
        let ghost before = r@;
        r.push(line);
        proof {
            assert(texts(r@) =~= texts(before).push(line@));
            assert(env_lines(vars@.take(i + 1)) =~= env_lines(vars@.take(i as int)).push(line@));
        }
        i += 1;
    }
    proof {
        assert(vars@.take(vars@.len() as int) =~= vars@);
        assert(texts(r@) =~= env_lines(vars@));
    }
    r
}

/// The lines of a file, without the white space around each.
pub open spec fn trimmed_lines(contents: Seq<char>) -> Seq<Seq<char>> {
    lines_of(contents).map_values(|line: Seq<char>| trimmed(line))
}

impl ManagedConfig {
    /// The lines that the variables come to.
    pub open spec fn own_env(self) -> Seq<Seq<char>> {
        match self.env_vars {
            Some(vars) => env_lines(vars@),
            None => Seq::empty(),
        }
    }

    /// The environment of the workers: the variables in the order in which they
    /// are held, and then the lines of the environment file. `contents` is what
    /// reading that file gave; it is not looked at where there is no file.
    pub fn env(&self, contents: Result<String, String>) -> (r: Result<Vec<String>, String>)
        ensures
            match (r, self.env_file, contents) {
                (Ok(env), None, _) => texts(env@) == self.own_env(),
                (Ok(env), Some(_), Ok(read)) => texts(env@) == self.own_env() + trimmed_lines(
                    read@,
                ),
                (Err(message), Some(path), Err(reason)) => {
                    let head = "failed to read env file "@ + quoted_text(path@) + ": "@;
                    message@ == head + (head + reason@)
                },
                _ => false,
            },
    {
        let mut env = match &self.env_vars {
            Some(vars) => lines_of_vars(vars),
            None => Vec::new(),
        };
        let ghost own = texts(env@);
        proof {
            assert(own =~= self.own_env());
        }
        match &self.env_file {
            None => {},
            Some(path) => match contents {
                Ok(read) => {
                    let file_lines = lines(read.as_str());
                    let mut i: usize = 0;
                    proof {
                        assert(texts(env@) =~= own + texts(file_lines@.take(0)).map_values(
                            |line: Seq<char>| trimmed(line),
                        ));
                    }
                    while i < file_lines.len()
                        invariant
                            i <= file_lines.len(),
                            texts(env@) == own + texts(file_lines@.take(i as int)).map_values(
                                |line: Seq<char>| trimmed(line),
                            ),
                        decreases file_lines.len() - i,
                    {
                        let line = trim(file_lines[i].as_str());
                        let ghost before = env@;
                        env.push(line);
                        proof {
                            assert(texts(env@) =~= texts(before).push(line@));
                            assert(texts(file_lines@.take(i + 1)).map_values(
                                |line: Seq<char>| trimmed(line),
                            ) =~= texts(file_lines@.take(i as int)).map_values(
                                |line: Seq<char>| trimmed(line),
                            ).push(line@));
                        }
                        i += 1;
                    }
                    proof {
                        assert(file_lines@.take(file_lines@.len() as int) =~= file_lines@);
                        assert(texts(env@) =~= own + trimmed_lines(read@));
                    }
                },
                Err(reason) => {
                    let name = quoted(path.as_str());
                    let head = concat3("failed to read env file ", name.as_str(), ": ");
                    let inner = concat(head.as_str(), reason.as_str());
                    return Err(concat(head.as_str(), inner.as_str()));
                },
            },
        }
        Ok(env)
    }
}

/// One queue.
#[derive(Debug, Clone)]
pub struct QueueConfig {
    pub name: String,
    pub max_retries: u32,
    pub timeout_secs: u64,
    pub managed_config: Option<ManagedConfig>,
}

impl QueueConfig {
    /// How many workers the service runs for the queue; one where it runs none
    /// itself.
    pub fn replicas(&self) -> (r: u32)
        ensures
            r == (match self.managed_config {
                Some(config) => config.replicas,
                None => 1,
            }),
    {
        match &self.managed_config {
            Some(config) => config.replicas,
            None => 1,
        }
    }

    /// The queue that this configures, at `now`.
    pub fn job_queue(&self, now: i64) -> (r: JobQueue)
        ensures
            r@ == (JobQueueView {
                name: self.name@,
                max_retries: self.max_retries as int,
                timeout_secs: self.timeout_secs as int,
                created_at: now as int,
                updated_at: now as int,
            }),
    {
        let mut queue = JobQueue::new_at(self.name.as_str(), now);
        queue.max_retries = self.max_retries;
        queue.timeout_secs = self.timeout_secs;
        queue
    }

    /// The workers to run for the queue in the environment `env`, if it is the
    /// service that runs them.
    pub fn managed_queue(&self, env: Vec<String>) -> (r: Option<ManagedQueue>)
        ensures
            match (r, self.managed_config) {
                (Some(queue), Some(config)) => {
                    &&& queue.name@ == self.name@
                    &&& queue.image@ == config.image@
                    &&& queue.replicas == config.replicas
                    &&& queue.env == env
                },
                (None, None) => true,
                _ => false,
            },
    {
        match &self.managed_config {
            Some(config) => Some(
                ManagedQueue {
                    name: self.name.clone(),
                    image: config.image.clone(),
                    replicas: self.replicas(),
                    env,
                },
            ),
            None => None,
        }
    }
}

/// Whether the name of the queue at `at` is also that of an earlier one.
pub open spec fn name_is_taken(queues: Seq<QueueConfig>, at: int) -> bool {
    exists|k: int| 0 <= k < at && (#[trigger] queues[k]).name@ == queues[at].name@
}

/// What is wrong with managed workers, if anything: the first fault.
pub open spec fn managed_fault(
    queue: Seq<char>,
    config: ManagedConfig,
    is_file: bool,
) -> Option<Seq<char>> {
    if config.image@.len() == 0 || config.replicas == 0 {
        Some("managed queue "@ + queue + " requires an image and positive replicas"@)
    } else if image_fault(config.image@) is Some {
        image_fault(config.image@)
    } else if env_file_fault(config.env_file, is_file) is Some {
        env_file_fault(config.env_file, is_file)
    } else {
        env_vars_fault(config.env_vars)
    }
}

/// What is wrong with the queue at `at`, if anything: the first fault.
pub open spec fn queue_fault(queues: Seq<QueueConfig>, at: int, is_file: bool) -> Option<
    Seq<char>,
> {
    let queue = queues[at];
    if trimmed(queue.name@).len() == 0 || name_is_taken(queues, at) {
        Some("queue names must be nonempty and unique"@)
    } else if queue.timeout_secs == 0 {
        Some("queue "@ + queue.name@ + " must have a positive timeout"@)
    } else {
        match queue.managed_config {
            Some(config) => managed_fault(queue.name@, config, is_file),
            None => None,
        }
    }
}

/// What is wrong with the queues from `at` on, if anything: the first fault.
/// `is_file` says for each queue whether its environment file is there.
pub open spec fn queues_fault(queues: Seq<QueueConfig>, is_file: Seq<bool>, at: int) -> Option<
    Seq<char>,
>
    decreases queues.len() - at,
{
    if at >= queues.len() {
        None
    } else if queue_fault(queues, at, is_file[at]) is Some {
        queue_fault(queues, at, is_file[at])
    } else {
        queues_fault(queues, is_file, at + 1)
    }
}

/// Checks managed workers.
fn validate_managed(queue: &str, config: &ManagedConfig, is_file: bool) -> (r: Result<(), String>)
    ensures
        fault_of(r) == managed_fault(queue@, *config, is_file),
{
    if config.image.as_str().is_empty() || config.replicas == 0 {
        return Err(
            concat3("managed queue ", queue, " requires an image and positive replicas"),
        );
    }
    match validate_managed_image(config.image.as_str()) {
        Ok(()) => {},
        Err(message) => return Err(message),
    }
    match validate_managed_env_file(&config.env_file, is_file) {
        Ok(()) => {},
        Err(message) => return Err(message),
    }
    validate_managed_env_vars(&config.env_vars)
}

/// Checks the queue at `at`.
fn validate_queue(queues: &Vec<QueueConfig>, at: usize, is_file: bool) -> (r: Result<(), String>)
    requires
        at < queues.len(),
    ensures
        fault_of(r) == queue_fault(queues@, at as int, is_file),
{
    let queue = &queues[at];
    let mut taken = false;
    let mut k: usize = 0;
    while k < at
        invariant
            k <= at < queues.len(),
            *queue == queues@[at as int],
            taken == (exists|j: int|
                0 <= j < k && (#[trigger] queues@[j]).name@ == queues@[at as int].name@),
        decreases at - k,
    {
        if same_text(queues[k].name.as_str(), queue.name.as_str()) {
            taken = true;
        }
        k += 1;
    }
    if is_blank(queue.name.as_str()) || taken {
        return Err("queue names must be nonempty and unique".to_owned());
    }
    if queue.timeout_secs == 0 {
        return Err(concat3("queue ", queue.name.as_str(), " must have a positive timeout"));
    }
    match &queue.managed_config {
        Some(config) => validate_managed(queue.name.as_str(), config, is_file),
        None => Ok(()),
    }
}

/// The whole configuration.
#[derive(Debug, Clone)]
pub struct AppConfig {
    pub listen: Option<String>,
    pub worker_listen: Option<String>,
    pub worker_tls: WorkerTlsConfig,
    pub docker: DockerConfig,
    pub persistence: PersistenceConfig,
    pub dispatch: DispatchConfig,
    pub queues: Vec<QueueConfig>,
}

impl AppConfig {
    /// The address at which requests are taken.
    pub open spec fn listen_address(self) -> Seq<char> {
        match self.listen {
            Some(address) => address@,
            None => "0.0.0.0:7828"@,
        }
    }

    /// The address at which workers are taken.
    pub open spec fn worker_address(self) -> Seq<char> {
        match self.worker_listen {
            Some(address) => address@,
            None => "0.0.0.0:7829"@,
        }
    }

    /// Whether there is a fault in what is checked before the clean-up.
    pub open spec fn has_early_fault(self) -> bool {
        ||| write_fault(self.persistence.writes()) is Some
        ||| dispatch_fault(self.dispatch.asked()) is Some
        ||| docker_fault(self.docker) is Some
    }

    /// A configuration that can be checked: so can its clean-up, or it does not
    /// come to that.
    pub open spec fn summable(self) -> bool {
        self.has_early_fault() || (self.persistence.cleanup matches Some(cleanup)
            ==> cleanup.summable())
    }

    /// What is wrong with the clean-up, if there is one and anything is.
    pub open spec fn own_cleanup_fault(self) -> Option<Seq<char>> {
        match self.persistence.cleanup {
            Some(cleanup) => cleanup.fault(),
            None => None,
        }
    }

    /// What is wrong with the configuration, if anything: the first fault.
    /// `cleanup` is what is wrong with the clean-up, and `is_file` says for each
    /// queue whether its environment file is there.
    pub open spec fn fault(self, cleanup: Option<Seq<char>>, is_file: Seq<bool>) -> Option<
        Seq<char>,
    > {
        if write_fault(self.persistence.writes()) is Some {
            write_fault(self.persistence.writes())
        } else if dispatch_fault(self.dispatch.asked()) is Some {
            dispatch_fault(self.dispatch.asked())
        } else if docker_fault(self.docker) is Some {
            docker_fault(self.docker)
        } else if cleanup is Some {
            cleanup
        } else if self.listen_address() == self.worker_address() {
            Some("listen and worker_listen must differ"@)
        } else {
            queues_fault(self.queues@, is_file, 0)
        }
    }

    /// The address at which requests are taken.
    pub fn listen(&self) -> (r: &str)
        ensures
            r@ == self.listen_address(),
    {
        match &self.listen {
            Some(address) => address.as_str(),
            None => "0.0.0.0:7828",
        }
    }

    /// The address at which workers are taken.
    pub fn worker_listen(&self) -> (r: &str)
        ensures
            r@ == self.worker_address(),
    {
        match &self.worker_listen {
            Some(address) => address.as_str(),
            None => "0.0.0.0:7829",
        }
    }

    /// Whether the service runs the workers of any queue.
    pub fn has_managed_queues(&self) -> (r: bool)
        ensures
            r == exists|i: int|
                0 <= i < self.queues@.len() && (#[trigger] self.queues@[i]).managed_config is Some,
    {
        let mut i: usize = 0;
        while i < self.queues.len()
            invariant
                i <= self.queues.len(),
                forall|k: int|
                    0 <= k < i ==> (#[trigger] self.queues@[k]).managed_config is None,
            decreases self.queues.len() - i,
        {
            if self.queues[i].managed_config.is_some() {
                return true;
            }
            i += 1;
        }
        false
    }

    /// Whether there is a fault in what is checked before the clean-up.
    fn fails_early(&self) -> (r: bool)
        ensures
            r == self.has_early_fault(),
    {
        self.persistence.write_options().is_err() || self.dispatch.options().is_err()
            || validate_docker_config(&self.docker).is_err()
    }

    /// Whether the configuration can be checked.
    pub fn can_be_read(&self) -> (r: bool)
        ensures
            r == self.summable(),
    {
        if self.fails_early() {
            return true;
        }
        match &self.persistence.cleanup {
            Some(cleanup) => cleanup.can_be_checked(),
            None => true,
        }
    }

    /// Checks everything in the configuration, after the clean-up has been
    /// checked. `is_file` says for each queue whether its environment file is
    /// there.
    pub fn validate_given(&self, cleanup: Result<(), String>, is_file: &Vec<bool>) -> (r: Result<
        (),
        String,
    >)
        requires
            is_file.len() == self.queues.len(),
        ensures
            fault_of(r) == self.fault(fault_of(cleanup), is_file@),
    {
        match self.persistence.write_options() {
            Ok(_) => {},
            Err(message) => return Err(message),
        }
        match self.dispatch.options() {
            Ok(_) => {},
            Err(message) => return Err(message),
        }
        match validate_docker_config(&self.docker) {
            Ok(()) => {},
            Err(message) => return Err(message),
        }
        match cleanup {
            Ok(()) => {},
            Err(message) => return Err(message),
        }
        if same_text(self.listen(), self.worker_listen()) {
            return Err("listen and worker_listen must differ".to_owned());
        }
        let mut i: usize = 0;
        while i < self.queues.len()
            invariant
                i <= self.queues.len(),
                is_file.len() == self.queues.len(),
                queues_fault(self.queues@, is_file@, 0) == queues_fault(
                    self.queues@,
                    is_file@,
                    i as int,
                ),
                fault_of(cleanup) is None,
                self.fault(fault_of(cleanup), is_file@) == queues_fault(
                    self.queues@,
                    is_file@,
                    0,
                ),
            decreases self.queues.len() - i,
        {
            match validate_queue(&self.queues, i, is_file[i]) {
                Ok(()) => {},
                Err(message) => return Err(message),
            }
            i += 1;
        }
        Ok(())
    }

    /// Checks the whole configuration. `is_file` says for each queue whether its
    /// environment file is there.
    pub fn validate(&self, is_file: &Vec<bool>) -> (r: Result<(), String>)
        requires
            self.summable(),
            is_file.len() == self.queues.len(),
        ensures
            fault_of(r) == self.fault(self.own_cleanup_fault(), is_file@),
    {
        let cleanup = match &self.persistence.cleanup {
            Some(cleanup) => if self.fails_early() {
                Ok(())
            } else {
                validate_cleanup_config(cleanup)
            },
            None => Ok(()),
        };
        self.validate_given(cleanup, is_file)
    }

    /// Checks the whole configuration, unless it cannot be checked. `is_file` says
    /// for each queue whether its environment file is there.
    pub fn validate_if_readable(&self, is_file: &Vec<bool>) -> (r: Option<Result<(), String>>)
        requires
            is_file.len() == self.queues.len(),
        ensures
            match r {
                Some(found) => self.summable() && fault_of(found) == self.fault(
                    self.own_cleanup_fault(),
                    is_file@,
                ),
                None => !self.summable(),
            },
    {
        if self.can_be_read() {
            Some(self.validate(is_file))
        } else {
            None
        }
    }
}

proof fn lemma_no_queue_at_fault(queues: Seq<QueueConfig>, is_file: Seq<bool>, from: int, at: int)
    requires
        queues_fault(queues, is_file, from) is None,
        0 <= from <= at < queues.len(),
    ensures
        queue_fault(queues, at, is_file[at]) is None,
    decreases at - from,
{
    if from < at {
        lemma_no_queue_at_fault(queues, is_file, from + 1, at);
    }
}

/// In a configuration that is accepted, every queue has a name of its own that
/// is not blank and a positive timeout, and managed workers have an image and at
/// least one replica.
pub proof fn accepted_queues_are_sound(
    config: AppConfig,
    cleanup: Option<Seq<char>>,
    is_file: Seq<bool>,
)
    requires
        config.fault(cleanup, is_file) is None,
    ensures
        forall|i: int, j: int|
            0 <= i < j < config.queues@.len() ==> (#[trigger] config.queues@[i]).name@ != (
            #[trigger] config.queues@[j]).name@,
        forall|i: int|
            0 <= i < config.queues@.len() ==> {
                let queue = #[trigger] config.queues@[i];
                &&& trimmed(queue.name@).len() > 0
                &&& queue.timeout_secs > 0
                &&& queue.managed_config matches Some(managed) ==> managed.image@.len() > 0
                    && managed.replicas > 0
            },
{
    let queues = config.queues@;
    assert forall|i: int, j: int| 0 <= i < j < queues.len() implies (#[trigger] queues[i]).name@ != (
    #[trigger] queues[j]).name@ by {
        lemma_no_queue_at_fault(queues, is_file, 0, j);
        assert(!name_is_taken(queues, j));
    }
    assert forall|i: int| 0 <= i < queues.len() implies {
        let queue = #[trigger] queues[i];
        &&& trimmed(queue.name@).len() > 0
        &&& queue.timeout_secs > 0
        &&& queue.managed_config matches Some(managed) ==> managed.image@.len() > 0
            && managed.replicas > 0
    } by {
        lemma_no_queue_at_fault(queues, is_file, 0, i);
    }
}

/// The way to the Docker daemon is accepted exactly if TLS is configured in
/// full or not at all, with an endpoint that speaks it where it is and none that
/// demands it where it is not, and the endpoint, if there is one, has a scheme
/// that is known and something behind it.
pub proof fn accepted_endpoints_can_be_reached(docker: DockerConfig)
    ensures
        docker_fault(docker) is None <==> {
            let all = docker.ca_cert_path is Some && docker.cert_path is Some && docker.key_path
                is Some;
            let none = docker.ca_cert_path is None && docker.cert_path is None && docker.key_path
                is None;
            match docker.endpoint {
                None => none,
                Some(endpoint) => {
                    &&& all ==> begins_with(endpoint@, "tcp://"@) || begins_with(
                        endpoint@,
                        "https://"@,
                    )
                    &&& !all ==> none && !begins_with(endpoint@, "https://"@)
                    &&& begins_with(endpoint@, "unix://"@) || begins_with(endpoint@, "npipe://"@)
                        || begins_with(endpoint@, "tcp://"@) || begins_with(endpoint@, "http://"@)
                        || begins_with(endpoint@, "https://"@)
                    &&& !finishes_with(without_trailing(endpoint@, '/'), "://"@)
                    &&& endpoint@ != "unix://"@
                    &&& endpoint@ != "npipe://"@
                },
            }
        },
{
}

/// What is configured of a batch takes the place of the standard; what is not
/// stays standard.
pub proof fn configured_batches_override_the_standard(config: BatchConfig, options: BatchOptions)
    requires
        options.batch_wait_min.nanos % 1_000_000 == 0,
        options.batch_wait_max.nanos % 1_000_000 == 0,
        options.batch_wait_min.nanos / 1_000_000 <= u64::MAX,
        options.batch_wait_max.nanos / 1_000_000 <= u64::MAX,
    ensures
        ({
            let r = applied(config, options);
            &&& r.batch_size_min == (match config.batch_size_min {
                Some(n) => n,
                None => options.batch_size_min,
            })
            &&& r.batch_size_max == (match config.batch_size_max {
                Some(n) => n,
                None => options.batch_size_max,
            })
            &&& r.batch_wait_min.nanos == (match config.batch_wait_min_ms {
                Some(ms) => ms * 1_000_000,
                None => options.batch_wait_min.nanos as int,
            })
            &&& r.batch_wait_max.nanos == (match config.batch_wait_max_ms {
                Some(ms) => ms * 1_000_000,
                None => options.batch_wait_max.nanos as int,
            })
            &&& r.ewma_window == (match config.ewma_window {
                Some(n) => n,
                None => options.ewma_window,
            })
            &&& r.batch_probe_factor == (match config.batch_probe_factor {
                Some(factor) => factor,
                None => options.batch_probe_factor,
            })
            &&& r.batch_backoff_factor == (match config.batch_backoff_factor {
                Some(factor) => factor,
                None => options.batch_backoff_factor,
            })
        }),
{
}

/// Where nothing is configured the writers and the dispatcher have their
/// standard set-up, the databases lie in one directory, and requests and workers
/// are taken at two ports.
pub proof fn standards_hold_where_nothing_is_configured(config: AppConfig)
    ensures
        config.persistence.enqueue == unchanged_batches() ==> {
            let enqueue = config.persistence.writes().enqueue;
            &&& enqueue.batch_size_min == 64
            &&& enqueue.batch_size_max == 8_192
            &&& enqueue.batch_wait_min.nanos == 1_000_000
            &&& enqueue.batch_wait_max.nanos == 100_000_000
            &&& enqueue.ewma_window == 16
        },
        config.persistence.completion == unchanged_batches() ==> {
            let completion = config.persistence.writes().completion;
            &&& completion.batch_size_min == 128
            &&& completion.batch_size_max == 8_192
            &&& completion.batch_wait_min.nanos == 1_000_000
            &&& completion.batch_wait_max.nanos == 20_000_000
            &&& completion.ewma_window == 16
        },
        config.persistence.writes().durability == config.persistence.durability,
        config.dispatch.asked().batch_size_max == (match config.dispatch.batch_size_max {
            Some(n) => n,
            None => 8_192,
        }),
        config.dispatch.asked().max_delivery_in_flight == (
        match config.dispatch.max_delivery_in_flight {
            Some(n) => n,
            None => 1_024,
        }),
        config.dispatch.asked().idle_probe_interval.nanos == (
        match config.dispatch.idle_probe_interval_ms {
            Some(ms) => ms * 1_000_000,
            None => 1_000_000_000,
        }),
        config.dispatch.asked().idle_probe_batch_size == (
        match config.dispatch.idle_probe_batch_size {
            Some(n) => n,
            None => 64,
        }),
        config.persistence.ingest_path() == (match config.persistence.ingest_database {
            Some(path) => path@,
            None => "./data/maqistor-ingest.db"@,
        }),
        config.persistence.results_database is Some ==> config.persistence.results_place()
            == config.persistence.results_database->Some_0@,
        config.persistence.results_database is None && config.persistence.ingest_database is None
            ==> config.persistence.results_place() == "./data/maqistor-results.db"@,
        config.persistence.results_database is None && config.persistence.ingest_database is Some
            ==> config.persistence.results_place() == results_path(
            config.persistence.ingest_database->Some_0@,
        ),
        config.listen_address() == (match config.listen {
            Some(address) => address@,
            None => "0.0.0.0:7828"@,
        }),
        config.worker_address() == (match config.worker_listen {
            Some(address) => address@,
            None => "0.0.0.0:7829"@,
        }),
{
}

/// An image with a tag is accepted exactly if the tag does not move: any tag
/// but `latest` and `stable`.
pub proof fn tags_must_not_move(repository: Seq<char>, tag: Seq<char>)
    requires
        forall|k: int| 0 <= k < tag.len() ==> tag[k] != ':' && tag[k] != '/',
    ensures
        image_fault(repository + ":"@ + tag) is None <==> tag != "latest"@ && tag != "stable"@,
{
    reveal_strlit(":");
    let image = repository + ":"@ + tag;
    let r = repository.len() as int;
    crate::text::lemma_last_position(image, '/');
    let slash = last_position(image, '/');
    assert forall|k: int| r <= k < image.len() implies image[k] != '/' by {
        if k > r {
            assert(image[k] == tag[k - r - 1]);
        }
    }
    assert(slash < r);
    let reference = after_last(image, '/');
    let colon = r - slash - 1;
    crate::text::lemma_last_position(reference, ':');
    assert(reference[colon] == ':');
    assert forall|k: int| colon < k < reference.len() implies reference[k] != ':' by {
        assert(reference[k] == tag[k - colon - 1]);
    }
    assert(last_position(reference, ':') == colon);
    assert(after_last(reference, ':') =~= tag);
}

/// An image that has neither a tag nor a digest is refused.
pub proof fn images_must_be_pinned(image: Seq<char>)
    requires
        forall|k: int| 0 <= k < image.len() ==> image[k] != ':',
    ensures
        image_fault(image) is Some,
{
    reveal_strlit("@sha256:");
    let reference = after_last(image, '/');
    crate::text::lemma_last_position(image, '/');
    crate::text::lemma_last_position(reference, ':');
    if last_position(reference, ':') >= 0 {
        assert(reference[last_position(reference, ':')] == ':');
        assert(image[last_position(image, '/') + 1 + last_position(reference, ':')] == ':');
    }
    if occurs_in(image, "@sha256:"@) {
        let at = choose|at: int| crate::text::occurs_at(image, "@sha256:"@, at);
        assert(crate::text::occurs_at(image, "@sha256:"@, at));
        assert(image.subrange(at, at + 8)[7] == "@sha256:"@[7]);
        assert(image[at + 7] == ':');
    }
}

/// Each variable becomes one line, its name and its value with an equals sign
/// between them. Variables are accepted exactly if all have a name and a value.
pub proof fn variables_become_lines(vars: Vec<(String, String)>)
    ensures
        env_lines(vars@).len() == vars@.len(),
        forall|i: int|
            0 <= i < vars@.len() ==> #[trigger] env_lines(vars@)[i] == vars@[i].0@ + "="@
                + vars@[i].1@,
        env_vars_fault(Some(vars)) is None <==> forall|i: int|
            0 <= i < vars@.len() ==> (#[trigger] vars@[i]).0@.len() > 0 && vars@[i].1@.len() > 0,
        env_vars_fault(None) is None,
{
    if forall|i: int|
        0 <= i < vars@.len() ==> (#[trigger] vars@[i]).0@.len() > 0 && vars@[i].1@.len() > 0 {
        assert forall|i: int| 0 <= i < vars@.len() implies !#[trigger] is_hollow(vars@[i]) by {
            assert(vars@[i].0@.len() > 0);
        }
    }
    let held = Some(vars);
    assert(held->Some_0@ == vars@);
    if env_vars_fault(held) is None {
        assert forall|i: int| 0 <= i < vars@.len() implies (#[trigger] vars@[i]).0@.len() > 0
            && vars@[i].1@.len() > 0 by {
            assert(!is_hollow(vars@[i]));
        }
    }
}

/// Managed workers are accepted exactly if they have an image that is pinned
/// and at least one replica, their environment file is there if they have one,
/// and their variables are complete.
pub proof fn accepted_workers_can_be_run(queue: Seq<char>, config: ManagedConfig, is_file: bool)
    ensures
        managed_fault(queue, config, is_file) is None <==> {
            &&& config.image@.len() > 0
            &&& config.replicas > 0
            &&& image_fault(config.image@) is None
            &&& config.env_file is Some ==> is_file
            &&& env_vars_fault(config.env_vars) is None
        },
{
}

proof fn lemma_queues_without_fault(queues: Seq<QueueConfig>, is_file: Seq<bool>, from: int)
    requires
        0 <= from <= queues.len(),
        forall|i: int|
            from <= i < queues.len() ==> queue_fault(queues, i, #[trigger] is_file[i]) is None,
    ensures
        queues_fault(queues, is_file, from) is None,
    decreases queues.len() - from,
{
    if from < queues.len() {
        assert(queue_fault(queues, from, is_file[from]) is None);
        lemma_queues_without_fault(queues, is_file, from + 1);
    }
}

/// A configuration is accepted exactly if each of its parts is, requests and
/// workers are taken at different addresses, and every queue has a name of its
/// own that is not blank, a positive timeout, and workers that can be run where
/// the service runs them.
pub proof fn accepted_configurations_are_sound(
    config: AppConfig,
    cleanup: Option<Seq<char>>,
    is_file: Seq<bool>,
)
    requires
        is_file.len() == config.queues@.len(),
    ensures
        config.fault(cleanup, is_file) is None <==> {
            &&& write_fault(config.persistence.writes()) is None
            &&& dispatch_fault(config.dispatch.asked()) is None
            &&& docker_fault(config.docker) is None
            &&& cleanup is None
            &&& config.listen_address() != config.worker_address()
            &&& forall|i: int, j: int|
                0 <= i < j < config.queues@.len() ==> (#[trigger] config.queues@[i]).name@ != (
                #[trigger] config.queues@[j]).name@
            &&& forall|i: int|
                0 <= i < config.queues@.len() ==> {
                    let queue = #[trigger] config.queues@[i];
                    &&& trimmed(queue.name@).len() > 0
                    &&& queue.timeout_secs > 0
                    &&& queue.managed_config is Some ==> managed_fault(
                        queue.name@,
                        queue.managed_config->Some_0,
                        is_file[i],
                    ) is None
                }
        },
{
    let queues = config.queues@;
    if config.fault(cleanup, is_file) is None {
        accepted_queues_are_sound(config, cleanup, is_file);
        assert forall|i: int| 0 <= i < queues.len() implies {
            let queue = #[trigger] queues[i];
            &&& trimmed(queue.name@).len() > 0
            &&& queue.timeout_secs > 0
            &&& queue.managed_config is Some ==> managed_fault(
                queue.name@,
                queue.managed_config->Some_0,
                is_file[i],
            ) is None
        } by {
            lemma_no_queue_at_fault(queues, is_file, 0, i);
        }
    } else if write_fault(config.persistence.writes()) is None && dispatch_fault(
        config.dispatch.asked(),
    ) is None && docker_fault(config.docker) is None && cleanup is None && config.listen_address()
        != config.worker_address() {
        if (forall|i: int, j: int|
            0 <= i < j < queues.len() ==> (#[trigger] queues[i]).name@ != (
            #[trigger] queues[j]).name@) && (forall|i: int|
            0 <= i < queues.len() ==> {
                let queue = #[trigger] queues[i];
                &&& trimmed(queue.name@).len() > 0
                &&& queue.timeout_secs > 0
                &&& queue.managed_config is Some ==> managed_fault(
                    queue.name@,
                    queue.managed_config->Some_0,
                    is_file[i],
                ) is None
            }) {
            assert forall|i: int| 0 <= i < queues.len() implies queue_fault(
                queues,
                i,
                #[trigger] is_file[i],
            ) is None by {
                let queue = queues[i];
                assert(trimmed(queue.name@).len() > 0);
                if name_is_taken(queues, i) {
                    let k = choose|k: int|
                        0 <= k < i && (#[trigger] queues[k]).name@ == queues[i].name@;
                    assert(queues[k].name@ != queues[i].name@);
                }
            }
            lemma_queues_without_fault(queues, is_file, 0);
        }
    }
}

} // verus!
