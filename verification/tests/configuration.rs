use maqistor::config::schedule::{
    can_be_summed, cleanup_cutoff, is_due_at, judge_cleanup, read_setting, CleanupConfig,
    TimeOfDay, VacuumConfig,
};
use maqistor::config::{
    AppConfig, BatchConfig, DispatchConfig, DockerConfig, ManagedConfig, PersistenceConfig,
    QueueConfig, StartupPolicy, WorkerTlsConfig,
};
use maqistor::persistence::options::{DurabilityMode, Factor};
use maqistor::span::Span;

fn config() -> AppConfig {
    AppConfig {
        listen: None,
        worker_listen: None,
        worker_tls: WorkerTlsConfig {
            ca_cert_path: "ca.pem".into(),
            cert_path: "server.pem".into(),
            key_path: "server.key".into(),
        },
        docker: DockerConfig::default(),
        persistence: PersistenceConfig::default(),
        dispatch: DispatchConfig::default(),
        queues: vec![],
    }
}

fn queue(name: &str) -> QueueConfig {
    QueueConfig {
        name: name.into(),
        max_retries: 3,
        timeout_secs: 60,
        managed_config: None,
    }
}

fn managed(image: &str, replicas: u32) -> ManagedConfig {
    ManagedConfig {
        image: image.into(),
        replicas,
        env_file: None,
        env_vars: None,
    }
}

fn validate(config: &AppConfig) -> Result<(), String> {
    let is_file = vec![true; config.queues.len()];
    let found = config.validate_if_readable(&is_file).unwrap();
    assert_eq!(found, config.validate(&is_file));
    found
}

fn factor(value: f64) -> Option<Factor> {
    Some(Factor {
        bits: value.to_bits(),
    })
}

fn cleanup(interval: &str, retention: &str) -> AppConfig {
    let mut config = config();
    config.persistence.cleanup = Some(CleanupConfig {
        interval: interval.into(),
        retention: retention.into(),
        vacuum: None,
    });
    config
}

fn docker(endpoint: Option<&str>, tls: bool) -> AppConfig {
    let mut config = config();
    config.docker.endpoint = endpoint.map(Into::into);
    if tls {
        config.docker.ca_cert_path = Some("ca.pem".into());
        config.docker.cert_path = Some("cert.pem".into());
        config.docker.key_path = Some("key.pem".into());
    }
    config
}

#[test]
fn defaults_hide_adaptive_details() {
    let mut config = config();
    config.queues.push(queue("email"));
    let options = config.persistence.write_options().expect("options");
    assert_eq!(options.enqueue.ewma_window, 16);
    assert_eq!(options.durability, DurabilityMode::Off);
    assert_eq!(options.completion.batch_wait_max, Span::from_millis(20));
}

#[test]
fn custom_limits_and_window_are_applied() {
    let mut config = config();
    config.persistence.enqueue = BatchConfig {
        batch_size_min: Some(4),
        batch_size_max: Some(32),
        batch_wait_min_ms: Some(2),
        batch_wait_max_ms: Some(20),
        ewma_window: Some(8),
        batch_probe_factor: factor(1.2),
        batch_backoff_factor: factor(0.7),
    };
    config.persistence.completion.batch_wait_max_ms = Some(10);
    config.dispatch = DispatchConfig {
        batch_size_max: Some(2048),
        max_delivery_in_flight: Some(64),
        idle_probe_interval_ms: Some(250),
        idle_probe_batch_size: Some(12),
    };
    let options = config.persistence.write_options().expect("options");
    assert_eq!(options.enqueue.ewma_window, 8);
    assert_eq!(options.enqueue.batch_size_min, 4);
    assert_eq!(options.enqueue.batch_size_max, 32);
    assert_eq!(options.enqueue.batch_wait_min, Span::from_millis(2));
    assert_eq!(options.enqueue.batch_wait_max, Span::from_millis(20));
    assert_eq!(f64::from_bits(options.enqueue.batch_probe_factor.bits), 1.2);
    assert_eq!(options.completion.batch_wait_max, Span::from_millis(10));
    assert_eq!(config.dispatch.options().unwrap().batch_size_max, 2048);
    assert_eq!(
        config.dispatch.options().unwrap().idle_probe_interval,
        Span::from_millis(250)
    );
    assert_eq!(config.dispatch.options().unwrap().idle_probe_batch_size, 12);

    let mut legacy = self::config();
    legacy.dispatch.max_delivery_in_flight = Some(32);
    assert_eq!(legacy.dispatch.options().unwrap().max_delivery_in_flight, 32);
}

#[test]
fn rejects_retired_batching_knobs_and_invalid_limits() {
    let mut config = config();
    config.persistence.enqueue.ewma_window = Some(0);
    config.persistence.enqueue.batch_size_min = Some(8);
    config.persistence.enqueue.batch_size_max = Some(4);
    assert!(validate(&config).is_err());

    let mut invalid_adaptation = self::config();
    invalid_adaptation.persistence.completion.batch_probe_factor = factor(1.0);
    invalid_adaptation.persistence.completion.batch_backoff_factor = factor(1.0);
    assert!(validate(&invalid_adaptation).is_err());

    let mut zero_probe = self::config();
    zero_probe.dispatch.idle_probe_interval_ms = Some(0);
    zero_probe.dispatch.idle_probe_batch_size = Some(0);
    assert!(zero_probe.dispatch.options().is_err());
}

#[test]
fn parses_strict_durability_and_preserve_startup_policy() {
    let mut config = config();
    config.persistence.durability = DurabilityMode::Strict;
    config.persistence.startup = StartupPolicy::Preserve;
    assert_eq!(config.persistence.durability, DurabilityMode::Strict);
    assert_eq!(config.persistence.startup, StartupPolicy::Preserve);
    assert_eq!(
        config.persistence.write_options().unwrap().durability,
        DurabilityMode::Strict
    );
    assert_eq!(PersistenceConfig::default().startup, StartupPolicy::Recover);
}

#[test]
fn validates_cleanup_interval_and_retention() {
    assert!(validate(&cleanup("1h", "7d")).is_ok());
    assert!(validate(&cleanup("nope", "7d")).is_err());
    assert!(validate(&cleanup("1h", "0s")).is_err());
}

#[test]
fn database_paths_live_under_persistence() {
    let defaults = config();
    assert_eq!(
        defaults.persistence.ingest_database_path(),
        "./data/maqistor-ingest.db"
    );
    assert_eq!(
        defaults.persistence.results_database_path(),
        "./data/maqistor-results.db"
    );

    let mut config = config();
    config.persistence.ingest_database = Some("./data/ingest.db".into());
    config.persistence.results_database = Some("./data/results.db".into());
    assert_eq!(config.persistence.ingest_database_path(), "./data/ingest.db");
    assert_eq!(
        config.persistence.results_database_path(),
        "./data/results.db"
    );

    let mut derived = self::config();
    derived.persistence.ingest_database = Some("./bench/maqistor-ingest.db".into());
    assert!(derived
        .persistence
        .results_database_path()
        .replace('\\', "/")
        .ends_with("maqistor-results.db"));
    assert_eq!(
        derived.persistence.results_database_path(),
        "./bench/maqistor-results.db"
    );
}

#[test]
fn docker_section_defaults_and_parses_endpoint() {
    let defaults = config();
    assert_eq!(defaults.docker, DockerConfig::default());
    assert!(!defaults.has_managed_queues());
    assert!(validate(&defaults).is_ok());

    let remote = docker(Some("tcp://192.168.1.10:2375"), false);
    assert_eq!(
        remote.docker.endpoint.as_deref(),
        Some("tcp://192.168.1.10:2375")
    );
    assert!(validate(&remote).is_ok());

    let local = docker(Some("unix:///var/run/docker.sock"), false);
    assert!(validate(&local).is_ok());
}

#[test]
fn docker_tls_requires_explicit_mtls_paths() {
    let mut partial = docker(Some("tcp://192.168.1.10:2376"), false);
    partial.docker.ca_cert_path = Some("ca.pem".into());
    assert!(validate(&partial).is_err());

    assert!(validate(&docker(None, true)).is_err());
    assert!(validate(&docker(Some("unix:///var/run/docker.sock"), true)).is_err());
    assert!(validate(&docker(Some("https://docker.example:2376"), false)).is_err());
    assert!(validate(&docker(Some("http://docker.example:2376"), true)).is_err());

    let ok = docker(Some("tcp://192.168.1.10:2376"), true);
    assert!(validate(&ok).is_ok());
    assert_eq!(
        ok.docker.connect_options().endpoint.as_deref(),
        Some("tcp://192.168.1.10:2376")
    );
    assert!(validate(&docker(Some("https://docker.example:2376"), true)).is_ok());
}

#[test]
fn rejects_unsupported_docker_endpoint_scheme() {
    assert!(validate(&docker(Some("ssh://host"), false)).is_err());
}

#[test]
fn has_managed_queues_detects_managed_config() {
    let mut config = config();
    let mut email = queue("email");
    email.managed_config = Some(managed("ghcr.io/example/email:1.0.0", 2));
    config.queues.push(email);
    assert!(config.has_managed_queues());
    assert!(validate(&config).is_ok());
}

#[test]
fn cleanup_faults_are_named() {
    let fault = |interval: &str, retention: &str| {
        validate(&cleanup(interval, retention)).unwrap_err()
    };
    assert_eq!(fault(" ", "1d"), "cleanup.interval must be set");
    assert_eq!(fault("1d", "\t"), "cleanup.retention must be set");
    assert_eq!(fault("0s", "1d"), "cleanup.interval must be greater than zero");
    assert_eq!(fault("1s", "0s"), "cleanup.retention must be greater than zero");
    assert_eq!(fault("1s", "99999999999y"), "cleanup.retention is too large");
    assert!(fault("5x", "1d").starts_with("invalid cleanup.interval \"5x\": unknown time unit"));
    assert!(fault("1s", "x").starts_with("invalid cleanup.retention \"x\": expected number"));
    assert_eq!(
        judge_cleanup("a", "b", Ok(Span::from_secs(1)), Err("why".into())),
        Err("why".into())
    );
}

#[test]
fn lengths_of_time_are_read() {
    let config = CleanupConfig {
        interval: "2h 37min".into(),
        retention: "4.2s".into(),
        vacuum: None,
    };
    assert_eq!(config.interval(), Ok(Span::from_secs(9420)));
    assert_eq!(config.retention(), Ok(Span::from_millis(4200)));
    assert!(config.vacuum().is_none());
    let read = |text: &str| {
        assert!(can_be_summed(text));
        CleanupConfig {
            interval: text.into(),
            retention: "1d".into(),
            vacuum: None,
        }
        .interval()
    };
    assert_eq!(read("10000000000000ms 1s"), Ok(Span::from_secs(10_000_000_001)));
    assert_eq!(
        read("18446744073709551615s 999ms"),
        Ok(Span {
            nanos: 18_446_744_073_709_551_615_999_000_000
        })
    );
    assert!(read("18446744073709551615s 1001ms").is_err());
    assert!(read("18446744073709551615s 1s").is_err());
    assert!(read("1 wk 2.5hr\u{2003}3 M4us").is_ok());
    assert!(validate(&cleanup("10000000000000ms 1s", "7d")).is_ok());
    assert_eq!(read_setting("a.b", "c", Ok(7)), Ok(Span { nanos: 7 }));
    assert_eq!(
        read_setting("a.b", "c", Err("d".into())),
        Err("invalid a.b \"c\": d".into())
    );
}

#[test]
fn sums_that_run_over_are_not_read() {
    assert!(can_be_summed("1000000000000000ns"));
    assert!(can_be_summed("30days 12hours 30min 15s 500ms"));
    assert!(can_be_summed("100days 12hours 30min 15sec 500ms 250us 100ns"));
    assert!(can_be_summed("1y 499999999999ms 1ns"));
    assert!(can_be_summed("10000000000000ms 1s"));
    assert!(can_be_summed("18446744073709551615s 999ms"));
    assert!(can_be_summed("18446744073709551615s 1001ms"));
    assert!(can_be_summed("18446744073709551615s 1s"));
    assert!(can_be_summed("18446744073709551616s 1000ms"));
    assert!(can_be_summed("18446744073709551615s,1000ms"));
    assert!(can_be_summed("18446744073709551615seconds 1000 m s"));
    assert!(!can_be_summed("18446744073709551615s 1000000000ns"));
    assert!(!can_be_summed("18446744073709551615s1000ms"));
    assert!(!can_be_summed("18446744073709551614s 1s 0.5s 500000\u{b5}s 1 nothing"));

    let overrun = "18446744073709551615s 1000ms";
    assert_eq!(cleanup("1h", overrun).validate_if_readable(&vec![]), None);
    assert_eq!(cleanup(overrun, "1h").validate_if_readable(&vec![]), None);
    assert_eq!(
        validate(&cleanup(" ", overrun)),
        Err("cleanup.interval must be set".into())
    );
    assert!(validate(&cleanup("5x", overrun))
        .unwrap_err()
        .starts_with("invalid cleanup.interval"));
    let mut broken = cleanup(overrun, overrun);
    broken.dispatch.batch_size_max = Some(0);
    assert!(validate(&broken).is_err());
    assert_eq!(vacuum(overrun, "03:00").is_due_if_readable(None), None);
    assert!(matches!(
        vacuum(overrun, "nonsense").is_due_if_readable(None),
        Some(Err(_))
    ));
}

fn vacuum(every: &str, at: &str) -> VacuumConfig {
    VacuumConfig {
        every: every.into(),
        at: at.into(),
    }
}

#[test]
fn times_of_the_day_are_read() {
    let time = |at: &str| vacuum("1d", at).at().map(|time| (time.secs, time.nanos));
    assert_eq!(time("03:00"), Ok((10_800, 0)));
    assert_eq!(time(" 03:30 "), Ok((12_600, 0)));
    assert_eq!(time("03:00:00 +02"), Ok((3_600, 0)));
    assert_eq!(time("03:00:00-02"), Ok((18_000, 0)));
    assert_eq!(time("01:00:00+02"), Ok((82_800, 0)));
    assert!(time("03:00 +02").is_err());
    assert!(time("nonsense").is_err());
    assert_eq!(vacuum("1d", " 03:00:00 +02").stamp(), "1970-01-01T03:00:00+02:00");
    assert_eq!(vacuum("1d", "03:00").stamp(), "1970-01-01T03:00:00+00:00");
}

#[test]
fn vacuuming_is_due_after_the_spacing_and_at_its_time() {
    let at = || {
        Ok(TimeOfDay {
            secs: 10_800,
            nanos: 0,
        })
    };
    let every = || Ok(Span::from_secs(86_400));
    let due = |last, now| is_due_at(last, at(), every(), now);
    assert_eq!(due(None, (10_799, 0)), Ok(false));
    assert_eq!(due(None, (10_800, 0)), Ok(true));
    assert_eq!(due(None, (-75_600, 0)), Ok(true));
    assert_eq!(due(Some(0), (97_200, 0)), Ok(true));
    assert_eq!(due(Some(10_900_000), (97_200, 0)), Ok(false));
    assert_eq!(due(Some(i64::MAX), (97_200, 0)), Ok(false));
    assert_eq!(
        is_due_at(Some(0), at(), Ok(Span { nanos: u128::MAX }), (97_200, 0)),
        Err("vacuum.every too large".into())
    );
    assert_eq!(
        is_due_at(None, at(), Ok(Span { nanos: u128::MAX }), (97_200, 0)),
        Ok(true)
    );
    assert_eq!(
        is_due_at(None, Err("at".into()), Err("every".into()), (0, 0)),
        Err("at".into())
    );
    assert_eq!(is_due_at(None, at(), Err("every".into()), (0, 0)), Err("every".into()));
}

#[test]
fn vacuuming_is_asked_of_the_clock() {
    assert_eq!(vacuum("1s", "00:00").is_due(None), Ok(true));
    assert_eq!(vacuum("1s", "00:00").is_due(Some(0)), Ok(true));
    assert_eq!(vacuum("1s", "00:00").is_due(Some(i64::MAX)), Ok(false));
    assert!(vacuum("soon", "00:00")
        .is_due(None)
        .unwrap_err()
        .starts_with("invalid vacuum.every \"soon\": "));
}

#[test]
fn cutoffs_lie_before_now() {
    assert_eq!(cleanup_cutoff(10_000, Span::from_secs(3)), 7_000);
    assert_eq!(cleanup_cutoff(1_000, Span::from_secs(3)), 0);
}

#[test]
fn queue_faults_are_named() {
    let fault = |queues: Vec<QueueConfig>| {
        let mut config = config();
        config.queues = queues;
        validate(&config).unwrap_err()
    };
    assert_eq!(
        fault(vec![queue(" ")]),
        "queue names must be nonempty and unique"
    );
    assert_eq!(
        fault(vec![queue("a"), queue("b"), queue("a")]),
        "queue names must be nonempty and unique"
    );
    let mut slow = queue("a");
    slow.timeout_secs = 0;
    assert_eq!(fault(vec![slow]), "queue a must have a positive timeout");
    let with = |managed| {
        let mut queue = queue("a");
        queue.managed_config = Some(managed);
        vec![queue]
    };
    assert_eq!(
        fault(with(managed("img:1", 0))),
        "managed queue a requires an image and positive replicas"
    );
    assert_eq!(
        fault(with(managed("host:5000/img", 1))),
        "managed image \"host:5000/img\" must use an explicit version tag or immutable digest"
    );
    assert_eq!(
        fault(with(managed("img:latest", 1))),
        "managed image \"img:latest\" uses unsupported floating tag; use an explicit version tag or immutable digest"
    );
    let mut hollow = managed("img@sha256:abc", 1);
    hollow.env_vars = Some(vec![("A".into(), "".into())]);
    assert_eq!(fault(with(hollow)), "managed env vars must be nonempty");

    let mut filed = managed("img:1", 1);
    filed.env_file = Some("x.env".into());
    let mut config = config();
    config.queues = with(filed);
    assert_eq!(
        config.validate(&vec![false]),
        Err("managed env file \"x.env\" does not exist".into())
    );
    assert_eq!(config.validate(&vec![true]), Ok(()));
}

#[test]
fn addresses_must_differ() {
    let mut config = config();
    assert_eq!(config.listen(), "0.0.0.0:7828");
    assert_eq!(config.worker_listen(), "0.0.0.0:7829");
    config.listen = Some("0.0.0.0:7829".into());
    assert_eq!(
        validate(&config),
        Err("listen and worker_listen must differ".into())
    );
    assert_eq!(config.validate_given(Err("first".into()), &vec![]), Err("first".into()));
}

#[test]
fn docker_faults_are_named() {
    let fault = |endpoint| validate(&docker(Some(endpoint), false)).unwrap_err();
    assert_eq!(
        fault("ssh://host"),
        "docker.endpoint must use unix://, npipe://, tcp://, http://, or https://"
    );
    assert_eq!(fault("unix://"), "docker.endpoint must include a path or host");
    assert_eq!(fault("npipe://"), "docker.endpoint must include a path or host");
}

#[test]
fn environments_hold_variables_and_lines() {
    let mut config = managed("img:1", 2);
    assert_eq!(config.env(Err("unused".into())), Ok(vec![]));
    config.env_vars = Some(vec![("A".into(), "1".into()), ("B".into(), "2".into())]);
    config.env_file = Some("x.env".into());
    assert_eq!(
        config.env(Ok("C=3\r\n  D=4 \n\nE=5".into())).unwrap(),
        vec!["A=1", "B=2", "C=3", "D=4", "", "E=5"]
    );
    assert_eq!(
        config.env(Err("gone".into())),
        Err(
            "failed to read env file \"x.env\": failed to read env file \"x.env\": gone".into()
        )
    );
    let mut email = queue("email");
    assert_eq!(email.replicas(), 1);
    assert!(email.managed_queue(vec![]).is_none());
    email.managed_config = Some(config);
    assert_eq!(email.replicas(), 2);
    let run = email.managed_queue(vec!["A=1".into()]).unwrap();
    assert_eq!((run.name.as_str(), run.image.as_str(), run.replicas), ("email", "img:1", 2));
    assert_eq!(run.env, vec!["A=1"]);
    let stored = email.job_queue(9);
    assert_eq!((stored.max_retries, stored.timeout_secs, stored.created_at), (3, 60, 9));
}

#[test]
fn tls_files_are_handed_on() {
    let files = config().worker_tls.files();
    assert_eq!(files.ca_cert_path, "ca.pem");
    assert_eq!(files.cert_path, "server.pem");
    assert_eq!(files.key_path, "server.key");
}
