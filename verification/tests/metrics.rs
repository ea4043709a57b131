use poison_swamp_level::classifier::classifier::{Classification, Decision, SpamReason, ValidReason};
use poison_swamp_level::config::parse::parse_config;
use poison_swamp_level::config::settings::{Config, IpAddress};
use poison_swamp_level::metrics::format::{MetricValue, append_metric_label, append_metric_value};
use poison_swamp_level::metrics::persistence::{apply_persisted_metrics, persisted_metrics};
use poison_swamp_level::metrics::procfs::{FdStat, ProcessStat, append_procfs_metrics};
use poison_swamp_level::metrics::structures::{MetricLabel, NamedHashMap};
use poison_swamp_level::metrics::{init, record_request};

fn classification(host: Option<&str>, asn: Option<u32>, decision: Decision) -> Classification {
    Classification {
        ip: None,
        host: host.map(|h| h.to_string()),
        agent: None,
        asn,
        poison: None,
        decision,
    }
}

#[test]
fn nothing_recorded_gives_no_text() {
    let metrics = init(&Config::default());
    assert_eq!(metrics.to_prometheus(), "");
    assert_eq!(metrics.persist_path(), None);
}

#[test]
fn a_valid_request_is_counted_with_its_host_and_reason() {
    let mut metrics = init(&Config::default());
    record_request(&mut metrics, classification(Some("example.com"), None, Decision::Valid(ValidReason::Default)));
    assert_eq!(
        metrics.to_prometheus(),
        "# HELP requests Number of requests\n# TYPE requests counter\nrequests{host=\"example.com\"} 1\n\
         # HELP classifications_valid Number of valid classifications\n# TYPE classifications_valid counter\n\
         classifications_valid{host=\"example.com\",reason=\"default\"} 1\n"
    );
}

#[test]
fn spam_is_counted_with_its_network() {
    let mut metrics = init(&Config::default());
    let poison = Decision::Spam(SpamReason::Poison("tarpit".to_string()));
    record_request(&mut metrics, classification(None, Some(64500), poison));
    let agent = Decision::Spam(SpamReason::UnwantedAgent("GPTBot".to_string()));
    record_request(&mut metrics, classification(None, Some(64500), agent));
    let agent = Decision::Spam(SpamReason::UnwantedAgent("GPTBot".to_string()));
    record_request(&mut metrics, classification(None, None, agent));
    assert_eq!(
        metrics.to_prometheus(),
        "# HELP requests Number of requests\n# TYPE requests counter\nrequests 3\n\
         # HELP classifications_spam Number of spam classifications\n# TYPE classifications_spam counter\n\
         classifications_spam{reason=\"poison\"} 1\nclassifications_spam{reason=\"unwanted agent\"} 2\n\
         # HELP asns_known ASNs whence originate spam\n# TYPE asns_known counter\nasns_known{asn=\"64500\"} 1\n\
         # HELP asns_hidden ASNs hiding spam\n# TYPE asns_hidden counter\nasns_hidden{asn=\"64500\"} 1\n"
    );
}

#[test]
fn trusted_decisions_count_only_as_requests() {
    let mut metrics = init(&Config::default());
    record_request(&mut metrics, classification(Some("a"), Some(1), Decision::Spam(SpamReason::TrustedDecision)));
    record_request(&mut metrics, classification(Some("a"), None, Decision::Valid(ValidReason::TrustedDecision)));
    assert_eq!(
        metrics.to_prometheus(),
        "# HELP requests Number of requests\n# TYPE requests counter\nrequests{host=\"a\"} 2\n"
    );
}

#[test]
fn reasons_of_valid_requests() {
    let mut metrics = init(&Config::default());
    record_request(&mut metrics, classification(None, None, Decision::Valid(ValidReason::TrustedIP(IpAddress::V4(1)))));
    record_request(&mut metrics, classification(None, None, Decision::Valid(ValidReason::TrustedPath("/".into()))));
    record_request(&mut metrics, classification(None, None, Decision::Valid(ValidReason::TrustedAgent("x".into()))));
    record_request(&mut metrics, classification(None, Some(7), Decision::Spam(SpamReason::UnwantedASN(7))));
    let text = metrics.to_prometheus();
    assert!(text.contains("classifications_valid{reason=\"trusted ip\"} 1\n"));
    assert!(text.contains("classifications_valid{reason=\"trusted path\"} 1\n"));
    assert!(text.contains("classifications_valid{reason=\"trusted agent\"} 1\n"));
    assert!(text.contains("classifications_spam{reason=\"unwanted ASN\"} 1\n"));
    assert!(text.contains("asns_known{asn=\"7\"} 1\n"));
}

#[test]
fn persisted_counts_load_back() {
    let mut metrics = init(&Config::default());
    record_request(&mut metrics, classification(Some("h"), Some(5), Decision::Spam(SpamReason::Poison("p".into()))));
    record_request(&mut metrics, classification(Some("h"), None, Decision::Valid(ValidReason::Default)));
    let text = metrics.to_prometheus();
    let persisted = persisted_metrics(metrics);
    assert_eq!(persisted.len(), 5);
    assert_eq!(persisted[0].0, "requests");
    assert_eq!(persisted[0].1, vec![(vec![("host".to_string(), "h".to_string())], 2u64)]);
    let mut fresh = init(&Config::default());
    apply_persisted_metrics(&mut fresh, persisted);
    assert_eq!(fresh.to_prometheus(), text);
}

#[test]
fn persisted_counts_replace_and_extend() {
    let mut metrics = init(&Config::default());
    record_request(&mut metrics, classification(Some("h"), None, Decision::Valid(ValidReason::Default)));
    let persisted = vec![
        ("requests".to_string(), vec![(vec![("host".to_string(), "h".to_string())], 10u64), (vec![], 3u64)]),
        ("requests".to_string(), vec![(vec![], 99u64)]),
        ("unknown".to_string(), vec![(vec![], 1u64)]),
    ];
    apply_persisted_metrics(&mut metrics, persisted);
    let text = metrics.to_prometheus();
    assert!(text.contains("requests{host=\"h\"} 10\nrequests 3\n"));
    assert!(!text.contains("99"));
}

#[test]
fn persist_path_comes_from_the_settings() {
    let config = parse_config("metrics {\n persist-path \"/tmp/m.json\"\n}\n").unwrap();
    assert_eq!(init(&config).persist_path().as_deref(), Some("/tmp/m.json"));
}

#[test]
fn metric_lines() {
    let mut out = String::new();
    append_metric_label(&mut out, "threads", "gauge", "Number of OS threads in the process");
    append_metric_value(&mut out, "threads", &[], MetricValue::Int(-12));
    let labels = [MetricLabel("a".into(), "1".into()), MetricLabel("b".into(), "2".into())];
    append_metric_value(&mut out, "m", &labels, MetricValue::AtomicInt(18446744073709551615));
    append_metric_value(&mut out, "f", &[], MetricValue::Float("0.25".into()));
    assert_eq!(
        out,
        "# HELP threads Number of OS threads in the process\n# TYPE threads gauge\nthreads -12\n\
         m{a=\"1\",b=\"2\"} 18446744073709551615\nf 0.25\n"
    );
}

#[test]
fn process_metrics() {
    let mut out = String::new();
    let stat = ProcessStat { num_threads: 3, vsize: 1000, rss: 2, page_size: 4096, cpu_time_seconds: "0.5".into() };
    let fds = FdStat { open: 7, max_open: Some(1024) };
    append_procfs_metrics(&mut out, Some(stat), Some(fds));
    assert_eq!(
        out,
        "# HELP threads Number of OS threads in the process\n# TYPE threads gauge\nthreads 3\n\
         # HELP vss_bytes Virtual memory size in bytes\n# TYPE vss_bytes gauge\nvss_bytes 1000\n\
         # HELP rss_bytes Resident memory size in bytes\n# TYPE rss_bytes gauge\nrss_bytes 8192\n\
         # HELP cpu_time_seconds Total user and system CPU time in seconds\n# TYPE cpu_time_seconds gauge\n\
         cpu_time_seconds 0.5\n\
         # HELP fds Number of open file descriptors\n# TYPE fds gauge\nfds{fds=\"open\"} 7\nfds{fds=\"max\"} 1024\n"
    );
    let mut out = String::new();
    append_procfs_metrics(&mut out, None, Some(FdStat { open: 1, max_open: None }));
    assert_eq!(out, "# HELP fds Number of open file descriptors\n# TYPE fds gauge\nfds{fds=\"open\"} 1\n");
}

#[test]
fn counters_count_per_label_set() {
    let mut map = NamedHashMap::new("c", "d");
    assert!(map.is_empty());
    map.increment(vec![MetricLabel("k".into(), "v".into())]);
    map.increment(vec![]);
    map.increment(vec![MetricLabel("k".into(), "v".into())]);
    assert_eq!(map.inner.len(), 2);
    assert_eq!(map.inner[0].1, 2);
    assert_eq!(map.inner[1].1, 1);
    map.insert(vec![], u64::MAX);
    map.increment(vec![]);
    assert_eq!(map.inner[1].1, 0);
}
