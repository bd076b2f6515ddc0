use perfwin::pdh::{
    classify_gpu_instance, tally_pdh_items, PdhCollectDiagnostics, PdhItem, PdhLogLevel,
};
use perfwin::sysinfo_collector::{refresh_due, SysinfoCollector, MIN_REFRESH_INTERVAL_NANOS};

#[test]
fn diagnostics_keep_first_three_samples() {
    let mut d = PdhCollectDiagnostics::default();
    assert_eq!(d.severity(), PdhLogLevel::Debug);
    for i in 0..5 {
        d.record_failure(format!("bad{}", i));
    }
    assert_eq!(d.parse_fail_count, 5);
    assert_eq!(d.sample_unparsed, vec!["bad0", "bad1", "bad2"]);
    d.raw_item_count = 5;
    assert_eq!(d.severity(), PdhLogLevel::Error);
    d.record_parsed();
    assert_eq!(d.parsed_item_count, 1);
    assert_eq!(d.severity(), PdhLogLevel::Warn);
}

#[test]
fn instance_classification() {
    let g = classify_gpu_instance("pid_7_luid_0x0_0x2a_phys_0_eng_0_engtype_Copy").unwrap();
    assert_eq!(g.pid, Some(7));
    assert_eq!(g.luid, "0x2a");
    assert_eq!(g.engine, "copy");
    assert!(classify_gpu_instance("pid_7_eng_0").is_none());
}

#[test]
fn refresh_throttle() {
    assert!(refresh_due(None));
    assert!(!refresh_due(Some(MIN_REFRESH_INTERVAL_NANOS - 1)));
    assert!(refresh_due(Some(MIN_REFRESH_INTERVAL_NANOS)));
}

#[test]
fn sysinfo_collector_reads_memory() {
    let mut c = SysinfoCollector::new();
    c.refresh();
    let info = c.get_system_info();
    assert!(info.used_memory_bytes <= info.total_memory_bytes);
    assert!(c.cpu_count() > 0);
    assert_eq!(c.cpu_count(), c.system().cpus().len());
    assert_eq!(info.total_memory_bytes, c.system().total_memory());
    assert_eq!(info.used_memory_bytes, c.system().used_memory());
}

fn item(name: &str, bad: Option<&str>) -> PdhItem {
    PdhItem { instance_name: name.to_string(), bad_value: bad.map(|b| b.to_string()) }
}

#[test]
fn snapshot_tally_counts_every_item() {
    let items = vec![
        item("pid_1_luid_0x0_0x2a_phys_0_eng_0_engtype_3D", None),
        item("pid_2_luid_0x0_0x2a_phys_0_eng_0_engtype_3D", Some("NaN")),
        item("garbage", None),
        item("luid_0x1_0x0_phys_0_eng_1_engtype_Copy", None),
        item("pid_3_luid_0x0_0x2a_phys_0_eng_0_engtype_3D", Some("-1")),
        item("also_garbage", None),
    ];
    let (d, parsed) = tally_pdh_items(&items);
    assert_eq!(d.raw_item_count, 6);
    assert_eq!(d.parsed_item_count, 2);
    assert_eq!(d.parse_fail_count, 4);
    assert_eq!(
        d.sample_unparsed,
        vec![
            "pid_2_luid_0x0_0x2a_phys_0_eng_0_engtype_3D(bad_value=NaN)",
            "garbage",
            "pid_3_luid_0x0_0x2a_phys_0_eng_0_engtype_3D(bad_value=-1)",
        ]
    );
    assert_eq!(parsed.len(), 2);
    assert_eq!(parsed[0].0, 0);
    assert_eq!(parsed[0].1.pid, Some(1));
    assert_eq!(parsed[0].1.luid, "0x2a");
    assert_eq!(parsed[1].0, 3);
    assert_eq!(parsed[1].1.pid, None);
    assert_eq!(parsed[1].1.luid, "0x100000000");
    assert_eq!(parsed[1].1.engine, "copy");
    assert_eq!(d.severity(), PdhLogLevel::Warn);
    let (empty, none) = tally_pdh_items(&Vec::new());
    assert_eq!(empty.raw_item_count, 0);
    assert!(none.is_empty());
    assert_eq!(empty.severity(), PdhLogLevel::Debug);
}

#[test]
fn snapshot_tally_counts_distinct_engine_keys() {
    let items = vec![
        item("pid_1_luid_0x0_0x2a_phys_0_eng_0_engtype_3D", None),
        item("pid_1_luid_0x0_0x2a_phys_0_eng_1_engtype_3D", None),
        item("pid_2_luid_0x0_0x2a_phys_0_eng_2_engtype_Copy", None),
        item("luid_0x0_0x2b_phys_0_eng_0_engtype_3D", None),
        item("pid_9_luid_0x0_0x2a_phys_0_eng_0_engtype_3D", Some("inf")),
    ];
    let (d, parsed) = tally_pdh_items(&items);
    assert_eq!(parsed.len(), 4);
    assert_eq!(d.process_engine_count, 2);
    assert_eq!(d.adapter_engine_count, 3);
}

#[test]
fn refresh_at_the_same_instant_is_not_due() {
    let mut c = SysinfoCollector::new();
    let now = std::time::Instant::now();
    c.refresh_at(now);
    c.refresh_at(now);
    assert!(c.cpu_count() > 0);
}
