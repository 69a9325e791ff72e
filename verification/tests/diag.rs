use hpc::diag::proc::{
    parse_diskstats, parse_meminfo, parse_mounts, parse_net_dev, parse_version, KernelInfo,
    MemInfo, MountEntry,
};
use hpc::diag::report::{detect_anomalies, DiagReport, DiagnosticBundle, HostInfo, PlatformInfo, Severity};
use hpc::diag::{collect, collect_with_reports, distinct_fs_types, ProcSources};

fn unreadable_host() -> ProcSources {
    ProcSources {
        meminfo: Err("No such file or directory".to_string()),
        diskstats: Err("No such file or directory".to_string()),
        net_dev: Err("No such file or directory".to_string()),
        mounts: Err("No such file or directory".to_string()),
        version: Err("No such file or directory".to_string()),
        host: HostInfo { hostname: "h".to_string(), os: "macos".to_string(), arch: "aarch64".to_string() },
    }
}

#[test]
fn contributed_reports_are_embedded() {
    let report = DiagReport::error("hpc-agent", "panic", "executor thread panicked")
        .with_context("node", "compute-07");
    let bundle = collect_with_reports(vec![report], unreadable_host());
    assert!(bundle
        .reports
        .iter()
        .any(|r| r.source == "hpc-agent" && r.kind == "panic"));
}

#[test]
fn meminfo_parses_known_keys() {
    let text = "\
MemTotal:       16333764 kB
MemFree:         1200000 kB
MemAvailable:    8000000 kB
Buffers:          250000 kB
Cached:          3000000 kB
SwapTotal:       2097148 kB
SwapFree:        2097148 kB
Hugepagesize:       2048 kB";
    let m = parse_meminfo(text);
    assert_eq!(m.mem_total_kb, 16_333_764);
    assert_eq!(m.mem_available_kb, 8_000_000);
    assert_eq!(m.swap_total_kb, 2_097_148);
    let available_fraction = m.mem_available_kb as f64 / m.mem_total_kb as f64;
    assert!((available_fraction - 0.4898).abs() < 0.01);
}

#[test]
fn diskstats_extracts_device_counters() {
    let text = "\
   8       0 sda 100 0 2000 30 200 0 4000 60 0 90 90
 259       0 nvme0n1 5 0 40 1 6 0 80 2 0 3 3";
    let stats = parse_diskstats(text);
    assert_eq!(stats.len(), 2);
    assert_eq!(stats[0].device, "sda");
    assert_eq!(stats[0].reads_completed, 100);
    assert_eq!(stats[0].sectors_read, 2000);
    assert_eq!(stats[1].device, "nvme0n1");
    assert_eq!(stats[1].sectors_written, 80);
}

#[test]
fn net_dev_skips_headers_and_parses_rows() {
    let text = "\
Inter-|   Receive                                                |  Transmit
 face |bytes    packets errs drop fifo frame compressed multicast|bytes    packets errs drop fifo colls carrier compressed
    lo: 1000000     100    0    0    0     0          0         0  1000000     100    0    0    0     0       0          0
  eth0: 500000     400    2    0    0     0          0         0   750000     500    7    0    0     0       0          0";
    let devs = parse_net_dev(text);
    assert_eq!(devs.len(), 2);
    assert_eq!(devs[1].interface, "eth0");
    assert_eq!(devs[1].rx_bytes, 500_000);
    assert_eq!(devs[1].rx_errs, 2);
    assert_eq!(devs[1].tx_bytes, 750_000);
    assert_eq!(devs[1].tx_errs, 7);
}

#[test]
fn mounts_split_options() {
    let text = "\
/dev/sda1 / ext4 rw,relatime 0 0
tmpfs /run tmpfs rw,nosuid,nodev,mode=755 0 0";
    let mounts = parse_mounts(text);
    assert_eq!(mounts.len(), 2);
    assert_eq!(mounts[0].fs_type, "ext4");
    assert!(mounts[0].options.contains(&"relatime".to_string()));
    assert_eq!(mounts[1].fs_type, "tmpfs");
    assert!(mounts[1].options.contains(&"nosuid".to_string()));
}

#[test]
fn version_isolates_release_and_pair() {
    let k = parse_version("Linux version 6.5.0-15-generic (buildd@lcy02) (gcc 13) #15-Ubuntu SMP");
    assert_eq!(k.release, "6.5.0-15-generic");
    assert_eq!(k.version_pair(), Some((6, 5)));
}

fn plat(kernel_release: &str, fs: &[&str]) -> PlatformInfo {
    PlatformInfo {
        kernel: KernelInfo {
            raw: format!("Linux version {kernel_release}"),
            release: kernel_release.to_string(),
        },
        filesystems: fs.iter().map(|s| s.to_string()).collect(),
        mounts: Vec::new(),
    }
}

#[test]
fn flags_memory_pressure() {
    let mem = MemInfo {
        mem_total_kb: 1000,
        mem_available_kb: 50,
        ..Default::default()
    };
    let a = detect_anomalies(Some(&mem), &plat("6.5.0", &["ext4"]));
    assert!(a.iter().any(|x| x.category == "memory_pressure"));
}

#[test]
fn flags_old_kernel() {
    let a = detect_anomalies(None, &plat("4.19.0", &["ext4"]));
    assert!(a
        .iter()
        .any(|x| x.category == "old_kernel" && x.severity == Severity::Warning));
}

#[test]
fn modern_kernel_is_not_flagged_old() {
    let a = detect_anomalies(None, &plat("6.5.0", &["ext4"]));
    assert!(!a.iter().any(|x| x.category == "old_kernel"));
}

#[test]
fn flags_heterogeneous_filesystems() {
    let a = detect_anomalies(None, &plat("6.5.0", &["ext4", "xfs", "tmpfs"]));
    assert!(a.iter().any(|x| x.category == "heterogeneous_filesystems"));
}

#[test]
fn report_builder_attaches_context() {
    let r = DiagReport::error("hpc-daemon", "grpc_disconnect", "peer went away")
        .with_context("node", "storage-01");
    assert_eq!(r.severity, Severity::Error);
    assert_eq!(r.context.get("node").map(String::as_str), Some("storage-01"));
}

// ---------------------------------------------------------------------------

#[test]
fn unreadable_sources_each_leave_a_note() {
    let bundle = collect(unreadable_host());
    assert_eq!(bundle.schema_version, DiagnosticBundle::SCHEMA_VERSION);
    assert_eq!(bundle.reports.len(), 5);
    let paths = ["/proc/meminfo", "/proc/diskstats", "/proc/net/dev", "/proc/mounts", "/proc/version"];
    for (r, p) in bundle.reports.iter().zip(paths.iter()) {
        assert_eq!(r.source, "hpc-diag");
        assert_eq!(r.severity, Severity::Warning);
        assert_eq!(r.kind, "collector_unavailable");
        assert_eq!(r.message, format!("could not read {p}: No such file or directory"));
        assert_eq!(r.context.get("source").map(String::as_str), Some(*p));
    }
    assert!(bundle.memory.is_none());
    assert!(bundle.disks.is_empty());
    assert!(bundle.network.is_empty());
    assert_eq!(bundle.platform.kernel.release, "");
    assert!(bundle.anomalies.is_empty());
}

#[test]
fn readable_sources_are_parsed_into_the_bundle() {
    let sources = ProcSources {
        meminfo: Ok("MemTotal: 1000 kB\nMemAvailable: 50 kB\n".to_string()),
        diskstats: Ok("   8 0 sda 1 0 2 0 3 0 4 0 0 0 0\n".to_string()),
        net_dev: Err("denied".to_string()),
        mounts: Ok("/dev/sda1 / ext4 ro,relatime 0 0\ntmpfs /var tmpfs rw 0 0\n".to_string()),
        version: Ok("Linux version 4.19.0-1 (x)\n".to_string()),
        host: HostInfo::default(),
    };
    let report = DiagReport::warning("hpc-cli", "note", "first");
    let bundle = collect_with_reports(vec![report], sources);
    assert_eq!(bundle.reports.len(), 2);
    assert_eq!(bundle.reports[0].source, "hpc-cli");
    assert_eq!(bundle.reports[1].message, "could not read /proc/net/dev: denied");
    let mem = bundle.memory.expect("memory");
    assert_eq!(mem.mem_total_kb, 1000);
    assert_eq!(bundle.disks.len(), 1);
    assert_eq!(bundle.disks[0].sectors_written, 4);
    assert_eq!(bundle.platform.kernel.release, "4.19.0-1");
    assert_eq!(bundle.platform.filesystems, vec!["ext4".to_string(), "tmpfs".to_string()]);
    let cats: Vec<&str> = bundle.anomalies.iter().map(|a| a.category.as_str()).collect();
    assert_eq!(
        cats,
        vec![
            "memory_pressure",
            "no_swap",
            "old_kernel",
            "heterogeneous_filesystems",
            "root_read_only",
            "ephemeral_state_dir"
        ]
    );
    assert_eq!(bundle.anomalies[0].severity, Severity::Error);
    assert_eq!(
        bundle.anomalies[0].detail,
        "only 5.0% of memory available; latency spikes, allocator failures and OOM kills are plausible here"
    );
    assert_eq!(bundle.anomalies[5].detail, "/var is tmpfs (ephemeral); state written there is lost on reboot");
}

#[test]
fn memory_pressure_boundary_is_one_tenth() {
    let at = MemInfo { mem_total_kb: 1000, mem_available_kb: 100, swap_total_kb: 1, ..Default::default() };
    let below = MemInfo { mem_total_kb: 1000, mem_available_kb: 99, swap_total_kb: 1, ..Default::default() };
    let zero_total = MemInfo { swap_total_kb: 1, ..Default::default() };
    let p = plat("6.5.0", &["ext4"]);
    assert!(detect_anomalies(Some(&at), &p).is_empty());
    let a = detect_anomalies(Some(&below), &p);
    assert_eq!(a.len(), 1);
    assert_eq!(a[0].category, "memory_pressure");
    let expected = format!(
        "only {:.1}% of memory available; latency spikes, allocator failures and OOM kills are plausible here",
        99.0_f64 / 1000.0 * 100.0
    );
    assert_eq!(a[0].detail, expected);
    assert!(detect_anomalies(Some(&zero_total), &p).is_empty());
    let no_swap = detect_anomalies(Some(&MemInfo::default()), &p);
    assert_eq!(no_swap.len(), 1);
    assert_eq!(no_swap[0].category, "no_swap");
    assert_eq!(no_swap[0].severity, Severity::Info);
}

#[test]
fn kernel_five_one_is_not_old_but_five_zero_is() {
    assert!(detect_anomalies(None, &plat("5.1.0", &[])).is_empty());
    let a = detect_anomalies(None, &plat("5.0.21", &[]));
    assert_eq!(a.len(), 1);
    assert_eq!(a[0].category, "old_kernel");
    assert!(detect_anomalies(None, &plat("garbage", &[])).is_empty());
}

#[test]
fn distinct_fs_types_are_sorted_and_unique() {
    let m = |fs: &str| MountEntry {
        device: "d".to_string(),
        mount_point: "/m".to_string(),
        fs_type: fs.to_string(),
        options: vec![],
    };
    let fs = distinct_fs_types(&vec![m("xfs"), m("ext4"), m("xfs"), m("btrfs")]);
    assert_eq!(fs, vec!["btrfs".to_string(), "ext4".to_string(), "xfs".to_string()]);
}

#[test]
fn version_pair_needs_two_numeric_components() {
    assert_eq!(parse_version("Linux version 6").version_pair(), None);
    assert_eq!(parse_version("Linux version x.5").version_pair(), None);
    assert_eq!(parse_version("Linux version 10.12-rc1").version_pair(), Some((10, 12)));
    let k = parse_version("  something else  ");
    assert_eq!(k.raw, "something else");
    assert_eq!(k.release, "");
}

#[test]
fn meminfo_ignores_malformed_lines() {
    let m = parse_meminfo("MemTotal: abc kB\nMemFree 12 kB\nSwapFree:  7 kB\n");
    assert_eq!(m.mem_total_kb, 0);
    assert_eq!(m.mem_free_kb, 0);
    assert_eq!(m.swap_free_kb, 7);
}

#[test]
fn short_diskstats_rows_are_skipped() {
    let stats = parse_diskstats("8 0 sda 1 2 3\n\n 8 1 sda1 1 0 2 0 3 0 4 0\n");
    assert_eq!(stats.len(), 1);
    assert_eq!(stats[0].device, "sda1");
    assert_eq!(stats[0].writes_completed, 3);
}

#[test]
fn counters_accept_a_leading_plus_like_from_str() {
    let stats = parse_diskstats("8 0 sda +7 0 +8 0 9 0 10 0\n");
    assert_eq!(stats[0].reads_completed, 7);
    assert_eq!(stats[0].sectors_read, 8);
    let bad = parse_diskstats("8 0 sda -7 0 ++8 0 9 0 99999999999999999999 0\n");
    assert_eq!(bad[0].reads_completed, 0);
    assert_eq!(bad[0].sectors_read, 0);
    assert_eq!(bad[0].sectors_written, 0);
}

#[test]
fn collect_always_yields_serializable_bundle() {
    let bundle = collect(unreadable_host());
    assert_eq!(bundle.schema_version, DiagnosticBundle::SCHEMA_VERSION);
    assert_eq!(bundle.reports.len(), 5);
    assert!(bundle.reports.iter().all(|r| r.kind == "collector_unavailable"));
}

#[test]
fn memory_share_rounds_halves_to_even() {
    let p = plat("6.5.0", &["ext4"]);
    let detail = |total: u64, avail: u64| {
        let m = MemInfo { mem_total_kb: total, mem_available_kb: avail, swap_total_kb: 1, ..Default::default() };
        detect_anomalies(Some(&m), &p)[0].detail.clone()
    };
    assert!(detail(400, 1).starts_with("only 0.2% "));
    assert!(detail(16, 1).starts_with("only 6.2% "));
    assert!(detail(80, 1).starts_with("only 1.2% "));
    assert!(detail(3, 0).starts_with("only 0.0% "));
}

#[test]
fn context_replaces_a_repeated_key() {
    let r = DiagReport::error("hpc-daemon", "grpc_disconnect", "peer went away")
        .with_context("node", "storage-01")
        .with_context("attempt", "3")
        .with_context("node", "storage-02");
    assert_eq!(r.context.len(), 2);
    assert_eq!(r.context.get("node").map(String::as_str), Some("storage-02"));
    assert_eq!(r.context.get("attempt").map(String::as_str), Some("3"));
    assert_eq!(r.context.get("missing"), None);
    let c = r.context.clone();
    assert_eq!(c.pairs(), &vec![("node".to_string(), "storage-02".to_string()), ("attempt".to_string(), "3".to_string())]);
}
