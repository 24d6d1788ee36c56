use xtop::collectors::counters::{CounterTable, Counters};
use xtop::collectors::cpu::{
    aggregate_times, parse_stat, parse_times, tick_delta, CpuCollector, CpuStat, CpuTimes,
};
use xtop::collectors::disk::{
    disk_is_included, is_whole_bsd_disk_name, media_is_included, parse_diskstats, parse_objset,
};
use xtop::collectors::memory::{parse_meminfo, vm_memory_figures, VmCounters};
use xtop::collectors::net::{iface_is_included, is_default_excluded, net_is_included, parse_net_dev};
use xtop::collectors::{sort_by_name, CounterReadings, DeviceDelta, History, Monitor, Readings};
use xtop::config::Config;

#[test]
fn parse_times_counts_idle_iowait_and_total() {
    let times = parse_times("10 20 30 40 5 6 7 8 9 10");

    assert_eq!(times.idle, 45);
    assert_eq!(times.total, 126);
}

#[test]
fn whole_bsd_disk_names_exclude_partitions() {
    assert!(is_whole_bsd_disk_name("disk0"));
    assert!(is_whole_bsd_disk_name("disk12"));
    assert!(!is_whole_bsd_disk_name("disk0s1"));
    assert!(!is_whole_bsd_disk_name("rdisk0"));
    assert!(!is_whole_bsd_disk_name("disk"));
}

#[test]
fn parse_objset_accepts_root_dataset_only() {
    let text = "\
dataset_name 4 tank
nread 4 1024
nwritten 4 2048
";

    assert_eq!(parse_objset(text, "tank"), Some((1024, 2048)));
}

#[test]
fn parse_objset_rejects_child_dataset() {
    let text = "\
dataset_name 4 tank/home
nread 4 1024
nwritten 4 2048
";

    assert_eq!(parse_objset(text, "tank"), None);
}

#[test]
fn default_filter_hides_macos_pseudo_interfaces() {
    assert!(is_default_excluded("lo0"));
    assert!(is_default_excluded("utun4"));
    assert!(is_default_excluded("awdl0"));
    assert!(is_default_excluded("anpi1"));
    assert!(is_default_excluded("ap1"));
    assert!(!is_default_excluded("en0"));
}

#[test]
fn parse_times_skips_words_that_are_not_numbers() {
    let times = parse_times("1 x 2 3 4 5 6 7 8");
    // values: 1 2 3 4 5 6 7 8 -> idle = 4 + 5, total = 36
    assert_eq!(times.idle, 9);
    assert_eq!(times.total, 36);
    let short = parse_times("7 8");
    assert_eq!(short.idle, 0);
    assert_eq!(short.total, 15);
}

#[test]
fn parse_stat_reads_aggregate_and_cores_until_first_other_line() {
    let stat = "cpu  10 0 10 80 0 0 0 0 0 0\ncpu0 5 0 5 40 0 0 0 0 0 0\ncpu1 5 0 5 40 0 0 0 0 0 0\nintr 1 2 3\ncpu2 1 1 1 1\n";
    let s = parse_stat(stat).unwrap();
    assert_eq!(s.aggregate, CpuTimes { idle: 80, total: 100 });
    assert_eq!(s.cores.len(), 2);
    assert_eq!(s.cores[1], CpuTimes { idle: 40, total: 50 });
}

#[test]
fn parse_stat_refuses_overflowing_sums() {
    let stat = "cpu 18446744073709551615 1 0 0 0 0 0 0\n";
    assert!(parse_stat(stat).is_none());
}

#[test]
fn tick_delta_never_goes_below_zero() {
    let d = tick_delta(CpuTimes { idle: 100, total: 200 }, CpuTimes { idle: 125, total: 300 });
    assert_eq!(d.total, 100);
    assert_eq!(d.idle, 25);
    let back = tick_delta(CpuTimes { idle: 10, total: 20 }, CpuTimes { idle: 5, total: 10 });
    assert_eq!(back.total, 0);
    assert_eq!(back.idle, 0);
}

#[test]
fn cpu_collector_compares_cores_by_position() {
    let mut c = CpuCollector::new();
    let first = c.update(CpuStat {
        aggregate: CpuTimes { idle: 100, total: 200 },
        cores: vec![CpuTimes { idle: 50, total: 100 }],
    });
    assert!(first.aggregate.is_none());
    assert_eq!(first.cores, vec![None]);
    let second = c.update(CpuStat {
        aggregate: CpuTimes { idle: 125, total: 300 },
        cores: vec![CpuTimes { idle: 60, total: 150 }, CpuTimes { idle: 1, total: 2 }],
    });
    let agg = second.aggregate.unwrap();
    assert_eq!((agg.total, agg.idle), (100, 25));
    let core0 = second.cores[0].unwrap();
    assert_eq!((core0.total, core0.idle), (50, 10));
    assert!(second.cores[1].is_none());
}

#[test]
fn meminfo_figures_are_bytes_with_used_and_swap_used() {
    let text = "MemTotal:       1000 kB\nMemFree:         100 kB\nMemAvailable:    400 kB\nSwapTotal:       200 kB\nSwapFree:        250 kB\n";
    let f = parse_meminfo(text).unwrap();
    assert_eq!(f.total, 1024000);
    assert_eq!(f.available, 409600);
    assert_eq!(f.used, 614400);
    assert_eq!(f.swap_total, 204800);
    assert_eq!(f.swap_used, 0);
}

#[test]
fn meminfo_later_lines_replace_earlier_ones() {
    let f = parse_meminfo("MemTotal: 1 kB\nMemTotal: 2 kB\n").unwrap();
    assert_eq!(f.total, 2048);
    assert_eq!(f.used, 2048);
    assert!(parse_meminfo("MemTotal: 18446744073709551615 kB\n").is_none());
}

#[test]
fn net_dev_lines_give_received_and_sent_bytes() {
    let text = "Inter-|   Receive                            |  Transmit\n face |bytes    packets errs drop fifo frame compressed multicast|bytes    packets errs drop fifo colls carrier compressed\n    lo: 100 1 0 0 0 0 0 0 200 2 0 0 0 0 0 0\n  eth0: 1500 10 0 0 0 0 0 0 2500 20 0 0 0 0 0 0\n";
    let v = parse_net_dev(text);
    assert_eq!(v.len(), 2);
    assert_eq!(v[0].name, "lo");
    assert_eq!((v[1].name.as_str(), v[1].first, v[1].second), ("eth0", 1500, 2500));
}

#[test]
fn net_filter_uses_allow_list_or_hides_loopback() {
    assert!(!net_is_included(&vec![], "lo"));
    assert!(net_is_included(&vec![], "eth0"));
    assert!(net_is_included(&vec!["lo".to_string()], "lo"));
    assert!(!net_is_included(&vec!["lo".to_string()], "eth0"));
}

#[test]
fn diskstats_lines_give_sectors_read_and_written() {
    let text = "   8       0 sda 100 0 2048 0 50 0 4096 0 0 0 0\n   7       0 loop0 1 0 8 0 0 0 0 0 0 0 0\nshort line\n";
    let v = parse_diskstats(text);
    assert_eq!(v.len(), 2);
    assert_eq!((v[0].name.as_str(), v[0].first, v[0].second), ("sda", 2048, 4096));
    assert_eq!(v[1].name, "loop0");
}

#[test]
fn disk_filter_keeps_whole_disks_only() {
    let blocks = vec!["sda".to_string(), "loop0".to_string()];
    assert!(disk_is_included(&vec![], &blocks, "sda"));
    assert!(!disk_is_included(&vec![], &blocks, "loop0"));
    assert!(!disk_is_included(&vec![], &blocks, "sda1"));
    assert!(disk_is_included(&vec!["loop0".to_string()], &blocks, "loop0"));
}

#[test]
fn counter_table_gives_change_since_previous_reading() {
    let mut t = CounterTable::new();
    assert_eq!(t.observe("eth0", 100, 200), None);
    assert_eq!(t.observe("eth0", 150, 190), Some((50, 0)));
    assert_eq!(t.observe("wlan0", 5, 5), None);
    assert_eq!(t.observe("eth0", 160, 200), Some((10, 10)));
}

#[test]
fn devices_are_listed_by_name_keeping_order_of_equal_names() {
    let ds = vec![
        DeviceDelta { name: "sdb".to_string(), delta: Some((1, 1)) },
        DeviceDelta { name: "sda".to_string(), delta: None },
        DeviceDelta { name: "sdb".to_string(), delta: Some((2, 2)) },
        DeviceDelta { name: "nvme0n1".to_string(), delta: None },
    ];
    let out = sort_by_name(ds);
    let names: Vec<&str> = out.iter().map(|d| d.name.as_str()).collect();
    assert_eq!(names, vec!["nvme0n1", "sda", "sdb", "sdb"]);
    assert_eq!(out[2].delta, Some((1, 1)));
    assert_eq!(out[3].delta, Some((2, 2)));
}

#[test]
fn history_keeps_newest_samples() {
    let mut h: History<u64> = History::new(3);
    for v in 1..=5u64 {
        h.push(v);
    }
    assert_eq!(h.to_vec(), vec![3, 4, 5]);
    let mut z: History<u64> = History::new(0);
    z.push(1);
    z.push(2);
    assert_eq!(z.to_vec(), vec![2]);
}

#[test]
fn monitor_reports_changes_between_ticks() {
    let config = Config::load_profile(None).unwrap();
    let mut m = Monitor::new(&config);
    assert_eq!(m.history(), 240);
    let readings = |rx: u64, sectors: u64| Readings {
        stat: "cpu 10 0 10 80 0 0 0 0\ncpu0 10 0 10 80 0 0 0 0\n".to_string(),
        meminfo: "MemTotal: 10 kB\nMemAvailable: 4 kB\n".to_string(),
        diskstats: format!("8 0 sda 1 0 {sectors} 0 1 0 {sectors} 0 0 0 0\n"),
        block_devices: vec!["sda".to_string()],
        zfs_pools: vec![Counters { name: "tank".to_string(), first: rx, second: rx }],
        net_dev: format!("lo: 1 0 0 0 0 0 0 0 1 0\neth0: {rx} 0 0 0 0 0 0 0 {rx} 0\n"),
    };
    let first = m.update(&readings(100, 10)).unwrap();
    assert!(first.cpu.aggregate.is_none());
    assert_eq!(first.memory.used, 6 * 1024);
    let disk: Vec<&str> = first.disk.iter().map(|d| d.name.as_str()).collect();
    assert_eq!(disk, vec!["sda", "zfs:tank"]);
    assert_eq!(first.net.len(), 1);
    assert_eq!(first.net[0].delta, None);
    let second = m.update(&readings(350, 30)).unwrap();
    assert_eq!(second.net[0].name, "eth0");
    assert_eq!(second.net[0].delta, Some((250, 250)));
    assert_eq!(second.disk[0].delta, Some((20, 20)));
    assert_eq!(second.disk[1].delta, Some((250, 250)));
}

#[test]
fn aggregate_times_sums_cores() {
    let cores = vec![CpuTimes { idle: 5, total: 20 }, CpuTimes { idle: 7, total: 30 }];
    let t = aggregate_times(&cores);
    assert_eq!((t.idle, t.total), (12, 50));
    let none = aggregate_times(&Vec::new());
    assert_eq!((none.idle, none.total), (0, 0));
}

fn vm(free: u64, inactive: u64, speculative: u64) -> VmCounters {
    VmCounters {
        total: 100_000,
        page_size: 4096,
        free_pages: free,
        inactive_pages: inactive,
        speculative_pages: speculative,
        swap_total: 2048,
        swap_used: 1024,
    }
}

#[test]
fn vm_figures_count_free_inactive_and_speculative_pages() {
    let f = vm_memory_figures(vm(3, 2, 1)).unwrap();
    assert_eq!(f.available, 6 * 4096);
    assert_eq!(f.used, 100_000 - 6 * 4096);
    assert_eq!((f.swap_total, f.swap_used), (2048, 1024));
    // Never more available than there is memory.
    let full = vm_memory_figures(vm(100, 0, 0)).unwrap();
    assert_eq!((full.available, full.used), (100_000, 0));
    // A product that overflows saturates before the cap.
    let huge = vm_memory_figures(VmCounters { page_size: u64::MAX, ..vm(2, 0, 0) }).unwrap();
    assert_eq!(huge.available, 100_000);
    assert!(vm_memory_figures(vm(u64::MAX, 1, 0)).is_none());
}

#[test]
fn media_filter_keeps_written_whole_disks() {
    let none: Vec<String> = Vec::new();
    assert!(media_is_included(&none, "disk0", 10));
    assert!(!media_is_included(&none, "disk0", 0));
    assert!(!media_is_included(&none, "disk0s1", 10));
    let allow = vec!["disk3s1".to_string()];
    assert!(media_is_included(&allow, "disk3s1", 0));
    assert!(!media_is_included(&allow, "disk0", 10));
}

#[test]
fn iface_filter_uses_allow_list_or_hides_pseudo_interfaces() {
    let none: Vec<String> = Vec::new();
    assert!(iface_is_included(&none, "en0"));
    assert!(!iface_is_included(&none, "utun2"));
    assert!(!iface_is_included(&none, "lo0"));
    let allow = vec!["utun2".to_string()];
    assert!(iface_is_included(&allow, "utun2"));
    assert!(!iface_is_included(&allow, "en0"));
}

#[test]
fn monitor_from_counters_sums_cores_and_filters_devices() {
    let config = Config::load_profile(None).unwrap();
    let mut m = Monitor::new(&config);
    let readings = |busy: u64, bytes: u64| CounterReadings {
        cores: vec![
            CpuTimes { idle: 100, total: 100 + busy },
            CpuTimes { idle: 50, total: 50 + busy },
        ],
        vm: vm(1, 1, 0),
        disks: vec![
            Counters { name: "disk1".to_string(), first: bytes, second: bytes },
            Counters { name: "disk0".to_string(), first: bytes, second: bytes },
            Counters { name: "disk0s2".to_string(), first: bytes, second: bytes },
        ],
        ifaces: vec![
            Counters { name: "en0".to_string(), first: bytes, second: 2 * bytes },
            Counters { name: "awdl0".to_string(), first: bytes, second: bytes },
        ],
    };
    let first = m.update_from_counters(&readings(10, 100)).unwrap();
    assert!(first.cpu.aggregate.is_none());
    assert_eq!(first.cpu.cores.len(), 2);
    assert_eq!(first.memory.available, 2 * 4096);
    let disk: Vec<&str> = first.disk.iter().map(|d| d.name.as_str()).collect();
    assert_eq!(disk, vec!["disk0", "disk1"]);
    let net: Vec<&str> = first.net.iter().map(|d| d.name.as_str()).collect();
    assert_eq!(net, vec!["en0"]);
    let second = m.update_from_counters(&readings(30, 400)).unwrap();
    let agg = second.cpu.aggregate.unwrap();
    assert_eq!((agg.total, agg.idle), (40, 0));
    assert_eq!(second.disk[0].delta, Some((300, 300)));
    assert_eq!(second.net[0].delta, Some((300, 600)));
    let overflow = CounterReadings {
        cores: vec![CpuTimes { idle: u64::MAX, total: u64::MAX }, CpuTimes { idle: 1, total: 1 }],
        ..readings(0, 0)
    };
    assert!(m.update_from_counters(&overflow).is_none());
}

#[test]
fn monitor_reports_only_configured_pools_and_interfaces() {
    let mut config = Config::load_profile(None).unwrap();
    config.widgets.disk.zfs_pools = vec!["tank".to_string()];
    config.widgets.network.interfaces = vec!["eth1".to_string()];
    let mut m = Monitor::new(&config);
    let readings = Readings {
        stat: "cpu 10 0 10 80 0 0 0 0\n".to_string(),
        meminfo: "MemTotal: 10 kB\nMemAvailable: 4 kB\n".to_string(),
        diskstats: String::new(),
        block_devices: Vec::new(),
        zfs_pools: vec![
            Counters { name: "tank".to_string(), first: 1, second: 2 },
            Counters { name: "scratch".to_string(), first: 3, second: 4 },
        ],
        net_dev: "eth0: 1 0 0 0 0 0 0 0 1 0\neth1: 5 0 0 0 0 0 0 0 6 0\n".to_string(),
    };
    let s = m.update(&readings).unwrap();
    let disk: Vec<&str> = s.disk.iter().map(|d| d.name.as_str()).collect();
    assert_eq!(disk, vec!["zfs:tank"]);
    let net: Vec<&str> = s.net.iter().map(|d| d.name.as_str()).collect();
    assert_eq!(net, vec!["eth1"]);
}
