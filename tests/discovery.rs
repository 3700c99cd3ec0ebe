use powercfg::discovery::{
    control_targets, enumerate, is_instance_entry, is_instance_name, is_numbered_name, Entry, EntryKind, Scan, Target,
};
use powercfg::extract::Extractor;
use powercfg::rules::rules;

fn dir(root: &str, name: &str) -> Entry {
    Entry {
        path: format!("{}/{}", root, name),
        name: name.to_string(),
        kind: EntryKind::Directory,
        resolved_name: None,
    }
}

fn link(root: &str, name: &str, target: Option<&str>) -> Entry {
    Entry {
        path: format!("{}/{}", root, name),
        name: name.to_string(),
        kind: EntryKind::Symlink,
        resolved_name: target.map(|t| t.to_string()),
    }
}

fn root_entry(root: &str) -> Entry {
    let name = root.rsplit('/').next().unwrap();
    Entry { path: root.to_string(), name: name.to_string(), kind: EntryKind::Directory, resolved_name: None }
}

fn nodes(ts: &[Target]) -> Vec<String> {
    ts.iter().map(|t| t.node.clone()).collect()
}

fn with_prefix<'a>(ts: &'a [Target], prefix: &str) -> Vec<&'a Target> {
    ts.iter().filter(|t| t.node.starts_with(prefix)).collect()
}

#[test]
fn instance_names_need_one_to_three_digits() {
    assert!(is_instance_name("cpu", "cpu3"));
    assert!(is_instance_name("cpu", "cpu127"));
    assert!(!is_instance_name("cpu", "cpufreq"));
    assert!(!is_instance_name("cpu", "cpu"));
    assert!(!is_instance_name("cpu", "cpu1234"));
    assert!(!is_instance_name("cpu", "xcpu1"));
    assert!(is_instance_name("usb", "usb10"));
    assert!(!is_instance_name("usb", "usbhub"));
    assert!(!is_instance_name("c.u", "cpu1"));
    assert!(!is_instance_name("", "1"));
    let long = "a".repeat(201);
    assert!(!is_instance_name(&long, &format!("{}1", long)));
    let limit = "a".repeat(200);
    assert!(is_instance_name(&limit, &format!("{}1", limit)));
    assert!(is_numbered_name("fan", "_input", "fan2_input"));
    assert!(!is_numbered_name("fan", "_input", "fan2_label"));
}

#[test]
fn cpu3_contributes_all_leaves_and_cpufreq_nothing() {
    let root = "/sys/devices/system/cpu";
    let scans = vec![Scan {
        root: root.to_string(),
        entries: vec![root_entry(root), dir(root, "cpu3"), dir(root, "cpufreq")],
    }];
    let targets = control_targets(&rules(), &scans);
    let cpu3 = with_prefix(&targets, "/sys/devices/system/cpu/cpu3/");
    let got: Vec<&str> = cpu3.iter().map(|t| t.node.as_str()).collect();
    assert_eq!(
        got,
        vec![
            "/sys/devices/system/cpu/cpu3/cpufreq/scaling_driver",
            "/sys/devices/system/cpu/cpu3/cpufreq/scaling_governor",
            "/sys/devices/system/cpu/cpu3/cpufreq/scaling_available_governors",
            "/sys/devices/system/cpu/cpu3/cpufreq/scaling_min_freq",
            "/sys/devices/system/cpu/cpu3/cpufreq/scaling_max_freq",
            "/sys/devices/system/cpu/cpu3/cpufreq/cpuinfo_min_freq",
            "/sys/devices/system/cpu/cpu3/cpufreq/cpuinfo_max_freq",
            "/sys/devices/system/cpu/cpu3/cpufreq/energy_performance_preference",
            "/sys/devices/system/cpu/cpu3/cpufreq/energy_performance_available_preferences",
            "/sys/devices/system/cpu/cpu3/cpufreq/boost",
            "/sys/devices/system/cpu/cpu3/power/energy_perf_bias",
        ]
    );
    let writable: Vec<bool> = cpu3.iter().map(|t| t.writable).collect();
    assert_eq!(writable, vec![false, true, false, false, false, false, false, true, false, false, true]);
    assert!(with_prefix(&targets, "/sys/devices/system/cpu/cpufreq/").is_empty());
    assert_eq!(targets[0].node, "/sys/devices/system/cpu/cpu3/cpufreq/scaling_driver");
}

#[test]
fn usb10_matches_and_usbhub_does_not() {
    let root = "/sys/bus/usb/devices";
    let scans = vec![Scan {
        root: root.to_string(),
        entries: vec![
            root_entry(root),
            link(root, "usb10", Some("usb10")),
            link(root, "usbhub", Some("usbhub")),
            link(root, "usb2", None),
        ],
    }];
    let targets = control_targets(&rules(), &scans);
    let usb: Vec<String> = nodes(&targets).into_iter().filter(|n| n.starts_with(root)).collect();
    assert_eq!(usb, vec![
        "/sys/bus/usb/devices/usb10/power/wakeup".to_string(),
        "/sys/bus/usb/devices/usb10/link_power_management_policy".to_string(),
    ]);
}

#[test]
fn links_match_by_resolved_name() {
    let root = "/sys/class/drm";
    let scans = vec![Scan {
        root: root.to_string(),
        entries: vec![
            link(root, "card0", Some("card0")),
            link(root, "card0-eDP-1", Some("card0-eDP-1")),
            link(root, "renamed", Some("card1")),
        ],
    }];
    let targets = control_targets(&rules(), &scans);
    let drm = with_prefix(&targets, "/sys/class/drm/");
    assert_eq!(drm.len(), 14);
    assert_eq!(drm[0].node, "/sys/class/drm/card0/device/power_dpm_force_performance_level");
    assert_eq!(drm[7].node, "/sys/class/drm/renamed/device/power_dpm_force_performance_level");
    assert!(drm.iter().all(|t| !t.writable));
}

#[test]
fn exclusions_by_name() {
    let block = "/sys/block";
    let net = "/sys/class/net";
    let pci = "/sys/bus/pci/devices";
    let scans = vec![
        Scan { root: block.to_string(), entries: vec![root_entry(block), link(block, "loop0", None), link(block, "nvme0n1", None)] },
        Scan {
            root: net.to_string(),
            entries: vec![root_entry(net), link(net, "docker0", None), link(net, "lo", None), link(net, "lonely", None), link(net, "wlan0", None)],
        },
        Scan { root: pci.to_string(), entries: vec![root_entry(pci), link(pci, "0000:00:00.0", None)] },
    ];
    let targets = control_targets(&rules(), &scans);
    let b = with_prefix(&targets, "/sys/block/");
    let bn: Vec<&str> = b.iter().map(|t| t.node.as_str()).collect();
    assert_eq!(bn, vec![
        "/sys/block/nvme0n1/device/power/control",
        "/sys/block/nvme0n1/device/power/autosuspend_delay_ms",
        "/sys/block/nvme0n1/queue/scheduler",
    ]);
    assert_eq!(b[2].handler, Extractor::BracketedChoice);
    let n: Vec<&str> = with_prefix(&targets, "/sys/class/net/").iter().map(|t| t.node.as_str()).collect();
    assert_eq!(n, vec!["/sys/class/net/lonely/device/power/wakeup", "/sys/class/net/wlan0/device/power/wakeup"]);
    let p: Vec<&str> = with_prefix(&targets, "/sys/bus/pci/").iter().map(|t| t.node.as_str()).collect();
    assert_eq!(p, vec!["/sys/bus/pci/devices/0000:00:00.0/power/control"]);
}

#[test]
fn fixed_rules_without_scans() {
    let targets = control_targets(&rules(), &vec![]);
    assert_eq!(targets.len(), 11 + 5 + 2 + 3 + 3 + 4 + 1 + 1);
    assert_eq!(targets[0].node, "/sys/devices/system/cpu/intel_pstate/max_perf_pct");
    let last = &targets[targets.len() - 1];
    assert_eq!(last.node, "/sys/module/pcie_aspm/parameters/policy");
    assert!(last.writable);
    assert_eq!(last.handler, Extractor::BracketedChoice);
    let mem = targets.iter().find(|t| t.node == "/sys/power/mem_sleep").unwrap();
    assert_eq!(mem.handler, Extractor::BracketedChoice);
    assert!(nodes(&targets).contains(&"/proc/sys/vm/dirty_ratio".to_string()));
}

#[test]
fn enumerate_fills_values_and_permissions() {
    let targets = vec![
        Target { node: "/a".to_string(), writable: true, handler: Extractor::Identity },
        Target { node: "/b".to_string(), writable: false, handler: Extractor::BracketedChoice },
        Target { node: "/c".to_string(), writable: true, handler: Extractor::Identity },
    ];
    let contents = vec![Some(" 1 \n".to_string()), Some("x [y] z".to_string()), None];
    let pts = enumerate(&targets, &contents);
    assert_eq!(pts.len(), 3);
    assert_eq!(pts[0].value.as_deref(), Some("1"));
    assert!(pts[0].permission.writable && pts[0].permission.readable);
    assert_eq!(pts[1].value.as_deref(), Some("y"));
    assert!(!pts[1].permission.writable);
    assert_eq!(pts[2].value, None);
    assert!(!pts[2].writeable());
}

#[test]
fn instance_entries_of_a_scan() {
    let root = "/sys/class/thermal";
    assert!(is_instance_entry(root, "thermal_zone", &link(root, "thermal_zone0", Some("thermal_zone0"))));
    assert!(!is_instance_entry(root, "thermal_zone", &link(root, "cooling_device0", Some("cooling_device0"))));
    assert!(!is_instance_entry(root, "thermal_zone", &link(root, "thermal_zone1", None)));
    assert!(is_instance_entry(root, "thermal_zone", &dir(root, "thermal_zone12")));
    assert!(!is_instance_entry(root, "thermal", &root_entry(root)));
    let file = Entry { path: format!("{}/hwmon1", root), name: "hwmon1".to_string(), kind: EntryKind::Other, resolved_name: None };
    assert!(!is_instance_entry(root, "hwmon", &file));
}

#[test]
fn enumerated_paths_are_absolute_and_distinct() {
    let all = rules();
    let mut scans = Vec::new();
    for r in all.iter().filter(|r| !matches!(r.discovery, powercfg::discovery::Discovery::Fixed)) {
        let root = r.root.as_str();
        scans.push(Scan {
            root: root.to_string(),
            entries: vec![
                root_entry(root),
                dir(root, "cpu0"),
                dir(root, "cpu1"),
                link(root, "card0", Some("card0")),
                link(root, "host0", Some("host0")),
                link(root, "usb1", Some("usb1")),
                link(root, "eth0", None),
                link(root, "intel_pstate", None),
            ],
        });
    }
    let targets = control_targets(&all, &scans);
    assert!(targets.len() > 30);
    let mut seen = std::collections::HashSet::new();
    for t in &targets {
        assert!(t.node.starts_with('/'), "{}", t.node);
        assert!(seen.insert(t.node.clone()), "duplicate {}", t.node);
    }
}
