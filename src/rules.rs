//! The enumeration rules: which subsystem roots hold tunables, how their
//! instances are found, and which leaves of each are control points.
use vstd::prelude::*;

use crate::discovery::{
    entries_for, join_path, lemma_all_targets_distinct, lemma_all_targets_origin,
    lemma_first_segment_prefix, lemma_head_excludes, lemma_instance_target_origin, lemma_differ_at, lemma_entries_for_walk,
    lemma_first_segment, lemma_rule_target_shape, lemma_target_head, rule_targets, walk_scans,
    absolute, all_absolute, all_targets, distinct_nodes, distinct_suffixes,
    lemma_instance_targets_distinct, lemma_leaf_targets_distinct, walk_entries, entry_selected, entry_targets, lemma_targets_absolute,
    scan_valid, ScanView, instance_name, instance_targets, lemma_entry_contribution,
    leaf_targets, match_name, rule_views, Discovery, DiscoveryView, EntryKind, EntryView, Leaf,
    LeafView, Rule, RuleView,
};
use crate::extract::Extractor;
use crate::text::{contains_char, starts_with};

verus! {

pub open spec fn leaf_view(suffix: Seq<char>, writable: bool, handler: Extractor) -> LeafView {
    LeafView { suffix, writable, handler }
}

fn leaf(suffix: &str, writable: bool, handler: Extractor) -> (r: Leaf)
    ensures
        r@ == leaf_view(suffix@, writable, handler),
{
    Leaf { suffix: String::from_str(suffix), writable, handler }
}
/// CPU cores: the frequency-scaling and energy knobs of each `cpuN`.
pub open spec fn cpu_instances_rule() -> RuleView {
    RuleView {
        root: "/sys/devices/system/cpu"@,
        discovery: DiscoveryView::Instances("cpu"@),
        leaves: seq![
            leaf_view("cpufreq/scaling_driver"@, false, Extractor::Identity),
            leaf_view("cpufreq/scaling_governor"@, true, Extractor::Identity),
            leaf_view("cpufreq/scaling_available_governors"@, false, Extractor::Identity),
            leaf_view("cpufreq/scaling_min_freq"@, false, Extractor::Identity),
            leaf_view("cpufreq/scaling_max_freq"@, false, Extractor::Identity),
            leaf_view("cpufreq/cpuinfo_min_freq"@, false, Extractor::Identity),
            leaf_view("cpufreq/cpuinfo_max_freq"@, false, Extractor::Identity),
            leaf_view("cpufreq/energy_performance_preference"@, true, Extractor::Identity),
            leaf_view("cpufreq/energy_performance_available_preferences"@, false, Extractor::Identity),
            leaf_view("cpufreq/boost"@, false, Extractor::Identity),
            leaf_view("power/energy_perf_bias"@, true, Extractor::Identity),
        ],
    }
}

fn cpu_instances() -> (r: Rule)
    ensures
        r@ == cpu_instances_rule(),
{
    let leaves = vec![
        leaf("cpufreq/scaling_driver", false, Extractor::Identity),
        leaf("cpufreq/scaling_governor", true, Extractor::Identity),
        leaf("cpufreq/scaling_available_governors", false, Extractor::Identity),
        leaf("cpufreq/scaling_min_freq", false, Extractor::Identity),
        leaf("cpufreq/scaling_max_freq", false, Extractor::Identity),
        leaf("cpufreq/cpuinfo_min_freq", false, Extractor::Identity),
        leaf("cpufreq/cpuinfo_max_freq", false, Extractor::Identity),
        leaf("cpufreq/energy_performance_preference", true, Extractor::Identity),
        leaf("cpufreq/energy_performance_available_preferences", false, Extractor::Identity),
        leaf("cpufreq/boost", false, Extractor::Identity),
        leaf("power/energy_perf_bias", true, Extractor::Identity),
    ];
    let r = Rule { root: String::from_str("/sys/devices/system/cpu"), discovery: Discovery::Instances(String::from_str("cpu")), leaves };
    assert(r@.leaves =~= cpu_instances_rule().leaves);
    r
}

/// CPU-wide P-state and idle settings.
pub open spec fn cpu_global_rule() -> RuleView {
    RuleView {
        root: "/sys/devices/system/cpu"@,
        discovery: DiscoveryView::Fixed,
        leaves: seq![
            leaf_view("intel_pstate/max_perf_pct"@, false, Extractor::Identity),
            leaf_view("intel_pstate/min_perf_pct"@, false, Extractor::Identity),
            leaf_view("intel_pstate/num_pstates"@, false, Extractor::Identity),
            leaf_view("intel_pstate/turbo_pct"@, false, Extractor::Identity),
            leaf_view("intel_pstate/no_turbo"@, false, Extractor::Identity),
            leaf_view("intel_pstate/hwp_dynamic_boost"@, false, Extractor::Identity),
            leaf_view("intel_pstate/status"@, false, Extractor::Identity),
            leaf_view("intel_pstate/energy_efficiency"@, false, Extractor::Identity),
            leaf_view("cpuidle/current_driver"@, false, Extractor::Identity),
            leaf_view("cpuidle/available_governors"@, false, Extractor::Identity),
            leaf_view("cpuidle/current_governor"@, true, Extractor::Identity),
        ],
    }
}

fn cpu_global() -> (r: Rule)
    ensures
        r@ == cpu_global_rule(),
{
    let leaves = vec![
        leaf("intel_pstate/max_perf_pct", false, Extractor::Identity),
        leaf("intel_pstate/min_perf_pct", false, Extractor::Identity),
        leaf("intel_pstate/num_pstates", false, Extractor::Identity),
        leaf("intel_pstate/turbo_pct", false, Extractor::Identity),
        leaf("intel_pstate/no_turbo", false, Extractor::Identity),
        leaf("intel_pstate/hwp_dynamic_boost", false, Extractor::Identity),
        leaf("intel_pstate/status", false, Extractor::Identity),
        leaf("intel_pstate/energy_efficiency", false, Extractor::Identity),
        leaf("cpuidle/current_driver", false, Extractor::Identity),
        leaf("cpuidle/available_governors", false, Extractor::Identity),
        leaf("cpuidle/current_governor", true, Extractor::Identity),
    ];
    let r = Rule { root: String::from_str("/sys/devices/system/cpu"), discovery: Discovery::Fixed, leaves };
    assert(r@.leaves =~= cpu_global_rule().leaves);
    r
}

/// Virtual-memory writeback.
pub open spec fn vm_rule() -> RuleView {
    RuleView {
        root: "/proc/sys/vm"@,
        discovery: DiscoveryView::Fixed,
        leaves: seq![
            leaf_view("laptop_mode"@, true, Extractor::Identity),
            leaf_view("dirty_writeback_centisecs"@, true, Extractor::Identity),
            leaf_view("dirty_expire_centisecs"@, true, Extractor::Identity),
            leaf_view("dirty_ratio"@, true, Extractor::Identity),
            leaf_view("dirty_background_ratio"@, true, Extractor::Identity),
        ],
    }
}

fn vm() -> (r: Rule)
    ensures
        r@ == vm_rule(),
{
    let leaves = vec![
        leaf("laptop_mode", true, Extractor::Identity),
        leaf("dirty_writeback_centisecs", true, Extractor::Identity),
        leaf("dirty_expire_centisecs", true, Extractor::Identity),
        leaf("dirty_ratio", true, Extractor::Identity),
        leaf("dirty_background_ratio", true, Extractor::Identity),
    ];
    let r = Rule { root: String::from_str("/proc/sys/vm"), discovery: Discovery::Fixed, leaves };
    assert(r@.leaves =~= vm_rule().leaves);
    r
}

/// XFS flushing.
pub open spec fn fs_rule() -> RuleView {
    RuleView {
        root: "/proc/sys/fs"@,
        discovery: DiscoveryView::Fixed,
        leaves: seq![
            leaf_view("xfs/age_buffer_centisecs"@, true, Extractor::Identity),
            leaf_view("xfs/xfssyncd_centisecs"@, true, Extractor::Identity),
        ],
    }
}

fn fs() -> (r: Rule)
    ensures
        r@ == fs_rule(),
{
    let leaves = vec![
        leaf("xfs/age_buffer_centisecs", true, Extractor::Identity),
        leaf("xfs/xfssyncd_centisecs", true, Extractor::Identity),
    ];
    let r = Rule { root: String::from_str("/proc/sys/fs"), discovery: Discovery::Fixed, leaves };
    assert(r@.leaves =~= fs_rule().leaves);
    r
}

/// ACPI platform profile.
pub open spec fn acpi_rule() -> RuleView {
    RuleView {
        root: "/sys/firmware/acpi"@,
        discovery: DiscoveryView::Fixed,
        leaves: seq![
            leaf_view("platform_profile_choices"@, true, Extractor::Identity),
            leaf_view("platform_profile"@, true, Extractor::Identity),
            leaf_view("pm_profile"@, true, Extractor::Identity),
        ],
    }
}

fn acpi() -> (r: Rule)
    ensures
        r@ == acpi_rule(),
{
    let leaves = vec![
        leaf("platform_profile_choices", true, Extractor::Identity),
        leaf("platform_profile", true, Extractor::Identity),
        leaf("pm_profile", true, Extractor::Identity),
    ];
    let r = Rule { root: String::from_str("/sys/firmware/acpi"), discovery: Discovery::Fixed, leaves };
    assert(r@.leaves =~= acpi_rule().leaves);
    r
}

/// Sound-card power saving.
pub open spec fn audio_rule() -> RuleView {
    RuleView {
        root: "/sys/module"@,
        discovery: DiscoveryView::Fixed,
        leaves: seq![
            leaf_view("snd_hda_intel/parameters/power_save"@, true, Extractor::Identity),
            leaf_view("snd_hda_intel/parameters/power_save_controller"@, true, Extractor::Identity),
            leaf_view("snd_ac97_codec/parameters/power_save"@, true, Extractor::Identity),
        ],
    }
}

fn audio() -> (r: Rule)
    ensures
        r@ == audio_rule(),
{
    let leaves = vec![
        leaf("snd_hda_intel/parameters/power_save", true, Extractor::Identity),
        leaf("snd_hda_intel/parameters/power_save_controller", true, Extractor::Identity),
        leaf("snd_ac97_codec/parameters/power_save", true, Extractor::Identity),
    ];
    let r = Rule { root: String::from_str("/sys/module"), discovery: Discovery::Fixed, leaves };
    assert(r@.leaves =~= audio_rule().leaves);
    r
}

/// Graphics cards `cardN`: power and frequency state.
pub open spec fn graphics_rule() -> RuleView {
    RuleView {
        root: "/sys/class/drm"@,
        discovery: DiscoveryView::Instances("card"@),
        leaves: seq![
            leaf_view("device/power_dpm_force_performance_level"@, false, Extractor::Identity),
            leaf_view("device/power_dpm_state"@, false, Extractor::Identity),
            leaf_view("device/power_method"@, false, Extractor::Identity),
            leaf_view("device/power_profile"@, false, Extractor::Identity),
            leaf_view("gt_min_freq_mhz"@, false, Extractor::Identity),
            leaf_view("gt_max_freq_mhz"@, false, Extractor::Identity),
            leaf_view("gt_boost_freq_mhz"@, false, Extractor::Identity),
        ],
    }
}

fn graphics() -> (r: Rule)
    ensures
        r@ == graphics_rule(),
{
    let leaves = vec![
        leaf("device/power_dpm_force_performance_level", false, Extractor::Identity),
        leaf("device/power_dpm_state", false, Extractor::Identity),
        leaf("device/power_method", false, Extractor::Identity),
        leaf("device/power_profile", false, Extractor::Identity),
        leaf("gt_min_freq_mhz", false, Extractor::Identity),
        leaf("gt_max_freq_mhz", false, Extractor::Identity),
        leaf("gt_boost_freq_mhz", false, Extractor::Identity),
    ];
    let r = Rule { root: String::from_str("/sys/class/drm"), discovery: Discovery::Instances(String::from_str("card")), leaves };
    assert(r@.leaves =~= graphics_rule().leaves);
    r
}

/// Kernel watchdog and real-time scheduling.
pub open spec fn kernel_rule() -> RuleView {
    RuleView {
        root: "/proc/sys/kernel"@,
        discovery: DiscoveryView::Fixed,
        leaves: seq![
            leaf_view("nmi_watchdog"@, true, Extractor::Identity),
            leaf_view("sched_rr_timeslice_ms"@, true, Extractor::Identity),
            leaf_view("sched_rt_period_us"@, true, Extractor::Identity),
            leaf_view("sched_rt_runtime_us"@, true, Extractor::Identity),
        ],
    }
}

fn kernel() -> (r: Rule)
    ensures
        r@ == kernel_rule(),
{
    let leaves = vec![
        leaf("nmi_watchdog", true, Extractor::Identity),
        leaf("sched_rr_timeslice_ms", true, Extractor::Identity),
        leaf("sched_rt_period_us", true, Extractor::Identity),
        leaf("sched_rt_runtime_us", true, Extractor::Identity),
    ];
    let r = Rule { root: String::from_str("/proc/sys/kernel"), discovery: Discovery::Fixed, leaves };
    assert(r@.leaves =~= kernel_rule().leaves);
    r
}

/// The suspend mode, a choice list.
pub open spec fn power_rule() -> RuleView {
    RuleView {
        root: "/sys/power"@,
        discovery: DiscoveryView::Fixed,
        leaves: seq![
            leaf_view("mem_sleep"@, true, Extractor::BracketedChoice),
        ],
    }
}

fn power() -> (r: Rule)
    ensures
        r@ == power_rule(),
{
    let leaves = vec![
        leaf("mem_sleep", true, Extractor::BracketedChoice),
    ];
    let r = Rule { root: String::from_str("/sys/power"), discovery: Discovery::Fixed, leaves };
    assert(r@.leaves =~= power_rule().leaves);
    r
}

/// SCSI hosts `hostN`: runtime power and link power management.
pub open spec fn scsi_hosts_rule() -> RuleView {
    RuleView {
        root: "/sys/class/scsi_host"@,
        discovery: DiscoveryView::Instances("host"@),
        leaves: seq![
            leaf_view("power/control"@, true, Extractor::Identity),
            leaf_view("link_power_management_policy"@, true, Extractor::Identity),
        ],
    }
}

fn scsi_hosts() -> (r: Rule)
    ensures
        r@ == scsi_hosts_rule(),
{
    let leaves = vec![
        leaf("power/control", true, Extractor::Identity),
        leaf("link_power_management_policy", true, Extractor::Identity),
    ];
    let r = Rule { root: String::from_str("/sys/class/scsi_host"), discovery: Discovery::Instances(String::from_str("host")), leaves };
    assert(r@.leaves =~= scsi_hosts_rule().leaves);
    r
}

/// PCI devices: runtime power control.
pub open spec fn pci_devices_rule() -> RuleView {
    RuleView {
        root: "/sys/bus/pci/devices"@,
        discovery: DiscoveryView::Entries { skip_name: None, skip_prefix: None },
        leaves: seq![
            leaf_view("power/control"@, true, Extractor::Identity),
        ],
    }
}

fn pci_devices() -> (r: Rule)
    ensures
        r@ == pci_devices_rule(),
{
    let leaves = vec![
        leaf("power/control", true, Extractor::Identity),
    ];
    let r = Rule { root: String::from_str("/sys/bus/pci/devices"), discovery: Discovery::Entries { skip_name: None, skip_prefix: None }, leaves };
    assert(r@.leaves =~= pci_devices_rule().leaves);
    r
}

/// Block devices but loop devices: runtime power and the I/O scheduler, a choice list.
pub open spec fn block_devices_rule() -> RuleView {
    RuleView {
        root: "/sys/block"@,
        discovery: DiscoveryView::Entries { skip_name: None, skip_prefix: Some("loop"@) },
        leaves: seq![
            leaf_view("device/power/control"@, true, Extractor::Identity),
            leaf_view("device/power/autosuspend_delay_ms"@, true, Extractor::Identity),
            leaf_view("queue/scheduler"@, true, Extractor::BracketedChoice),
        ],
    }
}

fn block_devices() -> (r: Rule)
    ensures
        r@ == block_devices_rule(),
{
    let leaves = vec![
        leaf("device/power/control", true, Extractor::Identity),
        leaf("device/power/autosuspend_delay_ms", true, Extractor::Identity),
        leaf("queue/scheduler", true, Extractor::BracketedChoice),
    ];
    let r = Rule { root: String::from_str("/sys/block"), discovery: Discovery::Entries { skip_name: None, skip_prefix: Some(String::from_str("loop")) }, leaves };
    assert(r@.leaves =~= block_devices_rule().leaves);
    r
}

/// The PCIe active-state power management policy, a choice list.
pub open spec fn pcie_aspm_rule() -> RuleView {
    RuleView {
        root: "/sys/module/pcie_aspm/parameters"@,
        discovery: DiscoveryView::Fixed,
        leaves: seq![
            leaf_view("policy"@, true, Extractor::BracketedChoice),
        ],
    }
}

fn pcie_aspm() -> (r: Rule)
    ensures
        r@ == pcie_aspm_rule(),
{
    let leaves = vec![
        leaf("policy", true, Extractor::BracketedChoice),
    ];
    let r = Rule { root: String::from_str("/sys/module/pcie_aspm/parameters"), discovery: Discovery::Fixed, leaves };
    assert(r@.leaves =~= pcie_aspm_rule().leaves);
    r
}

/// Network interfaces but loopback and container bridges: wake-up.
pub open spec fn net_wakeup_rule() -> RuleView {
    RuleView {
        root: "/sys/class/net"@,
        discovery: DiscoveryView::Entries { skip_name: Some("lo"@), skip_prefix: Some("docker"@) },
        leaves: seq![
            leaf_view("device/power/wakeup"@, true, Extractor::Identity),
        ],
    }
}

fn net_wakeup() -> (r: Rule)
    ensures
        r@ == net_wakeup_rule(),
{
    let leaves = vec![
        leaf("device/power/wakeup", true, Extractor::Identity),
    ];
    let r = Rule { root: String::from_str("/sys/class/net"), discovery: Discovery::Entries { skip_name: Some(String::from_str("lo")), skip_prefix: Some(String::from_str("docker")) }, leaves };
    assert(r@.leaves =~= net_wakeup_rule().leaves);
    r
}

/// USB buses `usbN`: wake-up and link power management.
pub open spec fn usb_wakeup_rule() -> RuleView {
    RuleView {
        root: "/sys/bus/usb/devices"@,
        discovery: DiscoveryView::Instances("usb"@),
        leaves: seq![
            leaf_view("power/wakeup"@, true, Extractor::Identity),
            leaf_view("link_power_management_policy"@, true, Extractor::Identity),
        ],
    }
}

fn usb_wakeup() -> (r: Rule)
    ensures
        r@ == usb_wakeup_rule(),
{
    let leaves = vec![
        leaf("power/wakeup", true, Extractor::Identity),
        leaf("link_power_management_policy", true, Extractor::Identity),
    ];
    let r = Rule { root: String::from_str("/sys/bus/usb/devices"), discovery: Discovery::Instances(String::from_str("usb")), leaves };
    assert(r@.leaves =~= usb_wakeup_rule().leaves);
    r
}

/// The rules, in enumeration order.
pub open spec fn rule_table() -> Seq<RuleView> {
    seq![
        cpu_instances_rule(),
        cpu_global_rule(),
        vm_rule(),
        fs_rule(),
        acpi_rule(),
        audio_rule(),
        graphics_rule(),
        kernel_rule(),
        power_rule(),
        scsi_hosts_rule(),
        pci_devices_rule(),
        block_devices_rule(),
        pcie_aspm_rule(),
        net_wakeup_rule(),
        usb_wakeup_rule(),
    ]
}

/// The enumeration rules of this machine's power tunables, in order: CPU
/// cores, CPU-wide settings, virtual memory, file systems, ACPI, audio,
/// graphics, kernel, suspend, SCSI hosts, PCI devices, block devices, PCIe
/// ASPM, network wake-up and USB.
pub fn rules() -> (r: Vec<Rule>)
    ensures
        rule_views(r@) == rule_table(),
{
    let r = vec![
        cpu_instances(),
        cpu_global(),
        vm(),
        fs(),
        acpi(),
        audio(),
        graphics(),
        kernel(),
        power(),
        scsi_hosts(),
        pci_devices(),
        block_devices(),
        pcie_aspm(),
        net_wakeup(),
        usb_wakeup(),
    ];
    assert(rule_views(r@) =~= rule_table());
    r
}

/// Dynamic discovery: in a scan of the CPU root, an entry (other than the
/// root itself) whose matched name is `cpu3` contributes, in its place, the
/// whole leaf set of the CPU rule under its path, and one named `cpufreq`
/// contributes nothing; in a scan of the USB root, likewise `usb10` and
/// `usbhub`.
pub proof fn lemma_instance_patterns(entries: Seq<EntryView>, i: int)
    requires
        0 <= i < entries.len(),
        entries[i].kind != EntryKind::Other,
    ensures
        entries[i].path != cpu_instances_rule().root && match_name(entries[i]) == Some("cpu3"@)
            ==> instance_targets(cpu_instances_rule(), entries) == instance_targets(
            cpu_instances_rule(),
            entries.take(i),
        ) + leaf_targets(entries[i].path, cpu_instances_rule().leaves) + instance_targets(
            cpu_instances_rule(),
            entries.skip(i + 1),
        ),
        match_name(entries[i]) == Some("cpufreq"@) ==> instance_targets(
            cpu_instances_rule(),
            entries,
        ) == instance_targets(cpu_instances_rule(), entries.take(i)) + instance_targets(
            cpu_instances_rule(),
            entries.skip(i + 1),
        ),
        entries[i].path != usb_wakeup_rule().root && match_name(entries[i]) == Some("usb10"@)
            ==> instance_targets(usb_wakeup_rule(), entries) == instance_targets(
            usb_wakeup_rule(),
            entries.take(i),
        ) + leaf_targets(entries[i].path, usb_wakeup_rule().leaves) + instance_targets(
            usb_wakeup_rule(),
            entries.skip(i + 1),
        ),
        match_name(entries[i]) == Some("usbhub"@) ==> instance_targets(
            usb_wakeup_rule(),
            entries,
        ) == instance_targets(usb_wakeup_rule(), entries.take(i)) + instance_targets(
            usb_wakeup_rule(),
            entries.skip(i + 1),
        ),
{
    reveal_strlit("cpu");
    reveal_strlit("cpu3");
    reveal_strlit("cpufreq");
    reveal_strlit("usb");
    reveal_strlit("usb10");
    reveal_strlit("usbhub");
    let e = entries[i];
    let cpu = cpu_instances_rule();
    let usb = usb_wakeup_rule();
    lemma_entry_contribution(cpu, entries, i);
    lemma_entry_contribution(usb, entries, i);
    // suffixes of equal length, told apart at their first differing character
    assert("cpu3"@.take(3) =~= "cpu"@);
    assert("cpu3"@.skip(4) =~= Seq::<char>::empty());
    assert(instance_name("cpu"@, "cpu3"@));
    assert(!instance_name("cpu"@, "cpufreq"@));
    assert("usb10"@.take(3) =~= "usb"@);
    assert("usb10"@.skip(5) =~= Seq::<char>::empty());
    assert(instance_name("usb"@, "usb10"@));
    assert(!instance_name("usb"@, "usbhub"@)) by {
        assert("usbhub"@[3] == 'h');
    }
    if e.path != cpu.root && match_name(e) == Some("cpu3"@) {
        assert(entry_selected(cpu.root, cpu.discovery, e));
    }
    if match_name(e) == Some("cpufreq"@) {
        assert(!entry_selected(cpu.root, cpu.discovery, e));
        assert(entry_targets(cpu, e) =~= Seq::<crate::discovery::TargetView>::empty());
        assert(instance_targets(cpu, entries.take(i)) + entry_targets(cpu, e) =~= instance_targets(cpu, entries.take(i)));
    }
    if e.path != usb.root && match_name(e) == Some("usb10"@) {
        assert(entry_selected(usb.root, usb.discovery, e));
    }
    if match_name(e) == Some("usbhub"@) {
        assert(!entry_selected(usb.root, usb.discovery, e));
        assert(entry_targets(usb, e) =~= Seq::<crate::discovery::TargetView>::empty());
        assert(instance_targets(usb, entries.take(i)) + entry_targets(usb, e) =~= instance_targets(usb, entries.take(i)));
    }
}

/// Every control point that the rule table describes has an absolute path,
/// given scans as one-level walks of their roots give them.
pub proof fn lemma_enumerated_paths_absolute(scans: Seq<ScanView>)
    requires
        forall|k: int| 0 <= k < scans.len() ==> scan_valid(#[trigger] scans[k]),
    ensures
        all_absolute(all_targets(rule_table(), scans)),
{
    reveal_strlit("/proc/sys/fs");
    reveal_strlit("/proc/sys/kernel");
    reveal_strlit("/proc/sys/vm");
    reveal_strlit("/sys/block");
    reveal_strlit("/sys/bus/pci/devices");
    reveal_strlit("/sys/bus/usb/devices");
    reveal_strlit("/sys/class/drm");
    reveal_strlit("/sys/class/net");
    reveal_strlit("/sys/class/scsi_host");
    reveal_strlit("/sys/devices/system/cpu");
    reveal_strlit("/sys/firmware/acpi");
    reveal_strlit("/sys/module");
    reveal_strlit("/sys/module/pcie_aspm/parameters");
    reveal_strlit("/sys/power");
    let t = rule_table();
    assert forall|r: int| 0 <= r < t.len() implies absolute(#[trigger] t[r].root) by {}
    lemma_targets_absolute(t, scans);
}

/// No rule of the table has two leaves with the same suffix.
pub proof fn lemma_rule_leaves_distinct()
    ensures
        forall|r: int| 0 <= r < rule_table().len() ==> distinct_suffixes(#[trigger] rule_table()[r].leaves),
{
    reveal_strlit("cpufreq/boost");
    reveal_strlit("cpufreq/cpuinfo_max_freq");
    reveal_strlit("cpufreq/cpuinfo_min_freq");
    reveal_strlit("cpufreq/energy_performance_available_preferences");
    reveal_strlit("cpufreq/energy_performance_preference");
    reveal_strlit("cpufreq/scaling_available_governors");
    reveal_strlit("cpufreq/scaling_driver");
    reveal_strlit("cpufreq/scaling_governor");
    reveal_strlit("cpufreq/scaling_max_freq");
    reveal_strlit("cpufreq/scaling_min_freq");
    reveal_strlit("cpuidle/available_governors");
    reveal_strlit("cpuidle/current_driver");
    reveal_strlit("cpuidle/current_governor");
    reveal_strlit("device/power/autosuspend_delay_ms");
    reveal_strlit("device/power/control");
    reveal_strlit("device/power/wakeup");
    reveal_strlit("device/power_dpm_force_performance_level");
    reveal_strlit("device/power_dpm_state");
    reveal_strlit("device/power_method");
    reveal_strlit("device/power_profile");
    reveal_strlit("dirty_background_ratio");
    reveal_strlit("dirty_expire_centisecs");
    reveal_strlit("dirty_ratio");
    reveal_strlit("dirty_writeback_centisecs");
    reveal_strlit("gt_boost_freq_mhz");
    reveal_strlit("gt_max_freq_mhz");
    reveal_strlit("gt_min_freq_mhz");
    reveal_strlit("intel_pstate/energy_efficiency");
    reveal_strlit("intel_pstate/hwp_dynamic_boost");
    reveal_strlit("intel_pstate/max_perf_pct");
    reveal_strlit("intel_pstate/min_perf_pct");
    reveal_strlit("intel_pstate/no_turbo");
    reveal_strlit("intel_pstate/num_pstates");
    reveal_strlit("intel_pstate/status");
    reveal_strlit("intel_pstate/turbo_pct");
    reveal_strlit("laptop_mode");
    reveal_strlit("link_power_management_policy");
    reveal_strlit("mem_sleep");
    reveal_strlit("nmi_watchdog");
    reveal_strlit("platform_profile");
    reveal_strlit("platform_profile_choices");
    reveal_strlit("pm_profile");
    reveal_strlit("policy");
    reveal_strlit("power/control");
    reveal_strlit("power/energy_perf_bias");
    reveal_strlit("power/wakeup");
    reveal_strlit("queue/scheduler");
    reveal_strlit("sched_rr_timeslice_ms");
    reveal_strlit("sched_rt_period_us");
    reveal_strlit("sched_rt_runtime_us");
    reveal_strlit("snd_ac97_codec/parameters/power_save");
    reveal_strlit("snd_hda_intel/parameters/power_save");
    reveal_strlit("snd_hda_intel/parameters/power_save_controller");
    reveal_strlit("xfs/age_buffer_centisecs");
    reveal_strlit("xfs/xfssyncd_centisecs");
    assert("cpufreq/scaling_driver"@[0] != "power/energy_perf_bias"@[0]);
    assert("cpufreq/scaling_governor"@[16] != "cpufreq/scaling_min_freq"@[16]);
    assert("cpufreq/scaling_governor"@[16] != "cpufreq/scaling_max_freq"@[16]);
    assert("cpufreq/scaling_governor"@[8] != "cpufreq/cpuinfo_min_freq"@[8]);
    assert("cpufreq/scaling_governor"@[8] != "cpufreq/cpuinfo_max_freq"@[8]);
    assert("cpufreq/scaling_min_freq"@[17] != "cpufreq/scaling_max_freq"@[17]);
    assert("cpufreq/scaling_min_freq"@[8] != "cpufreq/cpuinfo_min_freq"@[8]);
    assert("cpufreq/scaling_min_freq"@[8] != "cpufreq/cpuinfo_max_freq"@[8]);
    assert("cpufreq/scaling_max_freq"@[8] != "cpufreq/cpuinfo_min_freq"@[8]);
    assert("cpufreq/scaling_max_freq"@[8] != "cpufreq/cpuinfo_max_freq"@[8]);
    assert("cpufreq/cpuinfo_min_freq"@[17] != "cpufreq/cpuinfo_max_freq"@[17]);
    assert("intel_pstate/max_perf_pct"@[14] != "intel_pstate/min_perf_pct"@[14]);
    assert("intel_pstate/num_pstates"@[0] != "cpuidle/current_governor"@[0]);
    assert("intel_pstate/turbo_pct"@[0] != "cpuidle/current_driver"@[0]);
    assert("intel_pstate/hwp_dynamic_boost"@[13] != "intel_pstate/energy_efficiency"@[13]);
    assert("laptop_mode"@[0] != "dirty_ratio"@[0]);
    assert("dirty_expire_centisecs"@[6] != "dirty_background_ratio"@[6]);
    assert("gt_min_freq_mhz"@[4] != "gt_max_freq_mhz"@[4]);
    let ls = cpu_instances_rule().leaves;
    assert forall|i: int, j: int| 0 <= i < j < ls.len() implies (#[trigger] ls[i]).suffix != (#[trigger] ls[j]).suffix by {
        assert(ls[0].suffix == "cpufreq/scaling_driver"@);
        assert(ls[1].suffix == "cpufreq/scaling_governor"@);
        assert(ls[2].suffix == "cpufreq/scaling_available_governors"@);
        assert(ls[3].suffix == "cpufreq/scaling_min_freq"@);
        assert(ls[4].suffix == "cpufreq/scaling_max_freq"@);
        assert(ls[5].suffix == "cpufreq/cpuinfo_min_freq"@);
        assert(ls[6].suffix == "cpufreq/cpuinfo_max_freq"@);
        assert(ls[7].suffix == "cpufreq/energy_performance_preference"@);
        assert(ls[8].suffix == "cpufreq/energy_performance_available_preferences"@);
        assert(ls[9].suffix == "cpufreq/boost"@);
        assert(ls[10].suffix == "power/energy_perf_bias"@);
        assert(i == 0 || i == 1 || i == 2 || i == 3 || i == 4 || i == 5 || i == 6 || i == 7 || i == 8 || i == 9 || i == 10);
        assert(j == 0 || j == 1 || j == 2 || j == 3 || j == 4 || j == 5 || j == 6 || j == 7 || j == 8 || j == 9 || j == 10);
    }
    assert(distinct_suffixes(cpu_instances_rule().leaves));
    let ls = cpu_global_rule().leaves;
    assert forall|i: int, j: int| 0 <= i < j < ls.len() implies (#[trigger] ls[i]).suffix != (#[trigger] ls[j]).suffix by {
        assert(ls[0].suffix == "intel_pstate/max_perf_pct"@);
        assert(ls[1].suffix == "intel_pstate/min_perf_pct"@);
        assert(ls[2].suffix == "intel_pstate/num_pstates"@);
        assert(ls[3].suffix == "intel_pstate/turbo_pct"@);
        assert(ls[4].suffix == "intel_pstate/no_turbo"@);
        assert(ls[5].suffix == "intel_pstate/hwp_dynamic_boost"@);
        assert(ls[6].suffix == "intel_pstate/status"@);
        assert(ls[7].suffix == "intel_pstate/energy_efficiency"@);
        assert(ls[8].suffix == "cpuidle/current_driver"@);
        assert(ls[9].suffix == "cpuidle/available_governors"@);
        assert(ls[10].suffix == "cpuidle/current_governor"@);
        assert(i == 0 || i == 1 || i == 2 || i == 3 || i == 4 || i == 5 || i == 6 || i == 7 || i == 8 || i == 9 || i == 10);
        assert(j == 0 || j == 1 || j == 2 || j == 3 || j == 4 || j == 5 || j == 6 || j == 7 || j == 8 || j == 9 || j == 10);
    }
    assert(distinct_suffixes(cpu_global_rule().leaves));
    let ls = vm_rule().leaves;
    assert forall|i: int, j: int| 0 <= i < j < ls.len() implies (#[trigger] ls[i]).suffix != (#[trigger] ls[j]).suffix by {
        assert(ls[0].suffix == "laptop_mode"@);
        assert(ls[1].suffix == "dirty_writeback_centisecs"@);
        assert(ls[2].suffix == "dirty_expire_centisecs"@);
        assert(ls[3].suffix == "dirty_ratio"@);
        assert(ls[4].suffix == "dirty_background_ratio"@);
        assert(i == 0 || i == 1 || i == 2 || i == 3 || i == 4);
        assert(j == 0 || j == 1 || j == 2 || j == 3 || j == 4);
    }
    assert(distinct_suffixes(vm_rule().leaves));
    let ls = fs_rule().leaves;
    assert forall|i: int, j: int| 0 <= i < j < ls.len() implies (#[trigger] ls[i]).suffix != (#[trigger] ls[j]).suffix by {
        assert(ls[0].suffix == "xfs/age_buffer_centisecs"@);
        assert(ls[1].suffix == "xfs/xfssyncd_centisecs"@);
        assert(i == 0 || i == 1);
        assert(j == 0 || j == 1);
    }
    assert(distinct_suffixes(fs_rule().leaves));
    let ls = acpi_rule().leaves;
    assert forall|i: int, j: int| 0 <= i < j < ls.len() implies (#[trigger] ls[i]).suffix != (#[trigger] ls[j]).suffix by {
        assert(ls[0].suffix == "platform_profile_choices"@);
        assert(ls[1].suffix == "platform_profile"@);
        assert(ls[2].suffix == "pm_profile"@);
        assert(i == 0 || i == 1 || i == 2);
        assert(j == 0 || j == 1 || j == 2);
    }
    assert(distinct_suffixes(acpi_rule().leaves));
    let ls = audio_rule().leaves;
    assert forall|i: int, j: int| 0 <= i < j < ls.len() implies (#[trigger] ls[i]).suffix != (#[trigger] ls[j]).suffix by {
        assert(ls[0].suffix == "snd_hda_intel/parameters/power_save"@);
        assert(ls[1].suffix == "snd_hda_intel/parameters/power_save_controller"@);
        assert(ls[2].suffix == "snd_ac97_codec/parameters/power_save"@);
        assert(i == 0 || i == 1 || i == 2);
        assert(j == 0 || j == 1 || j == 2);
    }
    assert(distinct_suffixes(audio_rule().leaves));
    let ls = graphics_rule().leaves;
    assert forall|i: int, j: int| 0 <= i < j < ls.len() implies (#[trigger] ls[i]).suffix != (#[trigger] ls[j]).suffix by {
        assert(ls[0].suffix == "device/power_dpm_force_performance_level"@);
        assert(ls[1].suffix == "device/power_dpm_state"@);
        assert(ls[2].suffix == "device/power_method"@);
        assert(ls[3].suffix == "device/power_profile"@);
        assert(ls[4].suffix == "gt_min_freq_mhz"@);
        assert(ls[5].suffix == "gt_max_freq_mhz"@);
        assert(ls[6].suffix == "gt_boost_freq_mhz"@);
        assert(i == 0 || i == 1 || i == 2 || i == 3 || i == 4 || i == 5 || i == 6);
        assert(j == 0 || j == 1 || j == 2 || j == 3 || j == 4 || j == 5 || j == 6);
    }
    assert(distinct_suffixes(graphics_rule().leaves));
    let ls = kernel_rule().leaves;
    assert forall|i: int, j: int| 0 <= i < j < ls.len() implies (#[trigger] ls[i]).suffix != (#[trigger] ls[j]).suffix by {
        assert(ls[0].suffix == "nmi_watchdog"@);
        assert(ls[1].suffix == "sched_rr_timeslice_ms"@);
        assert(ls[2].suffix == "sched_rt_period_us"@);
        assert(ls[3].suffix == "sched_rt_runtime_us"@);
        assert(i == 0 || i == 1 || i == 2 || i == 3);
        assert(j == 0 || j == 1 || j == 2 || j == 3);
    }
    assert(distinct_suffixes(kernel_rule().leaves));
    let ls = power_rule().leaves;
    assert forall|i: int, j: int| 0 <= i < j < ls.len() implies (#[trigger] ls[i]).suffix != (#[trigger] ls[j]).suffix by {
        assert(ls[0].suffix == "mem_sleep"@);
        assert(i == 0);
        assert(j == 0);
    }
    assert(distinct_suffixes(power_rule().leaves));
    let ls = scsi_hosts_rule().leaves;
    assert forall|i: int, j: int| 0 <= i < j < ls.len() implies (#[trigger] ls[i]).suffix != (#[trigger] ls[j]).suffix by {
        assert(ls[0].suffix == "power/control"@);
        assert(ls[1].suffix == "link_power_management_policy"@);
        assert(i == 0 || i == 1);
        assert(j == 0 || j == 1);
    }
    assert(distinct_suffixes(scsi_hosts_rule().leaves));
    let ls = pci_devices_rule().leaves;
    assert forall|i: int, j: int| 0 <= i < j < ls.len() implies (#[trigger] ls[i]).suffix != (#[trigger] ls[j]).suffix by {
        assert(ls[0].suffix == "power/control"@);
        assert(i == 0);
        assert(j == 0);
    }
    assert(distinct_suffixes(pci_devices_rule().leaves));
    let ls = block_devices_rule().leaves;
    assert forall|i: int, j: int| 0 <= i < j < ls.len() implies (#[trigger] ls[i]).suffix != (#[trigger] ls[j]).suffix by {
        assert(ls[0].suffix == "device/power/control"@);
        assert(ls[1].suffix == "device/power/autosuspend_delay_ms"@);
        assert(ls[2].suffix == "queue/scheduler"@);
        assert(i == 0 || i == 1 || i == 2);
        assert(j == 0 || j == 1 || j == 2);
    }
    assert(distinct_suffixes(block_devices_rule().leaves));
    let ls = pcie_aspm_rule().leaves;
    assert forall|i: int, j: int| 0 <= i < j < ls.len() implies (#[trigger] ls[i]).suffix != (#[trigger] ls[j]).suffix by {
        assert(ls[0].suffix == "policy"@);
        assert(i == 0);
        assert(j == 0);
    }
    assert(distinct_suffixes(pcie_aspm_rule().leaves));
    let ls = net_wakeup_rule().leaves;
    assert forall|i: int, j: int| 0 <= i < j < ls.len() implies (#[trigger] ls[i]).suffix != (#[trigger] ls[j]).suffix by {
        assert(ls[0].suffix == "device/power/wakeup"@);
        assert(i == 0);
        assert(j == 0);
    }
    assert(distinct_suffixes(net_wakeup_rule().leaves));
    let ls = usb_wakeup_rule().leaves;
    assert forall|i: int, j: int| 0 <= i < j < ls.len() implies (#[trigger] ls[i]).suffix != (#[trigger] ls[j]).suffix by {
        assert(ls[0].suffix == "power/wakeup"@);
        assert(ls[1].suffix == "link_power_management_policy"@);
        assert(i == 0 || i == 1);
        assert(j == 0 || j == 1);
    }
    assert(distinct_suffixes(usb_wakeup_rule().leaves));
    let t = rule_table();
    assert forall|r: int| 0 <= r < t.len() implies distinct_suffixes(#[trigger] t[r].leaves) by {}
}

/// Within any one rule of the table, no two control points share a path:
/// neither its leaves under its root, nor those it finds under the entries
/// of a one-level walk of its root.
pub proof fn lemma_rule_paths_distinct(r: int, entries: Seq<EntryView>)
    requires
        0 <= r < rule_table().len(),
        walk_entries(entries, rule_table()[r].root),
    ensures
        distinct_nodes(leaf_targets(rule_table()[r].root, rule_table()[r].leaves)),
        distinct_nodes(instance_targets(rule_table()[r], entries)),
{
    lemma_rule_leaves_distinct();
    let rule = rule_table()[r];
    lemma_leaf_targets_distinct(rule.root, rule.leaves);
    lemma_instance_targets_distinct(rule, entries);
}

/// The CPU-wide settings are one directory and one file deep.
proof fn lemma_cpu_global_suffix(l: int)
    requires
        0 <= l < cpu_global_rule().leaves.len(),
    ensures
        exists|a: Seq<char>, b: Seq<char>|
            !contains_char(a, '/') && !contains_char(b, '/') && cpu_global_rule().leaves[l].suffix
                == a + seq!['/'] + b,
{
    reveal_strlit("available_governors");
    reveal_strlit("cpuidle");
    reveal_strlit("cpuidle/available_governors");
    reveal_strlit("cpuidle/current_driver");
    reveal_strlit("cpuidle/current_governor");
    reveal_strlit("current_driver");
    reveal_strlit("current_governor");
    reveal_strlit("energy_efficiency");
    reveal_strlit("hwp_dynamic_boost");
    reveal_strlit("intel_pstate");
    reveal_strlit("intel_pstate/energy_efficiency");
    reveal_strlit("intel_pstate/hwp_dynamic_boost");
    reveal_strlit("intel_pstate/max_perf_pct");
    reveal_strlit("intel_pstate/min_perf_pct");
    reveal_strlit("intel_pstate/no_turbo");
    reveal_strlit("intel_pstate/num_pstates");
    reveal_strlit("intel_pstate/status");
    reveal_strlit("intel_pstate/turbo_pct");
    reveal_strlit("max_perf_pct");
    reveal_strlit("min_perf_pct");
    reveal_strlit("no_turbo");
    reveal_strlit("num_pstates");
    reveal_strlit("status");
    reveal_strlit("turbo_pct");
    assert forall|i: int| 0 <= i < "available_governors"@.len() implies "available_governors"@[i] != '/' by {
        assert(i == 0 || i == 1 || i == 2 || i == 3 || i == 4 || i == 5 || i == 6 || i == 7 || i == 8 || i == 9 || i == 10 || i == 11 || i == 12 || i == 13 || i == 14 || i == 15 || i == 16 || i == 17 || i == 18);
    }
    assert forall|i: int| 0 <= i < "cpuidle"@.len() implies "cpuidle"@[i] != '/' by {
        assert(i == 0 || i == 1 || i == 2 || i == 3 || i == 4 || i == 5 || i == 6);
    }
    assert forall|i: int| 0 <= i < "current_driver"@.len() implies "current_driver"@[i] != '/' by {
        assert(i == 0 || i == 1 || i == 2 || i == 3 || i == 4 || i == 5 || i == 6 || i == 7 || i == 8 || i == 9 || i == 10 || i == 11 || i == 12 || i == 13);
    }
    assert forall|i: int| 0 <= i < "current_governor"@.len() implies "current_governor"@[i] != '/' by {
        assert(i == 0 || i == 1 || i == 2 || i == 3 || i == 4 || i == 5 || i == 6 || i == 7 || i == 8 || i == 9 || i == 10 || i == 11 || i == 12 || i == 13 || i == 14 || i == 15);
    }
    assert forall|i: int| 0 <= i < "energy_efficiency"@.len() implies "energy_efficiency"@[i] != '/' by {
        assert(i == 0 || i == 1 || i == 2 || i == 3 || i == 4 || i == 5 || i == 6 || i == 7 || i == 8 || i == 9 || i == 10 || i == 11 || i == 12 || i == 13 || i == 14 || i == 15 || i == 16);
    }
    assert forall|i: int| 0 <= i < "hwp_dynamic_boost"@.len() implies "hwp_dynamic_boost"@[i] != '/' by {
        assert(i == 0 || i == 1 || i == 2 || i == 3 || i == 4 || i == 5 || i == 6 || i == 7 || i == 8 || i == 9 || i == 10 || i == 11 || i == 12 || i == 13 || i == 14 || i == 15 || i == 16);
    }
    assert forall|i: int| 0 <= i < "intel_pstate"@.len() implies "intel_pstate"@[i] != '/' by {
        assert(i == 0 || i == 1 || i == 2 || i == 3 || i == 4 || i == 5 || i == 6 || i == 7 || i == 8 || i == 9 || i == 10 || i == 11);
    }
    assert forall|i: int| 0 <= i < "max_perf_pct"@.len() implies "max_perf_pct"@[i] != '/' by {
        assert(i == 0 || i == 1 || i == 2 || i == 3 || i == 4 || i == 5 || i == 6 || i == 7 || i == 8 || i == 9 || i == 10 || i == 11);
    }
    assert forall|i: int| 0 <= i < "min_perf_pct"@.len() implies "min_perf_pct"@[i] != '/' by {
        assert(i == 0 || i == 1 || i == 2 || i == 3 || i == 4 || i == 5 || i == 6 || i == 7 || i == 8 || i == 9 || i == 10 || i == 11);
    }
    assert forall|i: int| 0 <= i < "no_turbo"@.len() implies "no_turbo"@[i] != '/' by {
        assert(i == 0 || i == 1 || i == 2 || i == 3 || i == 4 || i == 5 || i == 6 || i == 7);
    }
    assert forall|i: int| 0 <= i < "num_pstates"@.len() implies "num_pstates"@[i] != '/' by {
        assert(i == 0 || i == 1 || i == 2 || i == 3 || i == 4 || i == 5 || i == 6 || i == 7 || i == 8 || i == 9 || i == 10);
    }
    assert forall|i: int| 0 <= i < "status"@.len() implies "status"@[i] != '/' by {
        assert(i == 0 || i == 1 || i == 2 || i == 3 || i == 4 || i == 5);
    }
    assert forall|i: int| 0 <= i < "turbo_pct"@.len() implies "turbo_pct"@[i] != '/' by {
        assert(i == 0 || i == 1 || i == 2 || i == 3 || i == 4 || i == 5 || i == 6 || i == 7 || i == 8);
    }
    if l == 0 {
        assert(cpu_global_rule().leaves[l].suffix =~= "intel_pstate"@ + seq!['/'] + "max_perf_pct"@);
    }
    if l == 1 {
        assert(cpu_global_rule().leaves[l].suffix =~= "intel_pstate"@ + seq!['/'] + "min_perf_pct"@);
    }
    if l == 2 {
        assert(cpu_global_rule().leaves[l].suffix =~= "intel_pstate"@ + seq!['/'] + "num_pstates"@);
    }
    if l == 3 {
        assert(cpu_global_rule().leaves[l].suffix =~= "intel_pstate"@ + seq!['/'] + "turbo_pct"@);
    }
    if l == 4 {
        assert(cpu_global_rule().leaves[l].suffix =~= "intel_pstate"@ + seq!['/'] + "no_turbo"@);
    }
    if l == 5 {
        assert(cpu_global_rule().leaves[l].suffix =~= "intel_pstate"@ + seq!['/'] + "hwp_dynamic_boost"@);
    }
    if l == 6 {
        assert(cpu_global_rule().leaves[l].suffix =~= "intel_pstate"@ + seq!['/'] + "status"@);
    }
    if l == 7 {
        assert(cpu_global_rule().leaves[l].suffix =~= "intel_pstate"@ + seq!['/'] + "energy_efficiency"@);
    }
    if l == 8 {
        assert(cpu_global_rule().leaves[l].suffix =~= "cpuidle"@ + seq!['/'] + "current_driver"@);
    }
    if l == 9 {
        assert(cpu_global_rule().leaves[l].suffix =~= "cpuidle"@ + seq!['/'] + "available_governors"@);
    }
    if l == 10 {
        assert(cpu_global_rule().leaves[l].suffix =~= "cpuidle"@ + seq!['/'] + "current_governor"@);
    }
}

/// Every leaf of a CPU core lies in a subdirectory of it.
proof fn lemma_cpu_instance_suffix(l: int)
    requires
        0 <= l < cpu_instances_rule().leaves.len(),
    ensures
        contains_char(cpu_instances_rule().leaves[l].suffix, '/'),
{
    reveal_strlit("cpufreq/scaling_driver");
    reveal_strlit("cpufreq/scaling_governor");
    reveal_strlit("cpufreq/scaling_available_governors");
    reveal_strlit("cpufreq/scaling_min_freq");
    reveal_strlit("cpufreq/scaling_max_freq");
    reveal_strlit("cpufreq/cpuinfo_min_freq");
    reveal_strlit("cpufreq/cpuinfo_max_freq");
    reveal_strlit("cpufreq/energy_performance_preference");
    reveal_strlit("cpufreq/energy_performance_available_preferences");
    reveal_strlit("cpufreq/boost");
    reveal_strlit("power/energy_perf_bias");
    if l == 0 {
        assert(cpu_instances_rule().leaves[l].suffix[7] == '/');
    }
    if l == 1 {
        assert(cpu_instances_rule().leaves[l].suffix[7] == '/');
    }
    if l == 2 {
        assert(cpu_instances_rule().leaves[l].suffix[7] == '/');
    }
    if l == 3 {
        assert(cpu_instances_rule().leaves[l].suffix[7] == '/');
    }
    if l == 4 {
        assert(cpu_instances_rule().leaves[l].suffix[7] == '/');
    }
    if l == 5 {
        assert(cpu_instances_rule().leaves[l].suffix[7] == '/');
    }
    if l == 6 {
        assert(cpu_instances_rule().leaves[l].suffix[7] == '/');
    }
    if l == 7 {
        assert(cpu_instances_rule().leaves[l].suffix[7] == '/');
    }
    if l == 8 {
        assert(cpu_instances_rule().leaves[l].suffix[7] == '/');
    }
    if l == 9 {
        assert(cpu_instances_rule().leaves[l].suffix[7] == '/');
    }
    if l == 10 {
        assert(cpu_instances_rule().leaves[l].suffix[5] == '/');
    }
}

/// Every sound-card leaf starts with `s`.
proof fn lemma_audio_suffix(l: int)
    requires
        0 <= l < audio_rule().leaves.len(),
    ensures
        audio_rule().leaves[l].suffix.len() > 0 && audio_rule().leaves[l].suffix[0] == 's',
{
    reveal_strlit("snd_hda_intel/parameters/power_save");
    reveal_strlit("snd_hda_intel/parameters/power_save_controller");
    reveal_strlit("snd_ac97_codec/parameters/power_save");
}

/// Control points of two different rules of the table have different paths.
proof fn lemma_cross_rules(scans: Seq<ScanView>, r1: int, r2: int, m1: int, m2: int)
    requires
        walk_scans(scans),
        0 <= r1 < r2 < rule_table().len(),
        0 <= m1 < rule_targets(rule_table()[r1], scans).len(),
        0 <= m2 < rule_targets(rule_table()[r2], scans).len(),
    ensures
        rule_targets(rule_table()[r1], scans)[m1].node != rule_targets(rule_table()[r2], scans)[m2].node,
{
    reveal_strlit("/proc/sys/fs");
    reveal_strlit("/proc/sys/kernel");
    reveal_strlit("/proc/sys/vm");
    reveal_strlit("/sys/block");
    reveal_strlit("/sys/bus/pci/devices");
    reveal_strlit("/sys/bus/usb/devices");
    reveal_strlit("/sys/class/drm");
    reveal_strlit("/sys/class/net");
    reveal_strlit("/sys/class/scsi_host");
    reveal_strlit("/sys/devices/system/cpu");
    reveal_strlit("/sys/firmware/acpi");
    reveal_strlit("/sys/module");
    reveal_strlit("/sys/module/pcie_aspm/parameters");
    reveal_strlit("/sys/power");
    let t = rule_table();
    let x = rule_targets(t[r1], scans)[m1].node;
    let y = rule_targets(t[r2], scans)[m2].node;
    lemma_rule_target_shape(t[r1], scans, m1);
    lemma_rule_target_shape(t[r2], scans, m2);
    lemma_target_head(t[r1], x);
    lemma_target_head(t[r2], y);
    let hx = t[r1].root + seq!['/'];
    let hy = t[r2].root + seq!['/'];
    if r1 == 0 && r2 == 1 {
        let root = t[0].root;
        let (l1, n) = choose|l: int, n: Seq<char>|
            #![trigger join_path(join_path(root, n), t[0].leaves[l].suffix)]
            0 <= l < t[0].leaves.len() && !contains_char(n, '/') && x == join_path(
                join_path(root, n),
                t[0].leaves[l].suffix,
            );
        let l2 = choose|l: int|
            0 <= l < t[1].leaves.len() && y == join_path(root, #[trigger] t[1].leaves[l].suffix);
        let s1 = t[0].leaves[l1].suffix;
        let s2 = t[1].leaves[l2].suffix;
        lemma_cpu_instance_suffix(l1);
        lemma_cpu_global_suffix(l2);
        let (a, b) = choose|a: Seq<char>, b: Seq<char>|
            !contains_char(a, '/') && !contains_char(b, '/') && s2 == a + seq!['/'] + b;
        if x == y {
            let k = (root.len() + 1) as int;
            assert(x.skip(k) =~= n + seq!['/'] + s1);
            assert(y.skip(k) =~= s2);
            lemma_first_segment(n, s1, a, b);
        }
    } else if r1 == 5 && r2 == 12 {
        let l = choose|l: int|
            0 <= l < t[5].leaves.len() && x == join_path(t[5].root, #[trigger] t[5].leaves[l].suffix);
        lemma_audio_suffix(l);
        assert(x[12] == t[5].leaves[l].suffix[0]);
        assert(y[12] == y.take(hy.len() as int)[12]);
        assert(hy[12] == 'p');
    }
    if r1 == 0 && r2 == 2 {
        lemma_differ_at(x, y, hx, hy, 1);
    }
    if r1 == 0 && r2 == 3 {
        lemma_differ_at(x, y, hx, hy, 1);
    }
    if r1 == 0 && r2 == 4 {
        lemma_differ_at(x, y, hx, hy, 5);
    }
    if r1 == 0 && r2 == 5 {
        lemma_differ_at(x, y, hx, hy, 5);
    }
    if r1 == 0 && r2 == 6 {
        lemma_differ_at(x, y, hx, hy, 5);
    }
    if r1 == 0 && r2 == 7 {
        lemma_differ_at(x, y, hx, hy, 1);
    }
    if r1 == 0 && r2 == 8 {
        lemma_differ_at(x, y, hx, hy, 5);
    }
    if r1 == 0 && r2 == 9 {
        lemma_differ_at(x, y, hx, hy, 5);
    }
    if r1 == 0 && r2 == 10 {
        lemma_differ_at(x, y, hx, hy, 5);
    }
    if r1 == 0 && r2 == 11 {
        lemma_differ_at(x, y, hx, hy, 5);
    }
    if r1 == 0 && r2 == 12 {
        lemma_differ_at(x, y, hx, hy, 5);
    }
    if r1 == 0 && r2 == 13 {
        lemma_differ_at(x, y, hx, hy, 5);
    }
    if r1 == 0 && r2 == 14 {
        lemma_differ_at(x, y, hx, hy, 5);
    }
    if r1 == 1 && r2 == 2 {
        lemma_differ_at(x, y, hx, hy, 1);
    }
    if r1 == 1 && r2 == 3 {
        lemma_differ_at(x, y, hx, hy, 1);
    }
    if r1 == 1 && r2 == 4 {
        lemma_differ_at(x, y, hx, hy, 5);
    }
    if r1 == 1 && r2 == 5 {
        lemma_differ_at(x, y, hx, hy, 5);
    }
    if r1 == 1 && r2 == 6 {
        lemma_differ_at(x, y, hx, hy, 5);
    }
    if r1 == 1 && r2 == 7 {
        lemma_differ_at(x, y, hx, hy, 1);
    }
    if r1 == 1 && r2 == 8 {
        lemma_differ_at(x, y, hx, hy, 5);
    }
    if r1 == 1 && r2 == 9 {
        lemma_differ_at(x, y, hx, hy, 5);
    }
    if r1 == 1 && r2 == 10 {
        lemma_differ_at(x, y, hx, hy, 5);
    }
    if r1 == 1 && r2 == 11 {
        lemma_differ_at(x, y, hx, hy, 5);
    }
    if r1 == 1 && r2 == 12 {
        lemma_differ_at(x, y, hx, hy, 5);
    }
    if r1 == 1 && r2 == 13 {
        lemma_differ_at(x, y, hx, hy, 5);
    }
    if r1 == 1 && r2 == 14 {
        lemma_differ_at(x, y, hx, hy, 5);
    }
    if r1 == 2 && r2 == 3 {
        lemma_differ_at(x, y, hx, hy, 10);
    }
    if r1 == 2 && r2 == 4 {
        lemma_differ_at(x, y, hx, hy, 1);
    }
    if r1 == 2 && r2 == 5 {
        lemma_differ_at(x, y, hx, hy, 1);
    }
    if r1 == 2 && r2 == 6 {
        lemma_differ_at(x, y, hx, hy, 1);
    }
    if r1 == 2 && r2 == 7 {
        lemma_differ_at(x, y, hx, hy, 10);
    }
    if r1 == 2 && r2 == 8 {
        lemma_differ_at(x, y, hx, hy, 1);
    }
    if r1 == 2 && r2 == 9 {
        lemma_differ_at(x, y, hx, hy, 1);
    }
    if r1 == 2 && r2 == 10 {
        lemma_differ_at(x, y, hx, hy, 1);
    }
    if r1 == 2 && r2 == 11 {
        lemma_differ_at(x, y, hx, hy, 1);
    }
    if r1 == 2 && r2 == 12 {
        lemma_differ_at(x, y, hx, hy, 1);
    }
    if r1 == 2 && r2 == 13 {
        lemma_differ_at(x, y, hx, hy, 1);
    }
    if r1 == 2 && r2 == 14 {
        lemma_differ_at(x, y, hx, hy, 1);
    }
    if r1 == 3 && r2 == 4 {
        lemma_differ_at(x, y, hx, hy, 1);
    }
    if r1 == 3 && r2 == 5 {
        lemma_differ_at(x, y, hx, hy, 1);
    }
    if r1 == 3 && r2 == 6 {
        lemma_differ_at(x, y, hx, hy, 1);
    }
    if r1 == 3 && r2 == 7 {
        lemma_differ_at(x, y, hx, hy, 10);
    }
    if r1 == 3 && r2 == 8 {
        lemma_differ_at(x, y, hx, hy, 1);
    }
    if r1 == 3 && r2 == 9 {
        lemma_differ_at(x, y, hx, hy, 1);
    }
    if r1 == 3 && r2 == 10 {
        lemma_differ_at(x, y, hx, hy, 1);
    }
    if r1 == 3 && r2 == 11 {
        lemma_differ_at(x, y, hx, hy, 1);
    }
    if r1 == 3 && r2 == 12 {
        lemma_differ_at(x, y, hx, hy, 1);
    }
    if r1 == 3 && r2 == 13 {
        lemma_differ_at(x, y, hx, hy, 1);
    }
    if r1 == 3 && r2 == 14 {
        lemma_differ_at(x, y, hx, hy, 1);
    }
    if r1 == 4 && r2 == 5 {
        lemma_differ_at(x, y, hx, hy, 5);
    }
    if r1 == 4 && r2 == 6 {
        lemma_differ_at(x, y, hx, hy, 5);
    }
    if r1 == 4 && r2 == 7 {
        lemma_differ_at(x, y, hx, hy, 1);
    }
    if r1 == 4 && r2 == 8 {
        lemma_differ_at(x, y, hx, hy, 5);
    }
    if r1 == 4 && r2 == 9 {
        lemma_differ_at(x, y, hx, hy, 5);
    }
    if r1 == 4 && r2 == 10 {
        lemma_differ_at(x, y, hx, hy, 5);
    }
    if r1 == 4 && r2 == 11 {
        lemma_differ_at(x, y, hx, hy, 5);
    }
    if r1 == 4 && r2 == 12 {
        lemma_differ_at(x, y, hx, hy, 5);
    }
    if r1 == 4 && r2 == 13 {
        lemma_differ_at(x, y, hx, hy, 5);
    }
    if r1 == 4 && r2 == 14 {
        lemma_differ_at(x, y, hx, hy, 5);
    }
    if r1 == 5 && r2 == 6 {
        lemma_differ_at(x, y, hx, hy, 5);
    }
    if r1 == 5 && r2 == 7 {
        lemma_differ_at(x, y, hx, hy, 1);
    }
    if r1 == 5 && r2 == 8 {
        lemma_differ_at(x, y, hx, hy, 5);
    }
    if r1 == 5 && r2 == 9 {
        lemma_differ_at(x, y, hx, hy, 5);
    }
    if r1 == 5 && r2 == 10 {
        lemma_differ_at(x, y, hx, hy, 5);
    }
    if r1 == 5 && r2 == 11 {
        lemma_differ_at(x, y, hx, hy, 5);
    }
    if r1 == 5 && r2 == 13 {
        lemma_differ_at(x, y, hx, hy, 5);
    }
    if r1 == 5 && r2 == 14 {
        lemma_differ_at(x, y, hx, hy, 5);
    }
    if r1 == 6 && r2 == 7 {
        lemma_differ_at(x, y, hx, hy, 1);
    }
    if r1 == 6 && r2 == 8 {
        lemma_differ_at(x, y, hx, hy, 5);
    }
    if r1 == 6 && r2 == 9 {
        lemma_differ_at(x, y, hx, hy, 11);
    }
    if r1 == 6 && r2 == 10 {
        lemma_differ_at(x, y, hx, hy, 5);
    }
    if r1 == 6 && r2 == 11 {
        lemma_differ_at(x, y, hx, hy, 5);
    }
    if r1 == 6 && r2 == 12 {
        lemma_differ_at(x, y, hx, hy, 5);
    }
    if r1 == 6 && r2 == 13 {
        lemma_differ_at(x, y, hx, hy, 11);
    }
    if r1 == 6 && r2 == 14 {
        lemma_differ_at(x, y, hx, hy, 5);
    }
    if r1 == 7 && r2 == 8 {
        lemma_differ_at(x, y, hx, hy, 1);
    }
    if r1 == 7 && r2 == 9 {
        lemma_differ_at(x, y, hx, hy, 1);
    }
    if r1 == 7 && r2 == 10 {
        lemma_differ_at(x, y, hx, hy, 1);
    }
    if r1 == 7 && r2 == 11 {
        lemma_differ_at(x, y, hx, hy, 1);
    }
    if r1 == 7 && r2 == 12 {
        lemma_differ_at(x, y, hx, hy, 1);
    }
    if r1 == 7 && r2 == 13 {
        lemma_differ_at(x, y, hx, hy, 1);
    }
    if r1 == 7 && r2 == 14 {
        lemma_differ_at(x, y, hx, hy, 1);
    }
    if r1 == 8 && r2 == 9 {
        lemma_differ_at(x, y, hx, hy, 5);
    }
    if r1 == 8 && r2 == 10 {
        lemma_differ_at(x, y, hx, hy, 5);
    }
    if r1 == 8 && r2 == 11 {
        lemma_differ_at(x, y, hx, hy, 5);
    }
    if r1 == 8 && r2 == 12 {
        lemma_differ_at(x, y, hx, hy, 5);
    }
    if r1 == 8 && r2 == 13 {
        lemma_differ_at(x, y, hx, hy, 5);
    }
    if r1 == 8 && r2 == 14 {
        lemma_differ_at(x, y, hx, hy, 5);
    }
    if r1 == 9 && r2 == 10 {
        lemma_differ_at(x, y, hx, hy, 5);
    }
    if r1 == 9 && r2 == 11 {
        lemma_differ_at(x, y, hx, hy, 5);
    }
    if r1 == 9 && r2 == 12 {
        lemma_differ_at(x, y, hx, hy, 5);
    }
    if r1 == 9 && r2 == 13 {
        lemma_differ_at(x, y, hx, hy, 11);
    }
    if r1 == 9 && r2 == 14 {
        lemma_differ_at(x, y, hx, hy, 5);
    }
    if r1 == 10 && r2 == 11 {
        lemma_differ_at(x, y, hx, hy, 6);
    }
    if r1 == 10 && r2 == 12 {
        lemma_differ_at(x, y, hx, hy, 5);
    }
    if r1 == 10 && r2 == 13 {
        lemma_differ_at(x, y, hx, hy, 5);
    }
    if r1 == 10 && r2 == 14 {
        lemma_differ_at(x, y, hx, hy, 9);
    }
    if r1 == 11 && r2 == 12 {
        lemma_differ_at(x, y, hx, hy, 5);
    }
    if r1 == 11 && r2 == 13 {
        lemma_differ_at(x, y, hx, hy, 5);
    }
    if r1 == 11 && r2 == 14 {
        lemma_differ_at(x, y, hx, hy, 6);
    }
    if r1 == 12 && r2 == 13 {
        lemma_differ_at(x, y, hx, hy, 5);
    }
    if r1 == 12 && r2 == 14 {
        lemma_differ_at(x, y, hx, hy, 5);
    }
    if r1 == 13 && r2 == 14 {
        lemma_differ_at(x, y, hx, hy, 5);
    }
}

/// No two control points that the rule table describes share a path,
/// given scans as one-level walks of their roots give them.
pub proof fn lemma_enumerated_paths_distinct(scans: Seq<ScanView>)
    requires
        walk_scans(scans),
    ensures
        distinct_nodes(all_targets(rule_table(), scans)),
{
    let t = rule_table();
    assert forall|r: int| 0 <= r < t.len() implies distinct_nodes(rule_targets(#[trigger] t[r], scans)) by {
        lemma_entries_for_walk(scans, t[r].root);
        lemma_rule_paths_distinct(r, entries_for(scans, t[r].root));
    }
    assert forall|r1: int, r2: int, m1: int, m2: int|
        0 <= r1 < r2 < t.len() && 0 <= m1 < rule_targets(t[r1], scans).len() && 0 <= m2
            < rule_targets(t[r2], scans).len() implies (#[trigger] rule_targets(t[r1], scans)[m1]).node
        != (#[trigger] rule_targets(t[r2], scans)[m2]).node by {
        lemma_cross_rules(scans, r1, r2, m1, m2);
    }
    lemma_all_targets_distinct(t, scans);
}

/// Over the whole table, no control point lies under the entry `cpufreq` of
/// the scan of `/sys/devices/system/cpu` when that entry is matched by its own name.
proof fn lemma_cpufreq_absent(scans: Seq<ScanView>, j: int, i: int)
    requires
        walk_scans(scans),
        0 <= i < all_targets(rule_table(), scans).len(),
        0 <= j < entries_for(scans, "/sys/devices/system/cpu"@).len(),
        entries_for(scans, "/sys/devices/system/cpu"@)[j].name == "cpufreq"@,
        match_name(entries_for(scans, "/sys/devices/system/cpu"@)[j]) == Some("cpufreq"@),
    ensures
        !starts_with(all_targets(rule_table(), scans)[i].node, "/sys/devices/system/cpu/cpufreq/"@),
{
    reveal_strlit("/proc/sys/fs");
    reveal_strlit("/proc/sys/kernel");
    reveal_strlit("/proc/sys/vm");
    reveal_strlit("/sys/block");
    reveal_strlit("/sys/bus/pci/devices");
    reveal_strlit("/sys/bus/usb/devices");
    reveal_strlit("/sys/class/drm");
    reveal_strlit("/sys/class/net");
    reveal_strlit("/sys/class/scsi_host");
    reveal_strlit("/sys/devices/system/cpu");
    reveal_strlit("/sys/firmware/acpi");
    reveal_strlit("/sys/module");
    reveal_strlit("/sys/module/pcie_aspm/parameters");
    reveal_strlit("/sys/power");
    reveal_strlit("cpufreq");
    reveal_strlit("/sys/devices/system/cpu/cpufreq/");
    assert forall|i: int| 0 <= i < "cpufreq"@.len() implies "cpufreq"@[i] != '/' by {
        assert(i == 0 || i == 1 || i == 2 || i == 3 || i == 4 || i == 5 || i == 6);
    }
    let t = rule_table();
    let pfx = "/sys/devices/system/cpu/cpufreq/"@;
    assert(pfx =~= t[0].root + seq!['/'] + "cpufreq"@ + seq!['/']);
    lemma_all_targets_origin(t, scans, i);
    let (r, m) = choose|r: int, m: int|
        0 <= r < t.len() && 0 <= m < rule_targets(t[r], scans).len() && all_targets(t, scans)[i]
            == #[trigger] rule_targets(#[trigger] t[r], scans)[m];
    let x = rule_targets(t[r], scans)[m].node;
    lemma_rule_target_shape(t[r], scans, m);
    lemma_target_head(t[r], x);
    let hx = t[r].root + seq!['/'];
    if r == 0 {
        let rule = t[0];
        let entries = entries_for(scans, rule.root);
        lemma_entries_for_walk(scans, rule.root);
        lemma_instance_target_origin(rule, entries, m);
        let (j2, l) = choose|j2: int, l: int|
            0 <= j2 < entries.len() && 0 <= l < rule.leaves.len() && entry_selected(
                rule.root,
                rule.discovery,
                #[trigger] entries[j2],
            ) && instance_targets(rule, entries)[m].node == join_path(
                entries[j2].path,
                #[trigger] rule.leaves[l].suffix,
            );
        let n2 = entries[j2].name;
        let s1 = rule.leaves[l].suffix;
        assert(entries[j2].path == join_path(rule.root, n2) && !contains_char(n2, '/'));
        if starts_with(x, pfx) {
            let k = (rule.root.len() + 1) as int;
            let w = "cpufreq"@ + seq!['/'];
            assert(x.skip(k) =~= n2 + seq!['/'] + s1);
            assert forall|q: int| 0 <= q < w.len() implies (n2 + seq!['/'] + s1)[q] == w[q] by {
                assert(x.skip(k)[q] == x[k + q]);
                assert(x[k + q] == x.take(pfx.len() as int)[k + q]);
                assert(pfx[k + q] == w[q]);
            }
            assert((n2 + seq!['/'] + s1).take(w.len() as int) =~= w);
            lemma_first_segment_prefix(n2, s1, "cpufreq"@);
            if j2 != j {
                assert(entries[j2].name != entries[j].name);
            }
            assert(!instance_name(rule.discovery->Instances_0, "cpufreq"@)) by {
                reveal_strlit("cpu");
            }
        }
    }
    if r == 1 {
        let l = choose|l: int|
            0 <= l < t[1].leaves.len() && x == join_path(t[1].root, #[trigger] t[1].leaves[l].suffix);
        if l == 0 {
            reveal_strlit("intel_pstate/max_perf_pct");
            assert(x.take(x.len() as int) =~= x);
            lemma_head_excludes(x, x, pfx, 24);
        }
        if l == 1 {
            reveal_strlit("intel_pstate/min_perf_pct");
            assert(x.take(x.len() as int) =~= x);
            lemma_head_excludes(x, x, pfx, 24);
        }
        if l == 2 {
            reveal_strlit("intel_pstate/num_pstates");
            assert(x.take(x.len() as int) =~= x);
            lemma_head_excludes(x, x, pfx, 24);
        }
        if l == 3 {
            reveal_strlit("intel_pstate/turbo_pct");
            assert(x.take(x.len() as int) =~= x);
            lemma_head_excludes(x, x, pfx, 24);
        }
        if l == 4 {
            reveal_strlit("intel_pstate/no_turbo");
            assert(x.take(x.len() as int) =~= x);
            lemma_head_excludes(x, x, pfx, 24);
        }
        if l == 5 {
            reveal_strlit("intel_pstate/hwp_dynamic_boost");
            assert(x.take(x.len() as int) =~= x);
            lemma_head_excludes(x, x, pfx, 24);
        }
        if l == 6 {
            reveal_strlit("intel_pstate/status");
            assert(x.take(x.len() as int) =~= x);
            lemma_head_excludes(x, x, pfx, 24);
        }
        if l == 7 {
            reveal_strlit("intel_pstate/energy_efficiency");
            assert(x.take(x.len() as int) =~= x);
            lemma_head_excludes(x, x, pfx, 24);
        }
        if l == 8 {
            reveal_strlit("cpuidle/current_driver");
            assert(x.take(x.len() as int) =~= x);
            lemma_head_excludes(x, x, pfx, 27);
        }
        if l == 9 {
            reveal_strlit("cpuidle/available_governors");
            assert(x.take(x.len() as int) =~= x);
            lemma_head_excludes(x, x, pfx, 27);
        }
        if l == 10 {
            reveal_strlit("cpuidle/current_governor");
            assert(x.take(x.len() as int) =~= x);
            lemma_head_excludes(x, x, pfx, 27);
        }
    }
    if r == 2 {
        lemma_head_excludes(x, hx, pfx, 1);
    }
    if r == 3 {
        lemma_head_excludes(x, hx, pfx, 1);
    }
    if r == 4 {
        lemma_head_excludes(x, hx, pfx, 5);
    }
    if r == 5 {
        lemma_head_excludes(x, hx, pfx, 5);
    }
    if r == 6 {
        lemma_head_excludes(x, hx, pfx, 5);
    }
    if r == 7 {
        lemma_head_excludes(x, hx, pfx, 1);
    }
    if r == 8 {
        lemma_head_excludes(x, hx, pfx, 5);
    }
    if r == 9 {
        lemma_head_excludes(x, hx, pfx, 5);
    }
    if r == 10 {
        lemma_head_excludes(x, hx, pfx, 5);
    }
    if r == 11 {
        lemma_head_excludes(x, hx, pfx, 5);
    }
    if r == 12 {
        lemma_head_excludes(x, hx, pfx, 5);
    }
    if r == 13 {
        lemma_head_excludes(x, hx, pfx, 5);
    }
    if r == 14 {
        lemma_head_excludes(x, hx, pfx, 5);
    }
}

/// Over the whole table, no control point lies under the entry `usbhub` of
/// the scan of `/sys/bus/usb/devices` when that entry is matched by its own name.
proof fn lemma_usbhub_absent(scans: Seq<ScanView>, j: int, i: int)
    requires
        walk_scans(scans),
        0 <= i < all_targets(rule_table(), scans).len(),
        0 <= j < entries_for(scans, "/sys/bus/usb/devices"@).len(),
        entries_for(scans, "/sys/bus/usb/devices"@)[j].name == "usbhub"@,
        match_name(entries_for(scans, "/sys/bus/usb/devices"@)[j]) == Some("usbhub"@),
    ensures
        !starts_with(all_targets(rule_table(), scans)[i].node, "/sys/bus/usb/devices/usbhub/"@),
{
    reveal_strlit("/proc/sys/fs");
    reveal_strlit("/proc/sys/kernel");
    reveal_strlit("/proc/sys/vm");
    reveal_strlit("/sys/block");
    reveal_strlit("/sys/bus/pci/devices");
    reveal_strlit("/sys/bus/usb/devices");
    reveal_strlit("/sys/class/drm");
    reveal_strlit("/sys/class/net");
    reveal_strlit("/sys/class/scsi_host");
    reveal_strlit("/sys/devices/system/cpu");
    reveal_strlit("/sys/firmware/acpi");
    reveal_strlit("/sys/module");
    reveal_strlit("/sys/module/pcie_aspm/parameters");
    reveal_strlit("/sys/power");
    reveal_strlit("usbhub");
    reveal_strlit("/sys/bus/usb/devices/usbhub/");
    assert forall|i: int| 0 <= i < "usbhub"@.len() implies "usbhub"@[i] != '/' by {
        assert(i == 0 || i == 1 || i == 2 || i == 3 || i == 4 || i == 5);
    }
    let t = rule_table();
    let pfx = "/sys/bus/usb/devices/usbhub/"@;
    assert(pfx =~= t[14].root + seq!['/'] + "usbhub"@ + seq!['/']);
    lemma_all_targets_origin(t, scans, i);
    let (r, m) = choose|r: int, m: int|
        0 <= r < t.len() && 0 <= m < rule_targets(t[r], scans).len() && all_targets(t, scans)[i]
            == #[trigger] rule_targets(#[trigger] t[r], scans)[m];
    let x = rule_targets(t[r], scans)[m].node;
    lemma_rule_target_shape(t[r], scans, m);
    lemma_target_head(t[r], x);
    let hx = t[r].root + seq!['/'];
    if r == 14 {
        let rule = t[14];
        let entries = entries_for(scans, rule.root);
        lemma_entries_for_walk(scans, rule.root);
        lemma_instance_target_origin(rule, entries, m);
        let (j2, l) = choose|j2: int, l: int|
            0 <= j2 < entries.len() && 0 <= l < rule.leaves.len() && entry_selected(
                rule.root,
                rule.discovery,
                #[trigger] entries[j2],
            ) && instance_targets(rule, entries)[m].node == join_path(
                entries[j2].path,
                #[trigger] rule.leaves[l].suffix,
            );
        let n2 = entries[j2].name;
        let s1 = rule.leaves[l].suffix;
        assert(entries[j2].path == join_path(rule.root, n2) && !contains_char(n2, '/'));
        if starts_with(x, pfx) {
            let k = (rule.root.len() + 1) as int;
            let w = "usbhub"@ + seq!['/'];
            assert(x.skip(k) =~= n2 + seq!['/'] + s1);
            assert forall|q: int| 0 <= q < w.len() implies (n2 + seq!['/'] + s1)[q] == w[q] by {
                assert(x.skip(k)[q] == x[k + q]);
                assert(x[k + q] == x.take(pfx.len() as int)[k + q]);
                assert(pfx[k + q] == w[q]);
            }
            assert((n2 + seq!['/'] + s1).take(w.len() as int) =~= w);
            lemma_first_segment_prefix(n2, s1, "usbhub"@);
            if j2 != j {
                assert(entries[j2].name != entries[j].name);
            }
            assert(!instance_name(rule.discovery->Instances_0, "usbhub"@)) by {
                reveal_strlit("usb");
                assert(rule.discovery->Instances_0 == "usb"@);
                assert("usbhub"@[3] == 'h');
            }
        }
    }
    if r == 0 {
        lemma_head_excludes(x, hx, pfx, 5);
    }
    if r == 1 {
        lemma_head_excludes(x, hx, pfx, 5);
    }
    if r == 2 {
        lemma_head_excludes(x, hx, pfx, 1);
    }
    if r == 3 {
        lemma_head_excludes(x, hx, pfx, 1);
    }
    if r == 4 {
        lemma_head_excludes(x, hx, pfx, 5);
    }
    if r == 5 {
        lemma_head_excludes(x, hx, pfx, 5);
    }
    if r == 6 {
        lemma_head_excludes(x, hx, pfx, 5);
    }
    if r == 7 {
        lemma_head_excludes(x, hx, pfx, 1);
    }
    if r == 8 {
        lemma_head_excludes(x, hx, pfx, 5);
    }
    if r == 9 {
        lemma_head_excludes(x, hx, pfx, 5);
    }
    if r == 10 {
        lemma_head_excludes(x, hx, pfx, 9);
    }
    if r == 11 {
        lemma_head_excludes(x, hx, pfx, 6);
    }
    if r == 12 {
        lemma_head_excludes(x, hx, pfx, 5);
    }
    if r == 13 {
        lemma_head_excludes(x, hx, pfx, 5);
    }
}

/// Dynamic discovery over the whole table: an entry `cpufreq` of the CPU
/// root, or `usbhub` of the USB root, that is matched by its own name
/// contributes no control point, and none lies under it.
pub proof fn lemma_unmatched_entries_absent(scans: Seq<ScanView>, j: int, i: int)
    requires
        walk_scans(scans),
        0 <= i < all_targets(rule_table(), scans).len(),
    ensures
        0 <= j < entries_for(scans, "/sys/devices/system/cpu"@).len() && entries_for(
            scans,
            "/sys/devices/system/cpu"@,
        )[j].name == "cpufreq"@ && match_name(entries_for(scans, "/sys/devices/system/cpu"@)[j])
            == Some("cpufreq"@) ==> !starts_with(
            all_targets(rule_table(), scans)[i].node,
            "/sys/devices/system/cpu/cpufreq/"@,
        ),
        0 <= j < entries_for(scans, "/sys/bus/usb/devices"@).len() && entries_for(
            scans,
            "/sys/bus/usb/devices"@,
        )[j].name == "usbhub"@ && match_name(entries_for(scans, "/sys/bus/usb/devices"@)[j])
            == Some("usbhub"@) ==> !starts_with(
            all_targets(rule_table(), scans)[i].node,
            "/sys/bus/usb/devices/usbhub/"@,
        ),
{
    if 0 <= j < entries_for(scans, "/sys/devices/system/cpu"@).len() && entries_for(
        scans,
        "/sys/devices/system/cpu"@,
    )[j].name == "cpufreq"@ && match_name(entries_for(scans, "/sys/devices/system/cpu"@)[j])
        == Some("cpufreq"@) {
        lemma_cpufreq_absent(scans, j, i);
    }
    if 0 <= j < entries_for(scans, "/sys/bus/usb/devices"@).len() && entries_for(
        scans,
        "/sys/bus/usb/devices"@,
    )[j].name == "usbhub"@ && match_name(entries_for(scans, "/sys/bus/usb/devices"@)[j])
        == Some("usbhub"@) {
        lemma_usbhub_absent(scans, j, i);
    }
}

} // verus!
