use powercfg::battery::{is_battery_type, Battery};
use powercfg::cpu::{cpu_attribute_path, new_cpu, CpuFiles, CPU};
use powercfg::cpuinfo::parse_cpuinfo;
use powercfg::hwmon::{temp_input_number, Hwmon, SensorFile};
use powercfg::number::{decimal, parse_u32, reading};
use powercfg::sampling::{battery_low, header_row, sample_rounds, sample_row};
use powercfg::text::{file_name, line_value};
use powercfg::thermal::Thermal;

fn s(x: &str) -> Option<String> {
    Some(x.to_string())
}

#[test]
fn parse_u32_like_from_str() {
    assert_eq!(parse_u32("42"), Some(42));
    assert_eq!(parse_u32("+7"), Some(7));
    assert_eq!(parse_u32("4294967295"), Some(u32::MAX));
    assert_eq!(parse_u32("4294967296"), None);
    assert_eq!(parse_u32("99999999999999999999"), None);
    assert_eq!(parse_u32(""), None);
    assert_eq!(parse_u32("+"), None);
    assert_eq!(parse_u32("-1"), None);
    assert_eq!(parse_u32("1 2"), None);
    assert_eq!(parse_u32("007"), Some(7));
}

#[test]
fn readings_and_decimals() {
    assert_eq!(reading(Some(" 85\n")), 85);
    assert_eq!(reading(Some("n/a")), 0);
    assert_eq!(reading(None), 0);
    assert_eq!(decimal(0), "0");
    assert_eq!(decimal(1234567), "1234567");
    assert_eq!(decimal(u32::MAX), "4294967295");
    assert_eq!(line_value("  a b \nc"), "a b");
    assert_eq!(file_name("/sys/class/power_supply/BAT0").as_deref(), Some("BAT0"));
    assert_eq!(file_name("plain").as_deref(), Some("plain"));
    assert_eq!(file_name("/sys/class/power_supply/BAT0/").as_deref(), Some("BAT0"));
    assert_eq!(file_name("/a/b//./").as_deref(), Some("b"));
    assert_eq!(file_name("/a/b/.."), None);
    assert_eq!(file_name("/"), None);
    assert_eq!(file_name(""), None);
    assert_eq!(file_name("."), None);
    assert_eq!(file_name("..a").as_deref(), Some("..a"));
}

#[test]
fn battery_from_files() {
    assert!(is_battery_type("Battery\n"));
    assert!(is_battery_type(" UPS "));
    assert!(!is_battery_type("Mains"));
    let b = Battery::new("/sys/class/power_supply/BAT0", Some("ACME\n"), Some("X1"), Some("42"), Some("Battery\n")).unwrap();
    assert_eq!(b.name, "BAT0");
    assert_eq!(b.manufacturer, "ACME");
    assert_eq!(b.rtype, "Battery");
    assert!(Battery::new("/p/BAT1", Some("a"), None, Some("c"), Some("d")).is_none());
    let slash = Battery::new("/sys/class/power_supply/BAT0/", Some("a"), Some("b"), Some("c"), Some("d")).unwrap();
    assert_eq!(slash.name, "BAT0");
    assert!(Battery::new("/", Some("a"), Some("b"), Some("c"), Some("d")).is_none());
    assert_eq!(b.attribute_path("capacity"), "/sys/class/power_supply/BAT0/capacity");
    assert_eq!(b.capacity(Some("87\n")), 87);
    assert_eq!(b.capacity(None), 0);
    assert_eq!(b.voltage_now(Some("12000000")), 12000000);
    assert_eq!(b.current_now(Some("bad")), 0);
    assert_eq!(b.power_now(Some("5000000")), Some(5000000));
    assert_eq!(b.power_now(None), None);
    assert_eq!(b.power_now(Some("n/a\n")), Some(0));
    assert_eq!(b.status(Some("Discharging\n")), "Discharging");
    assert_eq!(b.status(None), "");
}

#[test]
fn cpu_tag_paths_and_construction() {
    let files = CpuFiles {
        core_id: s("3\n"),
        physical_package_id: s("0"),
        scaling_driver: s("intel_pstate\n"),
        scaling_governor: s("powersave"),
        scaling_min_freq: s("400000"),
        scaling_max_freq: s("4700000"),
    };
    let c = new_cpu(6, "GenuineIntel", "6", "140", &files).unwrap();
    assert_eq!(c.tag(), "0:3:6");
    assert_eq!(c.scaling_driver, "intel_pstate");
    assert_eq!(c.scaling_max_freq, 4700000);
    assert_eq!(c.freq(Some("1200000\n")), 1200000);
    assert_eq!(c.freq(None), 0);
    let bad = CpuFiles { scaling_min_freq: s("fast"), ..files };
    assert!(new_cpu(6, "v", "f", "m", &bad).is_none());
    assert_eq!(cpu_attribute_path(12, "cpufreq/scaling_cur_freq"), "/sys/devices/system/cpu/cpu12/cpufreq/scaling_cur_freq");
    let d = CPU::default();
    assert_eq!(d.tag(), "0:0:0");
    assert!(d.vendor.is_empty());
}

#[test]
fn cpuinfo_blocks() {
    let text = "processor\t: 0\nvendor_id\t: GenuineIntel\ncpu family\t: 6\nmodel\t\t: 140\nmodel name\t: Intel(R) Core(TM)\n\nprocessor\t: 1\nvendor_id\t: GenuineIntel\ncpu family\t: 6\nmodel\t\t: 141";
    let ps = parse_cpuinfo(text);
    assert_eq!(ps.len(), 2);
    assert_eq!((ps[0].number, ps[0].vendor.as_str(), ps[0].family.as_str(), ps[0].model.as_str()), (0, "GenuineIntel", "6", "140"));
    assert_eq!((ps[1].number, ps[1].model.as_str()), (1, "141"));
    let trailing = parse_cpuinfo("processor\t: 4\n\n\n");
    assert_eq!(trailing.len(), 1);
    assert_eq!(trailing[0].number, 4);
    assert!(parse_cpuinfo("vendor_id\t: X\n\n").is_empty());
}

#[test]
fn thermal_zone_from_files() {
    let z = Thermal::new("/sys/class/thermal/thermal_zone1", Some("x86_pkg_temp\n"), None, Some("step_wise"), Some("step_wise")).unwrap();
    assert_eq!(z.name, "thermal_zone1");
    assert_eq!(z.mode, "");
    assert_eq!(z.attribute_path("temp"), "/sys/class/thermal/thermal_zone1/temp");
    assert_eq!(z.temp(Some("45000\n")), 45000);
    assert!(Thermal::new("/t/z", Some("a"), Some("enabled"), None, Some("p")).is_none());
    let z0 = Thermal::new("/sys/class/thermal/thermal_zone0/", Some("a"), None, Some("b"), Some("c")).unwrap();
    assert_eq!(z0.name, "thermal_zone0");
}

#[test]
fn hwmon_fans_and_temps() {
    let h = Hwmon::new("/sys/class/hwmon/hwmon2", Some("coretemp\n")).unwrap();
    assert_eq!(h.node, "hwmon2");
    assert_eq!(h.name, "coretemp");
    assert!(Hwmon::new("/sys/class/hwmon/hwmon3", None).is_none());
    assert_eq!(Hwmon::new("/sys/class/hwmon/hwmon0/", Some("acpitz")).unwrap().node, "hwmon0");
    assert!(Hwmon::new("/sys/class/hwmon/..", Some("acpitz")).is_none());
    assert_eq!(h.dir_path(), "/sys/class/hwmon/hwmon2");
    assert_eq!(h.temp_label_path("1"), "/sys/class/hwmon/hwmon2/temp1_label");
    assert_eq!(temp_input_number("temp12_input").as_deref(), Some("12"));
    assert_eq!(temp_input_number("temp12_label"), None);
    let files = vec![
        SensorFile { name: "fan1_input".to_string(), content: s("1200\n"), label: None },
        SensorFile { name: "fan2_input".to_string(), content: s("x"), label: None },
        SensorFile { name: "name".to_string(), content: s("coretemp"), label: None },
        SensorFile { name: "temp1_input".to_string(), content: s("45000"), label: s("Package id 0\n") },
        SensorFile { name: "temp2_input".to_string(), content: s("41000"), label: None },
        SensorFile { name: "temp3_input".to_string(), content: s("40000"), label: s("Package id 0") },
    ];
    let fans: Vec<(String, u32)> = h.fans(&files).into_iter().map(|x| (x.key, x.value)).collect();
    assert_eq!(fans, vec![("fan1_input".to_string(), 1200)]);
    let temps: Vec<(String, u32)> = h.temps(&files).into_iter().map(|x| (x.key, x.value)).collect();
    assert_eq!(temps, vec![("Package id 0".to_string(), 40000), ("temp2_label".to_string(), 41000)]);
}

#[test]
fn sampling_rules() {
    assert_eq!(sample_rounds(120), 24);
    assert_eq!(sample_rounds(121), 25);
    assert_eq!(sample_rounds(0), 0);
    assert_eq!(sample_rounds(u32::MAX), 858993459);
    assert!(battery_low(5));
    assert!(!battery_low(6));
    assert_eq!(header_row(&vec!["BAT0".to_string()]), vec!["timestamp".to_string(), "BAT0".to_string()]);
    assert_eq!(sample_row(1700000000, &vec![87, 0]), vec!["1700000000".to_string(), "87".to_string(), "0".to_string()]);
}

