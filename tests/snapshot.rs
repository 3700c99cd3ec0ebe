use powercfg::config::{ApplyError, Config, Permission};
use powercfg::diff::select_changes;
use powercfg::extract::Extractor;
use powercfg::snapshot::{parse, parse_step, serialize, ParseState};

fn point(path: &str, value: Option<&str>, writable: bool) -> Config {
    let c = Config::new(path, value);
    if writable {
        c.add_permission(Permission::write())
    } else {
        c
    }
}

fn pairs(cs: &[Config]) -> Vec<(String, Option<String>)> {
    cs.iter().map(|c| (c.node.clone(), c.value.clone())).collect()
}

#[test]
fn serialize_writes_blocks_between_banners() {
    let pts = vec![point("/x/a", Some("g1"), true), point("/x/b", Some("v1"), false)];
    let text = serialize(&pts);
    assert_eq!(text, "--------------\n+ /x/a\ng1\n+ /x/b\nv1\n--------------\n");
}

#[test]
fn serialize_absent_value_as_warning() {
    let pts = vec![point("/x/gone", None, true)];
    let text = serialize(&pts);
    assert_eq!(text, "--------------\n+ /x/gone\nWARNING: can't read /x/gone\n--------------\n");
}

#[test]
fn round_trip_keeps_paths_and_values_in_order() {
    let pts = vec![
        point("/sys/a", Some("1"), true),
        point("/sys/b", Some("powersave"), false),
        point("/sys/c", Some("[none] mq-deadline"), true),
    ];
    let back = parse(&serialize(&pts));
    assert_eq!(pairs(&back), pairs(&pts));
    for c in &back {
        assert_eq!(c.permission, Permission { readable: true, writable: false });
        assert_eq!(c.handler, Extractor::Identity);
    }
}

#[test]
fn round_trip_drops_absent_values() {
    let pts = vec![
        point("/sys/a", Some("1"), true),
        point("/sys/missing", None, true),
        point("/sys/b", Some("2"), false),
    ];
    let back = parse(&serialize(&pts));
    assert_eq!(
        pairs(&back),
        vec![
            ("/sys/a".to_string(), Some("1".to_string())),
            ("/sys/b".to_string(), Some("2".to_string())),
        ]
    );
    assert!(back.iter().all(|c| c.node != "/sys/missing"));
}

#[test]
fn parse_ignores_text_outside_banners() {
    let text = "os banner\n+ /pre\nx\n----------------\n\n+ /a\n 7 \n\n---------- end\n+ /post\ny\n";
    let got = parse(text);
    assert_eq!(pairs(&got), vec![("/a".to_string(), Some("7".to_string()))]);
}

#[test]
fn parse_drops_diagnostic_records() {
    let text = "----------\n+ /a\nERROR: /a denied\n+ /b\nWARNING: can't read /b\n+ /c\nok\n----------\n";
    let got = parse(text);
    assert_eq!(pairs(&got), vec![("/c".to_string(), Some("ok".to_string()))]);
}

#[test]
fn parse_stops_quietly_mid_record() {
    let got = parse("----------\n+ /a\n1\n+ /b\n");
    assert_eq!(pairs(&got), vec![("/a".to_string(), Some("1".to_string()))]);
    assert!(parse("").is_empty());
    assert!(parse("no banner at all\n+ /a\n1\n").is_empty());
}

#[test]
fn parse_second_path_line_replaces_first() {
    let got = parse("----------\r\n+ /a\r\n+ /b\r\nv\r\n");
    assert_eq!(pairs(&got), vec![("/b".to_string(), Some("v".to_string()))]);
}

#[test]
fn parse_step_transitions() {
    let (s, r) = parse_step(ParseState::BeforeBanner, "+ /a");
    assert!(matches!(s, ParseState::BeforeBanner) && r.is_none());
    let (s, r) = parse_step(ParseState::BeforeBanner, "  ----------  ");
    assert!(matches!(s, ParseState::AwaitingRecord) && r.is_none());
    let (s, _) = parse_step(s, "+ /a");
    assert!(matches!(&s, ParseState::AwaitingValue(p) if p == "/a"));
    let (s2, r) = parse_step(s, "   ");
    assert!(matches!(&s2, ParseState::AwaitingValue(p) if p == "/a") && r.is_none());
    let (s3, r) = parse_step(s2, "  v  ");
    assert!(matches!(s3, ParseState::AwaitingRecord));
    let c = r.unwrap();
    assert_eq!((c.node.as_str(), c.value.as_deref()), ("/a", Some("v")));
    let (s4, r) = parse_step(s3, "-----------");
    assert!(matches!(s4, ParseState::Finished) && r.is_none());
    let (s5, r) = parse_step(s4, "+ /z");
    assert!(matches!(s5, ParseState::Finished) && r.is_none());
}

#[test]
fn choice_extractor_picks_bracketed_token() {
    let x = Extractor::BracketedChoice;
    assert_eq!(x.extract("[default] performance powersave"), "default");
    assert_eq!(x.extract("performance [powersave] powersupersave"), "powersave");
    assert_eq!(x.extract("nochoice"), "nochoice");
    assert_eq!(x.extract("s2idle [deep"), "deep");
    assert_eq!(x.extract("a] b"), "a");
    assert_eq!(x.extract(""), "");
    assert_eq!(Extractor::Identity.extract("[x] y"), "[x] y");
}

#[test]
fn config_reads_first_line_trimmed_and_extracted() {
    let c = Config::new_with_handler("/sys/power/mem_sleep", Extractor::BracketedChoice, Some("s2idle [deep]\nsecond\n"));
    assert_eq!(c.value.as_deref(), Some("deep"));
    let c = Config::new("/proc/sys/vm/laptop_mode", Some("  5 \n"));
    assert_eq!(c.value.as_deref(), Some("5"));
    let c = Config::new("/nowhere", None);
    assert_eq!(c.value, None);
    assert!(!c.writeable());
}

#[test]
fn apply_writes_extracted_value_or_fails_without_value() {
    let c = Config::new_with_handler("/p", Extractor::BracketedChoice, Some("[a] b")).add_permission(Permission::write());
    assert_eq!(c.apply(), Ok("a".to_string()));
    let d = c.with_value(Some("[b] c".to_string()));
    assert_eq!(d.apply(), Ok("b".to_string()));
    let none = c.with_value(None);
    assert_eq!(none.apply(), Err(ApplyError::NoValue));
}

#[test]
fn to_text_shows_record() {
    assert_eq!(point("/a", Some("1"), false).to_text(), "+ /a\n1");
    assert_eq!(point("/a", None, false).to_text(), "+ /a\nWARNING: can't read /a");
}

#[test]
fn writeable_needs_value_and_write_permission() {
    assert!(point("/a", Some("1"), true).writeable());
    assert!(!point("/a", Some("1"), false).writeable());
    assert!(!point("/a", None, true).writeable());
    let p = Permission::read().union(Permission::write());
    assert_eq!(p, Permission { readable: true, writable: true });
}

#[test]
fn diff_selects_writable_differing_points() {
    let desired = vec![point("/a", Some("2"), false)];
    let live = vec![point("/a", Some("1"), true)];
    let got = select_changes(&desired, &live);
    assert_eq!(pairs(&got), vec![("/a".to_string(), Some("2".to_string()))]);
    assert!(got[0].permission.writable);

    let same = vec![point("/a", Some("2"), true)];
    assert!(select_changes(&desired, &same).is_empty());

    let read_only = vec![point("/a", Some("1"), false)];
    assert!(select_changes(&desired, &read_only).is_empty());

    let unreadable = vec![point("/a", None, true)];
    assert!(select_changes(&desired, &unreadable).is_empty());

    let other_path = vec![point("/b", Some("1"), true)];
    assert!(select_changes(&desired, &other_path).is_empty());
}

#[test]
fn diff_keeps_live_extractor_and_desired_order() {
    let desired = vec![point("/b", Some("y"), false), point("/a", Some("x"), false)];
    let live = vec![
        Config::new_with_handler("/a", Extractor::BracketedChoice, Some("[w] x")).add_permission(Permission::write()),
        point("/b", Some("z"), true),
    ];
    let got = select_changes(&desired, &live);
    assert_eq!(pairs(&got), vec![("/b".to_string(), Some("y".to_string())), ("/a".to_string(), Some("x".to_string()))]);
    assert_eq!(got[1].handler, Extractor::BracketedChoice);
}

#[test]
fn reapplying_after_success_selects_nothing() {
    let desired = parse("----------\n+ /a\n1\n+ /b\n2\n+ /c\n3\n----------\n");
    let live = vec![point("/a", Some("0"), true), point("/b", Some("2"), true), point("/c", Some("9"), false)];
    let changes = select_changes(&desired, &live);
    assert_eq!(changes.len(), 1);
    let relive: Vec<Config> = live
        .iter()
        .map(|l| match changes.iter().find(|c| c.node == l.node) {
            Some(c) => l.with_value(c.value.clone()),
            None => l.with_value(l.value.clone()),
        })
        .collect();
    assert!(select_changes(&desired, &relive).is_empty());
}

#[test]
fn end_to_end_snapshot_then_apply() {
    let enumerated = vec![point("/x/a", Some("g1"), true), point("/x/b", Some("v1"), false)];
    let text = serialize(&enumerated);
    assert_eq!(text.matches("\n+ ").count() + usize::from(text.starts_with("+ ")), 2);
    assert_eq!(text, "--------------\n+ /x/a\ng1\n+ /x/b\nv1\n--------------\n");
    let desired = parse(&text);
    assert_eq!(
        pairs(&desired),
        vec![("/x/a".to_string(), Some("g1".to_string())), ("/x/b".to_string(), Some("v1".to_string()))]
    );
    let live = vec![point("/x/a", Some("g0"), true), point("/x/b", Some("v1"), false)];
    let changes = select_changes(&desired, &live);
    assert_eq!(pairs(&changes), vec![("/x/a".to_string(), Some("g1".to_string()))]);
    assert_eq!(changes[0].apply(), Ok("g1".to_string()));
}

#[test]
fn parse_accepts_longer_banners() {
    let pts = vec![point("/x/a", Some("g1"), true), point("/x/b", None, false)];
    let body: Vec<String> = pts.iter().map(|c| c.to_text()).collect();
    let banner = "-".repeat(10);
    let text = format!("{}\n{}\n{}\n", banner, body.join("\n"), "-".repeat(30));
    assert_eq!(pairs(&parse(&text)), vec![("/x/a".to_string(), Some("g1".to_string()))]);
}

#[test]
fn absent_point_with_awkward_path_never_returns() {
    for odd in ["", "  ", "/a ", "/a\n+ /b\nv", "/a\n----------"] {
        let pts = vec![point("/x/a", Some("1"), true), point(odd, None, true), point("/x/c", Some("3"), false)];
        let back = parse(&serialize(&pts));
        assert!(back.iter().all(|c| c.node != odd), "{:?}", odd);
    }
}
