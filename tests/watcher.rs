use snipecord::catalog::{default_repeat_timeout, Config, Course, Section};
use snipecord::message::{
    format_alert, format_mention, format_notification, format_section_label, format_unknown_label,
};
use snipecord::poll::Poller;
use snipecord::resolve::LabelWarning;
use snipecord::table::{is_listed, Entry, SuppressionTable};

fn s(x: &str) -> String {
    x.to_string()
}

fn ids(xs: &[&str]) -> Vec<String> {
    xs.iter().map(|x| x.to_string()).collect()
}

fn course(title: &str, sections: &[(&str, &str)]) -> Course {
    Course {
        title: s(title),
        sections: sections
            .iter()
            .map(|(n, i)| Section { number: s(n), index: s(i) })
            .collect(),
    }
}

fn config(indexes: &[&str], cooldown: u32, mention: Option<&str>) -> Config {
    Config {
        webhook: s("https://example.invalid/hook"),
        mention: mention.map(s),
        repeat_timeout: cooldown,
        year: s("2024"),
        term: s("9"),
        campus: s("NB"),
        level: s("U"),
        indexes: ids(indexes),
    }
}

fn table(entries: &[(&str, u32)]) -> SuppressionTable {
    SuppressionTable {
        entries: entries
            .iter()
            .map(|(i, c)| Entry { index: s(i), label: format!("L{}", i), cooldown: *c })
            .collect(),
    }
}

fn cooldowns(t: &SuppressionTable) -> Vec<u32> {
    t.entries.iter().map(|e| e.cooldown).collect()
}

#[test]
fn default_cooldown_is_sixty() {
    assert_eq!(default_repeat_timeout(), 60);
}

#[test]
fn section_label_format() {
    assert_eq!(
        format_section_label(&s("Intro to Computer Science"), &s("01"), &s("12345")),
        "Intro to Computer Science Section 01 (Index 12345)"
    );
}

#[test]
fn unknown_label_format() {
    assert_eq!(format_unknown_label(&s("55555")), "Unknown Class (Index 55555)");
}

#[test]
fn alert_format() {
    assert_eq!(
        format_alert(&s("Calc Section 02 (Index 01234)"), &s("9"), &s("2024"), &s("01234")),
        "The course Calc Section 02 (Index 01234) is open!!! Register with \
         http://sims.rutgers.edu/webreg/editSchedule.htm?login=cas&semesterSelection=92024&indexList=01234"
    );
}

#[test]
fn mention_prefix_present_and_absent() {
    assert_eq!(format_mention(&Some(s("<@42>"))), "<@42>\n");
    assert_eq!(format_mention(&None), "");
    assert_eq!(format_notification(&s("<@42>\n"), &s("hi")), "<@42>\n\nhi");
    assert_eq!(format_notification(&s(""), &s("hi")), "\nhi");
}

#[test]
fn listed_finds_exact_matches_only() {
    let open = ids(&["01234", "99999"]);
    assert!(is_listed(&open, &s("99999")));
    assert!(!is_listed(&open, &s("0123")));
    assert!(!is_listed(&Vec::new(), &s("01234")));
}

#[test]
fn ready_and_open_fires_and_rearms() {
    let mut t = table(&[("a", 0), ("b", 0)]);
    let fired = t.tick(&ids(&["b", "x"]), 5);
    assert_eq!(fired, vec![1]);
    assert_eq!(cooldowns(&t), vec![0, 5]);
}

#[test]
fn closed_resets_whatever_before() {
    let mut t = table(&[("a", 7), ("b", 1), ("c", 0)]);
    let fired = t.tick(&ids(&[]), 5);
    assert!(fired.is_empty());
    assert_eq!(cooldowns(&t), vec![0, 0, 0]);
}

#[test]
fn suppressed_counts_down_by_one() {
    let mut t = table(&[("a", 7), ("b", 1)]);
    let fired = t.tick(&ids(&["a", "b"]), 5);
    assert!(fired.is_empty());
    assert_eq!(cooldowns(&t), vec![6, 0]);
}

#[test]
fn open_identifier_listed_twice_fires_once() {
    let mut t = table(&[("a", 0)]);
    let fired = t.tick(&ids(&["a", "a"]), 4);
    assert_eq!(fired, vec![0]);
    assert_eq!(cooldowns(&t), vec![4]);
}

#[test]
fn closed_run_stays_clear_then_fires() {
    let mut t = table(&[("a", 0)]);
    assert_eq!(t.tick(&ids(&["a"]), 10), vec![0]);
    for _ in 0..4 {
        assert!(t.tick(&ids(&["z"]), 10).is_empty());
        assert_eq!(cooldowns(&t), vec![0]);
    }
    assert_eq!(t.tick(&ids(&["a"]), 10), vec![0]);
}

#[test]
fn continuously_open_repeats_every_cooldown_plus_one() {
    let mut t = table(&[("a", 0)]);
    let mut fired_at = Vec::new();
    for tick in 1..=9u32 {
        if !t.tick(&ids(&["a"]), 2).is_empty() {
            fired_at.push(tick);
        }
    }
    assert_eq!(fired_at, vec![1, 4, 7]);
}

#[test]
fn scenario_reopen_after_close_fires_again() {
    let cfg = config(&["01234"], 3, None);
    let meta = vec![course("Calc", &[("02", "01234")])];
    let (mut p, warnings) = Poller::new(&cfg, &meta);
    assert!(warnings.is_empty());

    let out = p.on_snapshot(Some(ids(&["01234"])));
    assert_eq!(out.len(), 1);
    assert_eq!(p.table.cooldown_of(&s("01234")), Some(3));

    let out = p.on_snapshot(Some(ids(&["01234"])));
    assert!(out.is_empty());
    assert_eq!(p.table.cooldown_of(&s("01234")), Some(2));

    let out = p.on_snapshot(Some(ids(&[])));
    assert!(out.is_empty());
    assert_eq!(p.table.cooldown_of(&s("01234")), Some(0));

    let out = p.on_snapshot(Some(ids(&["01234"])));
    assert_eq!(out.len(), 1);
    assert_eq!(p.table.cooldown_of(&s("01234")), Some(3));
}

#[test]
fn scenario_duplicate_index_last_wins() {
    let cfg = config(&["99999"], 60, None);
    let meta = vec![
        course("First Course", &[("01", "99999")]),
        course("Second Course", &[("07", "99999")]),
    ];
    let (p, warnings) = Poller::new(&cfg, &meta);
    assert_eq!(p.table.entries[0].label, "Second Course Section 07 (Index 99999)");
    assert_eq!(warnings.len(), 1);
    match &warnings[0] {
        LabelWarning::Duplicate { index, first, then } => {
            assert_eq!(index, "99999");
            assert_eq!(first, "First Course Section 01 (Index 99999)");
            assert_eq!(then, "Second Course Section 07 (Index 99999)");
        }
        LabelWarning::Missing { .. } => panic!("expected a duplicate warning"),
    }
}

#[test]
fn scenario_missing_index_gets_fallback() {
    let cfg = config(&["55555"], 60, None);
    let meta = vec![course("Calc", &[("01", "11111")])];
    let (mut p, warnings) = Poller::new(&cfg, &meta);
    assert_eq!(p.table.entries[0].label, "Unknown Class (Index 55555)");
    assert_eq!(warnings.len(), 1);
    assert!(matches!(&warnings[0], LabelWarning::Missing { index } if index == "55555"));
    let out = p.on_snapshot(Some(ids(&["55555"])));
    assert_eq!(out.len(), 1);
    assert!(out[0].contains("Unknown Class (Index 55555)"));
}

#[test]
fn scenario_failed_fetch_changes_nothing() {
    let cfg = config(&["01234", "22222"], 3, None);
    let meta = vec![course("Calc", &[("02", "01234"), ("03", "22222")])];
    let (mut p, _) = Poller::new(&cfg, &meta);
    p.on_snapshot(Some(ids(&["01234"])));
    p.on_snapshot(Some(ids(&["01234", "22222"])));
    let before: Vec<(String, String, u32)> =
        p.table.entries.iter().map(|e| (e.index.clone(), e.label.clone(), e.cooldown)).collect();
    let out = p.on_snapshot(None);
    assert!(out.is_empty());
    let after: Vec<(String, String, u32)> =
        p.table.entries.iter().map(|e| (e.index.clone(), e.label.clone(), e.cooldown)).collect();
    assert_eq!(before, after);
    let out = p.on_snapshot(Some(ids(&["01234", "22222"])));
    assert!(out.is_empty());
    assert_eq!(p.table.cooldown_of(&s("01234")), Some(1));
    assert_eq!(p.table.cooldown_of(&s("22222")), Some(2));
}

#[test]
fn notification_body_with_mention() {
    let cfg = config(&["01234"], 60, Some("<@&7>"));
    let meta = vec![course("Calc", &[("02", "01234")])];
    let (mut p, _) = Poller::new(&cfg, &meta);
    let out = p.on_snapshot(Some(ids(&["01234"])));
    assert_eq!(
        out,
        vec![s("<@&7>\n\nThe course Calc Section 02 (Index 01234) is open!!! Register with \
                http://sims.rutgers.edu/webreg/editSchedule.htm?login=cas&semesterSelection=92024&indexList=01234")]
    );
}

#[test]
fn untracked_open_identifiers_are_ignored() {
    let cfg = config(&["01234"], 60, None);
    let (mut p, _) = Poller::new(&cfg, &Vec::new());
    let out = p.on_snapshot(Some(ids(&["77777", "88888"])));
    assert!(out.is_empty());
    assert_eq!(p.table.len(), 1);
    assert_eq!(p.table.cooldown_of(&s("77777")), None);
}

#[test]
fn watch_list_duplicates_share_one_slot() {
    let cfg = config(&["01234", "02000", "01234"], 60, None);
    let meta = vec![course("Calc", &[("02", "01234"), ("05", "02000")])];
    let (p, warnings) = Poller::new(&cfg, &meta);
    assert!(warnings.is_empty());
    assert_eq!(p.table.len(), 2);
    assert_eq!(p.table.entries[0].index, "01234");
    assert_eq!(p.table.entries[1].label, "Calc Section 05 (Index 02000)");
}

#[test]
fn empty_watch_list_never_notifies() {
    let cfg = config(&[], 60, None);
    let (mut p, warnings) = Poller::new(&cfg, &vec![course("Calc", &[("02", "01234")])]);
    assert!(warnings.is_empty());
    assert!(p.on_snapshot(Some(ids(&["01234"]))).is_empty());
}
