use tulipix::status::card::{card, cell, grp, kpi, row, table, tag, Block, Cell, Event, Sec};
use tulipix::status::cloud::{cloud_card, QueueFile, QueueSum, Remote};
use tulipix::status::collect::{collect, scan, summarize, today, Reports};
use tulipix::status::figures::{
    bytes, clock, dur, file_name, local_midnight, local_offset, missing_why, mount_state, num, plural_days, wire_rate,
    worse, Reading, BUSY, OK, PROBLEM, UNKNOWN,
};
use tulipix::status::library::{growth, library, root_prefix, Root};
use tulipix::status::metrics::{metrics, MetricFacts};
use tulipix::status::money::amount;
use tulipix::status::server::{
    add_folder, authed, may_open, mint_token, open_section, page_url, rescan, reset, token_of, Action, Answer, Watch,
};
use tulipix::status::services::{rss_bytes, rss_line, ScanRow};
use tulipix::status::timeline::{timeline, transfer_events, LedgerRow};

#[test]
fn formatters() {
    assert_eq!(bytes(0), "0 B");
    assert_eq!(bytes(1023), "1023 B");
    assert_eq!(bytes(1024), "1.0 KB");
    assert_eq!(bytes(1_572_864), "1.5 MB");
    // Crosses into the three-digit branch, which drops the decimal.
    assert_eq!(bytes(200 * 1024 * 1024), "200 MB");

    assert_eq!(num(0), "0");
    assert_eq!(num(999), "999");
    assert_eq!(num(1_000), "1,000");
    assert_eq!(num(21_704), "21,704");
    assert_eq!(num(-4_512), "-4,512");

    assert_eq!(dur(0), "—");
    assert_eq!(dur(59), "0m");
    assert_eq!(dur(720), "12m");
    assert_eq!(dur(15_120), "4h 12m");
}

#[test]
fn level_folding() {
    assert_eq!(worse(OK, BUSY), BUSY);
    assert_eq!(worse(BUSY, OK), BUSY);
    assert_eq!(worse(BUSY, PROBLEM), PROBLEM);
    assert_eq!(worse(PROBLEM, BUSY), PROBLEM);
    assert_eq!(worse(OK, OK), OK);
    // Unknown never wins — a section that failed to open says so on its own
    // card, and should not paint the whole app red.
    assert_eq!(worse(OK, UNKNOWN), OK);
}

#[test]
fn wire_rate_needs_two_readings() {
    let mut slot = Reading::none();
    // Nothing to subtract from yet.
    assert_eq!(wire_rate(&mut slot, 1_000, 100), 0);
    // 4 KB over 2 s.
    assert_eq!(wire_rate(&mut slot, 9_192, 102), 4_096);
    // Same instant twice: not a rate, not a division by zero.
    assert_eq!(wire_rate(&mut slot, 20_000, 102), 0);
    // The server restarted and the counter went back to zero.
    assert_eq!(wire_rate(&mut slot, 5, 110), 0);
    // And it picks straight back up from the new baseline.
    assert_eq!(wire_rate(&mut slot, 105, 111), 100);
}

#[test]
fn lateness_reads_as_english() {
    assert_eq!(plural_days(1), "1 day");
    assert_eq!(plural_days(6), "6 days");
    // Due today is not late; neither is a clock skew that reads negative.
    assert_eq!(plural_days(0), "today");
    assert_eq!(plural_days(-2), "today");
}

#[test]
fn queue_rows_name_the_file_not_the_path() {
    assert_eq!(file_name("/home/a/Pictures/trip.jpg"), "trip.jpg");
    assert_eq!(file_name(r"C:\Users\a\trip.jpg"), "trip.jpg");
    // A trailing separator has no last component; showing the whole thing
    // beats showing an empty cell.
    assert_eq!(file_name("/home/a/"), "/home/a/");
    assert_eq!(file_name("trip.jpg"), "trip.jpg");
}

#[test]
fn midnight_is_local_and_is_a_midnight() {
    let now = std::time::SystemTime::now().duration_since(std::time::UNIX_EPOCH).unwrap().as_secs() as i64;
    for text in ["+0000", "+0530", "-0800", "+1400", "-1200"] {
        let offset = local_offset(text);
        let m = local_midnight(now, offset);
        assert!(m <= now, "midnight has already happened");
        assert!(now - m < 86_400, "and it was less than a day ago");
        assert_eq!((m + offset).rem_euclid(86_400), 0, "on a local day boundary");
    }
    assert_eq!(local_midnight(i64::MAX, 0) % 86_400, 0);
    assert_eq!(local_offset("+0530\n"), 19_800);
    assert_eq!(local_offset("-0800"), -28_800);
    assert_eq!(local_offset(""), 0);
}

#[test]
fn the_timeline_is_one_list_newest_first() {
    let ev = |at: i64, t: &str| Event { at, accent: "cyan".to_string(), title: t.to_string(), desc: String::new() };
    let out = timeline(
        &vec![ev(4_000_000_100, "a job")],
        &vec![ev(4_000_000_300, "a send"), ev(4_000_000_050, "an old send")],
        &vec![],
        1_700_000_000,
        0,
    );
    let titles: Vec<&str> = out.iter().map(|e| e.title.as_str()).collect();
    let at = |t: &str| titles.iter().position(|x| *x == t).unwrap_or_else(|| panic!("{t}"));
    assert!(at("a send") < at("a job"), "newest first");
    assert!(at("a job") < at("an old send"), "and the fold does not group by source");
}

#[test]
fn a_section_that_states_its_size_in_a_group_still_fills_the_size_column() {
    let c = card(
        "music",
        "Music",
        "pink",
        OK,
        "Operational",
        vec![row("Tracks", "12".to_string(), "")],
        vec![kpi("12".to_string(), "Tracks"), kpi("4h 20m".to_string(), "Played this week")],
        vec![grp("Library", vec![row("On disk", "1.5 MB".to_string(), "")])],
    );
    let v = library(&vec![c], 12, 1_572_864, &vec![], &vec![], 0);
    assert_eq!(v.sections[0].count, "12");
    assert_eq!(v.sections[0].size, "1.5 MB", "not the second KPI");
}

#[test]
fn mount_states_are_distinct() {
    assert_eq!(mount_state(Some("mounted")).0, "Mounted");
    assert_eq!(mount_state(Some("error")).1, "b");
    // No mount row at all is "never mounted", not "failed".
    assert_eq!(mount_state(None).1, "i");
}

#[test]
fn token_is_long_and_unique() {
    let a = mint_token();
    let b = mint_token();
    assert_eq!(a.len(), 64, "32 bytes as hex");
    assert_ne!(a, b, "a fresh token per server");
    assert_eq!(token_of(Some(vec![0xab; 32])), "ab".repeat(32));
}

#[test]
fn auth_rejects_everything_but_the_token() {
    assert!(authed("abcd", Some("abcd")));
    assert!(!authed("abcd", Some("abce")));
    assert!(!authed("abcd", Some("abc")), "short");
    assert!(!authed("abcd", Some("abcde")), "long");
    assert!(!authed("abcd", None), "absent");
}

#[test]
fn actions_need_the_token_and_sense() {
    assert!(matches!(
        open_section("abcd", Some("abcd"), r#"{"section":"photos"}"#),
        Answer::Accepted(Action::OpenSection(s)) if s == "photos"
    ));
    assert!(matches!(open_section("abcd", Some("nope"), r#"{"section":"photos"}"#), Answer::Denied));
    assert!(matches!(open_section("abcd", Some("abcd"), "not json"), Answer::Bad(_)));
    assert!(matches!(open_section("abcd", Some("abcd"), r#"{"section":7}"#), Answer::Bad(_)));
    assert!(matches!(rescan("abcd", Some("abcd")), Answer::Accepted(Action::Rescan)));
    assert!(matches!(rescan("abcd", None), Answer::Denied));
    assert!(matches!(add_folder("abcd", Some("abcd")), Answer::Accepted(Action::AddFolder)));
    assert!(matches!(add_folder("abcd", Some("abc")), Answer::Denied));
    assert!(matches!(reset("abcd", Some("abcd"), r#"{"confirm":"reset"}"#), Answer::Bad(_)));
    assert!(matches!(reset("abcd", None, r#"{"confirm":"RESET"}"#), Answer::Denied));
    assert!(matches!(reset("abcd", Some("abcd"), r#"{"confirm":"RESET"}"#), Answer::Accepted(Action::ResetApp)));
    assert_eq!(Answer::Denied.status(), 403);
    assert_eq!(Answer::Bad("x").status(), 400);
    assert_eq!(Answer::Accepted(Action::Rescan).status(), 200);
}

#[test]
fn the_page_is_on_this_machine() {
    let url = page_url(4321, "tok");
    assert_eq!(url, "http://127.0.0.1:4321/?t=tok");
    assert!(may_open(&url));
    assert!(!may_open("http://example.com/"));
    let mut w = Watch::new();
    w.request_focus();
    assert!(w.seen(100), "the request is handed over");
    assert!(!w.seen(101), "once");
    assert!(w.watched(101));
    assert!(!w.watched(200));
    assert_eq!(w.idle_secs(200), 99);
}

#[test]
fn figures_at_their_edges() {
    assert_eq!(bytes(-1), bytes(0));
    assert_eq!(bytes(1024 * 1024 * 1024), "1.0 GB");
    assert_eq!(num(i64::MIN), "-9,223,372,036,854,775,808");
    for i in [0, 7, -12, 999, 1_000, -1_000_001, i64::MAX, i64::MIN] {
        assert_eq!(num(i).replace(',', "").parse(), Ok(i), "grouped numbers read back");
    }
    assert_eq!(clock(0, 0), "—");
    assert_eq!(clock(86_399, 0), "11:59 PM");
    assert_eq!(clock(86_400, 0), "12:00 AM");
    assert_eq!(clock(86_400, 19_800), "5:30 AM");
    assert_eq!(clock(43_200, 0), "12:00 PM");
    assert!(missing_why("photo", 1).contains('1'));
    assert_eq!(rss_bytes("10 3 1 1 0 1 0"), 3 * 4096);
    assert_eq!(rss_bytes("junk"), 0);
    assert!(!rss_line(4096).is_empty());
    assert_eq!(amount(123_456), "1234.56");
    assert_eq!(amount(-5), "-0.05");
}

#[test]
fn growth_climbs_to_the_total() {
    let g = growth(&vec![(0, 5), (2, 3), (2, 1), (29, 4)], 0);
    assert!(g.windows(2).all(|w| w[0] <= w[1]));
    assert_eq!(*g.last().unwrap(), 13);
}

#[test]
fn a_summary_says_the_worst() {
    let mk = |level: &str| card("k", "Name", "cyan", level, "s", vec![], vec![], vec![]);
    let ok = summarize(&vec![mk(OK), mk(OK)], 0);
    let bad = summarize(&vec![mk(OK), mk(PROBLEM)], 0);
    assert_eq!(ok.level, OK);
    assert_eq!(bad.level, PROBLEM);
    assert_ne!(ok.headline, bad.headline);
    assert_eq!(ok.online, 2);
    let (lines, any) =
        scan(&vec![ScanRow { section: "photos".into(), total: 10, added: 4, failed: 1, active: true }]);
    assert!(any);
    assert_eq!((lines[0].total, lines[0].failed, lines[0].pct), (10, 1, 50));
    assert_eq!(lines[0].done, 5);
    assert_eq!(today(1, 2, 3, 4).len(), 4);
}

#[test]
fn cards_hold_what_they_are_given() {
    let t = table("H", vec!["a".to_string()], vec![vec![cell("x"), tag("y", "g")]]);
    assert!(matches!(&t, Block::Table(h, c, l) if h == "H" && c.len() == 1
        && matches!(&l[0][1], Cell::Tag(a, b) if a == "y" && b == "g")));
    let s = Sec::new(card("k", "N", "a", OK, "s", vec![], vec![], vec![])).why("because".to_string());
    assert_eq!(s.card.why.as_deref(), Some("because"));
    assert_eq!((s.running, s.failed, s.today), (0, 0, 0));
}

#[test]
fn the_cloud_card_counts_what_is_mounted() {
    let remote = |name: &str, st: Option<&str>| Remote {
        name: name.into(),
        backend: "drive".into(),
        mount_path: None,
        status: st.map(|s| s.to_string()),
    };
    let s = cloud_card(
        &vec![remote("a", Some("mounted")), remote("b", None)],
        &vec![QueueSum { state: "queued".into(), count: 2, total: 100, done: 40 }],
        &vec![QueueFile {
            src: "/x/a.jpg".into(),
            dest: "r:/".into(),
            total: 100,
            done: 50,
            state: "running".into(),
        }],
        true,
    );
    assert_eq!(s.card.key, "cloud");
    assert!(s.card.kpis.iter().any(|k| k.value.contains('1')));
}

#[test]
fn a_ledger_becomes_events() {
    let e = transfer_events(&vec![LedgerRow {
        direction: "out".into(),
        name: "a.jpg".into(),
        bytes: 1024,
        peer: "phone".into(),
        status: "done".into(),
        at: 7,
    }]);
    assert_eq!(e.len(), 1);
    assert_eq!(e[0].at, 7);
    assert!(e[0].title.contains("a.jpg") || e[0].desc.contains("a.jpg"));
}

#[test]
fn roots_and_metrics() {
    assert_eq!(root_prefix("/home/a", '/'), "/home/a/");
    assert_eq!(root_prefix("/home/a/", '/'), "/home/a/");
    let v = library(
        &vec![],
        0,
        0,
        &vec![Root { path: "/p".into(), exists: true }, Root { path: "/gone".into(), exists: false }],
        &vec![("/p".into(), "Photos".into())],
        3,
    );
    assert_eq!(v.roots.len(), 2);
    assert_eq!(v.databases, 3);
    assert_ne!(v.roots[0].state, v.roots[1].state);
    let m = metrics(&MetricFacts {
        lib_bytes: 1024,
        dbs: vec![("photos".into(), 10), ("videos".into(), 20)],
        jobs_running: 0,
        jobs_failed: 0,
        cloud_status: "2 of 2".into(),
        podcasts: 1,
        radio: 2,
        uptime_s: 60,
        rss: 4096,
    });
    assert!(m.iter().any(|x| x.value == bytes(1024)));
    assert!(m.iter().any(|x| x.value == "2 files" && x.note == bytes(30)));
}

#[test]
fn a_snapshot_is_the_sum_of_its_sections() {
    let sec = |key: &str, running: i64, failed: i64| {
        let mut s = Sec::new(card(key, key, "cyan", OK, "s", vec![], vec![], vec![]));
        s.running = running;
        s.failed = failed;
        s
    };
    let s = collect(
        Reports {
            photos: sec("photos", 0, 0),
            videos: sec("videos", 0, 0),
            music: sec("music", 0, 0),
            books: sec("books", 0, 0),
            cloud: sec("cloud", 0, 0),
            tools: sec("tools", 3, 1),
            finances: sec("finances", 0, 0),
            transfer: sec("transfer", 0, 0),
            ai: sec("ai", 0, 0),
            system: sec("system", 0, 0),
        },
        2,
        1_000,
        1_572_864,
    );
    assert_eq!(s.cards.len(), 10);
    assert_eq!(s.jobs_running, 5);
    assert_eq!(s.jobs_failed, 1);
    assert_eq!(s.library_bytes, "1.5 MB");
    assert_eq!(s.library_items, "1,000");
}
