use tulipix::double::Double;
use tulipix::transfer::page::{
    device_name, fraction, history_rows, inbox_choice, may_retry, moving, patch_send_progress, refresh, tick_every,
    Device, Entry, QrAct, Rate, Seen, Sending, Setup, SharedFile, Snapshot, Upload,
};
use tulipix::transfer::qr::{render, QUIET, SCALE};
use tulipix::transfer::rates::{blend, next_rates, sample_rates, send_key, upload_key, whole_rate, Moved, Sample};
use tulipix::transfer::words::{
    attempts_line, badge_of, describe, firewall_hint, kind_label, kind_of, left, pages, plural, status_line, Platform,
};
use tulipix::transfer::wire::{Deed, HistoryTable, Wish};

fn dbl(x: f64) -> Double {
    Double::from_bits(x.to_bits()).unwrap()
}

fn shown(d: &Double, k: u32) -> String {
    let mut s = String::new();
    d.push_text(&mut s, k);
    s
}

#[test]
fn recent_moments_read_relatively_and_old_ones_by_date() {
    let now = 1_700_000_000;
    assert_eq!(tulipix::transfer::words::when(now, now, ""), "just now");
    assert_eq!(tulipix::transfer::words::when(now - 600, now, ""), "10 min ago");
    assert_eq!(tulipix::transfer::words::when(now - 7200, now, ""), "2 h ago");
    // Two days back falls through to the date.
    assert!(tulipix::transfer::words::when(now - 2 * 86_400, now, "2023-11-12").contains(char::is_numeric));
    assert_eq!(tulipix::transfer::words::when(now - 2 * 86_400, now, "2023-11-12"), "2023-11-12");
}

#[test]
fn file_kinds_are_short_badges_and_never_a_whole_name() {
    assert_eq!(kind_of("holiday.mp4"), "MP4");
    assert_eq!(kind_of("/v/Dune: Part Two.mkv"), "MKV");
    assert_eq!(kind_of("/v/.."), "FILE");
    assert_eq!(kind_of("README"), "FILE");
    assert_eq!(kind_of("archive.tar.gz"), "GZ");
    // Anything longer than four characters is not a badge.
    assert_eq!(kind_of("notes.markdown"), "FILE");
}

#[test]
fn counts_are_pluralised() {
    assert_eq!(plural(1, "file"), "1 file");
    assert_eq!(plural(3, "file"), "3 files");
    assert_eq!(plural(0, "file"), "0 files");
}

#[test]
fn badges_of_their_own_parts() {
    assert_eq!(badge_of(&Some("PNG".into())), "PNG");
    assert_eq!(badge_of(&None), "FILE");
    assert_eq!(kind_label("holiday.mp4"), describe("mp4", "MP4"));
    assert!(left(0).len() > 0);
    assert_eq!(pages(0, 10), 1);
    assert_eq!(pages(10, 10), 1);
    assert_eq!(pages(11, 10), 2);
}

#[test]
fn hints_and_lines() {
    assert!(attempts_line(&vec![("10.0.0.2".into(), 2)], 5).contains("10.0.0.2"));
    assert_eq!(attempts_line(&vec![], 5), "");
    let links = vec![("eth0".to_string(), "10.0.0.1".to_string())];
    assert_eq!(firewall_hint(false, Platform::Linux, 80, &links, "10.0.0.1"), "");
    assert!(firewall_hint(true, Platform::Linux, 8080, &links, "10.0.0.1").contains("8080"));
    assert!(status_line("boom", true, true, "/in", "http://x", Platform::Linux).contains("boom"));
}

#[test]
fn a_code_has_a_quiet_margin() {
    let p = render("http://192.168.1.10:8080/?p=1234", false).unwrap();
    assert_eq!(p.pixels.len(), p.side * p.side);
    assert_eq!(p.side % SCALE, 0);
    let modules = p.side / SCALE - 2 * QUIET;
    assert!(modules >= 21 && modules <= 177 && (modules - 17) % 4 == 0);
    // The margin is all of one colour, and the finder's corner is of the other.
    let corner = p.pixels[0];
    assert!(p.pixels[..p.side * QUIET * SCALE].iter().all(|x| *x == corner));
    let finder = p.pixels[QUIET * SCALE * p.side + QUIET * SCALE];
    assert_ne!(finder, corner);
    // Another text is another code.
    let q = render("http://192.168.1.11:8080/?p=1234", false).unwrap();
    assert!(p.pixels != q.pixels);
    let inverted = render("http://192.168.1.10:8080/?p=1234", true).unwrap();
    assert!(p.pixels != inverted.pixels);
    assert!(render(&"x".repeat(10_000), false).is_none(), "more than a code can hold");
}

#[test]
fn rates_blend() {
    assert_eq!(upload_key(7), "up:7");
    assert_eq!(send_key(-3), "tx:-3");
    let looked = sample_rates(&vec![], &vec![("u1".into(), 10)], 1_000);
    assert!(looked[0].due.is_none());
    let table = vec![Sample { key: "u1".into(), done: 0, at: 0, rate: dbl(0.0) }];
    let early = sample_rates(&table, &vec![("u1".into(), 500)], 100_000_000);
    assert!(early[0].due.is_none());
    let late = sample_rates(&table, &vec![("u1".into(), 500)], 1_000_000_000);
    let moved = late[0].due.as_ref().unwrap();
    assert_eq!((moved.bytes, moved.nanos), (500, 1_000_000_000));
    let first = blend(&dbl(0.0), moved);
    assert_eq!(whole_rate(&first), 500);
    let then = blend(&dbl(1000.0), &Moved { bytes: 2_000, nanos: 1_000_000_000 });
    let r = whole_rate(&then);
    assert!(r > 1000 && r < 2000);
}

#[test]
fn a_stalled_rate_fades_as_floats_do() {
    // Down through the numbers that lose bits to the last one, which stays.
    let still = Moved { bytes: 0, nanos: 250_000_000 };
    let (mut rate, mut float) = (dbl(1.0e9 / 3.0), 1.0e9f64 / 3.0);
    for _ in 0..1600 {
        rate = blend(&rate, &still);
        float = float * 0.6 + 0.0 * 0.4;
        assert_eq!(rate, dbl(float));
    }
    assert!(float > 0.0 && float < f64::MIN_POSITIVE);
    assert_eq!(whole_rate(&rate), 0);
    for start in [f64::MAX, f64::MIN_POSITIVE, 5e-324, 1.5e-323, 4.4e-308, 1e300, 2f64.powi(70), 0.1] {
        for (bytes, nanos) in [(0u64, 300_000_000u64), (1, u64::MAX), (u64::MAX, 250_000_000), (12_345, 1_500_000_000)] {
            let seconds = std::time::Duration::from_nanos(nanos).as_secs_f64();
            let float = start * 0.6 + (bytes as f64 / seconds) * 0.4;
            assert_eq!(blend(&dbl(start), &Moved { bytes, nanos }), dbl(float), "{start} {bytes} {nanos}");
        }
    }
}

#[test]
fn rates_follow_the_files_that_move() {
    let mut table: Vec<Sample> = Vec::new();
    let live = |a: u64, b: u64| vec![("up:1".to_string(), a), ("tx:2".to_string(), b)];
    let second = 1_000_000_000;
    let plain = |r: Vec<(String, u64)>| r.into_iter().map(|(_, n)| n).collect::<Vec<_>>();
    assert_eq!(plain(next_rates(&mut table, &live(100, 0), 0)), [0, 0]);
    assert_eq!(plain(next_rates(&mut table, &live(200, 50), 100_000_000)), [0, 0], "too early");
    assert_eq!(plain(next_rates(&mut table, &live(1_100, 50), second)), [1_000, 50]);
    assert_eq!(table.iter().map(|s| (s.done, s.at)).collect::<Vec<_>>(), [(1_100, second), (50, second)]);
    let r = next_rates(&mut table, &live(3_100, 50), 2 * second);
    let want = 1_000.0f64 * 0.6 + 2_000.0 * 0.4;
    assert_eq!(r, [("up:1".to_string(), want as u64), ("tx:2".to_string(), (50.0f64 * 0.6) as u64)]);
    assert_eq!(table[0].rate, dbl(want));
    // One that stops is forgotten, and one that is listed twice is looked at once.
    let twice = vec![("tx:2".to_string(), 150u64), ("tx:2".to_string(), 9_999)];
    let r = plain(next_rates(&mut table, &twice, 3 * second));
    let want = 30.0f64 * 0.6 + 100.0 * 0.4;
    assert_eq!(r, [want as u64, want as u64]);
    assert!(table.iter().all(|s| s.key == "tx:2" && s.done == 150));
}

#[test]
fn parts_of_a_whole() {
    assert_eq!(shown(&fraction(1, 3), 5), format!("{:.5}", 1f32 / 3f32));
    assert_eq!(shown(&fraction(5, 0), 2), "0.00");
    assert_eq!(shown(&fraction(9, 3), 2), "1.00");
    for (a, b) in [(123_456_789u64, 987_654_321u64), (16_777_217, 16_777_219), (1, 7)] {
        assert_eq!(shown(&fraction(a, b), 5), format!("{:.5}", (a as f32 / b as f32).min(1.0)));
    }
}

#[test]
fn the_page_says_who_and_when() {
    let d = Device {
        token: "t".into(),
        name: "Phone".into(),
        kind: "phone".into(),
        label: "".into(),
        ip: "10.0.0.2".into(),
        pin: "".into(),
        remaining: 60,
        busy: false,
        last_seen: 0,
        date: "".into(),
    };
    assert_eq!(device_name(&vec![d], "t"), "Phone");
    assert_ne!(device_name(&vec![], "t"), "Phone");
    assert!(tick_every(true, true).is_some());
    assert!(!may_retry("in", "/x", true, true));
    assert!(may_retry("out", "/x", true, true));
    assert!(!may_retry("out", "/x", false, true));
    assert_eq!(inbox_choice("", "/usual"), "/usual");
    assert_eq!(inbox_choice("/mine", "/usual"), "/mine");
}

#[test]
fn another_order_starts_at_the_first_page() {
    let mut t = HistoryTable::new();
    assert!(matches!(t.wire(Wish::SetPage(3)).as_slice(), [Deed::LoadHistory(3)]));
    assert_eq!(t.page, 3);
    let d = t.wire(Wish::SetSort { column: 2, desc: false });
    assert!(matches!(d.as_slice(), [Deed::LoadHistory(0)]));
    assert_eq!(t, HistoryTable { page: 0, column: 2, desc: false });
    assert!(matches!(t.wire(Wish::SetPage(-5)).as_slice(), [Deed::LoadHistory(0)]));
}

#[test]
fn a_failed_send_is_offered_before_it_is_forgotten() {
    let mut t = HistoryTable::new();
    t.wire(Wish::SetPage(2));
    let retry = |running: bool, direction: &str| Wish::RetryRow {
        id: 9,
        direction: direction.into(),
        path: "/f".into(),
        there: true,
        running,
    };
    let d = t.wire(retry(true, "out"));
    assert!(matches!(
        d.as_slice(),
        [Deed::Offer(p), Deed::ForgetRow(9), Deed::Refresh, Deed::LoadHistory(2)] if p == "/f"
    ));
    assert!(t.wire(retry(false, "out")).is_empty());
    assert!(t.wire(retry(true, "in")).is_empty());
}

#[test]
fn sharing_outlives_the_section() {
    let mut t = HistoryTable::new();
    let go = |section: &str, running: bool| Wish::SectionChanged { section: section.into(), running };
    let d = t.wire(go("transfer", false));
    assert!(matches!(
        d.as_slice(),
        [Deed::Tick(Some(600)), Deed::StartService, Deed::Refresh, Deed::LoadHistory(0)]
    ));
    assert!(matches!(t.wire(go("photos", true)).as_slice(), [Deed::Tick(Some(3000))]));
    assert!(matches!(t.wire(go("photos", false)).as_slice(), [Deed::Tick(None)]));
    let d = t.wire(Wish::SetIface { ip: "10.0.0.2".into(), running: true });
    assert!(matches!(
        d.as_slice(),
        [Deed::Iface(_), Deed::StopService, Deed::StartService, Deed::Refresh]
    ));
    let d = t.wire(Wish::Add(Some(vec!["/a".into(), "/b".into()])));
    assert!(matches!(d.as_slice(), [Deed::Offer(a), Deed::Offer(b), Deed::Refresh] if a == "/a" && b == "/b"));
    assert!(t.wire(Wish::Add(None)).is_empty());
    assert!(t.wire(Wish::OpenUrl("".into())).is_empty());
    assert!(matches!(t.wire(Wish::Remove(-1)).as_slice(), [Deed::TakeBack(0), Deed::Refresh]));
}

fn upload(id: u64, done: u64, total: u64, state: &str) -> Upload {
    Upload {
        id,
        name: format!("u{id}.mp4"),
        done,
        total,
        state: state.into(),
        size: "40 MB".into(),
        done_text: "10 MB".into(),
        total_text: "40 MB".into(),
    }
}

fn serving() -> Snapshot {
    Snapshot {
        running: true,
        url: "https://10.0.0.1:8080".into(),
        pin: "1234".into(),
        secure: false,
        trust_url: "http://10.0.0.1/trust".into(),
        fingerprint: String::new(),
        host_url: "https://host.local".into(),
        inbox: "/in".into(),
        inbox_ok: true,
        iface: "10.0.0.1".into(),
        error: String::new(),
        port: 0,
        files: vec![
            SharedFile { id: 1, name: "a.png".into(), size: "1 KB".into(), kind: "PNG".into(), to: "tok".into() },
            SharedFile { id: 2, name: "b".into(), size: "2 KB".into(), kind: "FILE".into(), to: String::new() },
        ],
        total_size: "3 KB".into(),
        attempts: vec![("10.0.0.9".into(), 2), ("10.0.0.8".into(), 5)],
        interfaces: vec![("eth0".into(), "10.0.0.1".into())],
        devices: vec![Device {
            token: "tok".into(),
            name: String::new(),
            kind: "Phone".into(),
            label: "Safari".into(),
            ip: "10.0.0.3".into(),
            pin: "99".into(),
            remaining: 60,
            busy: true,
            last_seen: 1_000,
            date: "1970-01-01".into(),
        }],
        uploads: vec![upload(7, 10, 40, "active"), upload(8, 40, 40, "done")],
        sends: vec![Sending { row: 3, done: 1, total: 4 }],
        share_target: "tok".into(),
        rev: 5,
    }
}

#[test]
fn a_look_paints_the_page_and_says_what_follows() {
    let s = serving();
    let keys: Vec<(String, u64)> = moving(&s);
    assert_eq!(keys, [("up:7".to_string(), 10), ("tx:3".to_string(), 1)]);
    let rates = vec![Rate { key: "up:7".into(), rate: 9, text: "9 B".into() }];
    let setup = Setup { platform: Platform::Linux, usual_port: 8443, limit: 5 };
    let mut seen = Seen::nothing();
    let (page, effects) = refresh(&s, &rates, &setup, true, &mut seen, 1_120);
    assert_eq!(page.total, "2 files · 3 KB");
    assert_eq!(page.trust_url, "", "there is no certificate to trust");
    assert_eq!(page.port, 8443);
    assert_eq!(page.attempts, "10.0.0.9 — 2 wrong of 5\n10.0.0.8 — locked out after 5 wrong PINs");
    assert_eq!(page.share_target_name, "Phone");
    assert_eq!((page.files[0].to.as_str(), page.files[1].to.as_str()), ("Phone", ""));
    assert_eq!((page.devices[0].name.as_str(), page.devices[0].seen.as_str()), ("Phone", "2 min ago"));
    assert_eq!(page.devices[0].remaining, left(60));
    assert_eq!(shown(&page.uploads[0].pct, 2), "0.25");
    assert_eq!((page.uploads[0].moved.as_str(), page.uploads[0].rate.as_str()), ("10 MB / 40 MB", "9 B/s"));
    assert_eq!((page.uploads[1].moved.as_str(), page.uploads[1].rate.as_str()), ("", ""));
    assert!(effects.reload && effects.rescan);
    assert!(matches!(effects.qr, QrAct::Redraw));

    // Once the code is drawn and the table read, another look finds nothing to do.
    seen.drew(&s.url);
    let (_, effects) = refresh(&s, &rates, &setup, true, &mut seen, 1_120);
    assert!(!effects.reload && !effects.rescan);
    assert!(matches!(effects.qr, QrAct::Keep));
    // A key that was spent is drawn anew.
    let (_, effects) = refresh(&s, &rates, &setup, false, &mut seen, 1_120);
    assert!(matches!(effects.qr, QrAct::Redraw));
    // A service that stopped shows no code.
    let mut off = serving();
    off.running = false;
    let (page, effects) = refresh(&off, &rates, &setup, false, &mut seen, 1_120);
    assert_eq!(page.hint, "");
    assert!(matches!(effects.qr, QrAct::Blank));
}

#[test]
fn a_row_on_the_wire_shows_its_progress() {
    let entry = |id: i64, status: &str, path: Option<&str>, there: bool| Entry {
        id,
        direction: "out".into(),
        name: "a.png".into(),
        path: path.map(str::to_string),
        size: "1 KB".into(),
        peer: "Phone".into(),
        status: status.into(),
        at: 900,
        date: "1970-01-01".into(),
        kind: "PNG".into(),
        kindlabel: "PNG image".into(),
        there,
    };
    let mut rows = history_rows(
        &vec![
            entry(3, "sending", Some("/a.png"), true),
            entry(4, "sending", Some("/gone.png"), false),
            entry(5, "ok", None, false),
        ],
        1_000,
    );
    assert_eq!(rows.iter().map(|r| r.missing).collect::<Vec<_>>(), [false, true, false]);
    assert_eq!((rows[0].stamp.as_str(), rows[2].path.as_str()), ("1 min ago", ""));
    rows[2].progress = "99%".into();
    let rates = vec![Rate { key: "tx:3".into(), rate: 2048, text: "2 KB".into() }];
    let sends = vec![Sending { row: 3, done: 1, total: 3 }];
    patch_send_progress(&mut rows, &sends, &rates);
    assert_eq!(rows[0].progress, "33% · 2 KB/s");
    assert_eq!(rows[1].progress, "", "not on the wire");
    assert_eq!(rows[2].progress, "", "settled");
    patch_send_progress(&mut rows, &sends, &vec![]);
    assert_eq!(rows[0].progress, "33%");
}
