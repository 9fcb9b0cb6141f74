use tulipix::double::Number;
use tulipix::status::card::{unavailable, Block, Cell, Row};
use tulipix::status::cloud::{cloud_card, QueueFile, QueueSum, Remote};
use tulipix::status::figures::{BUSY, OK, PROBLEM, UNKNOWN};
use tulipix::status::jobs::{tools_card, EndedJob, JobFacts, LiveJob};
use tulipix::status::money::{finances_card, DueBill, LateBill, MoneyFacts};
use tulipix::status::sections::{
    books_card, music_card, photos_card, videos_card, BookFacts, MusicFacts, PhotoFacts, VideoFacts,
};
use tulipix::status::server::{open_named, reset_confirmed, Action, Answer};
use tulipix::status::library::{extra_counts, first_day, Part};
use tulipix::status::services::{
    ai_card, db_section, db_sizes, system_card, transfer_card, transfer_rates, Live, Meter, MovedToday, SystemFacts,
};

fn n(x: f64) -> Number {
    Number::from_bits(x.to_bits())
}

fn line(r: &Row) -> (&str, &str, &str) {
    (&r.k, &r.v, &r.cls)
}

fn lines(rows: &[Row]) -> Vec<(&str, &str, &str)> {
    rows.iter().map(line).collect()
}

fn group<'a>(groups: &'a [Block], heading: &str) -> Vec<(&'a str, &'a str, &'a str)> {
    for g in groups {
        if let Block::Rows(h, rows) = g {
            if h == heading {
                return lines(rows);
            }
        }
    }
    panic!("no group {heading}");
}

fn cells<'a>(groups: &'a [Block], heading: &str) -> Vec<Vec<String>> {
    for g in groups {
        if let Block::Table(h, _, body) = g {
            if h == heading {
                return body
                    .iter()
                    .map(|l| {
                        l.iter()
                            .map(|c| match c {
                                Cell::Text(t) => t.clone(),
                                Cell::Tag(t, cls) => format!("[{t}|{cls}]"),
                            })
                            .collect()
                    })
                    .collect();
            }
        }
    }
    panic!("no table {heading}");
}

#[test]
fn a_section_that_does_not_open_says_so() {
    let s = unavailable("photos", "Photos", "violet");
    assert_eq!((s.card.level.as_str(), s.card.status.as_str()), (UNKNOWN, "Unavailable"));
    assert_eq!(lines(&s.card.rows), vec![("Database", "Could not open", "rd")]);
    assert!(s.card.kpis.is_empty() && s.card.groups.is_empty() && s.card.why.is_none());
}

#[test]
fn photos_count_what_is_there_and_what_is_gone() {
    let f = PhotoFacts {
        items: 1_500,
        size: 1_500 * 1024,
        albums: 12,
        missing: 2,
        added_week: 30,
        added_today: 4,
        newest: 12 * 3600 + 300,
    };
    let s = photos_card(&f, 0);
    assert_eq!((s.card.level.as_str(), s.card.status.as_str()), (PROBLEM, "2 missing"));
    assert_eq!(
        lines(&s.card.rows),
        vec![
            ("Items", "1,500", ""),
            ("Albums", "12", ""),
            ("Size", "1.5 MB", ""),
            ("Added this week", "30", ""),
            ("Missing files", "2", "rd"),
        ]
    );
    assert_eq!(group(&s.card.groups, "Library")[3], ("Newest import", "12:05 PM", "mut"));
    assert_eq!(group(&s.card.groups, "Recent")[2], ("Average size", "1.0 KB", "mut"));
    assert_eq!(
        s.card.why.as_deref(),
        Some("2 photo files are indexed but no longer on disk — rescan to clear them")
    );
    assert_eq!(s.today, 4);

    let none = PhotoFacts { items: 0, size: 0, albums: 0, missing: 0, added_week: 0, added_today: 0, newest: 0 };
    let s = photos_card(&none, 0);
    assert_eq!((s.card.level.as_str(), s.card.status.as_str()), (OK, "Operational"));
    assert_eq!(group(&s.card.groups, "Recent")[2], ("Average size", "—", "mut"));
    assert_eq!(s.card.why, None);
}

#[test]
fn videos_music_and_books_say_what_they_hold() {
    let v = videos_card(&VideoFacts { items: 2, size: 4096, shows: 1, missing: 1, added_week: 0 });
    assert_eq!(v.card.why.as_deref(), Some("1 video file is indexed but no longer on disk — rescan to clear it"));
    assert_eq!(group(&v.card.groups, "Library")[4], ("Average size", "2.0 KB", "mut"));

    let m = music_card(&MusicFacts {
        size: 1024,
        songs: 900,
        audiobooks: 3,
        artists: 40,
        albums: 70,
        missing: 0,
        added_week: 5,
        plays_today: 11,
        streak_days: 6,
        week_listen: "2h".into(),
        total_listen: "9h".into(),
        top_genre: None,
    });
    assert_eq!(m.card.status, "Operational");
    assert_eq!(m.card.rows[2].v, "2h");
    assert_eq!(line(&m.card.rows[3]), ("Streak", "6 days", ""));
    assert_eq!(group(&m.card.groups, "Library")[2], ("Audiobooks", "3 folders", ""));
    assert_eq!(group(&m.card.groups, "Listening")[1], ("All time", "9h", ""));
    assert_eq!(group(&m.card.groups, "Listening")[4], ("Top genre", "—", "mut"));
    assert_eq!(m.today, 11);

    let b = books_card(&BookFacts {
        books: 4,
        size: 4096,
        missing: 0,
        finished: 1,
        reading: 2,
        favorites: 3,
        formats: vec![("EPUB".into(), 3), ("PDF".into(), 1)],
    });
    assert_eq!(line(&b.card.rows[1]), ("In progress", "2", "g"));
    assert_eq!(group(&b.card.groups, "Formats"), vec![("EPUB", "3", ""), ("PDF", "1", "")]);
}

fn jobs(running: i64, failed: i64, latest: Option<(&str, Option<&str>)>) -> JobFacts {
    JobFacts {
        running,
        queued: 1,
        done: 7,
        failed,
        live: vec![LiveJob { kind: "convert".into(), progress: n(0.425), created: 60, message: None }],
        recent: vec![
            EndedJob { kind: "trim".into(), state: "error".into(), updated: 9, message: None },
            EndedJob { kind: "hash".into(), state: "done".into(), updated: 8, message: Some("ok".into()) },
        ],
        latest_error: latest.map(|(k, m)| (k.to_string(), m.map(str::to_string))),
        ffmpeg: true,
        rclone: false,
        mpv: false,
        ytdlp: Some("2025.01.01".into()),
    }
}

#[test]
fn the_tools_card_names_the_latest_failure() {
    let s = tools_card(&jobs(1, 0, None), 0);
    assert_eq!((s.card.level.as_str(), s.card.status.as_str()), (BUSY, "1 running"));
    assert_eq!(s.card.why, None);
    assert_eq!(cells(&s.card.groups, "Running now"), vec![vec!["convert", "—", "12:01 AM", "[43%|]"]]);
    assert_eq!(group(&s.card.groups, "Binaries")[1], ("yt-dlp", "2025.01.01", "g"));
    assert_eq!(group(&s.card.groups, "Binaries")[2], ("rclone", "Not found", "rd"));
    assert_eq!(line(&s.card.rows[4]), ("ffmpeg", "Found", "g"));
    assert_eq!((s.running, s.failed, s.today), (1, 0, 7));
    assert_eq!(s.events[0].title, "Tools job failed — trim");
    assert_eq!(s.events[0].desc, "no message");
    assert_eq!(s.events[1].title, "Tools job finished — hash");
    assert_eq!(s.events[1].desc, "ok");

    assert_eq!(tools_card(&jobs(0, 0, None), 0).card.status, "Idle");
    let one = tools_card(&jobs(1, 1, Some(("trim", Some("")))), 0);
    assert_eq!((one.card.level.as_str(), one.card.status.as_str()), (PROBLEM, "1 failed"));
    assert_eq!(one.card.why.as_deref(), Some("trim job failed: no message"));
    let two = tools_card(&jobs(0, 2, Some(("trim", Some("bad input")))), 0);
    assert_eq!(two.card.why.as_deref(), Some("2 jobs failed in 24h, latest trim: bad input"));
    let mut odd = jobs(1, 0, None);
    odd.live[0].progress = n(f64::NEG_INFINITY);
    odd.live.push(LiveJob { kind: "trim".into(), progress: n(f64::NAN), created: 60, message: None });
    assert_eq!(
        cells(&tools_card(&odd, 0).card.groups, "Running now"),
        vec![
            vec!["convert", "—", "12:01 AM", "[-9223372036854775808%|]"],
            vec!["trim", "—", "12:01 AM", "[0%|]"],
        ]
    );
    let unnamed = tools_card(&jobs(0, 2, None), 0);
    assert_eq!(unnamed.card.why.as_deref(), Some("2 jobs failed in the last 24 hours"));
}

#[test]
fn late_bills_are_named() {
    let late = |name: &str, days: i64| LateBill { name: name.into(), days, minor: 12_345 };
    let facts = |late: Vec<LateBill>, due: i64| MoneyFacts {
        accounts: 2,
        txns: 1_000,
        txn_today: 3,
        lead: 5,
        due,
        late,
        upcoming: vec![
            DueBill { name: "Rent".into(), due_on: "2025-02-01".into(), minor: 50_000, status: "overdue".into() },
            DueBill { name: "Net".into(), due_on: "2025-02-03".into(), minor: 2_999, status: "upcoming".into() },
        ],
        uncategorized: 0,
        today: "2025-02-02".into(),
    };
    let s = finances_card(&facts(vec![late("Rent", 1), late("Gas", 0)], 2));
    assert_eq!((s.card.level.as_str(), s.card.status.as_str()), (PROBLEM, "2 overdue"));
    assert_eq!(s.card.why.as_deref(), Some("Unpaid bills: Rent (1 day late), Gas (today late)"));
    assert_eq!(
        group(&s.card.groups, "Overdue — pay or reschedule these")[0],
        ("Rent", "123.45 · 1 day late", "rd")
    );
    assert_eq!(
        cells(&s.card.groups, "Coming due"),
        vec![vec!["Rent", "2025-02-01", "[500.00|b]"], vec!["Net", "2025-02-03", "[29.99|w]"]]
    );
    assert_eq!(line(&s.card.rows[2]), ("Due ≤ 5d", "2", "o"));
    assert_eq!(line(&s.card.rows[1]), ("Transactions", "3 today", ""));
    assert_eq!(s.today, 3);

    let many = finances_card(&facts(vec![late("a", 2), late("b", 2), late("c", 2), late("d", 2), late("e", 2)], 0));
    assert_eq!(
        many.card.why.as_deref(),
        Some("Unpaid bills: a (2 days late), b (2 days late), c (2 days late), and 2 more")
    );
    let soon = finances_card(&facts(vec![], 1));
    assert_eq!((soon.card.level.as_str(), soon.card.status.as_str()), (BUSY, "1 due soon"));
    assert_eq!(soon.card.why, None);
    assert_eq!(finances_card(&facts(vec![], 0)).card.status, "Operational");
}

#[test]
fn the_cloud_card_spends_its_lines_on_trouble() {
    let remote = |name: &str, st: Option<&str>| Remote {
        name: name.into(),
        backend: "drive".into(),
        mount_path: st.map(|_| format!("/mnt/{name}")),
        status: st.map(str::to_string),
    };
    let sum = |state: &str, count: i64, total: i64, done: i64| QueueSum { state: state.into(), count, total, done };
    let file = |src: &str, state: &str| QueueFile {
        src: src.into(),
        dest: "r:/x".into(),
        total: 2048,
        done: 1024,
        state: state.into(),
    };
    let s = cloud_card(
        &vec![
            remote("a", Some("mounted")),
            remote("b", None),
            remote("c", Some("error")),
            remote("e", Some("unmounted")),
        ],
        &vec![sum("queued", 2, 4096, 0), sum("running", 1, 2048, 1024), sum("error", 1, 5, 5)],
        &vec![file("/x/a.jpg", "running"), file("b.jpg", "error"), file("c.jpg", "queued")],
        true,
    );
    assert_eq!((s.card.level.as_str(), s.card.status.as_str()), (PROBLEM, "1 unreachable"));
    assert_eq!(
        lines(&s.card.rows),
        vec![
            ("Remotes", "4 · 3 shown", ""),
            ("Transfer queue", "3 · 5.0 KB left", "rd"),
            ("c", "Error", "b"),
            ("b", "Not mounted", "i"),
            ("e", "Unmounted", "i"),
        ]
    );
    assert_eq!(
        cells(&s.card.groups, "Upload / download queue"),
        vec![
            vec!["a.jpg", "r:/x", "2.0 KB", "[50%|]"],
            vec!["b.jpg", "r:/x", "2.0 KB", "[Error|b]"],
            vec!["c.jpg", "r:/x", "2.0 KB", "[Queued|i]"],
        ]
    );
    assert_eq!(cells(&s.card.groups, "All remotes")[0], vec!["a", "drive", "/mnt/a", "[Mounted|g]"]);
    assert_eq!(cells(&s.card.groups, "All remotes")[1], vec!["b", "drive", "—", "[Not mounted|i]"]);
    assert_eq!(
        s.card.why.as_deref(),
        Some("rclone cannot reach c — check the remote's credentials or network")
    );
    assert_eq!(s.card.more.as_deref(), Some("View queue (3)"));

    let quiet = cloud_card(&vec![], &vec![], &vec![], false);
    assert_eq!((quiet.card.level.as_str(), quiet.card.status.as_str()), (OK, "No remotes"));
    assert_eq!(line(&quiet.card.rows[1]), ("Transfer queue", "Empty", "mut"));
    assert_eq!(group(&quiet.card.groups, "rclone")[0], ("Binary", "Not found", "rd"));
    assert_eq!((quiet.card.why, quiet.card.more), (None, None));
}

fn live() -> Live {
    Live {
        transfer_running: true,
        transfer_port: 8080,
        transfer_ip: "10.0.0.2".into(),
        transfer_devices: 2,
        transfer_inflight: 1,
        transfer_sent: 10_000,
        transfer_recv: 500,
        ai_models: 1,
        ai_models_bytes: 2048,
        app_version: "1.2.3".into(),
        renderer: "gl".into(),
        uptime_s: 4_320,
        scan: vec![],
    }
}

#[test]
fn sharing_shows_its_address_and_its_rates() {
    let mut meter = Meter::new();
    assert_eq!(transfer_rates(&mut meter, &live(), 100), (0, 0));
    let mut later = live();
    later.transfer_sent += 4096;
    assert_eq!(transfer_rates(&mut meter, &later, 102), (2048, 0));

    let moved = MovedToday { out_files: 3, out_bytes: 1024, in_files: 0, in_bytes: 0 };
    let s = transfer_card(&later, 2048, 0, &moved);
    assert_eq!((s.card.level.as_str(), s.card.status.as_str()), (BUSY, "1 in flight"));
    assert_eq!(line(&s.card.rows[0]), ("Server", "10.0.0.2:8080", "g"));
    assert_eq!(line(&s.card.rows[1]), ("Sending", "2.0 KB/s", "o"));
    assert_eq!(line(&s.card.rows[2]), ("Sent today", "3 · 1.0 KB", "g"));
    assert_eq!(group(&s.card.groups, "Right now")[1], ("Receiving", "—", "mut"));
    assert_eq!(s.card.kpis[1].value, "2.0 KB/s");

    let mut still = live();
    still.transfer_running = false;
    still.transfer_inflight = 0;
    let s = transfer_card(&still, 0, 0, &moved);
    assert_eq!((s.card.level.as_str(), s.card.status.as_str()), (OK, "Not sharing"));
    assert_eq!(line(&s.card.rows[0]), ("Server", "Stopped", "mut"));
    assert_eq!(s.card.kpis[1].value, "Idle");
    still.transfer_running = true;
    still.transfer_ip = String::new();
    let s = transfer_card(&still, 0, 9, &moved);
    assert_eq!(s.card.status, "Listening");
    assert_eq!(line(&s.card.rows[0]), ("Server", ":8080", "g"));
    assert_eq!(s.card.kpis[1].value, "—");
}

#[test]
fn models_and_program_are_both_needed() {
    let words = |models: i64, cli: bool| {
        let mut l = live();
        l.ai_models = models;
        let s = ai_card(&l, cli);
        assert_eq!(s.card.level, OK);
        (s.card.status, s.card.rows[3].v.clone())
    };
    assert_eq!(words(1, true), ("Ready".to_string(), "Available".to_string()));
    assert_eq!(words(0, true), ("No models installed".to_string(), "Unavailable".to_string()));
    assert_eq!(words(1, false), ("whisper-cli missing".to_string(), "Unavailable".to_string()));
}

#[test]
fn the_system_card_adds_its_databases_up() {
    let f = SystemFacts {
        dbs: vec![("photos.db".into(), 1024), ("notes.db".into(), 0)],
        rss: 0,
        os: "linux".into(),
        arch: "x86_64".into(),
    };
    let s = system_card(&live(), &f, 2048);
    assert_eq!(
        lines(&s.card.rows),
        vec![
            ("Version", "1.2.3", ""),
            ("Session", "1h 12m", ""),
            ("Memory (RSS)", "—", "mut"),
            ("Database size", "1.0 KB", ""),
            ("Renderer", "gl", "mut"),
        ]
    );
    assert_eq!(
        cells(&s.card.groups, "Databases"),
        vec![vec!["photos.db", "1.0 KB", "[Present|]"], vec!["notes.db", "0 B", "[Empty|i]"]]
    );
    assert_eq!(group(&s.card.groups, "Build")[2], ("Platform", "linux · x86_64", "mut"));
    assert_eq!(group(&s.card.groups, "Storage")[0], ("Library total", "2.0 KB", ""));
}

#[test]
fn a_request_without_its_word_is_refused() {
    assert!(matches!(open_named(None), Answer::Bad(_)));
    assert!(matches!(open_named(Some("photos".into())), Answer::Accepted(Action::OpenSection(s)) if s == "photos"));
    assert!(matches!(reset_confirmed(None), Answer::Bad(_)));
    assert!(matches!(reset_confirmed(Some("reset".into())), Answer::Bad(_)));
    assert!(matches!(reset_confirmed(Some("RESET".into())), Answer::Accepted(Action::ResetApp)));
}

#[test]
fn databases_are_named_by_their_files() {
    assert_eq!(db_section("photos.db").as_deref(), Some("photos"));
    assert_eq!(db_section("odd.db.db").as_deref(), Some("odd"));
    assert_eq!(db_section("settings.toml"), None);
    let all = db_sizes(vec![("photos.db".into(), 0)], &vec![("tools".into(), 7), ("finances".into(), 0)]);
    assert_eq!(all, [("photos.db".to_string(), 0), ("tools.db".to_string(), 7)]);
}

#[test]
fn the_library_is_the_sum_of_its_sections() {
    assert_eq!(first_day(20 * 86_400 + 5), 7);
    let e = extra_counts(
        &vec![Part { items: 3, bytes: 10, week: 1 }, Part { items: 4, bytes: 20, week: 0 }],
        &vec![(7, 2), (9, 1), (99, 4)],
        7,
    );
    assert_eq!((e.items, e.bytes, e.week), (7, 30, 1));
    assert_eq!(e.spark, [2, 2, 3, 3, 3, 3, 3, 3, 3, 3, 3, 3, 3, 7]);
}
