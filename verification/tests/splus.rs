use tulipix::double::Number;
use tulipix::videos::splus::detail::{
    file_rows, mmss, preferred, push_chips, push_subs, resolved_line, shown_episodes, skip_note, start_episode,
};
use tulipix::videos::splus::downloads::{pretty_state, queued_line, reload, DownloadRow};
use tulipix::videos::splus::home::{pretty, season_date, season_label, suggest};
use tulipix::videos::splus::library::{detail_line, history_title, saved_note, Saved};
use tulipix::videos::splus::play::{mpv_args, opening_line, play_from_history};
use tulipix::videos::splus::settings::{
    allowed, current_order, default_host_block, health_order, move_source, set_flag, set_num, set_text, Dial, Flag,
    Gate, Words,
};
use tulipix::videos::splus::state::{Episode, Playable, Span, State, Track};
use tulipix::videos::splus::title::{cards, meta_line, note_line, title_key, Title};

fn number(x: f64) -> Number {
    Number::from_bits(x.to_bits())
}

fn single(x: f32) -> Number {
    number(x as f64)
}

fn gate(limit: &str, cap: Option<i64>) -> Gate {
    Gate { allow_adult: false, limit: limit.into(), cap }
}

fn rated(cert: &str) -> Title {
    Title { certification: cert.into(), tmdb_id: Some(1), ..Title::default() }
}

#[test]
fn an_adult_title_is_gated_on_its_own_flag() {
    let t = Title { adult: true, anilist_id: Some(1), ..Title::default() };
    // Default is not to allow adult content, whatever the rating limit is.
    assert!(!allowed(&t, &gate("", None), None));
    assert!(!allowed(&t, &gate("R", Some(4)), None));
    assert!(allowed(&t, &Gate { allow_adult: true, limit: "".into(), cap: None }, None));
}

#[test]
fn a_rated_title_is_compared_on_severity() {
    // With no limit configured everything is shown.
    assert!(allowed(&rated("PG-13"), &gate("", None), Some(3)));
    // PG-13 is no more severe than R, and NC-17 is.
    assert!(allowed(&rated("PG-13"), &gate("R", Some(4)), Some(3)));
    assert!(!allowed(&rated("NC-17"), &gate("R", Some(4)), Some(5)));
    // Unrated is hidden under a limit, but for the catalogue without ratings.
    assert!(!allowed(&rated(""), &gate("R", Some(4)), None));
    assert!(allowed(&Title { anilist_id: Some(1), ..Title::default() }, &gate("R", Some(4)), None));
}

#[test]
fn titles_have_keys_and_lines() {
    let t = Title {
        anilist_id: Some(5),
        mal_id: Some(9),
        title: "Frieren".into(),
        format: "TV".into(),
        year: Some(2023),
        episodes: Some(28),
        score: Some(87),
        next_episode: Some(3),
        next_airing_at: Some(1),
        genres: vec!["A".into(), "B".into(), "C".into(), "D".into()],
        ..Title::default()
    };
    assert_eq!(title_key(&t), "al:5");
    assert_eq!(title_key(&rated("")), "tmdb:1");
    assert_eq!(title_key(&Title { title: "X".into(), ..Title::default() }), "q:X");
    assert_eq!(note_line(&t), "2023 · 28 ep · ★ 8.7 · ep 3 next");
    assert_eq!(meta_line(&t), "2023  ·  TV  ·  28 episodes  ·  ★ 8.7  ·  A, B, C  ·  AniList 5  ·  MAL 9");
    assert_eq!(note_line(&Title { episodes: Some(1), ..Title::default() }), "");
    for s in [0i64, 1, 55, 99, 100, -3] {
        let t = Title { score: Some(s), ..Title::default() };
        assert_eq!(note_line(&t), format!("★ {:.1}", s as f64 / 10.0));
    }
    let c = cards(&vec![t.clone(), rated("")], &vec!["tmdb:1".into()]);
    assert_eq!((c[0].saved, c[1].saved), (false, true));
    assert_eq!(play_from_history(&title_key(&t)), Some(5));
    assert_eq!(play_from_history("tmdb:1"), None);
    assert_eq!(play_from_history("al:x"), None);
}

#[test]
fn a_key_opens_its_title() {
    let mut st = State::new();
    let t = |id: i64, n: &str| Title { anilist_id: Some(id), title: n.into(), ..Title::default() };
    assert!(st.current_ref().is_none());
    st.load_home((0..9).map(|i| t(i, "trend")).collect(), vec![t(50, "season")]);
    assert_eq!(st.featured.len(), 6);
    assert!(!st.open_card("al:99", "sub"));
    assert!(st.open_card("al:50", "dub"));
    let e = st.current_ref().unwrap();
    assert_eq!((e.title.title.as_str(), e.season, e.episode, e.audio.as_str()), ("season", 1, 1, "dub"));
    st.set_season("3");
    assert_eq!(st.season, 3);
    st.set_season("junk");
    assert_eq!(st.season, 1);
    st.set_season("-4");
    assert_eq!(st.season, 1);
    st.set_episode(-1);
    assert_eq!(st.episode, 1);
    assert!(!st.set_file(0));
    st.subs = vec![Track { label: "E".into(), source: "w".into(), url: "u0".into() }, Track { label: "F".into(), source: "w".into(), url: "u1".into() }];
    assert!(st.set_sub("1"));
    assert_eq!(st.picked_sub().unwrap(), "u1");
    assert!(!st.set_sub("7"));
    assert!(!st.set_sub("18446744073709551615"));
    assert_eq!(st.sub, 1);
    assert!(st.set_sub("junk"));
    assert_eq!(st.sub, 0);
    st.reopen(t(7, "again"), 2, 0, "");
    let e = st.current_ref().unwrap();
    assert_eq!((e.season, e.episode, e.audio.as_str()), (2, 1, "sub"));
    assert!(st.selected().is_none());
}

fn ep(n: i64) -> Episode {
    Episode { number: n, title: format!("E{n}"), thumb_url: "".into(), progress: single(0.0) }
}

#[test]
fn watching_goes_on_where_it_stopped() {
    let eps: Vec<Episode> = (1..=4).map(ep).collect();
    let seen = vec![(1, single(1.0)), (2, single(0.5))];
    let all = shown_episodes(&eps, &seen, false);
    assert_eq!(all.len(), 4);
    assert_eq!(start_episode(&all), 2);
    let left = shown_episodes(&eps, &seen, true);
    assert_eq!(left.iter().map(|e| e.number).collect::<Vec<_>>(), [2, 3, 4]);
    assert_eq!(start_episode(&shown_episodes(&eps, &vec![(1, single(0.99))], false)), 2);
    assert_eq!(start_episode(&vec![]), 1);
    for x in [0.0199f32, 0.02, 0.0201, 0.9799, 0.98, 0.9801, f32::NAN, -0.5] {
        let one = shown_episodes(&vec![ep(7)], &vec![(7, single(x))], true);
        assert_eq!(one.len() == 1, x < 0.98);
        let all = shown_episodes(&vec![ep(7)], &vec![(7, single(x))], false);
        let want = if (x > 0.02 && x < 0.98) || x <= 0.02 { 7 } else { 1 };
        assert_eq!(start_episode(&all), want, "{x}");
    }
    let mut st = State::new();
    assert_eq!(st.load_detail(all), 2);
    assert_eq!(st.episode, 2);
}

fn file(h: i32) -> Playable {
    Playable {
        url: format!("u{h}"),
        label: format!("{h}p"),
        source: "src".into(),
        sub_label: "".into(),
        height: h,
        headers: vec![("Referer".into(), "r".into())],
    }
}

#[test]
fn the_tallest_file_that_fits_is_picked() {
    let f = vec![file(480), file(1080), file(720), file(720), file(0)];
    assert_eq!(preferred(&f, 720), 3, "of two as tall the later");
    assert_eq!(preferred(&f, 2160), 1);
    assert_eq!(preferred(&f, 100), 0);
    assert_eq!(preferred(&vec![], 100), 0);
    let mut st = State::new();
    st.resolve(f, vec![], vec![], 480);
    assert_eq!(st.file, 0);
    let rows = file_rows(&vec![file(720)], 0);
    assert_eq!((rows[0].label.as_str(), rows[0].subs.as_str(), rows[0].has_subs), ("720p · src", "No subs", false));
    assert_eq!(file_rows(&vec![file(720)], 2)[0].subs, "2 subs");
}

#[test]
fn clocks_round_as_floats_do() {
    for x in [0.0f64, 0.49, 0.5, 59.5, 89.4999, 3600.0, -7.0, 2.5, f64::NAN] {
        let s = x.max(0.0).round() as i64;
        assert_eq!(mmss(&number(x)), format!("{:02}:{:02}", s / 60, s % 60));
    }
    let span = |k: &str, a: f64, b: f64| Span { kind: k.into(), start: number(a), end: number(b) };
    assert_eq!(skip_note(&vec![span("ed", 1.0, 2.0), span("op", 90.0, 180.0)]), "AniSkip · OP 01:30 → 03:00");
    assert_eq!(skip_note(&vec![]), "");
    assert_eq!(resolved_line(&number(1.25), 3), format!("resolved in {:.1} s · 3 files", 1.25));
    let chips = push_chips(true, "dub");
    assert_eq!(chips.iter().map(|c| c.active).collect::<Vec<_>>(), [false, true]);
    assert!(push_chips(false, "dub").is_empty());
    let subs = push_subs(&vec![Track { label: "E".into(), source: "w".into(), url: "u".into() }], 0);
    assert_eq!((subs[0].label.as_str(), subs[0].active), ("E · w", true));
}

#[test]
fn seasons_by_the_mean_year() {
    for now in [0u64, 86_399, 86_400, 1_700_000_000, 1_735_689_600, 4_000_000_000, 951_782_400, 253_402_300_799] {
        let days = now as i64 / 86_400;
        let year = 1970 + (days as f64 / 365.2425) as i64;
        let month = (((days as f64 % 365.2425) / 30.44) as u32 % 12) + 1;
        assert_eq!(season_date(now), (year, month as i64), "{now}");
    }
    for day in 0..40_000u64 {
        let days = day as i64;
        let year = 1970 + (days as f64 / 365.2425) as i64;
        let month = (((days as f64 % 365.2425) / 30.44) as u32 % 12) + 1;
        assert_eq!(season_date(day * 86_400), (year, month as i64), "{day}");
    }
    assert_eq!(pretty("SUMMER"), "Summer");
    assert_eq!(pretty("whatever"), "Fall");
    assert_eq!(season_label("WINTER", 2024), "Winter 2024");
}

#[test]
fn searches_hide_what_is_blocked() {
    let recent: Vec<String> = ["Dune", "dunk", "Loki", "DUNE 2", "dune3", "dune4", "dune5"].iter().map(|s| s.to_string()).collect();
    assert_eq!(suggest(&recent, "DUN").len(), 5);
    assert!(suggest(&recent, "d").is_empty());
    let mut st = State::new();
    assert_eq!(st.run_search("  "), None);
    st.search("frieren");
    assert_eq!(st.run_search("frieren"), Some(1));
    let adult = Title { adult: true, anilist_id: Some(2), ..Title::default() };
    let fine = Title { anilist_id: Some(1), ..Title::default() };
    assert_eq!(st.take_results(&vec![fine.clone(), adult.clone()], &gate("", None), &vec![None, None], true, false), "");
    assert_eq!(st.results.len(), 1);
    st.load_more();
    assert_eq!(st.page, 2);
    st.take_results(&vec![fine], &gate("", None), &vec![None], false, true);
    assert_eq!((st.results.len(), st.more), (2, false));
    assert_eq!(st.take_results(&vec![adult], &gate("", None), &vec![None], false, false), "Nothing matched that.");
}

#[test]
fn downloads_read_as_what_they_are() {
    let mk = |state: &str, done: i64, total: i64| DownloadRow {
        id: 1,
        title: "T".into(),
        label: "S01E01".into(),
        quality: "".into(),
        state: state.into(),
        detail: "noted".into(),
        source: "src".into(),
        done_bytes: done,
        total_bytes: total,
        done_text: format!("{done} B"),
        total_text: format!("{total} B"),
        active: state == "running",
        done: state == "done",
        failed: state == "failed",
    };
    let p = reload(&vec![mk("running", 5, 10), mk("running", 7, 0), mk("waiting", 0, 0), mk("failed", 1, 2)]);
    assert_eq!((p.active, p.running), (2, 12));
    assert_eq!(p.rows.iter().map(|r| r.detail.as_str()).collect::<Vec<_>>(), ["5 B / 10 B · src", "7 B · src", "src", "noted"]);
    assert_eq!(p.rows[0].title, "T · S01E01");
    assert_eq!(["running", "waiting", "done", "missing", "odd"].map(pretty_state), ["Downloading", "Waiting", "Saved", "Missing", "Failed"]);
    assert_eq!(queued_line(2, false), "Queued 2 episodes…");
    assert_eq!(queued_line(2, true), "Queued 2 episodes.");
}

#[test]
fn the_library_says_where_a_title_was_left() {
    let s = |ep: i64, p: f32, format: &str, year: Option<i64>, eps: i64| Saved {
        format: format.into(),
        last_season: 1,
        last_episode: ep,
        progress: single(p),
        year,
        episodes: eps,
    };
    assert_eq!(saved_note(&s(4, 0.345, "TV", None, 0)), format!("S01E04 · {}%", (0.345f32 * 100.0).round() as i64));
    assert_eq!(saved_note(&s(1, 0.5, "MOVIE", None, 0)), "50%");
    assert_eq!(saved_note(&s(0, 0.0, "TV", Some(2020), 12)), "2020 · 12 ep");
    assert_eq!(saved_note(&s(0, 0.0, "TV", Some(2020), 0)), "2020");
    assert_eq!(saved_note(&s(0, 0.0, "TV", None, 0)), "not started");
    for i in 0..=1000 {
        let p = i as f32 / 1000.0;
        assert_eq!(saved_note(&s(1, p, "MOVIE", None, 0)), format!("{}%", (p * 100.0).round() as i64));
    }
    assert_eq!(history_title("Frieren", "Series · Anime · S01E02"), "Frieren S01E02");
    assert_eq!(history_title("Film", ""), "Film");
    assert_eq!(history_title("Film", "Movie"), "Film Movie");
    assert_eq!(detail_line(&"AllManga".into(), &"".into(), &"1080p".into()), "AllManga · 1080p");
}

#[test]
fn the_player_gets_what_the_host_wants() {
    let a = mpv_args(&file(720), "UA", Some("http://s"), &vec!["--start=90".into()], "Frieren", "S01E02");
    assert_eq!(
        a,
        [
            "--http-header-fields=Referer: r",
            "--user-agent=UA",
            "--sub-file=http://s",
            "--start=90",
            "--force-media-title=Frieren S01E02"
        ]
    );
    assert_eq!(opening_line("Frieren", "S01E02"), "Opening Frieren S01E02 in mpv…");
}

#[test]
fn sources_keep_their_order() {
    let v = |l: &[&str]| l.iter().map(|s| s.to_string()).collect::<Vec<String>>();
    assert_eq!(current_order(&v(&["c", "gone", "a"]), &v(&["a", "b", "c"])), ["c", "a", "b"]);
    let mut o = v(&["a", "b", "c"]);
    assert!(move_source(&mut o, "c", -1));
    assert_eq!(o, ["a", "c", "b"]);
    assert!(move_source(&mut o, "a", 9));
    assert_eq!(o, ["c", "b", "a"]);
    assert!(move_source(&mut o, "a", i32::MIN));
    assert_eq!(o, ["a", "c", "b"]);
    assert!(!move_source(&mut o, "zzz", 1));
    assert_eq!(health_order(&v(&["x", "b", "a"]), &v(&["a", "b"])), [2, 1, 0]);
    assert_eq!(set_flag("hide_finished"), Some(Flag::HideFinished));
    assert_eq!(set_flag("odd"), None);
    assert_eq!(set_num("slots"), Some(Dial::Slots));
    assert_eq!(set_num("odd"), None);
    assert_eq!(set_text("subs_lang"), Some(Words::SubsLang));
    assert_eq!(set_text("odd"), None);
    assert_eq!(default_host_block(&v(&["https://v"])), "https://api.allanime.day/api\nhttps://v");
}
