use tulipix::double::{Double, Number};
use tulipix::videos::stream::cast::{
    discovered, found_line, short_name, stream_cast_to, CastDevice, CastStart,
};
use tulipix::videos::stream::detail::{
    attach_episode_captions, captions_to_probe, needs_captions, paint_files, push_details, Load, LoadAct, Loaded,
};
use tulipix::videos::stream::download::{
    download_dir, download_ended, download_name, hides_itself, progress_label, safe_filename, stream_set_to_library,
    to_library, DownloadEnd, DownloadStart, Downloads,
};
use tulipix::videos::stream::feed::{browse_rows, feed_covers, landing_rows, resume_label};
use tulipix::videos::stream::hosts::{saved_line, short_host, stored_base};
use tulipix::videos::stream::play::{
    autoplay_next, play_label, playing_line, stream_trailer, subtitle_args, subtitle_file, subtitle_style_args,
    track_order, worth_keeping,
};
use tulipix::videos::stream::saved::{
    badge, card_overview, history_kind, history_page, history_state, relative_time, relative_to, sort_bookmarks,
    stream_toggle_bookmark, worth_noting, Bookmark,
};
use tulipix::videos::stream::search::{
    push_preview, results_line, search_answer, stream_suggest, Answered, SearchAct,
};
use tulipix::videos::stream::state::{
    episode_numbers, max_ep_for, opening, pending_of, take_pending_play, CardData, Guard, SearchHit, SeasonAct,
    StreamState,
};
use tulipix::videos::stream::title::{
    cap_dir, caption_union, cover_name, cover_names, explain, file_sub, image_ext, merge_captions, meta_line,
    repair_ext, truncate_chars, Caption, Details, Dub, Season, StreamError, StreamFile,
};

fn number(x: f64) -> Number {
    Number::from_bits(x.to_bits())
}

fn cap(lang: &str, url: &str) -> Caption {
    Caption { url: url.into(), lang: lang.into(), ext: "srt".into() }
}

fn meta_lines() {
    let d = Details { year: "2024".into(), genre: "Drama".into(), rating: number(8.74), ..Default::default() };
    assert_eq!(meta_line(&d), "2024  ·  Drama  ·  ★ 8.7");
    assert_eq!(meta_line(&Details::default()), "");
}

#[test]
fn stream_meta_line_skips_blank_fields() {
    meta_lines();
}

#[test]
fn mod_meta_line_skips_blank_fields() {
    meta_lines();
    let d = Details { rating: number(f64::NAN), ..Default::default() };
    assert_eq!(meta_line(&d), "");
    let d = Details { rating: number(-1.0), duration: "50 min".into(), ..Default::default() };
    assert_eq!(meta_line(&d), "50 min");
}

fn file_subs() {
    let f = StreamFile { size: "2.1 GB".into(), codec: "h265".into(), ..Default::default() };
    assert_eq!(file_sub(&f), "2.1 GB  ·  h265");
    let f = StreamFile { codec: "h264".into(), ..Default::default() };
    assert_eq!(file_sub(&f), "h264");
    assert_eq!(file_sub(&StreamFile::default()), "");
}

#[test]
fn stream_file_sub_handles_missing_halves() {
    file_subs();
}

#[test]
fn mod_file_sub_handles_missing_halves() {
    file_subs();
}

fn plain_errors() {
    for e in [
        StreamError::NoHosts,
        StreamError::HostsExhausted,
        StreamError::MissingToken,
        StreamError::ApiStatus(403),
    ] {
        let msg = explain(&e);
        assert!(!msg.is_empty());
        assert!(!msg.contains("StreamError"), "leaked Debug form: {msg}");
    }
    assert!(explain(&StreamError::ApiStatus(403)).contains("403"));
}

#[test]
fn stream_errors_are_plain_language_not_debug() {
    plain_errors();
}

#[test]
fn mod_errors_are_plain_language_not_debug() {
    plain_errors();
    assert_eq!(explain(&StreamError::ApiStatus(404)), "Nothing found for that.");
    assert_eq!(explain(&StreamError::Reqwest), "Network error.");
    assert_eq!(explain(&StreamError::Json), "Unreadable response from the server.");
}

fn names_of_downloads() {
    assert_eq!(download_name("Person of Interest", 1, 5, 1080), "Person_of_Interest_S01E05_1080p.mp4");
    assert_eq!(download_name("Dune: Part Two", 0, 0, 720), "Dune_Part_Two_720p.mp4");
    // path separators and quotes must never survive into a filename
    assert_eq!(download_name("../../etc/passwd", 0, 0, 0), "etc_passwd.mp4");
    assert_eq!(download_name("", 0, 0, 0), "stream.mp4");
    assert!(!download_name("a/b\\c:d", 2, 10, 480).contains(['/', '\\', ':']));
}

#[test]
fn stream_download_names_are_filesystem_safe_and_identify_the_episode() {
    names_of_downloads();
}

#[test]
fn download_download_names_are_filesystem_safe_and_identify_the_episode() {
    names_of_downloads();
    assert_eq!(download_name("Amélie 2", 0, 3, 0), "Amélie_2_S00E03.mp4");
}

fn progress_labels() {
    assert_eq!(progress_label(5 * 1024 * 1024, 10 * 1024 * 1024), "5 MB of 10 MB (50%)");
    assert_eq!(progress_label(3 * 1024 * 1024, 0), "3 MB");
}

#[test]
fn stream_progress_label_handles_unknown_length() {
    progress_labels();
}

#[test]
fn download_progress_label_handles_unknown_length() {
    progress_labels();
    for (d, t) in [(1u64, 3u64), (123_456_789, 987_654_321), (0, 5), (u64::MAX, 7)] {
        let mb = |b: u64| b as f64 / 1024.0 / 1024.0;
        assert_eq!(
            progress_label(d, t),
            format!("{:.0} MB of {:.0} MB ({:.0}%)", mb(d), mb(t), d as f64 / t as f64 * 100.0)
        );
    }
}

fn guards() {
    let mut g = Guard::new();
    let first = g.next_epoch();
    assert!(g.is_current(first));
    let second = g.next_epoch();
    assert!(!g.is_current(first), "a superseded action must not paint");
    assert!(g.is_current(second));
}

#[test]
fn stream_generation_guard_invalidates_older_actions() {
    guards();
}

#[test]
fn mod_generation_guard_invalidates_older_actions() {
    guards();
}

fn counts_of_seasons() {
    let seasons = vec![
        Season { number: 1, max_ep: 9 },
        Season { number: 2, max_ep: 22 },
        Season { number: 3, max_ep: 5 },
    ];
    assert_eq!(max_ep_for(&seasons, 2), 22); // not season 1's count
    assert_eq!(max_ep_for(&seasons, 3), 5);
    assert_eq!(max_ep_for(&seasons, 99), 9); // unknown season → first
    assert_eq!(max_ep_for(&vec![], 1), 0);
}

#[test]
fn stream_episode_count_follows_the_open_season() {
    counts_of_seasons();
}

#[test]
fn detail_episode_count_follows_the_open_season() {
    counts_of_seasons();
}

fn inline_captions() {
    let files = vec![
        StreamFile { resource_id: "a".into(), ..Default::default() },
        StreamFile { resource_id: "b".into(), ..Default::default() },
    ];
    // tracks are looked for only when every file lacks inline subs
    assert!(files.iter().all(|f| f.captions.is_empty()));
    assert!(needs_captions(&files));
    assert_eq!(captions_to_probe(&files), ["a", "b"]);
    let with_inline = vec![StreamFile {
        resource_id: "a".into(),
        captions: vec![Caption { url: "u".into(), lang: "English".into(), ext: "srt".into() }],
        ..Default::default()
    }];
    assert!(with_inline.iter().any(|f| !f.captions.is_empty()));
    assert!(!needs_captions(&with_inline));
    assert!(captions_to_probe(&with_inline).is_empty());
}

#[test]
fn stream_empty_inline_captions_are_detected_as_needing_a_fetch() {
    inline_captions();
}

#[test]
fn detail_empty_inline_captions_are_detected_as_needing_a_fetch() {
    inline_captions();
    let many: Vec<StreamFile> = ["a", "", "a", "b", "c", "d"]
        .iter()
        .map(|r| StreamFile { resource_id: r.to_string(), ..Default::default() })
        .collect();
    assert_eq!(captions_to_probe(&many), ["a", "b", "c"]);
    let got = attach_episode_captions(&many, &vec![cap("English", "u")]);
    assert!(got.iter().all(|f| f.captions.len() == 1));
    let none = attach_episode_captions(&many, &vec![]);
    assert!(none.iter().all(|f| f.captions.is_empty()));
}

fn truncated_texts() {
    assert_eq!(truncate_chars("short", 100), "short"); // untouched
    assert_eq!(truncate_chars("abcdef", 3), "abc…"); // cut + ellipsis
    assert_eq!(truncate_chars("abc", 3), "abc"); // exact length, no ellipsis
    // Multibyte: 4 codepoints capped to 2 must not split a glyph.
    assert_eq!(truncate_chars("héllo", 2), "hé…");
}

#[test]
fn stream_truncate_chars_caps_and_marks_cut_by_char_not_byte() {
    truncated_texts();
}

#[test]
fn mod_truncate_chars_caps_and_marks_cut_by_char_not_byte() {
    truncated_texts();
}

#[test]
fn cover_extension_follows_the_bytes_not_the_url() {
    assert_eq!(image_ext(&[0x89, b'P', b'N', b'G', 0x0d, 0x0a]), "png");
    assert_eq!(image_ext(b"RIFF\0\0\0\0WEBPVP8 "), "webp");
    assert_eq!(image_ext(&[0xff, 0xd8, 0xff, 0xe0]), "jpg");
    // Unrecognised bytes stay jpg: the decoder rejects them either way, and
    // a wrong guess must not create a second cache entry for the same URL.
    assert_eq!(image_ext(b""), "jpg");
    assert_eq!(image_ext(b"RIFF"), "jpg");
    assert_eq!(repair_ext(&[0x89, b'P', b'N', b'G'], "jpg"), Some("png"));
    assert_eq!(repair_ext(b"", "jpg"), None);
}

#[test]
fn covers_are_kept_under_a_digest() {
    assert!(cover_names("").is_empty());
    assert_eq!(
        cover_name("abc", "png"),
        "ba7816bf8f01cfea414140de5dae2223b00361a396177a9cb410ff61f20015ad.png"
    );
    let n = cover_names("abc");
    assert_eq!(n.len(), 3);
    assert!(n[0].ends_with(".jpg") && n[1].ends_with(".png") && n[2].ends_with(".webp"));
}

fn unions() {
    let files = vec![
        StreamFile {
            captions: vec![cap("English", "https://s/en1"), cap("Hindi", "https://s/hi")],
            ..Default::default()
        },
        StreamFile {
            // same languages on the 480p cut — must not double up the picker
            captions: vec![cap("english", "https://s/en2"), cap("", "")],
            ..Default::default()
        },
    ];
    let u = caption_union(&files);
    assert_eq!(u.len(), 2);
    assert_eq!(u[0].lang, "English");
    assert_eq!(u[0].url, "https://s/en1"); // first URL seen wins
    assert_eq!(u[1].lang, "Hindi");
    assert!(caption_union(&vec![]).is_empty());
}

#[test]
fn stream_caption_union_keeps_one_entry_per_language() {
    unions();
}

#[test]
fn mod_caption_union_keeps_one_entry_per_language() {
    unions();
    let m = merge_captions(&vec![vec![cap("", "a"), cap("", "a")], vec![cap("", "b")]]);
    assert_eq!(m.len(), 2);
    let m = merge_captions(&vec![
        vec![cap("English", "a"), cap("", "b"), cap("english", "c")],
        vec![cap("", "b"), cap("Tamil", "a"), cap("Hindi", "h"), cap("ENGLISH", "d")],
    ]);
    let seen: Vec<(&str, &str)> = m.iter().map(|c| (c.lang.as_str(), c.url.as_str())).collect();
    assert_eq!(seen, [("English", "a"), ("", "b"), ("Hindi", "h")]);
}

fn numbers_of_episodes() {
    assert_eq!(episode_numbers(3), vec![1, 2, 3]);
    assert!(episode_numbers(0).is_empty());
    assert!(episode_numbers(-5).is_empty()); // server junk must not underflow
    assert_eq!(episode_numbers(10_000).len(), 500); // clamped, not unbounded
}

#[test]
fn stream_episode_numbers_are_one_based_and_bounded() {
    numbers_of_episodes();
}

#[test]
fn detail_episode_numbers_are_one_based_and_bounded() {
    numbers_of_episodes();
}

fn first_episodes() {
    let series = Details {
        is_series: true,
        seasons: vec![Season { number: 2, max_ep: 8 }],
        dubs: vec![Dub { subject_id: "a".into(), name: "English".into() }],
        ..Default::default()
    };
    let at = opening(&vec![], "s", series.is_series, &series.seasons);
    assert_eq!((at.season, at.episode), (2, 1));

    let movie = Details { is_series: false, ..Default::default() };
    let at = opening(&vec![], "m", movie.is_series, &movie.seasons);
    assert_eq!((at.season, at.episode), (0, 0));
}

#[test]
fn stream_first_episode_selection_matches_kind() {
    first_episodes();
}

#[test]
fn detail_first_episode_selection_matches_kind() {
    first_episodes();
    // A split show is labelled with its season and asked for as the first.
    let split = vec![(1i64, "a".to_string()), (4, "b".to_string())];
    let at = opening(&split, "b", false, &vec![]);
    assert_eq!((at.season, at.wire_season, at.episode), (4, 1, 1));
    let at = opening(&split, "zzz", false, &vec![]);
    assert_eq!(at.season, 1);
}

fn subtitles_without_tracks() {
    let (args, n) = subtitle_args(&vec![], Some(0));
    assert!(args.is_empty());
    assert_eq!(n, 0);
}

#[test]
fn stream_subtitle_args_are_empty_without_tracks() {
    subtitles_without_tracks();
}

#[test]
fn play_subtitle_args_are_empty_without_tracks() {
    subtitles_without_tracks();
    let (args, n) = subtitle_args(&vec![Some("/a/English.srt".into()), None, Some("/a/Hindi.srt".into())], None);
    assert_eq!(n, 2);
    assert_eq!(args, ["--sub-file=/a/English.srt", "--sub-file=/a/Hindi.srt", "--sid=no"]);
    assert_eq!(track_order(4, Some(2)), [2, 0, 1, 3]);
    assert_eq!(track_order(3, Some(7)), [0, 1, 2]);
    assert_eq!(track_order(2, None), [0, 1]);
}

#[test]
fn device_names_drop_the_boilerplate_headers() {
    assert_eq!(short_name("Linux/4.9 UPnP/1.0 Sony/1.0"), "Sony/1.0");
    assert_eq!(short_name("Samsung TV"), "Samsung TV");
    // Nothing left after filtering: keep the original rather than a blank row.
    assert_eq!(short_name("UPnP/1.0"), "UPnP/1.0");
    assert_eq!(short_name(&"x".repeat(60)).chars().count(), 41); // truncated + ellipsis
}

#[test]
fn devices_are_listed_once() {
    let dev = |n: &str, l: &str| CastDevice { name: n.into(), location: l.into() };
    let mut list = vec![];
    discovered(&mut list, dev("Linux/4.9 Sony/1.0", "http://a"));
    discovered(&mut list, dev("Other", "http://a"));
    discovered(&mut list, dev("Samsung TV", "http://b"));
    assert_eq!(list.len(), 2);
    assert!(matches!(stream_cast_to(&list, "Samsung TV", true), CastStart::To(l) if l == "http://b"));
    assert!(matches!(stream_cast_to(&list, "Nobody", true), CastStart::NoDevice));
    assert!(matches!(stream_cast_to(&list, "Samsung TV", false), CastStart::NoStream));
    assert_eq!(found_line(0), "No cast devices found on this network.");
    assert_eq!(found_line(1), "1 device found.");
    assert_eq!(found_line(3), "3 devices found.");
}

#[test]
fn history_lines_read_as_where_you_got_to() {
    assert_eq!(history_kind(true, 2, 4), "Series  ·  S02E04");
    assert_eq!(history_kind(false, 2, 4), "Movie");
    assert_eq!(history_state(true, &number(0.99), &Some(number(10.0))), "Watched");
    assert_eq!(history_state(false, &number(300.0 / 1200.0), &Some(number(900.0))), "25%  ·  15 min left");
    // An unknown length still gives a percentage of nothing rather than a lie.
    assert_eq!(history_state(false, &number(0.0), &None), "0%");
}

#[test]
fn history_lines_round_as_floats_do() {
    for (f, s) in [(0.005, 90.0), (0.125, 150.0), (0.335, 59.9), (0.9951, 1e9)] {
        let want = if s >= 60.0 {
            format!("{:.0}%  ·  {:.0} min left", f * 100.0, s / 60.0)
        } else {
            format!("{:.0}%  ·  nearly done", f * 100.0)
        };
        assert_eq!(history_state(false, &number(f), &Some(number(s))), want);
    }
    assert_eq!(history_kind(true, 0, 0), "Series");
    assert_eq!(history_state(false, &number(f64::INFINITY), &None), "inf%");
}

#[test]
fn relative_time_rounds_to_the_unit_that_reads_best() {
    let now = std::time::SystemTime::now()
        .duration_since(std::time::UNIX_EPOCH)
        .map(|d| d.as_secs() as i64)
        .unwrap_or(0);
    assert_eq!(relative_time(now), "just now");
    assert_eq!(relative_time(now - 600), "10 minutes ago");
    assert_eq!(relative_time(now - 3600), "1 hour ago");
    assert_eq!(relative_time(now - 2 * 86_400), "2 days ago");
    // A clock that went backwards must not print a negative age.
    assert_eq!(relative_time(now + 500), "just now");
    assert_eq!(relative_to(0, 5_184_000), "2 months ago");
    assert_eq!(relative_to(0, 90), "1 minute ago");
    assert_eq!(relative_to(0, 89), "just now");
}

fn mk(id: &str, title: &str, series: bool) -> Bookmark {
    Bookmark {
        subject_id: id.into(),
        title: title.into(),
        year: "2020".into(),
        cover_url: String::new(),
        is_series: series,
        meta: String::new(),
        overview: String::new(),
        seen_max_ep: 0,
        latest_max_ep: 0,
    }
}

fn bookmark_sorts() {
    // list() is newest-first; simulate [b, a] as that order.
    let base = vec![mk("b", "Zebra", false), mk("a", "Apple", true)];

    let mut by_name = base.clone();
    sort_bookmarks(&mut by_name, "name", false);
    assert_eq!(by_name[0].title, "Apple");
    let mut by_name_desc = base.clone();
    sort_bookmarks(&mut by_name_desc, "name", true);
    assert_eq!(by_name_desc[0].title, "Zebra");

    let mut by_type = base.clone();
    sort_bookmarks(&mut by_type, "type", false); // movies before series
    assert!(!by_type[0].is_series);

    let mut by_date = base.clone();
    sort_bookmarks(&mut by_date, "date", false); // unchanged
    assert_eq!(by_date[0].subject_id, "b");
}

#[test]
fn stream_bookmark_sort_orders_by_key_and_direction() {
    bookmark_sorts();
}

#[test]
fn saved_bookmark_sort_orders_by_key_and_direction() {
    bookmark_sorts();
    // Small and capital letters sort alike, and kinds keep their titles in order.
    let mut l = vec![mk("1", "beta", true), mk("2", "Alpha", true), mk("3", "GAMMA", false), mk("4", "delta", false)];
    sort_bookmarks(&mut l, "name", false);
    assert_eq!(l.iter().map(|b| b.title.as_str()).collect::<Vec<_>>(), ["Alpha", "beta", "delta", "GAMMA"]);
    sort_bookmarks(&mut l, "type", false);
    assert_eq!(l.iter().map(|b| b.title.as_str()).collect::<Vec<_>>(), ["delta", "GAMMA", "Alpha", "beta"]);
    // Turned round, the same titles stand the other way.
    let mut up = vec![mk("1", "beta", true), mk("2", "Alpha", true), mk("3", "GAMMA", false), mk("4", "delta", false)];
    sort_bookmarks(&mut up, "type", true);
    assert_eq!(up.iter().map(|b| b.title.as_str()).collect::<Vec<_>>(), ["beta", "Alpha", "GAMMA", "delta"]);
}

#[test]
fn a_request_to_play_is_for_one_title() {
    let mut p = Some(pending_of("a", -1, 4));
    assert!(take_pending_play(&mut p, "b").is_none());
    assert!(p.is_none(), "stale once something else was opened");
    p = Some(pending_of("a", -1, 4));
    let got = take_pending_play(&mut p, "a").unwrap();
    assert_eq!((got.season, got.episode), (0, 4));
    assert!(p.is_none());
}

fn hit(id: &str, seasons: &[(i64, &str)]) -> SearchHit {
    SearchHit {
        id: id.into(),
        title: id.to_uppercase(),
        year: "2020".into(),
        cover: format!("https://c/{id}"),
        is_series: !seasons.is_empty(),
        season_subjects: seasons.iter().map(|(n, s)| (*n, s.to_string())).collect(),
    }
}

#[test]
fn split_shows_keep_their_seasons() {
    let mut st = StreamState::new("");
    st.remember_season_maps(&vec![hit("a", &[(1, "a"), (2, "b")]), hit("solo", &[(1, "solo")])]);
    st.remember_season_maps(&vec![hit("x", &[(1, "x"), (2, "y")])]);
    assert_eq!(st.siblings_of("b").len(), 2, "a later search forgets nothing");
    assert!(st.siblings_of("solo").is_empty());
    let at = st.stream_open("b", true, &vec![Season { number: 1, max_ep: 9 }]);
    assert_eq!((at.season, at.wire_season), (2, 1));
    assert_eq!(st.opened_subject().as_deref(), Some("b"));
    // Another language of season two keeps both seasons, from either subject.
    st.stream_set_dub("b-hindi");
    assert_eq!(st.siblings_of("b-hindi").len(), 2);
    assert_eq!(st.siblings_of("a")[1].1, "b-hindi");
    assert!(matches!(st.stream_set_season(1), SeasonAct::Reopen(s) if s == "a"));
    st.clear_open_title();
    assert!(st.opened_subject().is_none());
    assert_eq!(st.siblings_of("a").len(), 2);
}

#[test]
fn seasons_and_episodes_of_a_whole_show() {
    let mut st = StreamState::new("1080");
    assert!(matches!(st.stream_set_season(2), SeasonAct::Nothing));
    assert!(st.stream_set_episode(3).is_none());
    let seasons = vec![Season { number: 1, max_ep: 2 }, Season { number: 2, max_ep: 3 }];
    st.stream_open("s", true, &seasons);
    st.details = Some(Details { is_series: true, seasons, title: "Show".into(), ..Default::default() });
    match st.stream_set_season(2) {
        SeasonAct::Load { id, episodes } => {
            assert_eq!(id, "s");
            assert_eq!(episodes, [1, 2, 3]);
        }
        other => panic!("{other:?}"),
    }
    assert_eq!(st.stream_set_episode(2), Some(("s".to_string(), 2, 2)));
    assert_eq!(st.next_episode(), Some(("s".to_string(), 2, 3)));
    assert_eq!(autoplay_next(&mut st, false), None);
    assert_eq!(autoplay_next(&mut st, true), Some(("s".to_string(), 2, 3)));
    assert_eq!(st.next_episode(), None, "the season is over");
    assert_eq!(st.stream_set_resolution("720"), Some(("s".to_string(), 2, 3)));
    let b = stream_toggle_bookmark(&st).unwrap();
    assert_eq!((b.subject_id.as_str(), b.seen_max_ep), ("s", 3));
}

#[test]
fn files_are_painted_with_the_language_picked() {
    let mut st = StreamState::new("");
    let files = vec![
        StreamFile {
            resolution: 1080,
            size: "2 GB".into(),
            captions: vec![cap("Hindi", "h"), cap("english", "e"), cap("", "x")],
            ..Default::default()
        },
        StreamFile::default(),
    ];
    let p = paint_files(&mut st, files, Some(0), true);
    assert_eq!(p.rows[0].label, "1080p");
    assert_eq!(p.rows[0].subs, "3 subs");
    assert_eq!((p.rows[1].label.as_str(), p.rows[1].subs.as_str()), ("Auto", "No subs"));
    assert_eq!(p.sub_choice, Some(1));
    assert!(p.subs[1].active);
    assert_eq!(p.subs[2].label, "Track 3");
    assert_eq!(p.current_label, "1080p stream");
    assert_eq!(p.status, "2 streams · all qualities · saved");
    st.stream_set_sub(0);
    assert_eq!(st.sub_lang.as_deref(), Some("Hindi"));
    st.stream_set_sub(-1);
    assert_eq!((st.sub_choice, st.sub_lang.clone()), (None, None));
    assert_eq!(st.stream_set_current(9), "");
    assert_eq!(st.current_index(), Some(1));
    st.resolution = "480".into();
    let none = paint_files(&mut st, vec![], None, false);
    assert_eq!(none.status, "No streams at this quality — try another.");
    assert_eq!(st.current_index(), None);
    let one = paint_files(&mut st, vec![StreamFile::default()], None, false);
    assert_eq!(one.status, "1 streams · 480p");
}

#[test]
fn the_pane_lists_the_season_on_screen() {
    let d = Details {
        id: "".into(),
        is_series: true,
        seasons: vec![Season { number: 1, max_ep: 2 }, Season { number: 2, max_ep: 3 }],
        ..Default::default()
    };
    let dubs = vec![
        Dub { subject_id: "s".into(), name: "Original".into() },
        Dub { subject_id: "t".into(), name: "Hindi".into() },
    ];
    let p = push_details(&d, &dubs, &vec![], "s", 2);
    assert_eq!(p.seasons, [1, 2]);
    assert_eq!(p.episodes, [1, 2, 3]);
    assert!(p.dubs[0].active && !p.dubs[1].active);
    let split = vec![(7i64, "s".to_string()), (8, "t".to_string())];
    let p = push_details(&d, &dubs, &split, "s", 7);
    assert_eq!(p.seasons, [7, 8]);
    assert_eq!(p.episodes, [1, 2]);
}

#[test]
fn loading_shows_what_is_kept_and_asks_when_it_is_old() {
    let mut l = Load::new();
    assert_eq!(l.load_files(true, Loaded::NoneKept), LoadAct::SayFinding);
    assert_eq!(l.load_files(true, Loaded::Ready), LoadAct::Fetch);
    assert_eq!(
        l.load_files(true, Loaded::Failed(StreamError::NoHosts)),
        LoadAct::BlankAndSay(StreamError::NoHosts)
    );
    assert_eq!(l.load_files(true, Loaded::NoServer(StreamError::Json)), LoadAct::Say(StreamError::Json));
    let mut l = Load::new();
    assert_eq!(l.load_files(true, Loaded::Kept { bare: true, stale: false }), LoadAct::PaintKept { probe: true });
    assert_eq!(l.load_files(true, Loaded::Probed { gained: true }), LoadAct::KeepAndPaint);
    assert_eq!(l.load_files(true, Loaded::Probed { gained: false }), LoadAct::GoOn);
    assert_eq!(l.load_files(true, Loaded::Ready), LoadAct::Leave);
    assert_eq!(l.load_files(true, Loaded::Found { changed: false }), LoadAct::Leave);
    assert_eq!(l.load_files(true, Loaded::Found { changed: true }), LoadAct::PaintFound);
    assert_eq!(l.load_files(false, Loaded::Found { changed: true }), LoadAct::Leave);
    assert_eq!(l.load_files(true, Loaded::Failed(StreamError::NoHosts)), LoadAct::Leave);
}

#[test]
fn one_download_at_a_time() {
    let mut d = Downloads::new();
    assert_eq!(d.stream_download(5, 2), DownloadStart::Gone);
    assert_eq!(d.stream_download(-1, 2), DownloadStart::Go);
    assert_eq!(d.stream_download(1, 2), DownloadStart::Busy);
    d.stream_download_cancel();
    assert!(d.cancelled && !hides_itself(&d));
    d.finish();
    assert!(hides_itself(&d));
    assert_eq!(d.stream_download(1, 2), DownloadStart::Go);
    assert!(!d.cancelled);
    assert_eq!(download_ended(&DownloadEnd::Whole { named: true }, "/d/a.mp4"), ("Saved to /d/a.mp4".into(), true, false));
    assert_eq!(download_ended(&DownloadEnd::Whole { named: false }, "/d").0, "Downloaded, but could not be renamed.");
    assert_eq!(download_ended(&DownloadEnd::Cancelled, "/d"), ("Download cancelled.".into(), false, true));
    assert_eq!(download_ended(&DownloadEnd::Failed("no".into()), "/d"), ("Download failed: no".into(), false, true));
}

#[test]
fn the_landing_screen_starts_with_what_is_unfinished() {
    let rows: Vec<(String, Vec<SearchHit>)> = vec![
        ("A".into(), (0..15).map(|i| hit(&format!("a{i}"), &[])).collect()),
        ("B".into(), vec![hit("b", &[(1, "b"), (2, "c")])]),
    ];
    let covers = feed_covers(&rows);
    assert_eq!(covers.len(), 13);
    assert_eq!(covers[12], "https://c/b");
    let had: Vec<Option<String>> = (0..13).map(|i| Some(format!("/p/{i}"))).collect();
    let browse = browse_rows(&rows, &had);
    assert_eq!(browse[0].cards.len(), 12);
    assert_eq!(browse[1].cards[0].poster.as_deref(), Some("/p/12"));
    assert_eq!(browse[1].cards[0].seasons, 2);
    let short = browse_rows(&rows, &vec![Some("/p/0".into())]);
    assert_eq!(short[1].cards[0].poster, None);
    let all = landing_rows(vec![CardData::of(&hit("z", &[]), None)], browse);
    assert_eq!((all.len(), all[0].title.as_str(), all[0].resumable), (3, "Continue watching", true));
    assert!(landing_rows(vec![], vec![]).is_empty());
    assert_eq!(resume_label(true, 2, 4, &Some(number(1080.0))), "S02E04  ·  18 min left");
    assert_eq!(resume_label(false, 0, 0, &Some(number(30.0))), "nearly done");
    assert_eq!(resume_label(true, 0, 3, &None), "S01E03");
}

#[test]
fn servers_and_sources() {
    assert_eq!(short_host("https://api5.aoneroom.com"), "api5.aoneroom.com");
    assert_eq!(short_host("plain"), "plain");
    assert_eq!(short_host("a://b://c"), "b://c");
    assert_eq!(saved_line(1), "Saved 1 server.");
    assert_eq!(saved_line(2), "Saved 2 servers.");
    assert_eq!(stored_base("x", "x"), "");
    assert_eq!(stored_base("y", "x"), "y");
    let mut st = StreamState::new("");
    st.query = "dune".into();
    st.page = 2;
    st.stream_set_source(false);
    assert_eq!(st.query, "dune");
    st.stream_set_source(true);
    assert_eq!((st.query.as_str(), st.page), ("", 0));
}

#[test]
fn the_player_is_told_how_subtitles_look() {
    let f32n = |x: f32| number(x as f64);
    assert!(subtitle_style_args(&f32n(1.0), &f32n(0.0)).is_empty());
    assert_eq!(subtitle_style_args(&f32n(1.25), &f32n(-0.5)), ["--sub-scale=1.25", "--sub-delay=-0.5"]);
    for bits in 0x3f7f_fff0u32..0x3f80_0010 {
        let x = f32::from_bits(bits);
        assert_eq!(!subtitle_style_args(&f32n(x), &f32n(0.0)).is_empty(), (x - 1.0).abs() > f32::EPSILON);
        let y = f32::from_bits(bits - 0x0b80_0000);
        assert_eq!(!subtitle_style_args(&f32n(1.0), &f32n(-y)).is_empty(), y.abs() > f32::EPSILON);
    }
    assert_eq!(play_label(720), "720p");
    assert_eq!(play_label(0), "stream");
    assert_eq!(playing_line("720p", 0, Some("English"), None), "Playing 720p in mpv · no subtitles");
    assert_eq!(
        playing_line("720p", 2, Some("English"), Some("12:30")),
        "Playing 720p in mpv · 2 subtitles · English · resumed at 12:30"
    );
    assert_eq!(playing_line("720p", 2, None, None), "Playing 720p in mpv · 2 subtitles · off");
    assert_eq!(subtitle_file("Português (BR)", "", 0), "Português _BR_.srt");
    assert_eq!(subtitle_file("  ", "vtt", 2), "Track 3.vtt");
    assert!(!worth_keeping(&number(1.0)));
    assert!(worth_keeping(&number(1.0000001)));
    assert!(!worth_keeping(&number(-5.0)));
    assert_eq!(stream_trailer(&"Dune".into(), &"2021".into()).unwrap(), "ytdl://ytsearch1:Dune 2021 trailer");
    assert_eq!(stream_trailer(&"Dune".into(), &"".into()).unwrap(), "ytdl://ytsearch1:Dune trailer");
    assert!(stream_trailer(&"".into(), &"2021".into()).is_none());
}

#[test]
fn history_falls_back_to_a_page_that_exists() {
    let p = history_page(60, 9);
    assert_eq!((p.page, p.pages, p.start, p.end), (2, 3, 50, 60));
    let p = history_page(0, -4);
    assert_eq!((p.page, p.pages, p.start, p.end), (0, 1, 0, 0));
    assert_eq!(badge(true, 3), 3);
    assert_eq!(badge(false, 3), 0);
    assert!(worth_noting(1) && !worth_noting(0));
    assert_eq!(card_overview(&"y".repeat(101)).chars().count(), 101);
}

#[test]
fn further_pages_only_add() {
    let mut st = StreamState::new("");
    assert!(matches!(st.stream_search("  "), SearchAct::Clear));
    assert!(matches!(st.stream_search(" dune "), SearchAct::Ask(q) if q == "dune"));
    assert!(st.stream_search_more().is_none(), "before the first page");
    let hits = vec![hit("a", &[]), hit("b", &[])];
    st.take_page(1, &hits, hits.iter().map(|h| CardData::of(h, None)).collect());
    assert_eq!(st.stream_search_more(), Some(("dune".to_string(), 2)));
    let more = vec![hit("b", &[]), hit("c", &[])];
    st.take_page(2, &more, more.iter().map(|h| CardData::of(h, None)).collect());
    assert_eq!(st.results.iter().map(|c| c.id.as_str()).collect::<Vec<_>>(), ["a", "b", "c"]);
    assert_eq!(search_answer(false, 20, 1), Answered::Drop);
    assert_eq!(search_answer(true, 0, 1), Answered::NothingFound);
    assert_eq!(search_answer(true, 0, 2), Answered::Take { more: false });
    assert_eq!(search_answer(true, 10, 1), Answered::Take { more: true });
    assert_eq!(results_line(3, "api5"), "3 results · api5");
    assert!(stream_suggest(" a ").is_none());
    assert_eq!(stream_suggest("ab").as_deref(), Some("ab"));
    assert_eq!(stream_suggest("é").as_deref(), Some("é"), "two bytes");
}

#[test]
fn previews_are_bounded() {
    let mut st = StreamState::new("");
    for i in 0..61 {
        st.keep_preview(&format!("{i}"), Details::default());
    }
    assert_eq!(st.preview_cache.rows.len(), 61);
    st.keep_preview("x", Details { title: "X".into(), ..Default::default() });
    assert_eq!(st.preview_cache.rows.len(), 1);
    assert_eq!(st.preview_cache.get("x").unwrap().title, "X");
    assert!(st.preview_cache.get("3").is_none());
    let p = push_preview(
        &Details::default(),
        &vec![
            Dub { subject_id: "1".into(), name: "Original".into() },
            Dub { subject_id: "2".into(), name: "Hindi".into() },
        ],
    );
    assert_eq!(p.langs, "Original, Hindi");
}

#[test]
fn the_oldest_files_go() {
    assert!(cap_dir(&vec![3, 1, 2], 3).is_empty());
    assert_eq!(cap_dir(&vec![30, 10, 20, 10], 2), [1, 3]);
    let zero = Double::zero();
    assert!(!zero.at_least(1));
}

#[test]
fn downloads_land_where_they_were_asked_to() {
    let own = |there: bool| Some(("/home/u/Downloads".to_string(), there));
    assert_eq!(download_dir(Some("/d".into()), own(true)), "/d");
    assert_eq!(download_dir(Some("  ".into()), own(true)), "/home/u/Downloads");
    assert_eq!(download_dir(None, own(false)), ".");
    assert_eq!(download_dir(None, None), ".");
    assert!(to_library(stream_set_to_library(true)) && !to_library(stream_set_to_library(false)));
    assert!(to_library(""), "the library unless something else was chosen");
    assert_eq!(safe_filename("A/B: the  end..."), "A_B_the_end...");
    assert_eq!(safe_filename("../.. ///"), "stream");
    assert_eq!(safe_filename("Wait ... What"), "Wait_..._What");
    assert_eq!(safe_filename("a . b .. c"), "a_b_c");
    assert_eq!(safe_filename("  __ x __ "), "x");
    for title in ["Wait ... What", "A/B: the  end...", "../.. ///", "stream", "Ünïcödé — 2", "__a__b__"] {
        let once = safe_filename(title);
        assert_eq!(safe_filename(&once), once, "{title}");
        assert!(!once.contains("__") && !once.starts_with('_') && !once.ends_with('_'));
    }
}

#[test]
fn a_row_of_the_history_plays_its_own_episode() {
    let mut st = StreamState::new("");
    assert_eq!(st.land(&Some(pending_of("a", 2, 4)), 1, 1), (2, 4, true));
    assert_eq!(st.selection, (2, 4));
    // A film has no episode to go to, and plays as it opens.
    assert_eq!(st.land(&Some(pending_of("a", 0, 0)), 0, 0), (0, 0, true));
    assert_eq!(st.land(&None, 1, 1), (1, 1, false));
    assert_eq!(st.selection, (1, 1));
}
