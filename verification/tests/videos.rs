use tulipix::double::Number;
use tulipix::transfer::words::pages;
use tulipix::videos::livetv::{
    cache_line, fetch_logos, fetching, heard, heard_in, human_bytes, loaded, loads_on_entry, opening, pill_label, playing,
    push_channels, push_groups, push_playlists, res_label, resync_now, toggle_playlist, Answer, Channel, Heard, Listed,
    Logo, Watch, PAGE_SIZE, PILL_CHARS,
};
use tulipix::videos::names::{can_part, classify, fmt_release_date, parse_season_episode, poster_name};
use tulipix::videos::shelf::{
    kick_discover_refresh, kick_video_refresh, rows_query, seasons_of, shows_cards, video_rows_for, video_tiles,
    watched_part, DiscoverItem, FoundShow, FoundVideo, NextUp, Scanned, Shelf,
};
use tulipix::videos::tuner::{Deed, Tuner, Wish};

fn any(x: f64) -> Number {
    Number::from_bits(x.to_bits())
}

fn said(n: &Number, k: u32) -> String {
    let mut s = String::new();
    n.push_text(&mut s, k);
    s
}

#[test]
fn a_short_list_still_has_one_page() {
    // The page counter reads "1 / N"; N must never be zero, or an empty
    // search would leave the header claiming page 1 of 0.
    let size = PAGE_SIZE as u64;
    assert_eq!(pages(0, size), 1);
    assert_eq!(pages(1, size), 1);
    assert_eq!(pages(size, size), 1);
    assert_eq!(pages(size + 1, size), 2);
}

#[test]
fn the_pill_label_is_cut_by_characters_not_bytes() {
    assert_eq!(pill_label("BBC News"), "BBC News");
    assert_eq!(pill_label(&"a".repeat(PILL_CHARS)), "a".repeat(PILL_CHARS));
    assert_eq!(pill_label(&"a".repeat(PILL_CHARS + 1)), format!("{}…", "a".repeat(PILL_CHARS)));
    // Multi-byte names must be cut on a character boundary — slicing by
    // byte would panic on the first accent.
    let cyrillic = "Первый канал Россия Москва";
    let cut = pill_label(cyrillic);
    assert!(cut.ends_with('…'));
    assert!(cut.chars().count() <= PILL_CHARS + 1, "{cut}");
}

#[test]
fn a_channel_without_a_logo_is_not_reported_as_a_failed_download() {
    assert!(cache_line("", &Logo::Failed).contains("no logo"));
    assert_eq!(cache_line("u", &Logo::Unasked), "Logo not fetched yet.");
    assert_eq!(cache_line("u", &Logo::Failed), "The logo could not be downloaded.");
    assert_eq!(cache_line("u", &Logo::Kept("/l.png".into(), 2048)), "Logo cached · 2.0 KB · /l.png");
}

fn channel(name: &str, group: &str, url: &str, res: u32) -> Channel {
    Channel { id: name.into(), name: name.into(), group: group.into(), logo: String::new(), url: url.into(), res }
}

#[test]
fn the_grid_filters_sorts_and_pages() {
    let ch = vec![
        channel("Zeta", "News", "u0", 720),
        channel("alpha", "Sports", "u1", 1080),
        channel("Beta", "News", "u2", 480),
        channel("nothing", "", "u3", 0),
    ];
    let names = |p: &tulipix::videos::livetv::ChannelPage| p.rows.iter().map(|r| r.name.clone()).collect::<Vec<_>>();
    let p = push_channels(&ch, "", "", "name", true, 0);
    assert_eq!(names(&p), ["alpha", "Beta", "nothing", "Zeta"]);
    assert_eq!((p.matched, p.pages, p.page), (4, 1, 0));
    assert_eq!(p.rows[0].index, 1, "a click finds the channel in the whole list");
    assert_eq!(names(&push_channels(&ch, "", "", "name", false, 7)), ["Zeta", "nothing", "Beta", "alpha"]);
    assert_eq!(names(&push_channels(&ch, " ETA ", "", "", true, 0)), ["Zeta", "Beta"]);
    assert_eq!(names(&push_channels(&ch, "", "News", "res", true, 0)), ["Beta", "Zeta"]);
    assert_eq!(names(&push_channels(&ch, "", "", "group", true, 0)), ["nothing", "Beta", "Zeta", "alpha"]);
    let many: Vec<Channel> = (0..100).map(|i| channel(&format!("c{i:03}"), "", "", 0)).collect();
    let p = push_channels(&many, "", "", "", true, 2);
    assert_eq!((p.pages, p.page, p.rows.len()), (3, 2, 16));
    let g = push_groups(&ch);
    assert_eq!(g.iter().map(|x| (x.name.as_str(), x.count)).collect::<Vec<_>>(), [("News", 2), ("Sports", 1)]);
    assert_eq!(resync_now(&ch, "u2"), Some(2));
    assert_eq!(resync_now(&ch, "gone"), None);
}

#[test]
fn playlists_are_switched() {
    let mut p: Vec<String> = vec!["a".into(), "b".into()];
    toggle_playlist(&mut p, "c");
    assert_eq!(p, ["a", "b", "c"]);
    toggle_playlist(&mut p, "c");
    assert_eq!(p, ["a", "b"]);
    toggle_playlist(&mut p, "a");
    assert_eq!(p, ["b"]);
    let all = vec![
        Listed { kind: "country".into(), name: "Norway".into(), url: "n".into() },
        Listed { kind: "language".into(), name: "Norwegian".into(), url: "l".into() },
        Listed { kind: "country".into(), name: "Chile".into(), url: "b".into() },
    ];
    let rows = push_playlists(&all, "country", "", &p);
    assert_eq!(rows.iter().map(|r| (r.name.as_str(), r.on)).collect::<Vec<_>>(), [("Norway", false), ("Chile", true)]);
    assert_eq!(push_playlists(&all, "language", "NORW", &p).len(), 1);
    assert_eq!(push_playlists(&all, "odd", "chi", &p)[0].url, "b");
    let wanted = fetch_logos(
        &vec!["x".into(), "".into(), "x".into(), "y".into(), "z".into()],
        &vec!["y".into()],
        &vec!["z".into()],
    );
    assert_eq!(wanted, ["x"]);
}

#[test]
fn television_speaks() {
    assert_eq!(human_bytes(1023), "1023 B");
    assert_eq!(human_bytes(1536), "1.5 KB");
    assert_eq!(human_bytes(5 * 1024 * 1024), "5.0 MB");
    assert_eq!(fetching(1), "Fetching 1 playlist…");
    assert_eq!(fetching(3), "Fetching 3 playlists…");
    assert_eq!(loaded(0), "Those playlists came back empty.");
    assert_eq!(loaded(7), "7 channels");
    assert!(loads_on_entry(1, 0) && !loads_on_entry(0, 0) && !loads_on_entry(1, 5));
    assert_eq!(res_label(0), "");
    assert_eq!(res_label(1080), "1080p");
    assert_eq!(opening("BBC"), "Opening BBC in mpv…");
    assert_eq!(playing("BBC"), "Playing BBC in mpv");
    let clock = r#"{"event":"property-change","id":1,"name":"time-pos","data":1.5}"#;
    assert_eq!(heard(clock, true), Heard::Clock(true));
    assert_eq!(heard(clock, false), Heard::Clock(false));
    assert_eq!(heard(r#"{"event":"property-change","id":2,"name":"aid","data":2}"#, true), Heard::Track);
    assert_eq!(heard(r#"{"event":"property-change","name":"volume"}"#, true), Heard::Other);
    assert_eq!(heard(r#"{"event":"end-file","name":"aid"}"#, true), Heard::Other);
    assert_eq!(heard(r#"{"event":"property-change"}"#, true), Heard::Other);
    assert_eq!(heard("no json", true), Heard::Other);
    assert_eq!(heard_in(&Some("property-change".into()), &Some("aid".into()), false), Heard::Track);
    assert_eq!(heard_in(&None, &Some("aid".into()), false), Heard::Other);
    let mut w = Watch::new();
    assert_eq!(w.watch_mpv(Heard::Clock(false), true), Answer::Nothing);
    assert_eq!(w.watch_mpv(Heard::Clock(true), true), Answer::SayPlaying);
    assert_eq!(w.watch_mpv(Heard::Clock(true), true), Answer::Nothing);
    assert_eq!(w.watch_mpv(Heard::Track, true), Answer::Nothing);
    assert_eq!(w.watch_mpv(Heard::Track, true), Answer::SeekToEdge);
    assert_eq!(w.watch_mpv(Heard::Other, true), Answer::Nothing);
    assert_eq!(w.watch_mpv(Heard::Track, false), Answer::Leave);
}

#[test]
fn names_tell_episodes() {
    assert_eq!(parse_season_episode("Show.S02E05.mkv"), Some((2, 5)));
    assert_eq!(parse_season_episode("show s3 - e007.mp4"), Some((3, 7)));
    assert_eq!(parse_season_episode("Holiday 2019.mp4"), None);
    assert!(classify("Holiday 2019.mp4", &None).is_none());
    let (s, e, title) = classify("My.Show.S01E02.mkv", &None).unwrap();
    assert_eq!((s, e, title.as_str()), (1, 2, "Unknown Show"));
    assert_eq!(classify("S01E02.mkv", &Some("Lost".into())).unwrap().2, "Lost");
    assert!(can_part("2024-03-09"));
    assert_eq!(fmt_release_date("2024-03-09"), "Mar 9, 2024");
    assert_eq!(fmt_release_date("2024"), "2024");
    assert_eq!(fmt_release_date("2024-13-09"), "2024-13-09");
    assert!(poster_name("/abc.jpg").ends_with(".jpg"));
    assert_ne!(poster_name("/abc.jpg"), poster_name("/abd.jpg"));
}

#[test]
fn a_part_watched_is_single_precision() {
    for (p, d) in [(1.0, 3.0), (50.0, 10.0), (0.0, 10.0), (7.0, 0.0), (-1.0, 5.0), (1234.5, 5678.9)] {
        let want = if d > 0.0 { ((p / d) as f32).clamp(0.0, 1.0) } else { 0.0 };
        assert_eq!(said(&watched_part(&any(p), &any(d)), 5), format!("{want:.5}"));
    }
    let odd = [f64::INFINITY, f64::NEG_INFINITY, f64::NAN, 2.0, 0.0, -3.0, f64::MAX, 5e-324];
    for p in odd {
        for d in odd {
            let want = if d > 0.0 { (p / d).clamp(0.0, 1.0).abs() as f32 } else { 0.0 };
            assert_eq!(said(&watched_part(&any(p), &any(d)), 5), format!("{want:.5}"), "{p} {d}");
        }
    }
}

#[test]
fn shelves_show_their_seasons() {
    let video = |path: &str, season: i64, episode: i64| FoundVideo {
        path: path.into(),
        name: Some(path.rsplit('/').next().unwrap().into()),
        item_id: episode,
        starred: 0,
        finished: 0,
        pos: any(30.0),
        dur: Some(any(60.0)),
        duration: "1:00".into(),
        season,
        episode,
        poster: None,
        there: true,
    };
    let rows = video_rows_for(&vec![video("/v/A.mkv", 1, 1), video("/v/B.mkv", 1, 2), video("/v/C.mkv", 2, 1)], "");
    assert_eq!(rows.len(), 3);
    assert_eq!(said(&rows[0].progress, 2), "0.50");
    assert_eq!(video_rows_for(&vec![video("/v/A.mkv", 1, 1), video("/v/B.mkv", 1, 2)], "b.M").len(), 1);
    let scan = vec![Scanned { label: "A".into(), path: "/v/A.mkv".into(), thumb: "/t/a.jpg".into() }];
    let tiles = video_tiles(&rows, &scan);
    assert_eq!(tiles.len(), 3);
    assert_eq!(tiles[0].thumb, "/t/a.jpg");
    let s = seasons_of(&tiles);
    assert_eq!(s.iter().map(|x| (x.number, x.first, x.count)).collect::<Vec<_>>(), [(1, 0, 2), (2, 2, 1)]);
    assert!(rows_query("library", "movies", None).contains("IN (SELECT item_id FROM movies)"));
    assert!(rows_query("library", "tv", Some(7)).contains("ep.show_id = 7"));
    assert!(rows_query("trash", "tv", None).contains("vm.deleted_at IS NOT NULL"));
    assert!(shows_cards("tv", false, "library"));
    assert!(!shows_cards("movie", false, "all"));
}

#[test]
fn shows_come_as_cards_with_what_is_next() {
    let scan = vec![Scanned { label: "First".into(), path: "/v/a.mkv".into(), thumb: "/t/a.jpg".into() }];
    let show = |id: i64, cover: Option<&str>, poster: Option<&str>, there: bool| FoundShow {
        id,
        title: format!("Show {id}"),
        count: 3,
        cover: cover.map(str::to_string),
        poster: poster.map(str::to_string),
        there,
    };
    let next = |item_id: i64, resume: Option<f64>, runtime_min: Option<i64>| NextUp {
        item_id,
        show_title: "Show".into(),
        season: 1,
        episode: 12,
        title: Some("Pilot".into()),
        still: None,
        there: false,
        runtime_min,
        resume: resume.map(any),
    };
    let shelf = kick_video_refresh(
        "tv",
        false,
        "library",
        &vec![
            show(1, Some("/v/a.mkv"), Some("/p/1.jpg"), true),
            show(2, Some("/v/a.mkv"), Some("/p/2.jpg"), false),
            show(3, Some("/v/b.mkv"), None, false),
            show(4, None, None, false),
        ],
        &vec![next(9, Some(600.0), Some(20)), next(77, None, None), next(8, Some(5000.0), Some(20))],
        &vec![8, 9],
        &vec!["/v/b.mkv".into(), "/v/a.mkv".into()],
        &vec![],
        &scan,
    );
    let Shelf::Shows(cards, tiles) = shelf else { panic!("a grid") };
    let covers: Vec<&str> = cards.iter().map(|c| c.cover.as_str()).collect();
    assert_eq!(covers, ["/p/1.jpg", "/t/a.jpg", "/v/b.mkv", ""]);
    assert_eq!((cards[0].id, cards[0].title.as_str(), cards[0].count), (1, "Show 1", 3));
    // The episode that is not on the shelf has no tile.
    assert_eq!(tiles.len(), 2);
    assert_eq!(tiles[0].label, "Show · S01E12 — Pilot");
    assert_eq!((tiles[0].index, tiles[0].thumb.as_str(), tiles[0].duration.as_str()), (1, "/t/a.jpg", "20 min"));
    assert_eq!(said(&tiles[0].progress, 2), "0.50");
    assert_eq!((tiles[1].index, tiles[1].thumb.as_str()), (0, ""));
    assert_eq!(said(&tiles[1].progress, 2), "1.00");
}

#[test]
fn a_grid_keeps_where_each_tile_leads() {
    let found = |path: &str, id: i64, season: i64, episode: i64| FoundVideo {
        path: path.into(),
        name: path.rsplit('/').next().map(str::to_string),
        item_id: id,
        starred: 1,
        finished: 0,
        pos: any(30.0),
        dur: Some(any(120.0)),
        duration: "2m".into(),
        season,
        episode,
        poster: None,
        there: false,
    };
    let rows = video_rows_for(
        &vec![found("/v/S1.mkv", 5, 0, 1), found("/v/s2.mkv", 6, 1, 1), found("/v/s3.mkv", 7, 1, 2)],
        "S",
    );
    assert_eq!(rows.len(), 3);
    let scan = vec![Scanned { label: "Two".into(), path: "/v/s2.mkv".into(), thumb: "/t/2.jpg".into() }];
    let shelf = kick_video_refresh("tv", true, "library", &vec![], &vec![], &vec![], &vec![], &rows, &scan);
    let Shelf::Grid(tiles, seasons, paths, ids) = shelf else { panic!("cards") };
    assert_eq!(ids, [5, 6, 7]);
    assert_eq!(paths, ["/v/S1.mkv", "/v/s2.mkv", "/v/s3.mkv"]);
    assert_eq!((tiles[1].label.as_str(), tiles[1].thumb.as_str()), ("Two", "/t/2.jpg"));
    assert_eq!((tiles[2].label.as_str(), tiles[2].thumb.as_str()), ("s3.mkv", "/v/s3.mkv"));
    assert_eq!((tiles[2].index, tiles[2].starred, tiles[2].watched), (2, true, false));
    assert_eq!(said(&tiles[0].progress, 2), "0.25");
    let spans: Vec<_> = seasons.iter().map(|s| (s.number, s.label.as_str(), s.first, s.count)).collect();
    assert_eq!(spans, [(0, "Specials", 0, 1), (1, "Season 1", 1, 2)]);
    // Outside a show the grid is one list.
    let shelf = kick_video_refresh("local", false, "library", &vec![], &vec![], &vec![], &vec![], &rows, &scan);
    assert!(matches!(shelf, Shelf::Grid(_, s, _, _) if s.is_empty()));
}

#[test]
fn a_rail_is_drawn_and_its_posters_fetched() {
    let item = |id: i64, poster_path: Option<&str>, poster: Option<&str>| DiscoverItem {
        tmdb_id: id,
        title: format!("T{id}"),
        year: None,
        vote: Some(any(7.5)),
        release_date: Some("2024-03-09".into()),
        is_movie: true,
        poster_path: poster_path.map(str::to_string),
        poster: poster.map(str::to_string),
    };
    let movies = vec![item(1, Some("/a.jpg"), Some("/c/a.jpg")), item(2, None, None)];
    let shows = vec![item(3, Some("/b.jpg"), None)];
    let r = kick_discover_refresh(&movies, &shows, &vec![], &vec![], true, true);
    assert_eq!(r.movies.len(), 2);
    assert_eq!(r.movies[0].release_date, "Mar 9, 2024");
    assert_eq!((r.movies[0].year, r.movies[0].poster.as_deref()), (0, Some("/c/a.jpg")));
    assert_eq!(said(&r.movies[1].vote, 1), "7.5");
    assert_eq!(r.movies[1].poster, None);
    assert_eq!(r.shows[0].tmdb_id, 3);
    assert!(r.upcoming.is_empty() && r.on_air.is_empty());
    assert_eq!(r.fetch, ["/a.jpg", "/b.jpg"]);
    assert!(kick_discover_refresh(&movies, &shows, &vec![], &vec![], false, true).fetch.is_empty());
    assert!(kick_discover_refresh(&movies, &shows, &vec![], &vec![], true, false).fetch.is_empty());
}

#[test]
fn the_tuner_loads_what_was_picked() {
    let mut t = Tuner::new();
    let d = t.wire(Wish::Enter(vec!["a".into(), "b".into()]));
    assert!(matches!(&d[..], [Deed::CountPicked(2), Deed::Fetch(1, urls)] if urls.len() == 2));
    // A later load overtakes an earlier one.
    let d = t.wire(Wish::Refresh);
    assert!(matches!(&d[..], [Deed::DropCache, Deed::Fetch(2, _), Deed::Say(words)] if words == "Fetching 2 playlists…"));
    assert!(t.wire(Wish::Loaded(1, vec![channel("old", "", "o", 0)])).is_empty());
    assert!(t.channels.is_empty());
    let d = t.wire(Wish::Loaded(2, vec![channel("One", "News", "u1", 0), channel("Two", "", "u2", 0)]));
    assert!(matches!(&d[..], [Deed::Total(2), Deed::Say(words), Deed::PaintGroups, Deed::PaintChannels]
        if words == "2 channels"));
    // What is picked is not read again, and what is loaded is not fetched again.
    let d = t.wire(Wish::Enter(vec!["c".into()]));
    assert!(matches!(&d[..], [Deed::CountPicked(2)]));

    t.wire(Wish::SetPage(5));
    assert_eq!(t.page, 5);
    let page = t.paint();
    assert_eq!((page.page, t.page, page.matched), (0, 0, 2));
    t.wire(Wish::SetPage(3));
    t.wire(Wish::Search("two".into()));
    assert_eq!((t.page, t.paint().rows[0].index), (0, 1));
    t.wire(Wish::SetPage(-4));
    assert_eq!(t.page, 0);
    t.wire(Wish::SetGroup("News".into()));
    t.wire(Wish::SetSort("name".into(), false));
    assert_eq!((t.group.as_str(), t.sort.as_str(), t.asc), ("News", "name", false));
}

#[test]
fn a_switch_of_channels_keeps_the_new_one() {
    let mut t = Tuner::new();
    t.wire(Wish::Enter(vec!["a".into()]));
    t.wire(Wish::Loaded(1, vec![channel("One", "", "u1", 0), channel("Two", "", "u2", 0)]));
    assert!(t.wire(Wish::Play(9)).is_empty());
    let d = t.wire(Wish::Play(-1));
    assert!(matches!(&d[..], [Deed::Say(words), Deed::ShowNow, Deed::Start(1, url, name)]
        if words == "Opening One in mpv…" && url == "u1" && name == "One"));
    t.wire(Wish::Play(1));
    assert!(t.wire(Wish::Ended(1)).is_empty(), "the player before ends after the new one began");
    assert_eq!(t.now.as_ref().map(|n| n.0), Some(1));
    assert!(matches!(&t.wire(Wish::Logos)[..], [Deed::PaintChannels, Deed::ShowNow]));
    // The channel is found again where it has moved, and plays on where it is gone.
    t.wire(Wish::Refresh);
    let d = t.wire(Wish::Loaded(2, vec![channel("Two", "", "u2", 0)]));
    assert!(matches!(d.last(), Some(Deed::ShowNow)));
    assert_eq!(t.now.as_ref().map(|n| n.0), Some(0));
    t.wire(Wish::Refresh);
    let d = t.wire(Wish::Loaded(3, vec![]));
    assert!(matches!(d.last(), Some(Deed::NoCard)));
    assert!(t.now.is_some());
    assert!(matches!(&t.wire(Wish::Ended(2))[..], [Deed::ClearNow]));
    assert!(t.now.is_none());
    assert!(matches!(&t.wire(Wish::Logos)[..], [Deed::PaintChannels]));
}

#[test]
fn picks_are_counted_kept_and_loaded() {
    let mut t = Tuner::new();
    assert!(matches!(&t.wire(Wish::Toggle("a".into()))[..], [Deed::CountPicked(1), Deed::PaintPlaylists]));
    assert!(matches!(&t.wire(Wish::Picker)[..], [Deed::PaintPlaylists]));
    assert!(matches!(&t.wire(Wish::SavePicks)[..], [Deed::Keep(p)] if p.len() == 1 && p[0] == "a"));
    assert!(matches!(&t.wire(Wish::Saved(Err("full".into())))[..], [Deed::Say(w)] if w == "full"));
    let d = t.wire(Wish::Saved(Ok(vec!["x".into()])));
    assert!(matches!(&d[..], [Deed::CountPicked(1), Deed::Fetch(1, u), Deed::Say(_)] if u[0] == "x"));
    assert!(matches!(&t.wire(Wish::ClearPicks)[..], [Deed::CountPicked(0), Deed::PaintPlaylists]));
    assert!(matches!(&t.wire(Wish::Refresh)[..], [Deed::DropCache, Deed::Blank]));
}
