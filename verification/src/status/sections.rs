//! What each section of the suite reports on its card.

use vstd::prelude::*;
use crate::status::card::{card, explained, grp, kpi, plain, row, rows_view, BlockView, CardView, Row, RowView, Sec};
use crate::status::figures::{
    bytes, bytes_text, clock, clock_text, missing_text, missing_why, num, num_text, opt_string, or_dash, text_or_dash, OK, PROBLEM,
};
use crate::text::{count_of, dec_int, divide, followed, trunc_div};

verus! {

/// The tint of a missing-files row.
pub open spec fn missing_cls(missing: int) -> Seq<char> {
    if missing > 0 { "rd"@ } else { "g"@ }
}

/// The level of a section that misses files.
pub open spec fn missing_level(missing: int) -> Seq<char> {
    if missing > 0 { PROBLEM@ } else { OK@ }
}

/// The status line of a section that misses files.
pub open spec fn missing_status(missing: int) -> Seq<char> {
    if missing > 0 { dec_int(missing) + " missing"@ } else { "Operational"@ }
}

/// The mean size of `n` files of `size` bytes together.
pub open spec fn average_text(size: int, n: int) -> Seq<char> {
    if n > 0 { bytes_text(trunc_div(size, n)) } else { "—"@ }
}

fn level_of_missing(missing: i64) -> (r: &'static str)
    ensures
        r@ == missing_level(missing as int),
{
    if missing > 0 { PROBLEM } else { OK }
}

fn cls_of_missing(missing: i64) -> (r: &'static str)
    ensures
        r@ == missing_cls(missing as int),
{
    if missing > 0 { "rd" } else { "g" }
}

fn status_of_missing(missing: i64) -> (r: String)
    ensures
        r@ == missing_status(missing as int),
{
    if missing > 0 { count_of(missing, " missing") } else { "Operational".to_owned() }
}

fn average(size: i64, n: i64) -> (r: String)
    ensures
        r@ == average_text(size as int, n as int),
{
    if n > 0 { bytes(divide(size, n)) } else { "—".to_owned() }
}

/// What the photo library answers.
#[derive(Clone, Copy, Debug)]
pub struct PhotoFacts {
    pub items: i64,
    pub size: i64,
    pub albums: i64,
    pub missing: i64,
    pub added_week: i64,
    pub added_today: i64,
    pub newest: i64,
}

/// The photo card, for a reader `offset` seconds east of UTC.
pub open spec fn photos_view(f: PhotoFacts, offset: int) -> CardView {
    let miss = ("Missing files"@, num_text(f.missing as int), missing_cls(f.missing as int));
    explained(
        plain(
            "photos"@,
            "Photos"@,
            "violet"@,
            missing_level(f.missing as int),
            missing_status(f.missing as int),
            seq![
                ("Items"@, num_text(f.items as int), ""@),
                ("Albums"@, num_text(f.albums as int), ""@),
                ("Size"@, bytes_text(f.size as int), ""@),
                ("Added this week"@, num_text(f.added_week as int), ""@),
                miss,
            ],
            seq![
                (num_text(f.items as int), "Items"@),
                (bytes_text(f.size as int), "On disk"@),
                (num_text(f.albums as int), "Albums"@),
            ],
            seq![
                BlockView::Rows("Library"@, seq![
                    ("Live items"@, num_text(f.items as int), ""@),
                    miss,
                    ("Albums"@, num_text(f.albums as int), ""@),
                    ("Newest import"@, clock_text(f.newest as int, offset), "mut"@),
                ]),
                BlockView::Rows("Recent"@, seq![
                    ("Added today"@, num_text(f.added_today as int), ""@),
                    ("Added this week"@, num_text(f.added_week as int), ""@),
                    ("Average size"@, average_text(f.size as int, f.items as int), "mut"@),
                ]),
            ],
        ),
        missing_text("photo"@, f.missing as int),
    )
}

/// The photo section's report.
pub fn photos_card(f: &PhotoFacts, offset: i64) -> (r: Sec)
    requires
        i64::MIN <= f.newest + offset <= i64::MAX,
    ensures
        r.card@ == photos_view(*f, offset as int),
        r.running == 0,
        r.failed == 0,
        r.today == f.added_today,
        r.events@.len() == 0,
{
    let cls = cls_of_missing(f.missing);
    let status = status_of_missing(f.missing);
    let c = card(
        "photos",
        "Photos",
        "violet",
        level_of_missing(f.missing),
        status.as_str(),
        vec![
            row("Items", num(f.items), ""),
            row("Albums", num(f.albums), ""),
            row("Size", bytes(f.size), ""),
            row("Added this week", num(f.added_week), ""),
            row("Missing files", num(f.missing), cls),
        ],
        vec![kpi(num(f.items), "Items"), kpi(bytes(f.size), "On disk"), kpi(num(f.albums), "Albums")],
        vec![
            grp("Library", vec![
                row("Live items", num(f.items), ""),
                row("Missing files", num(f.missing), cls),
                row("Albums", num(f.albums), ""),
                row("Newest import", clock(f.newest, offset), "mut"),
            ]),
            grp("Recent", vec![
                row("Added today", num(f.added_today), ""),
                row("Added this week", num(f.added_week), ""),
                row("Average size", average(f.size, f.items), "mut"),
            ]),
        ],
    );
    let mut s = Sec::new(c).why(missing_why("photo", f.missing));
    s.today = f.added_today;
    assert(s.card@ =~~= photos_view(*f, offset as int));
    s
}

/// What the video library answers.
#[derive(Clone, Copy, Debug)]
pub struct VideoFacts {
    pub items: i64,
    pub size: i64,
    pub shows: i64,
    pub missing: i64,
    pub added_week: i64,
}

/// The video card.
pub open spec fn videos_view(f: VideoFacts) -> CardView {
    let miss = ("Missing files"@, num_text(f.missing as int), missing_cls(f.missing as int));
    let week = ("Added this week"@, num_text(f.added_week as int), ""@);
    explained(
        plain(
            "videos"@,
            "Videos"@,
            "indigo"@,
            missing_level(f.missing as int),
            missing_status(f.missing as int),
            seq![
                ("Items"@, num_text(f.items as int), ""@),
                ("Shows"@, num_text(f.shows as int), ""@),
                ("Size"@, bytes_text(f.size as int), ""@),
                week,
                miss,
            ],
            seq![
                (num_text(f.items as int), "Items"@),
                (bytes_text(f.size as int), "On disk"@),
                (num_text(f.shows as int), "Shows"@),
            ],
            seq![
                BlockView::Rows("Library"@, seq![
                    ("Live items"@, num_text(f.items as int), ""@),
                    ("Shows"@, num_text(f.shows as int), ""@),
                    miss,
                    week,
                    ("Average size"@, average_text(f.size as int, f.items as int), "mut"@),
                ]),
            ],
        ),
        missing_text("video"@, f.missing as int),
    )
}

/// The video section's report.
pub fn videos_card(f: &VideoFacts) -> (r: Sec)
    ensures
        r.card@ == videos_view(*f),
        r.running == 0,
        r.failed == 0,
        r.today == 0,
        r.events@.len() == 0,
{
    let cls = cls_of_missing(f.missing);
    let status = status_of_missing(f.missing);
    let c = card(
        "videos",
        "Videos",
        "indigo",
        level_of_missing(f.missing),
        status.as_str(),
        vec![
            row("Items", num(f.items), ""),
            row("Shows", num(f.shows), ""),
            row("Size", bytes(f.size), ""),
            row("Added this week", num(f.added_week), ""),
            row("Missing files", num(f.missing), cls),
        ],
        vec![kpi(num(f.items), "Items"), kpi(bytes(f.size), "On disk"), kpi(num(f.shows), "Shows")],
        vec![
            grp("Library", vec![
                row("Live items", num(f.items), ""),
                row("Shows", num(f.shows), ""),
                row("Missing files", num(f.missing), cls),
                row("Added this week", num(f.added_week), ""),
                row("Average size", average(f.size, f.items), "mut"),
            ]),
        ],
    );
    let s = Sec::new(c).why(missing_why("video", f.missing));
    assert(s.card@ =~~= videos_view(*f));
    s
}

/// What the music library and the listening statistics answer; the listening
/// times come as they read.
#[derive(Debug)]
pub struct MusicFacts {
    pub size: i64,
    pub songs: i64,
    pub audiobooks: i64,
    pub artists: i64,
    pub albums: i64,
    pub missing: i64,
    pub added_week: i64,
    pub plays_today: i64,
    pub streak_days: i64,
    pub week_listen: String,
    pub total_listen: String,
    pub top_genre: Option<String>,
}

/// The music card.
pub open spec fn music_view(f: MusicFacts) -> CardView {
    let miss = ("Missing files"@, num_text(f.missing as int), missing_cls(f.missing as int));
    let streak = dec_int(f.streak_days as int) + " days"@;
    explained(
        plain(
            "music"@,
            "Music"@,
            "pink"@,
            missing_level(f.missing as int),
            missing_status(f.missing as int),
            seq![
                ("Tracks"@, num_text(f.songs as int), ""@),
                ("Audiobooks"@, num_text(f.audiobooks as int), ""@),
                ("This week"@, f.week_listen@, "g"@),
                ("Streak"@, streak, ""@),
                miss,
            ],
            seq![
                (num_text(f.songs as int), "Tracks"@),
                (f.week_listen@, "Played this week"@),
                (num_text(f.streak_days as int), "Day streak"@),
            ],
            seq![
                BlockView::Rows("Library"@, seq![
                    ("Albums"@, num_text(f.albums as int), ""@),
                    ("Artists"@, num_text(f.artists as int), ""@),
                    ("Audiobooks"@, num_text(f.audiobooks as int) + " folders"@, ""@),
                    ("On disk"@, bytes_text(f.size as int), ""@),
                    miss,
                    ("Added this week"@, num_text(f.added_week as int), ""@),
                ]),
                BlockView::Rows("Listening"@, seq![
                    ("This week"@, f.week_listen@, ""@),
                    ("All time"@, f.total_listen@, ""@),
                    ("Plays today"@, num_text(f.plays_today as int), ""@),
                    ("Day streak"@, streak, ""@),
                    ("Top genre"@, or_dash(opt_string(f.top_genre)), "mut"@),
                ]),
            ],
        ),
        missing_text("music"@, f.missing as int),
    )
}

/// The music section's report.
pub fn music_card(f: &MusicFacts) -> (r: Sec)
    ensures
        r.card@ == music_view(*f),
        r.running == 0,
        r.failed == 0,
        r.today == f.plays_today,
        r.events@.len() == 0,
{
    let cls = cls_of_missing(f.missing);
    let status = status_of_missing(f.missing);
    let c = card(
        "music",
        "Music",
        "pink",
        level_of_missing(f.missing),
        status.as_str(),
        vec![
            row("Tracks", num(f.songs), ""),
            row("Audiobooks", num(f.audiobooks), ""),
            row("This week", f.week_listen.clone(), "g"),
            row("Streak", count_of(f.streak_days, " days"), ""),
            row("Missing files", num(f.missing), cls),
        ],
        vec![
            kpi(num(f.songs), "Tracks"),
            kpi(f.week_listen.clone(), "Played this week"),
            kpi(num(f.streak_days), "Day streak"),
        ],
        vec![
            grp("Library", vec![
                row("Albums", num(f.albums), ""),
                row("Artists", num(f.artists), ""),
                row("Audiobooks", followed(num(f.audiobooks), " folders"), ""),
                row("On disk", bytes(f.size), ""),
                row("Missing files", num(f.missing), cls),
                row("Added this week", num(f.added_week), ""),
            ]),
            grp("Listening", vec![
                row("This week", f.week_listen.clone(), ""),
                row("All time", f.total_listen.clone(), ""),
                row("Plays today", num(f.plays_today), ""),
                row("Day streak", count_of(f.streak_days, " days"), ""),
                row("Top genre", text_or_dash(&f.top_genre), "mut"),
            ]),
        ],
    );
    let mut s = Sec::new(c).why(missing_why("music", f.missing));
    s.today = f.plays_today;
    assert(s.card@ =~~= music_view(*f));
    s
}

/// What the book library answers; `formats` is the mix of formats, biggest first.
#[derive(Debug)]
pub struct BookFacts {
    pub books: i64,
    pub size: i64,
    pub missing: i64,
    pub finished: i64,
    pub reading: i64,
    pub favorites: i64,
    pub formats: Vec<(String, i64)>,
}

/// One row for each format and its count.
pub open spec fn format_rows(formats: Seq<(String, i64)>) -> Seq<RowView> {
    Seq::new(formats.len(), |i: int| (formats[i].0@, num_text(formats[i].1 as int), ""@))
}

fn rows_of_formats(formats: &Vec<(String, i64)>) -> (r: Vec<Row>)
    ensures
        rows_view(r@) == format_rows(formats@),
{
    let mut out: Vec<Row> = Vec::new();
    let mut i: usize = 0;
    while i < formats.len()
        invariant
            i <= formats@.len(),
            out@.len() == i,
            forall|j: int| 0 <= j < i ==> (#[trigger] out@[j])@ == format_rows(formats@)[j],
        decreases formats@.len() - i,
    {
        out.push(row(formats[i].0.as_str(), num(formats[i].1), ""));
        i = i + 1;
    }
    assert(rows_view(out@) =~= format_rows(formats@));
    out
}

/// The book card.
pub open spec fn books_view(f: BookFacts) -> CardView {
    let miss = ("Missing files"@, num_text(f.missing as int), missing_cls(f.missing as int));
    explained(
        plain(
            "books"@,
            "Books"@,
            "emerald"@,
            missing_level(f.missing as int),
            missing_status(f.missing as int),
            seq![
                ("Library"@, num_text(f.books as int), ""@),
                ("In progress"@, num_text(f.reading as int), "g"@),
                ("Finished"@, num_text(f.finished as int), ""@),
                ("Size"@, bytes_text(f.size as int), ""@),
                miss,
            ],
            seq![
                (num_text(f.books as int), "Library"@),
                (num_text(f.reading as int), "In progress"@),
                (num_text(f.finished as int), "Finished"@),
            ],
            seq![
                BlockView::Rows("Library"@, seq![
                    ("On disk"@, bytes_text(f.size as int), ""@),
                    ("Favorites"@, num_text(f.favorites as int), ""@),
                    miss,
                    ("Average size"@, average_text(f.size as int, f.books as int), "mut"@),
                ]),
                BlockView::Rows("Formats"@, format_rows(f.formats@)),
            ],
        ),
        missing_text("book"@, f.missing as int),
    )
}

/// The book section's report.
pub fn books_card(f: &BookFacts) -> (r: Sec)
    ensures
        r.card@ == books_view(*f),
        r.running == 0,
        r.failed == 0,
        r.today == 0,
        r.events@.len() == 0,
{
    let cls = cls_of_missing(f.missing);
    let status = status_of_missing(f.missing);
    let c = card(
        "books",
        "Books",
        "emerald",
        level_of_missing(f.missing),
        status.as_str(),
        vec![
            row("Library", num(f.books), ""),
            row("In progress", num(f.reading), "g"),
            row("Finished", num(f.finished), ""),
            row("Size", bytes(f.size), ""),
            row("Missing files", num(f.missing), cls),
        ],
        vec![kpi(num(f.books), "Library"), kpi(num(f.reading), "In progress"), kpi(num(f.finished), "Finished")],
        vec![
            grp("Library", vec![
                row("On disk", bytes(f.size), ""),
                row("Favorites", num(f.favorites), ""),
                row("Missing files", num(f.missing), cls),
                row("Average size", average(f.size, f.books), "mut"),
            ]),
            grp("Formats", rows_of_formats(&f.formats)),
        ],
    );
    let s = Sec::new(c).why(missing_why("book", f.missing));
    assert(s.card@ =~~= books_view(*f));
    s
}

/// The photo section is in trouble exactly where files that it indexed are missing, and says
/// how many; its card says that there are no such files, or what to do about them.
pub proof fn law_missing_photo_files_are_the_trouble(f: PhotoFacts, offset: int)
    ensures
        (photos_view(f, offset).level == "problem"@) == (f.missing > 0),
        (photos_view(f, offset).level == "ok"@) == (f.missing <= 0),
        f.missing > 0 ==> photos_view(f, offset).status == dec_int(f.missing as int) + " missing"@,
        f.missing <= 0 ==> photos_view(f, offset).status == "Operational"@,
        f.missing == 0 ==> photos_view(f, offset).why is None,
        f.missing == 1 ==> photos_view(f, offset).why == Some("1 "@ + "photo"@ + " file is indexed but no longer on disk — rescan to clear it"@),
        f.missing > 1 ==> photos_view(f, offset).why == Some(
            num_text(f.missing as int) + " "@ + "photo"@ + " files are indexed but no longer on disk — rescan to clear them"@,
        ),
{
    reveal_strlit("problem");
    reveal_strlit("ok");
    assert("problem"@.len() == 7 && "ok"@.len() == 2);
    reveal_strlit("1 ");
    reveal_strlit(" ");
    assert("1 "@.len() == 2 && " "@.len() == 1);
}

/// The video section is in trouble exactly where files that it indexed are missing, and says
/// how many; its card says that there are no such files, or what to do about them.
pub proof fn law_missing_video_files_are_the_trouble(f: VideoFacts)
    ensures
        (videos_view(f).level == "problem"@) == (f.missing > 0),
        (videos_view(f).level == "ok"@) == (f.missing <= 0),
        f.missing > 0 ==> videos_view(f).status == dec_int(f.missing as int) + " missing"@,
        f.missing <= 0 ==> videos_view(f).status == "Operational"@,
        f.missing == 0 ==> videos_view(f).why is None,
        f.missing == 1 ==> videos_view(f).why == Some("1 "@ + "video"@ + " file is indexed but no longer on disk — rescan to clear it"@),
        f.missing > 1 ==> videos_view(f).why == Some(
            num_text(f.missing as int) + " "@ + "video"@ + " files are indexed but no longer on disk — rescan to clear them"@,
        ),
{
    reveal_strlit("problem");
    reveal_strlit("ok");
    assert("problem"@.len() == 7 && "ok"@.len() == 2);
    reveal_strlit("1 ");
    reveal_strlit(" ");
    assert("1 "@.len() == 2 && " "@.len() == 1);
}

/// The music section is in trouble exactly where files that it indexed are missing, and says
/// how many; its card says that there are no such files, or what to do about them.
pub proof fn law_missing_music_files_are_the_trouble(f: MusicFacts)
    ensures
        (music_view(f).level == "problem"@) == (f.missing > 0),
        (music_view(f).level == "ok"@) == (f.missing <= 0),
        f.missing > 0 ==> music_view(f).status == dec_int(f.missing as int) + " missing"@,
        f.missing <= 0 ==> music_view(f).status == "Operational"@,
        f.missing == 0 ==> music_view(f).why is None,
        f.missing == 1 ==> music_view(f).why == Some("1 "@ + "music"@ + " file is indexed but no longer on disk — rescan to clear it"@),
        f.missing > 1 ==> music_view(f).why == Some(
            num_text(f.missing as int) + " "@ + "music"@ + " files are indexed but no longer on disk — rescan to clear them"@,
        ),
{
    reveal_strlit("problem");
    reveal_strlit("ok");
    assert("problem"@.len() == 7 && "ok"@.len() == 2);
    reveal_strlit("1 ");
    reveal_strlit(" ");
    assert("1 "@.len() == 2 && " "@.len() == 1);
}

/// The book section is in trouble exactly where files that it indexed are missing, and says
/// how many; its card says that there are no such files, or what to do about them.
pub proof fn law_missing_book_files_are_the_trouble(f: BookFacts)
    ensures
        (books_view(f).level == "problem"@) == (f.missing > 0),
        (books_view(f).level == "ok"@) == (f.missing <= 0),
        f.missing > 0 ==> books_view(f).status == dec_int(f.missing as int) + " missing"@,
        f.missing <= 0 ==> books_view(f).status == "Operational"@,
        f.missing == 0 ==> books_view(f).why is None,
        f.missing == 1 ==> books_view(f).why == Some("1 "@ + "book"@ + " file is indexed but no longer on disk — rescan to clear it"@),
        f.missing > 1 ==> books_view(f).why == Some(
            num_text(f.missing as int) + " "@ + "book"@ + " files are indexed but no longer on disk — rescan to clear them"@,
        ),
{
    reveal_strlit("problem");
    reveal_strlit("ok");
    assert("problem"@.len() == 7 && "ok"@.len() == 2);
    reveal_strlit("1 ");
    reveal_strlit(" ");
    assert("1 "@.len() == 2 && " "@.len() == 1);
}

/// The mean size of some files is what they take together, shared out among them, rounded
/// toward zero.
pub proof fn law_the_mean_size_is_shared_out(size: int, n: int)
    requires
        n > 0,
    ensures
        average_text(size, n) == bytes_text(trunc_div(size, n)),
        size >= 0 ==> trunc_div(size, n) * n <= size < (trunc_div(size, n) + 1) * n,
{
    crate::text::law_division_rounds_toward_zero(size, n);
}

/// The photo card shows its counts, and reads the files that it misses in red.
pub proof fn law_the_photo_card_shows_its_counts(f: PhotoFacts, offset: int)
    ensures
        ({
            let c = photos_view(f, offset);
            &&& c.rows.len() == 5 && c.rows[0].0 == "Items"@ && c.rows[0].1 == num_text(f.items as int) && c.rows[1].0 == "Albums"@ && c.rows[1].1 == num_text(f.albums as int) && c.rows[2].0 == "Size"@ && c.rows[2].1 == bytes_text(f.size as int) && c.rows[3].0 == "Added this week"@ && c.rows[3].1 == num_text(f.added_week as int) && c.rows[4].0 == "Missing files"@ && c.rows[4].1 == num_text(f.missing as int)
            &&& c.rows[4].2 == (if f.missing > 0 { "rd"@ } else { "g"@ })
        }),
{
}

/// The video card shows its counts, and reads the files that it misses in red.
pub proof fn law_the_video_card_shows_its_counts(f: VideoFacts)
    ensures
        ({
            let c = videos_view(f);
            &&& c.rows.len() == 5 && c.rows[0].0 == "Items"@ && c.rows[0].1 == num_text(f.items as int) && c.rows[1].0 == "Shows"@ && c.rows[1].1 == num_text(f.shows as int) && c.rows[2].0 == "Size"@ && c.rows[2].1 == bytes_text(f.size as int) && c.rows[3].0 == "Added this week"@ && c.rows[3].1 == num_text(f.added_week as int) && c.rows[4].0 == "Missing files"@ && c.rows[4].1 == num_text(f.missing as int)
            &&& c.rows[4].2 == (if f.missing > 0 { "rd"@ } else { "g"@ })
        }),
{
}

/// The music card shows its counts, and reads the files that it misses in red.
pub proof fn law_the_music_card_shows_its_counts(f: MusicFacts)
    ensures
        ({
            let c = music_view(f);
            &&& c.rows.len() == 5 && c.rows[0].0 == "Tracks"@ && c.rows[0].1 == num_text(f.songs as int) && c.rows[1].0 == "Audiobooks"@ && c.rows[1].1 == num_text(f.audiobooks as int) && c.rows[2].0 == "This week"@ && c.rows[2].1 == f.week_listen@ && c.rows[3].0 == "Streak"@ && c.rows[3].1 == dec_int(f.streak_days as int) + " days"@ && c.rows[4].0 == "Missing files"@ && c.rows[4].1 == num_text(f.missing as int)
            &&& c.rows[4].2 == (if f.missing > 0 { "rd"@ } else { "g"@ })
        }),
{
}

/// The book card shows its counts, and reads the files that it misses in red.
pub proof fn law_the_book_card_shows_its_counts(f: BookFacts)
    ensures
        ({
            let c = books_view(f);
            &&& c.rows.len() == 5 && c.rows[0].0 == "Library"@ && c.rows[0].1 == num_text(f.books as int) && c.rows[1].0 == "In progress"@ && c.rows[1].1 == num_text(f.reading as int) && c.rows[2].0 == "Finished"@ && c.rows[2].1 == num_text(f.finished as int) && c.rows[3].0 == "Size"@ && c.rows[3].1 == bytes_text(f.size as int) && c.rows[4].0 == "Missing files"@ && c.rows[4].1 == num_text(f.missing as int)
            &&& c.rows[4].2 == (if f.missing > 0 { "rd"@ } else { "g"@ })
        }),
{
}

} // verus!
