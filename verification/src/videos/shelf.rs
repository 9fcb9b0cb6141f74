//! The grid of video files: which rows a tab shows, what each tile says, how
//! episodes fall into seasons, and the cards of shows and of what is new.

use vstd::prelude::*;
use crate::order::{lemma_rising_push, rising};
use crate::double::{below, of_int, of_nat, product, quotient, Double, Number};
use crate::find::{contains, has};
use crate::outside::{lowercase, to_lowercase};
use crate::single::{held_single, hold_single, number_to_single, single_number};
use crate::status::figures::opt_string;
use crate::text::{dec_int, dec_two, push_dec_int, push_dec_two, same};
use crate::videos::names::{date_text, fmt_release_date, parts_cleanly};

verus! {

/// Which rows a tab shows.
pub open spec fn tab_filter(category: Seq<char>) -> Seq<char> {
    if category == "continue"@ {
        "vm.deleted_at IS NULL AND vm.archived = 0 AND vm.last_accessed IS NOT NULL AND COALESCE(wp.finished,0) = 0 AND COALESCE(wp.position_s,0) > 0"@
    } else if category == "starred"@ {
        "vm.deleted_at IS NULL AND vm.starred = 1"@
    } else if category == "archive"@ {
        "vm.deleted_at IS NULL AND vm.archived = 1"@
    } else if category == "trash"@ {
        "vm.deleted_at IS NOT NULL"@
    } else {
        "vm.deleted_at IS NULL AND vm.archived = 0"@
    }
}

/// In which order a tab shows its rows; television goes by season and episode.
pub open spec fn tab_order(category: Seq<char>, kind: Seq<char>) -> Seq<char> {
    if kind == "tv"@ {
        "ep.season, ep.episode"@
    } else if category == "continue"@ {
        "vm.last_accessed DESC"@
    } else if category == "trash"@ {
        "vm.deleted_at DESC"@
    } else {
        "i.added DESC, i.id DESC"@
    }
}

/// How the kind of videos narrows a tab.
pub open spec fn kind_clause(kind: Seq<char>, show: Option<i64>) -> Seq<char> {
    if kind == "movies"@ {
        " AND vm.item_id IN (SELECT item_id FROM movies)"@
    } else if kind == "tv"@ {
        match show {
            Some(id) => " AND ep.show_id = "@ + dec_int(id as int),
            None => " AND ep.item_id IS NOT NULL"@,
        }
    } else {
        Seq::empty()
    }
}

/// What every tab asks for.
pub const ROWS_SELECT: &'static str = "SELECT i.abs_path, vm.item_id, vm.starred, COALESCE(wp.finished,0) AS finished, COALESCE(wp.position_s, 0.0) AS pos, COALESCE(wp.duration_s, vm.duration_s) AS dur, COALESCE(ep.season, 0) AS season, COALESCE(ep.episode, 0) AS episode, mv.poster_local AS poster_local FROM video_meta vm JOIN items i ON i.id = vm.item_id LEFT JOIN watch_progress wp ON wp.item_id = vm.item_id LEFT JOIN episodes ep ON ep.item_id = vm.item_id LEFT JOIN movies mv ON mv.item_id = vm.item_id WHERE ";

/// The question that a tab puts to the library; `show` is the show that is open.
pub fn rows_query(category: &str, kind: &str, show: Option<i64>) -> (r: String)
    ensures
        r@ == ROWS_SELECT@ + tab_filter(category@) + kind_clause(kind@, show) + " ORDER BY "@ + tab_order(
            category@,
            kind@,
        ),
{
    let filter = if same(category, "continue") {
        "vm.deleted_at IS NULL AND vm.archived = 0 AND vm.last_accessed IS NOT NULL AND COALESCE(wp.finished,0) = 0 AND COALESCE(wp.position_s,0) > 0"
    } else if same(category, "starred") {
        "vm.deleted_at IS NULL AND vm.starred = 1"
    } else if same(category, "archive") {
        "vm.deleted_at IS NULL AND vm.archived = 1"
    } else if same(category, "trash") {
        "vm.deleted_at IS NOT NULL"
    } else {
        "vm.deleted_at IS NULL AND vm.archived = 0"
    };
    let tv = same(kind, "tv");
    let mut clause = String::new();
    assert(clause@ =~= Seq::<char>::empty());
    if same(kind, "movies") {
        clause = " AND vm.item_id IN (SELECT item_id FROM movies)".to_owned();
    } else if tv {
        match show {
            Some(id) => {
                clause = " AND ep.show_id = ".to_owned();
                push_dec_int(&mut clause, id);
            },
            None => {
                clause = " AND ep.item_id IS NOT NULL".to_owned();
            },
        }
    }
    let order = if tv {
        "ep.season, ep.episode"
    } else if same(category, "continue") {
        "vm.last_accessed DESC"
    } else if same(category, "trash") {
        "vm.deleted_at DESC"
    } else {
        "i.added DESC, i.id DESC"
    };
    let mut s = ROWS_SELECT.to_owned();
    s.append(filter);
    s.append(clause.as_str());
    s.append(" ORDER BY ");
    s.append(order);
    s
}

/// A row as the library answers. `name` is the last component of the path,
/// `duration` what the length reads, `there` says that the poster's file exists.
#[derive(Debug)]
pub struct FoundVideo {
    pub path: String,
    pub name: Option<String>,
    pub item_id: i64,
    pub starred: i64,
    pub finished: i64,
    pub pos: Number,
    pub dur: Option<Number>,
    pub duration: String,
    pub season: i64,
    pub episode: i64,
    pub poster: Option<String>,
    pub there: bool,
}

impl FoundVideo {
    /// Position and length are doubles of sixty-four bits.
    pub open spec fn wf(&self) -> bool {
        &&& self.pos.wf()
        &&& self.dur matches Some(d) ==> d.wf()
    }
}

/// Zero.
pub open spec fn none() -> Double {
    Double { neg: false, m: 0, e: 0 }
}

/// How much of a length a position is, between none and all, in single precision. None
/// of what has no length; not a number where the position is none, or both are infinite.
pub open spec fn part_watched(pos: Number, dur: Number) -> Number {
    match (pos, dur) {
        (_, Number::Nan) | (_, Number::Infinite(true)) => Number::Finite(none()),
        (Number::Finite(p), Number::Finite(d)) => if d.neg || d.m == 0 || p.neg || p.m == 0 {
            Number::Finite(none())
        } else {
            let q = quotient(p, d);
            held_single(if below(of_nat(1), q) { of_nat(1) } else { q })
        },
        (_, Number::Finite(d)) => if d.neg || d.m == 0 {
            Number::Finite(none())
        } else {
            match pos {
                Number::Infinite(neg) => if neg { Number::Finite(none()) } else { held_single(of_nat(1)) },
                _ => Number::Nan,
            }
        },
        (_, Number::Infinite(false)) => if pos is Finite { Number::Finite(none()) } else { Number::Nan },
    }
}

/// See [`part_watched`].
pub fn watched_part(pos: &Number, dur: &Number) -> (r: Number)
    requires
        pos.wf(),
        dur.wf(),
    ensures
        r == part_watched(*pos, *dur),
{
    match dur {
        Number::Nan => Number::Finite(Double::zero()),
        Number::Infinite(neg) => if *neg {
            Number::Finite(Double::zero())
        } else {
            match pos {
                Number::Finite(_) => Number::Finite(Double::zero()),
                _ => Number::Nan,
            }
        },
        Number::Finite(d) => {
            if d.neg || d.m == 0 {
                return Number::Finite(Double::zero());
            }
            let one = Double::from_u64(1);
            match pos {
                Number::Nan => Number::Nan,
                Number::Infinite(neg) => if *neg { Number::Finite(Double::zero()) } else { hold_single(&one) },
                Number::Finite(p) => {
                    if p.neg || p.m == 0 {
                        return Number::Finite(Double::zero());
                    }
                    let q = p.div(d);
                    if one.is_below(&q) {
                        hold_single(&one)
                    } else {
                        hold_single(&q)
                    }
                },
            }
        },
    }
}

/// One video of a tab.
#[derive(Debug)]
pub struct VideoRow {
    pub abs_path: String,
    pub file_name: String,
    pub item_id: i64,
    pub starred: bool,
    pub watched: bool,
    pub progress: Number,
    pub duration: String,
    pub season: i64,
    pub episode: i64,
    /// The poster, where its file exists.
    pub poster_local: Option<String>,
}

/// What a video of a tab holds.
#[verifier::ext_equal]
pub struct VideoRowView {
    pub abs_path: Seq<char>,
    pub file_name: Seq<char>,
    pub item_id: int,
    pub starred: bool,
    pub watched: bool,
    pub progress: Number,
    pub duration: Seq<char>,
    pub season: int,
    pub episode: int,
    pub poster_local: Option<Seq<char>>,
}

impl View for VideoRow {
    type V = VideoRowView;

    open spec fn view(&self) -> VideoRowView {
        VideoRowView {
            abs_path: self.abs_path@,
            file_name: self.file_name@,
            item_id: self.item_id as int,
            starred: self.starred,
            watched: self.watched,
            progress: self.progress,
            duration: self.duration@,
            season: self.season as int,
            episode: self.episode as int,
            poster_local: opt_string(self.poster_local),
        }
    }
}

/// The videos as they are.
pub open spec fn rows_view(v: Seq<VideoRow>) -> Seq<VideoRowView> {
    Seq::new(v.len(), |i: int| v[i]@)
}

/// What a tab holds of a row.
pub open spec fn row_view(f: FoundVideo) -> VideoRowView {
    VideoRowView {
        abs_path: f.path@,
        file_name: match f.name {
            Some(n) => n@,
            None => Seq::empty(),
        },
        item_id: f.item_id as int,
        starred: f.starred != 0,
        watched: f.finished != 0,
        progress: match f.dur {
            Some(d) => part_watched(f.pos, d),
            None => Number::Finite(none()),
        },
        duration: if f.dur is Some { f.duration@ } else { Seq::empty() },
        season: f.season as int,
        episode: f.episode as int,
        poster_local: if f.there { opt_string(f.poster) } else { None },
    }
}

/// Whether a row is found by a query: every row by none, else those whose file
/// name holds it, both in small letters.
pub open spec fn found_by(name: Option<Seq<char>>, q: Seq<char>) -> bool {
    q.len() == 0 || (name matches Some(n) && has(n, q))
}

/// The rows that a query finds, the file names' small letters given.
pub open spec fn rows_found(rows: Seq<FoundVideo>, lowered: Seq<Option<Seq<char>>>, q: Seq<char>) -> Seq<VideoRowView>
    decreases rows.len(),
{
    if rows.len() == 0 {
        Seq::empty()
    } else {
        let rest = rows_found(rows.drop_last(), lowered, q);
        if found_by(lowered[rows.len() - 1], q) { rest.push(row_view(rows.last())) } else { rest }
    }
}

/// Optional texts as they read.
pub open spec fn opts_view(v: Seq<Option<String>>) -> Seq<Option<Seq<char>>> {
    Seq::new(v.len(), |i: int| opt_string(v[i]))
}

fn empty() -> (r: String)
    ensures
        r@ == Seq::<char>::empty(),
{
    let s = String::new();
    assert(s@ =~= Seq::<char>::empty());
    s
}

fn clone_opt(o: &Option<String>) -> (r: Option<String>)
    ensures
        opt_string(r) == opt_string(*o),
{
    match o {
        Some(s) => Some(s.clone()),
        None => None,
    }
}

fn row_of(f: &FoundVideo) -> (r: VideoRow)
    requires
        f.wf(),
    ensures
        r@ == row_view(*f),
{
    let file_name = match &f.name {
        Some(n) => n.clone(),
        None => empty(),
    };
    let (progress, duration) = match &f.dur {
        Some(d) => (watched_part(&f.pos, d), f.duration.clone()),
        None => (Number::Finite(Double::zero()), empty()),
    };
    VideoRow {
        abs_path: f.path.clone(),
        file_name,
        item_id: f.item_id,
        starred: f.starred != 0,
        watched: f.finished != 0,
        progress,
        duration,
        season: f.season,
        episode: f.episode,
        poster_local: if f.there { clone_opt(&f.poster) } else { None },
    }
}

/// The rows that a query in small letters finds, the file names' small letters
/// given.
pub fn filter_rows(rows: &Vec<FoundVideo>, lowered: &Vec<Option<String>>, q: &str) -> (r: Vec<VideoRow>)
    requires
        rows@.len() == lowered@.len(),
        forall|i: int| 0 <= i < rows@.len() ==> (#[trigger] rows@[i]).wf(),
    ensures
        rows_view(r@) == rows_found(rows@, opts_view(lowered@), q@),
{
    let mut out: Vec<VideoRow> = Vec::new();
    let mut i: usize = 0;
    assert(rows@.take(0) =~= Seq::<FoundVideo>::empty());
    assert(rows_view(out@) =~= Seq::<VideoRowView>::empty());
    while i < rows.len()
        invariant
            i <= rows@.len(),
            rows@.len() == lowered@.len(),
            forall|j: int| 0 <= j < rows@.len() ==> (#[trigger] rows@[j]).wf(),
            rows_view(out@) == rows_found(rows@.take(i as int), opts_view(lowered@), q@),
        decreases rows@.len() - i,
    {
        assert(rows@.take(i + 1).drop_last() =~= rows@.take(i as int));
        assert(opts_view(lowered@)[i as int] == opt_string(lowered@[i as int]));
        let keep = q.is_empty() || match &lowered[i] {
            Some(n) => contains(n.as_str(), q),
            None => false,
        };
        if keep {
            let ghost was = rows_view(out@);
            out.push(row_of(&rows[i]));
            assert(rows_view(out@) =~= was.push(row_view(rows@[i as int])));
        }
        i = i + 1;
    }
    assert(rows@.take(i as int) =~= rows@);
    out
}

/// The file names of some rows in small letters.
pub open spec fn lowered_names(rows: Seq<FoundVideo>) -> Seq<Option<Seq<char>>> {
    Seq::new(
        rows.len(),
        |i: int| match rows[i].name {
            Some(n) => Some(lowercase(n@)),
            None => None,
        },
    )
}

/// The videos of a tab that a query finds.
pub fn video_rows_for(rows: &Vec<FoundVideo>, query: &str) -> (r: Vec<VideoRow>)
    requires
        forall|i: int| 0 <= i < rows@.len() ==> (#[trigger] rows@[i]).wf(),
    ensures
        rows_view(r@) == rows_found(rows@, lowered_names(rows@), lowercase(query@)),
{
    let q = to_lowercase(query);
    let mut lowered: Vec<Option<String>> = Vec::new();
    let mut i: usize = 0;
    while i < rows.len()
        invariant
            i <= rows@.len(),
            lowered@.len() == i,
            forall|j: int| 0 <= j < i ==> opt_string(#[trigger] lowered@[j]) == lowered_names(rows@)[j],
        decreases rows@.len() - i,
    {
        let low = match &rows[i].name {
            Some(n) => Some(to_lowercase(n.as_str())),
            None => None,
        };
        lowered.push(low);
        i = i + 1;
    }
    assert(opts_view(lowered@) =~= lowered_names(rows@));
    filter_rows(rows, &lowered, q.as_str())
}

/// A file that the scan found: its label, its path and its thumbnail.
#[derive(Debug)]
pub struct Scanned {
    pub label: String,
    pub path: String,
    pub thumb: String,
}

/// What the scan said last of a path.
pub open spec fn scanned_at(scan: Seq<Scanned>, path: Seq<char>) -> Option<Scanned>
    decreases scan.len(),
{
    if scan.len() == 0 {
        None
    } else if scan.last().path@ == path {
        Some(scan.last())
    } else {
        scanned_at(scan.drop_last(), path)
    }
}

fn find_scanned(scan: &Vec<Scanned>, path: &str) -> (r: Option<usize>)
    ensures
        match r {
            Some(i) => i < scan@.len() && scanned_at(scan@, path@) == Some(scan@[i as int]),
            None => scanned_at(scan@, path@) is None,
        },
{
    let mut n: usize = scan.len();
    assert(scan@.take(n as int) =~= scan@);
    while n > 0
        invariant
            n <= scan@.len(),
            scanned_at(scan@, path@) == scanned_at(scan@.take(n as int), path@),
        decreases n,
    {
        assert(scan@.take(n as int).drop_last() =~= scan@.take(n - 1));
        assert(scan@.take(n as int).last() == scan@[n - 1]);
        if same(scan[n - 1].path.as_str(), path) {
            return Some(n - 1);
        }
        n = n - 1;
    }
    None
}

/// A tile of the grid. `thumb` is the picture's file, empty for none.
#[derive(Debug)]
pub struct VideoTile {
    pub thumb: String,
    pub label: String,
    pub index: usize,
    pub starred: bool,
    pub watched: bool,
    pub progress: Number,
    pub duration: String,
    pub season: i64,
    pub episode: i64,
}

/// What a tile shows.
#[verifier::ext_equal]
pub struct TileView {
    pub thumb: Seq<char>,
    pub label: Seq<char>,
    pub index: int,
    pub starred: bool,
    pub watched: bool,
    pub progress: Number,
    pub duration: Seq<char>,
    pub season: int,
    pub episode: int,
}

impl View for VideoTile {
    type V = TileView;

    open spec fn view(&self) -> TileView {
        TileView {
            thumb: self.thumb@,
            label: self.label@,
            index: self.index as int,
            starred: self.starred,
            watched: self.watched,
            progress: self.progress,
            duration: self.duration@,
            season: self.season as int,
            episode: self.episode as int,
        }
    }
}

/// The tiles as they are.
pub open spec fn tiles_view(v: Seq<VideoTile>) -> Seq<TileView> {
    Seq::new(v.len(), |i: int| v[i]@)
}

/// The tile of a row: the poster goes before the frame that the scan took, that
/// before the file itself.
pub open spec fn tile_of(r: VideoRowView, scan: Seq<Scanned>, index: int) -> TileView {
    let (label, frame) = match scanned_at(scan, r.abs_path) {
        Some(s) => (s.label@, s.thumb@),
        None => (r.file_name, r.abs_path),
    };
    TileView {
        thumb: match r.poster_local {
            Some(p) => p,
            None => frame,
        },
        label,
        index,
        starred: r.starred,
        watched: r.watched,
        progress: r.progress,
        duration: r.duration,
        season: r.season,
        episode: r.episode,
    }
}

/// The tiles of some rows, each with its place.
pub open spec fn grid_view(rows: Seq<VideoRow>, scan: Seq<Scanned>) -> Seq<TileView> {
    Seq::new(rows.len(), |i: int| tile_of(rows[i]@, scan, i))
}

/// See [`grid_view`].
pub fn video_tiles(rows: &Vec<VideoRow>, scan: &Vec<Scanned>) -> (r: Vec<VideoTile>)
    ensures
        tiles_view(r@) == grid_view(rows@, scan@),
{
    let mut out: Vec<VideoTile> = Vec::new();
    let mut i: usize = 0;
    while i < rows.len()
        invariant
            i <= rows@.len(),
            out@.len() == i,
            forall|j: int| 0 <= j < i ==> (#[trigger] out@[j])@ == tile_of(rows@[j]@, scan@, j),
        decreases rows@.len() - i,
    {
        let row = &rows[i];
        let (label, frame) = match find_scanned(scan, row.abs_path.as_str()) {
            Some(k) => (scan[k].label.clone(), scan[k].thumb.clone()),
            None => (row.file_name.clone(), row.abs_path.clone()),
        };
        let thumb = match &row.poster_local {
            Some(p) => p.clone(),
            None => frame,
        };
        out.push(
            VideoTile {
                thumb,
                label,
                index: i,
                starred: row.starred,
                watched: row.watched,
                progress: row.progress,
                duration: row.duration.clone(),
                season: row.season,
                episode: row.episode,
            },
        );
        i = i + 1;
    }
    assert(tiles_view(out@) =~= grid_view(rows@, scan@));
    out
}

/// A season of a show: its number, its heading and the places of its tiles.
#[derive(Debug)]
pub struct VideoSeason {
    pub number: i64,
    pub label: String,
    pub first: usize,
    pub count: usize,
}

/// A season as a run of tiles: number, first place, how many.
pub type Span = (int, int, int);

/// How the tiles fall into seasons: each run of tiles of one season is a group.
pub open spec fn runs(seasons: Seq<int>) -> Seq<Span>
    decreases seasons.len(),
{
    if seasons.len() == 0 {
        Seq::empty()
    } else {
        let n = seasons.len() - 1;
        let g = runs(seasons.drop_last());
        if g.len() > 0 && g.last().0 == seasons.last() {
            g.drop_last().push((g.last().0, g.last().1, g.last().2 + 1))
        } else {
            g.push((seasons.last(), n, 1))
        }
    }
}

/// The heading of a season.
pub open spec fn season_label(n: int) -> Seq<char> {
    if n > 0 { "Season "@ + dec_int(n) } else { "Specials"@ }
}

/// The seasons of some tiles.
pub open spec fn tile_seasons(tiles: Seq<VideoTile>) -> Seq<int> {
    Seq::new(tiles.len(), |i: int| tiles[i].season as int)
}

/// The seasons as runs.
pub open spec fn spans_view(v: Seq<VideoSeason>) -> Seq<Span> {
    Seq::new(v.len(), |i: int| (v[i].number as int, v[i].first as int, v[i].count as int))
}

/// Every season has its own heading.
pub open spec fn labelled(v: Seq<VideoSeason>) -> bool {
    forall|i: int| 0 <= i < v.len() ==> (#[trigger] v[i]).label@ == season_label(v[i].number as int)
}

fn heading(n: i64) -> (r: String)
    ensures
        r@ == season_label(n as int),
{
    if n > 0 {
        let mut s = "Season ".to_owned();
        push_dec_int(&mut s, n);
        s
    } else {
        "Specials".to_owned()
    }
}

/// The tiles of an open show by season, in the order in which they stand.
pub fn seasons_of(tiles: &Vec<VideoTile>) -> (r: Vec<VideoSeason>)
    ensures
        spans_view(r@) == runs(tile_seasons(tiles@)),
        labelled(r@),
{
    let ghost all = tile_seasons(tiles@);
    let mut out: Vec<VideoSeason> = Vec::new();
    let mut i: usize = 0;
    assert(all.take(0) =~= Seq::<int>::empty());
    assert(spans_view(out@) =~= Seq::<Span>::empty());
    while i < tiles.len()
        invariant
            i <= tiles@.len(),
            all == tile_seasons(tiles@),
            spans_view(out@) == runs(all.take(i as int)),
            labelled(out@),
            forall|j: int| 0 <= j < out@.len() ==> (#[trigger] out@[j]).count <= i,
        decreases tiles@.len() - i,
    {
        let ghost next = all.take(i + 1);
        assert(next.drop_last() =~= all.take(i as int));
        assert(next.last() == tiles@[i as int].season);
        let ghost g = spans_view(out@);
        let ghost was = out@;
        let n: usize = out.len();
        let season: i64 = tiles[i].season;
        if n > 0 && out[n - 1].number == season {
            let last = &out[n - 1];
            let longer = VideoSeason {
                number: last.number,
                label: last.label.clone(),
                first: last.first,
                count: last.count + 1,
            };
            out.set(n - 1, longer);
            assert(spans_view(out@) =~= g.drop_last().push((g.last().0, g.last().1, g.last().2 + 1)));
            assert forall|j: int| 0 <= j < out@.len() implies (#[trigger] out@[j]).label@ == season_label(
                out@[j].number as int,
            ) && out@[j].count <= i + 1 by {
                assert(was[j].label@ == season_label(was[j].number as int));
                assert(was[j].count <= i);
            }
        } else {
            out.push(VideoSeason { number: season, label: heading(season), first: i, count: 1 });
            assert(spans_view(out@) =~= g.push((season as int, i as int, 1int)));
            assert forall|j: int| 0 <= j < out@.len() implies (#[trigger] out@[j]).label@ == season_label(
                out@[j].number as int,
            ) && out@[j].count <= i + 1 by {
                if j < n {
                    assert(was[j].label@ == season_label(was[j].number as int));
                    assert(was[j].count <= i);
                }
            }
        }
        i = i + 1;
    }
    assert(all.take(i as int) =~= all);
    out
}

/// The seasons of a show follow each other without a gap from the first tile to
/// the last, none is empty, each holds tiles of its own number only, and two that
/// follow each other are of different numbers.
#[verifier::rlimit(40)]
#[verifier::spinoff_prover]
pub proof fn law_seasons_cover_every_tile(seasons: Seq<int>)
    ensures
        seasons.len() > 0 ==> runs(seasons).len() > 0,
        runs(seasons).len() > 0 ==> runs(seasons)[0].1 == 0 && runs(seasons).last().1 + runs(seasons).last().2
            == seasons.len(),
        forall|i: int, j: int|
            0 <= i && j == i + 1 && j < runs(seasons).len() ==> {
                &&& (#[trigger] runs(seasons)[i]).1 + runs(seasons)[i].2 == (#[trigger] runs(seasons)[j]).1
                &&& runs(seasons)[i].0 != runs(seasons)[j].0
            },
        forall|i: int| 0 <= i < runs(seasons).len() ==> (#[trigger] runs(seasons)[i]).2 > 0 && runs(seasons)[i].1 >= 0,
        forall|i: int, k: int|
            0 <= i < runs(seasons).len() && runs(seasons)[i].1 <= k < runs(seasons)[i].1 + runs(seasons)[i].2
                ==> #[trigger] seasons[k] == (#[trigger] runs(seasons)[i]).0,
    decreases seasons.len(),
{
    if seasons.len() > 0 {
        let front = seasons.drop_last();
        law_seasons_cover_every_tile(front);
        let g = runs(front);
        let r = runs(seasons);
        let x = seasons.last();
        let grows = g.len() > 0 && g.last().0 == x;
        if front.len() == 0 {
            assert(g =~= Seq::<Span>::empty());
        }
        assert forall|i: int, j: int| 0 <= i && j == i + 1 && j < r.len() implies {
            &&& (#[trigger] r[i]).1 + r[i].2 == (#[trigger] r[j]).1
            &&& r[i].0 != r[j].0
        } by {
            if i < g.len() - 1 {
                assert(g[i].1 + g[i].2 == g[j].1);
                assert(r[i] == g[i]);
                if !grows || j < g.len() - 1 {
                    assert(r[j] == g[j]);
                }
            } else {
                assert(!grows && i == g.len() - 1);
                assert(r[i] == g[i]);
            }
        }
        assert forall|i: int| 0 <= i < r.len() implies (#[trigger] r[i]).2 > 0 && r[i].1 >= 0 by {
            if i < g.len() {
                assert(g[i].2 > 0 && g[i].1 >= 0);
            }
        }
        assert forall|i: int, k: int| 0 <= i < r.len() && r[i].1 <= k < r[i].1 + r[i].2 implies #[trigger] seasons[k]
            == (#[trigger] r[i]).0 by {
            if grows {
                if i < g.len() - 1 {
                    assert(r[i] == g[i]);
                    lemma_run_within(front, i);
                    assert(front[k] == g[i].0);
                } else {
                    if k < front.len() {
                        assert(front[k] == g[i].0);
                    }
                }
            } else {
                if i < g.len() {
                    assert(r[i] == g[i]);
                    lemma_run_within(front, i);
                    assert(front[k] == g[i].0);
                }
            }
        }
    }
}

/// A run ends within its tiles.
proof fn lemma_run_within(seasons: Seq<int>, i: int)
    requires
        0 <= i < runs(seasons).len(),
    ensures
        runs(seasons)[i].1 >= 0,
        runs(seasons)[i].1 + runs(seasons)[i].2 <= seasons.len(),
    decreases seasons.len(),
{
    if seasons.len() > 0 {
        let g = runs(seasons.drop_last());
        if i < g.len() {
            lemma_run_within(seasons.drop_last(), i);
        }
    }
}

/// Whether the grid gives way to the cards of shows: on the television tab, with
/// no show open, in the library.
pub fn shows_cards(kind: &str, open: bool, category: &str) -> (r: bool)
    ensures
        r == (kind@ == "tv"@ && !open && category@ == "library"@),
{
    same(kind, "tv") && !open && same(category, "library")
}

/// A show as the library answers; `there` says that the poster's file exists.
#[derive(Debug)]
pub struct FoundShow {
    pub id: i64,
    pub title: String,
    pub count: i64,
    pub cover: Option<String>,
    pub poster: Option<String>,
    pub there: bool,
}

/// The card of a show: its id, its title, its picture's file and its number of
/// episodes.
#[derive(Debug)]
pub struct ShowCard {
    pub id: i64,
    pub title: String,
    pub cover: String,
    pub count: i64,
}

/// What a card shows.
pub type ShowView = (int, Seq<char>, Seq<char>, int);

impl View for ShowCard {
    type V = ShowView;

    open spec fn view(&self) -> ShowView {
        (self.id as int, self.title@, self.cover@, self.count as int)
    }
}

/// The card of a show: its poster, else the frame of its first episode, else that
/// episode's file.
pub open spec fn card_of(s: FoundShow, scan: Seq<Scanned>) -> ShowView {
    let cover = match s.cover {
        Some(c) => c@,
        None => Seq::empty(),
    };
    let frame = match scanned_at(scan, cover) {
        Some(f) => f.thumb@,
        None => cover,
    };
    (
        s.id as int,
        s.title@,
        match s.poster {
            Some(p) => if s.there { p@ } else { frame },
            None => frame,
        },
        s.count as int,
    )
}

/// The cards of some shows.
pub fn show_cards(shows: &Vec<FoundShow>, scan: &Vec<Scanned>) -> (r: Vec<ShowCard>)
    ensures
        Seq::new(r@.len(), |i: int| r@[i]@) == Seq::new(shows@.len(), |i: int| card_of(shows@[i], scan@)),
{
    let mut out: Vec<ShowCard> = Vec::new();
    let mut i: usize = 0;
    while i < shows.len()
        invariant
            i <= shows@.len(),
            out@.len() == i,
            forall|j: int| 0 <= j < i ==> (#[trigger] out@[j])@ == card_of(shows@[j], scan@),
        decreases shows@.len() - i,
    {
        let s = &shows[i];
        let cover = match &s.cover {
            Some(c) => c.clone(),
            None => empty(),
        };
        let frame = match find_scanned(scan, cover.as_str()) {
            Some(k) => scan[k].thumb.clone(),
            None => cover,
        };
        let pic = match &s.poster {
            Some(p) => if s.there { p.clone() } else { frame },
            None => frame,
        };
        out.push(ShowCard { id: s.id, title: s.title.clone(), cover: pic, count: s.count });
        i = i + 1;
    }
    assert(Seq::new(out@.len(), |i: int| out@[i]@) =~= Seq::new(shows@.len(), |i: int| card_of(shows@[i], scan@)));
    out
}

/// The episode to go on with in a show; `there` says that the still's file
/// exists.
#[derive(Debug)]
pub struct NextUp {
    pub item_id: i64,
    pub show_title: String,
    pub season: i64,
    pub episode: i64,
    pub title: Option<String>,
    pub still: Option<String>,
    pub there: bool,
    pub runtime_min: Option<i64>,
    pub resume: Option<Number>,
}

/// Where an item stands last in the grid.
pub open spec fn place_in(ids: Seq<i64>, id: i64) -> Option<int>
    decreases ids.len(),
{
    if ids.len() == 0 {
        None
    } else if ids.last() == id {
        Some(ids.len() - 1)
    } else {
        place_in(ids.drop_last(), id)
    }
}

fn find_place(ids: &Vec<i64>, id: i64) -> (r: Option<usize>)
    ensures
        r is Some <==> place_in(ids@, id) is Some,
        r matches Some(i) ==> Some(i as int) == place_in(ids@, id) && i < ids@.len(),
{
    let mut n: usize = ids.len();
    assert(ids@.take(n as int) =~= ids@);
    while n > 0
        invariant
            n <= ids@.len(),
            place_in(ids@, id) == place_in(ids@.take(n as int), id),
        decreases n,
    {
        assert(ids@.take(n as int).drop_last() =~= ids@.take(n - 1));
        if ids[n - 1] == id {
            return Some(n - 1);
        }
        n = n - 1;
    }
    None
}

/// The tile of the episode to go on with, at its place in the grid.
pub open spec fn next_tile(n: NextUp, pos: int, path: Seq<char>, scan: Seq<Scanned>) -> TileView {
    let frame = match scanned_at(scan, path) {
        Some(f) => f.thumb@,
        None => Seq::empty(),
    };
    let length = product(
        of_int(
            match n.runtime_min {
                Some(m) => m as int,
                None => 0,
            },
        ),
        of_nat(60),
    );
    TileView {
        thumb: match n.still {
            Some(p) => if n.there { p@ } else { frame },
            None => frame,
        },
        label: n.show_title@ + " · S"@ + dec_two(n.season as int) + "E"@ + dec_two(n.episode as int) + (match n.title {
            Some(t) => " — "@ + t@,
            None => Seq::empty(),
        }),
        index: pos,
        starred: false,
        watched: false,
        progress: match n.resume {
            Some(p) => part_watched(p, Number::Finite(length)),
            None => Number::Finite(none()),
        },
        duration: match n.runtime_min {
            Some(m) => dec_int(m as int) + " min"@,
            None => Seq::empty(),
        },
        season: n.season as int,
        episode: n.episode as int,
    }
}

/// The path at a place of the grid, empty where the grid ends before it.
pub open spec fn path_at(paths: Seq<String>, i: int) -> Seq<char> {
    if i < paths.len() { paths[i]@ } else { Seq::empty() }
}

/// The tiles of the episodes to go on with; one that is not in the grid is left
/// out.
pub open spec fn next_tiles(next: Seq<NextUp>, ids: Seq<i64>, paths: Seq<String>, scan: Seq<Scanned>) -> Seq<TileView>
    decreases next.len(),
{
    if next.len() == 0 {
        Seq::empty()
    } else {
        let rest = next_tiles(next.drop_last(), ids, paths, scan);
        match place_in(ids, next.last().item_id) {
            Some(pos) => rest.push(next_tile(next.last(), pos, path_at(paths, pos), scan)),
            None => rest,
        }
    }
}

fn tile_next(n: &NextUp, pos: usize, path: &str, scan: &Vec<Scanned>) -> (r: VideoTile)
    requires
        n.resume matches Some(p) ==> p.wf(),
    ensures
        r@ == next_tile(*n, pos as int, path@, scan@),
{
    let frame = match find_scanned(scan, path) {
        Some(k) => scan[k].thumb.clone(),
        None => empty(),
    };
    let thumb = match &n.still {
        Some(p) => if n.there { p.clone() } else { frame },
        None => frame,
    };
    let mut label = n.show_title.clone();
    label.append(" · S");
    push_dec_two(&mut label, n.season);
    label.append("E");
    push_dec_two(&mut label, n.episode);
    let ghost head = label@;
    match &n.title {
        Some(t) => {
            label.append(" — ");
            label.append(t.as_str());
            assert(label@ =~= head + (" — "@ + t@));
        },
        None => {
            assert(head + Seq::<char>::empty() =~= head);
        },
    }
    let minutes: i64 = match n.runtime_min {
        Some(m) => m,
        None => 0,
    };
    let length = Double::from_i64(minutes).mul(&Double::from_u64(60));
    let progress = match &n.resume {
        Some(p) => watched_part(p, &Number::Finite(length)),
        None => Number::Finite(Double::zero()),
    };
    let duration = match n.runtime_min {
        Some(m) => crate::text::count_of(m, " min"),
        None => empty(),
    };
    VideoTile {
        thumb,
        label,
        index: pos,
        starred: false,
        watched: false,
        progress,
        duration,
        season: n.season,
        episode: n.episode,
    }
}

/// See [`next_tiles`].
pub fn next_up_tiles(next: &Vec<NextUp>, ids: &Vec<i64>, paths: &Vec<String>, scan: &Vec<Scanned>) -> (r: Vec<VideoTile>)
    requires
        forall|i: int| 0 <= i < next@.len() ==> ((#[trigger] next@[i]).resume matches Some(p) ==> p.wf()),
    ensures
        tiles_view(r@) == next_tiles(next@, ids@, paths@, scan@),
{
    let mut out: Vec<VideoTile> = Vec::new();
    let mut i: usize = 0;
    assert(next@.take(0) =~= Seq::<NextUp>::empty());
    assert(tiles_view(out@) =~= Seq::<TileView>::empty());
    while i < next.len()
        invariant
            i <= next@.len(),
            forall|j: int| 0 <= j < next@.len() ==> ((#[trigger] next@[j]).resume matches Some(p) ==> p.wf()),
            tiles_view(out@) == next_tiles(next@.take(i as int), ids@, paths@, scan@),
        decreases next@.len() - i,
    {
        assert(next@.take(i + 1).drop_last() =~= next@.take(i as int));
        match find_place(ids, next[i].item_id) {
            Some(pos) => {
                let path = if pos < paths.len() { paths[pos].clone() } else { empty() };
                let ghost was = tiles_view(out@);
                let tile = tile_next(&next[i], pos, path.as_str(), scan);
                let ghost t = tile@;
                out.push(tile);
                assert(tiles_view(out@) =~= was.push(t));
            },
            None => {},
        }
        i = i + 1;
    }
    assert(next@.take(i as int) =~= next@);
    out
}

/// What the section shows after a look at the library.
#[derive(Debug)]
pub enum Shelf {
    /// The cards of the shows, and the episodes to go on with.
    Shows(Vec<ShowCard>, Vec<VideoTile>),
    /// The grid, by season where a show is open, and what each place of it plays.
    Grid(Vec<VideoTile>, Vec<VideoSeason>, Vec<String>, Vec<i64>),
}

/// The paths and ids of the grid's places.
pub open spec fn plays(rows: Seq<VideoRow>) -> (Seq<Seq<char>>, Seq<i64>) {
    (Seq::new(rows.len(), |i: int| rows[i].abs_path@), Seq::new(rows.len(), |i: int| rows[i].item_id))
}

/// The grid of a tab. A place of the grid plays the row that stands there; where a
/// show is open on the television tab its episodes fall into seasons.
pub fn grid(rows: &Vec<VideoRow>, scan: &Vec<Scanned>, kind: &str, open: bool) -> (r: Shelf)
    ensures
        r matches Shelf::Grid(tiles, seasons, paths, ids) && {
            &&& tiles_view(tiles@) == grid_view(rows@, scan@)
            &&& spans_view(seasons@) == (if kind@ == "tv"@ && open {
                runs(tile_seasons(tiles@))
            } else {
                Seq::<Span>::empty()
            })
            &&& labelled(seasons@)
            &&& (crate::text::views(paths@), ids@) == plays(rows@)
        },
{
    let tiles = video_tiles(rows, scan);
    let mut paths: Vec<String> = Vec::new();
    let mut ids: Vec<i64> = Vec::new();
    let mut i: usize = 0;
    while i < rows.len()
        invariant
            i <= rows@.len(),
            paths@.len() == i,
            ids@.len() == i,
            forall|j: int| 0 <= j < i ==> (#[trigger] paths@[j])@ == rows@[j].abs_path@,
            forall|j: int| 0 <= j < i ==> #[trigger] ids@[j] == rows@[j].item_id,
        decreases rows@.len() - i,
    {
        paths.push(rows[i].abs_path.clone());
        ids.push(rows[i].item_id);
        i = i + 1;
    }
    assert(crate::text::views(paths@) =~= plays(rows@).0);
    assert(ids@ =~= plays(rows@).1);
    let seasons = if same(kind, "tv") && open {
        seasons_of(&tiles)
    } else {
        let none: Vec<VideoSeason> = Vec::new();
        assert(spans_view(none@) =~= Seq::<Span>::empty());
        none
    };
    Shelf::Grid(tiles, seasons, paths, ids)
}

/// The section after a look at the library: the cards of the shows where no show
/// is open on the television tab's library, else the grid.
pub fn kick_video_refresh(
    kind: &str,
    open: bool,
    category: &str,
    shows: &Vec<FoundShow>,
    next: &Vec<NextUp>,
    ids: &Vec<i64>,
    paths: &Vec<String>,
    rows: &Vec<VideoRow>,
    scan: &Vec<Scanned>,
) -> (r: Shelf)
    requires
        forall|i: int| 0 <= i < next@.len() ==> ((#[trigger] next@[i]).resume matches Some(p) ==> p.wf()),
    ensures
        kind@ == "tv"@ && !open && category@ == "library"@ ==> (r matches Shelf::Shows(cards, tiles) && {
            &&& Seq::new(cards@.len(), |i: int| cards@[i]@) == Seq::new(
                shows@.len(),
                |i: int| card_of(shows@[i], scan@),
            )
            &&& tiles_view(tiles@) == next_tiles(next@, ids@, paths@, scan@)
        }),
        !(kind@ == "tv"@ && !open && category@ == "library"@) ==> (r matches Shelf::Grid(
            tiles,
            seasons,
            grid_paths,
            grid_ids,
        ) && {
            &&& tiles_view(tiles@) == grid_view(rows@, scan@)
            &&& spans_view(seasons@) == (if kind@ == "tv"@ && open {
                runs(tile_seasons(tiles@))
            } else {
                Seq::<Span>::empty()
            })
            &&& labelled(seasons@)
            &&& (crate::text::views(grid_paths@), grid_ids@) == plays(rows@)
        }),
{
    if shows_cards(kind, open, category) {
        Shelf::Shows(show_cards(shows, scan), next_up_tiles(next, ids, paths, scan))
    } else {
        grid(rows, scan, kind, open)
    }
}

/// A title of a rail of new things; `poster` is its poster's file where it is
/// kept, and the vote is a single-precision number.
#[derive(Debug)]
pub struct DiscoverItem {
    pub tmdb_id: i64,
    pub title: String,
    pub year: Option<i64>,
    pub vote: Option<Number>,
    pub release_date: Option<String>,
    pub is_movie: bool,
    pub poster_path: Option<String>,
    pub poster: Option<String>,
}

/// The card of a title of a rail.
#[derive(Debug)]
pub struct DiscoverCard {
    pub tmdb_id: i64,
    pub title: String,
    pub year: i64,
    pub poster: Option<String>,
    pub vote: Number,
    pub release_date: String,
    pub is_movie: bool,
}

/// What the card of a title of a rail shows.
#[verifier::ext_equal]
pub struct DiscoverView {
    pub tmdb_id: int,
    pub title: Seq<char>,
    pub year: int,
    pub poster: Option<Seq<char>>,
    pub vote: Number,
    pub release_date: Seq<char>,
    pub is_movie: bool,
}

impl View for DiscoverCard {
    type V = DiscoverView;

    open spec fn view(&self) -> DiscoverView {
        DiscoverView {
            tmdb_id: self.tmdb_id as int,
            title: self.title@,
            year: self.year as int,
            poster: opt_string(self.poster),
            vote: self.vote,
            release_date: self.release_date@,
            is_movie: self.is_movie,
        }
    }
}

/// The card of a title.
pub open spec fn discover_view(it: DiscoverItem) -> DiscoverView {
    DiscoverView {
        tmdb_id: it.tmdb_id as int,
        title: it.title@,
        year: match it.year {
            Some(y) => y as int,
            None => 0,
        },
        poster: opt_string(it.poster),
        vote: match it.vote {
            Some(v) => single_number(v),
            None => Number::Finite(none()),
        },
        release_date: match it.release_date {
            Some(d) => date_text(d@),
            None => Seq::empty(),
        },
        is_movie: it.is_movie,
    }
}

/// The cards of a rail.
pub fn discover_cards(items: &Vec<DiscoverItem>) -> (r: Vec<DiscoverCard>)
    requires
        forall|i: int| 0 <= i < items@.len() ==> ((#[trigger] items@[i]).vote matches Some(v) ==> v.wf()),
        forall|i: int|
            0 <= i < items@.len() ==> ((#[trigger] items@[i]).release_date matches Some(d) ==> parts_cleanly(d@)),
    ensures
        Seq::new(r@.len(), |i: int| r@[i]@) == Seq::new(items@.len(), |i: int| discover_view(items@[i])),
{
    let mut out: Vec<DiscoverCard> = Vec::new();
    let mut i: usize = 0;
    while i < items.len()
        invariant
            i <= items@.len(),
            out@.len() == i,
            forall|j: int| 0 <= j < items@.len() ==> ((#[trigger] items@[j]).vote matches Some(v) ==> v.wf()),
            forall|j: int|
                0 <= j < items@.len() ==> ((#[trigger] items@[j]).release_date matches Some(d) ==> parts_cleanly(d@)),
            forall|j: int| 0 <= j < i ==> (#[trigger] out@[j])@ == discover_view(items@[j]),
        decreases items@.len() - i,
    {
        let it = &items[i];
        out.push(
            DiscoverCard {
                tmdb_id: it.tmdb_id,
                title: it.title.clone(),
                year: match it.year {
                    Some(y) => y,
                    None => 0,
                },
                poster: clone_opt(&it.poster),
                vote: match &it.vote {
                    Some(v) => number_to_single(v),
                    None => Number::Finite(Double::zero()),
                },
                release_date: match &it.release_date {
                    Some(d) => fmt_release_date(d.as_str()),
                    None => empty(),
                },
                is_movie: it.is_movie,
            },
        );
        i = i + 1;
    }
    assert(Seq::new(out@.len(), |i: int| out@[i]@) =~= Seq::new(items@.len(), |i: int| discover_view(items@[i])));
    out
}

/// The posters of some titles.
pub open spec fn posters(items: Seq<DiscoverItem>) -> Seq<Seq<char>>
    decreases items.len(),
{
    if items.len() == 0 {
        Seq::empty()
    } else {
        let rest = posters(items.drop_last());
        match items.last().poster_path {
            Some(p) => rest.push(p@),
            None => rest,
        }
    }
}

/// The posters to fetch once the rails are shown: all of them where the service
/// can be asked and there is a place to keep them, none otherwise.
pub fn posters_to_fetch(items: &Vec<DiscoverItem>, has_key: bool, has_place: bool) -> (r: Vec<String>)
    ensures
        crate::text::views(r@) == (if has_key && has_place { posters(items@) } else { Seq::empty() }),
{
    let mut out: Vec<String> = Vec::new();
    assert(crate::text::views(out@) =~= Seq::<Seq<char>>::empty());
    if !(has_key && has_place) {
        return out;
    }
    let mut i: usize = 0;
    assert(items@.take(0) =~= Seq::<DiscoverItem>::empty());
    while i < items.len()
        invariant
            i <= items@.len(),
            crate::text::views(out@) == posters(items@.take(i as int)),
        decreases items@.len() - i,
    {
        assert(items@.take(i + 1).drop_last() =~= items@.take(i as int));
        match &items[i].poster_path {
            Some(p) => {
                let ghost was = crate::text::views(out@);
                out.push(p.clone());
                assert(crate::text::views(out@) =~= was.push(p@));
            },
            None => {},
        }
        i = i + 1;
    }
    assert(items@.take(i as int) =~= items@);
    out
}

/// Titles whose cards can be drawn: votes that are numbers and dates that can be
/// parted.
pub open spec fn drawable(items: Seq<DiscoverItem>) -> bool {
    &&& forall|i: int| 0 <= i < items.len() ==> ((#[trigger] items[i]).vote matches Some(v) ==> v.wf())
    &&& forall|i: int|
        0 <= i < items.len() ==> ((#[trigger] items[i]).release_date matches Some(d) ==> parts_cleanly(d@))
}

/// The cards of some titles.
pub open spec fn rail(items: Seq<DiscoverItem>) -> Seq<DiscoverView> {
    Seq::new(items.len(), |i: int| discover_view(items[i]))
}

/// The cards as they are.
pub open spec fn rail_view(cards: Seq<DiscoverCard>) -> Seq<DiscoverView> {
    Seq::new(cards.len(), |i: int| cards[i]@)
}

/// The four rails of the discovery page, and the posters to fetch behind them.
#[derive(Debug)]
pub struct Rails {
    pub movies: Vec<DiscoverCard>,
    pub shows: Vec<DiscoverCard>,
    pub upcoming: Vec<DiscoverCard>,
    pub on_air: Vec<DiscoverCard>,
    pub fetch: Vec<String>,
}

/// Builds the discovery page from what is kept of its four feeds: each rail in the
/// order of its feed, and the posters of all four in the order of the rails.
pub fn kick_discover_refresh(
    movies: &Vec<DiscoverItem>,
    shows: &Vec<DiscoverItem>,
    upcoming: &Vec<DiscoverItem>,
    on_air: &Vec<DiscoverItem>,
    has_key: bool,
    has_place: bool,
) -> (r: Rails)
    requires
        drawable(movies@),
        drawable(shows@),
        drawable(upcoming@),
        drawable(on_air@),
    ensures
        rail_view(r.movies@) == rail(movies@),
        rail_view(r.shows@) == rail(shows@),
        rail_view(r.upcoming@) == rail(upcoming@),
        rail_view(r.on_air@) == rail(on_air@),
        crate::text::views(r.fetch@) == (if has_key && has_place {
            posters(movies@) + posters(shows@) + posters(upcoming@) + posters(on_air@)
        } else {
            Seq::empty()
        }),
{
    let mut fetch = posters_to_fetch(movies, has_key, has_place);
    let more = posters_to_fetch(shows, has_key, has_place);
    append_texts(&mut fetch, &more);
    let more = posters_to_fetch(upcoming, has_key, has_place);
    append_texts(&mut fetch, &more);
    let more = posters_to_fetch(on_air, has_key, has_place);
    append_texts(&mut fetch, &more);
    Rails {
        movies: discover_cards(movies),
        shows: discover_cards(shows),
        upcoming: discover_cards(upcoming),
        on_air: discover_cards(on_air),
        fetch,
    }
}

fn append_texts(out: &mut Vec<String>, more: &Vec<String>)
    ensures
        crate::text::views(final(out)@) == crate::text::views(old(out)@) + crate::text::views(more@),
{
    let ghost was = crate::text::views(out@);
    let ghost add = crate::text::views(more@);
    let mut i: usize = 0;
    assert(was + add.take(0) =~= was);
    while i < more.len()
        invariant
            i <= more@.len(),
            add == crate::text::views(more@),
            crate::text::views(out@) == was + add.take(i as int),
        decreases more@.len() - i,
    {
        let t = more[i].clone();
        let ghost (now, text) = (crate::text::views(out@), t@);
        out.push(t);
        assert(crate::text::views(out@) =~= now.push(text));
        assert(add.take(i + 1) =~= add.take(i as int).push(text));
        assert((was + add.take(i as int)).push(text) =~= was + add.take(i as int).push(text));
        i = i + 1;
    }
    assert(add.take(i as int) =~= add);
}

/// A query finds the rows whose file name holds it, all rows where it is empty, in order.
pub proof fn law_a_query_finds_the_names_that_hold_it(
    rows: Seq<FoundVideo>,
    lowered: Seq<Option<Seq<char>>>,
    q: Seq<char>,
) -> (idx: Seq<int>)
    ensures
        rising(idx),
        forall|i: int|
            #[trigger] idx.contains(i) <==> 0 <= i < rows.len() && (q.len() == 0 || (lowered[i] matches Some(n) && has(n, q))),
        rows_found(rows, lowered, q) == Seq::new(idx.len(), |k: int| row_view(rows[idx[k]])),
    decreases rows.len(),
{
    if rows.len() == 0 {
        Seq::empty()
    } else {
        let front = rows.drop_last();
        let n = front.len() as int;
        let before = law_a_query_finds_the_names_that_hold_it(front, lowered, q);
        let keep = q.len() == 0 || (lowered[n] matches Some(m) && has(m, q));
        assert forall|k: int| 0 <= k < before.len() implies 0 <= #[trigger] before[k] < n by {
            assert(before.contains(before[k]));
        }
        lemma_rising_push(before, n);
        let idx = if keep { before.push(n) } else { before };
        assert forall|i: int|
            #[trigger] idx.contains(i) <==> 0 <= i < rows.len() && (q.len() == 0 || (lowered[i] matches Some(m) && has(m, q))) by {
            if idx.contains(i) {
                let k = choose|k: int| 0 <= k < idx.len() && idx[k] == i;
                if k < before.len() {
                    assert(before.contains(before[k]));
                }
            }
            if before.contains(i) {
                let k = choose|k: int| 0 <= k < before.len() && before[k] == i;
                assert(idx[k] == i);
            }
            if i == n && keep {
                assert(idx[before.len() as int] == n);
            }
        }
        assert(rows_found(rows, lowered, q) =~= Seq::new(idx.len(), |k: int| row_view(rows[idx[k]])));
        idx
    }
}

/// A row of a tab says what was found of the video; its poster is shown only where it is on
/// disk.
pub proof fn law_a_row_says_what_was_found(f: FoundVideo)
    ensures
        ({
            let r = row_view(f);
            &&& r.abs_path == f.path@ && r.item_id == f.item_id && r.season == f.season && r.episode == f.episode
            &&& r.starred == (f.starred != 0) && r.watched == (f.finished != 0)
            &&& f.name matches Some(n) ==> r.file_name == n@
            &&& f.dur is Some ==> r.duration == f.duration@
            &&& f.dur is None ==> r.duration.len() == 0
            &&& f.dur matches Some(d) ==> r.progress == part_watched(f.pos, d)
            &&& f.there ==> r.poster_local == opt_string(f.poster)
            &&& !f.there ==> r.poster_local is None
        }),
{
}

/// How much was watched lies between nothing and all; nothing of what has no length or was
/// not begun.
pub proof fn law_no_more_is_watched_than_there_is(p: Double, d: Double)
    ensures
        d.m == 0 || d.neg || p.m == 0 || p.neg ==> part_watched(Number::Finite(p), Number::Finite(d)) == Number::Finite(none()),
        d.m > 0 && !d.neg && p.m > 0 && !p.neg && below(of_nat(1), quotient(p, d)) ==> part_watched(
            Number::Finite(p),
            Number::Finite(d),
        ) == held_single(of_nat(1)),
        d.m > 0 && !d.neg && p.m > 0 && !p.neg && !below(of_nat(1), quotient(p, d)) ==> part_watched(
            Number::Finite(p),
            Number::Finite(d),
        ) == held_single(quotient(p, d)),
{
}

/// What the scan said last of a path counts.
pub proof fn law_the_last_scan_of_a_path_counts(scan: Seq<Scanned>, path: Seq<char>)
    ensures
        scanned_at(scan, path) matches Some(s) ==> exists|i: int|
            0 <= i < scan.len() && (#[trigger] scan[i]) == s && scan[i].path@ == path && forall|j: int|
                i < j < scan.len() ==> (#[trigger] scan[j]).path@ != path,
        scanned_at(scan, path) is None ==> forall|i: int| 0 <= i < scan.len() ==> (#[trigger] scan[i]).path@ != path,
    decreases scan.len(),
{
    if scan.len() > 0 {
        let front = scan.drop_last();
        if scan.last().path@ == path {
            assert(scan[scan.len() - 1].path@ == path);
        } else {
            law_the_last_scan_of_a_path_counts(front, path);
            assert forall|i: int| 0 <= i < front.len() implies (#[trigger] front[i]) == scan[i] by {}
            if scanned_at(front, path) is Some {
                let i = choose|i: int|
                    0 <= i < front.len() && (#[trigger] front[i]) == scanned_at(front, path)->0 && front[i].path@ == path && forall|j: int|
                        i < j < front.len() ==> (#[trigger] front[j]).path@ != path;
                assert(scan[i] == front[i]);
                assert forall|j: int| i < j < scan.len() implies (#[trigger] scan[j]).path@ != path by {
                    if j < front.len() {
                        assert(front[j].path@ != path);
                    }
                }
            } else {
                assert forall|i: int| 0 <= i < scan.len() implies (#[trigger] scan[i]).path@ != path by {
                    if i < front.len() {
                        assert(front[i].path@ != path);
                    }
                }
            }
        }
    }
}

/// A tile shows the poster before the frame of the scan, that before the file; it is called
/// by what the scan said, else by its file, and stands at its own place.
pub proof fn law_a_tile_shows_its_row(rows: Seq<VideoRow>, scan: Seq<Scanned>, i: int)
    requires
        0 <= i < rows.len(),
    ensures
        grid_view(rows, scan).len() == rows.len(),
        ({
            let (t, r) = (grid_view(rows, scan)[i], rows[i]@);
            &&& t.index == i && t.starred == r.starred && t.watched == r.watched && t.progress == r.progress && t.duration == r.duration
            &&& t.season == r.season && t.episode == r.episode
            &&& r.poster_local matches Some(p) ==> t.thumb == p
            &&& scanned_at(scan, r.abs_path) matches Some(s) ==> t.label == s.label@ && (r.poster_local is None ==> t.thumb == s.thumb@)
            &&& scanned_at(scan, r.abs_path) is None ==> t.label == r.file_name && (r.poster_local is None ==> t.thumb == r.abs_path)
        }),
{
}

/// A season has its number for a heading; what belongs to none are specials.
pub proof fn law_a_season_is_headed_by_its_number(n: int)
    ensures
        n > 0 ==> season_label(n) == "Season "@ + dec_int(n),
        n <= 0 ==> season_label(n) == "Specials"@,
{
}

/// Each group of the shelf is a run of tiles of one season, as long as it can be, and the
/// groups follow each other without a gap.
pub proof fn law_each_group_is_a_whole_run(seasons: Seq<int>)
    ensures
        ({
            let g = runs(seasons);
            &&& (g.len() == 0) == (seasons.len() == 0)
            &&& g.len() > 0 ==> g[0].1 == 0 && g.last().1 + g.last().2 == seasons.len()
            &&& forall|k: int| 0 <= k < g.len() ==> (#[trigger] g[k]).2 >= 1 && 0 <= g[k].1 && g[k].1 + g[k].2 <= seasons.len()
            &&& forall|k: int, i: int| 0 <= k < g.len() && g[k].1 <= i < g[k].1 + g[k].2 ==> #[trigger] seasons[i] == (#[trigger] g[k]).0
            &&& forall|k: int| 0 < k < g.len() ==> (#[trigger] g[k]).1 == g[k - 1].1 + g[k - 1].2 && g[k].0 != g[k - 1].0
        }),
    decreases seasons.len(),
{
    if seasons.len() > 0 {
        let front = seasons.drop_last();
        law_each_group_is_a_whole_run(front);
        let g = runs(front);
        let all = runs(seasons);
        assert forall|k: int, i: int| 0 <= k < all.len() && all[k].1 <= i < all[k].1 + all[k].2 implies #[trigger] seasons[i] == (#[trigger] all[k]).0 by {
            if i < front.len() {
                assert(seasons[i] == front[i]);
                if k < g.len() {
                    assert(g[k].1 <= i < g[k].1 + g[k].2);
                    assert(front[i] == g[k].0);
                }
            }
        }
    }
}

/// The card of a show has its poster where that is on disk, else the frame of its first
/// episode, else that episode's file.
pub proof fn law_a_show_is_shown_by_its_poster(s: FoundShow, scan: Seq<Scanned>)
    ensures
        ({
            let c = card_of(s, scan);
            &&& c.0 == s.id && c.1 == s.title@ && c.3 == s.count
            &&& s.there ==> (s.poster matches Some(p) ==> c.2 == p@)
            &&& !s.there || s.poster is None ==> (s.cover matches Some(v) ==> match scanned_at(scan, v@) {
                Some(f) => c.2 == f.thumb@,
                None => c.2 == v@,
            })
        }),
{
}

proof fn lemma_place_in(ids: Seq<i64>, id: i64)
    ensures
        place_in(ids, id) matches Some(k) ==> 0 <= k < ids.len() && ids[k] == id && forall|j: int| k < j < ids.len() ==> #[trigger] ids[j] != id,
        place_in(ids, id) is None ==> !ids.contains(id),
    decreases ids.len(),
{
    if ids.len() > 0 && ids.last() != id {
        let front = ids.drop_last();
        lemma_place_in(front, id);
        if place_in(front, id) is None {
            assert forall|j: int| 0 <= j < ids.len() implies ids[j] != id by {
                if j < front.len() {
                    assert(front[j] == ids[j]);
                }
            }
        } else {
            let k = place_in(front, id)->0;
            assert forall|j: int| k < j < ids.len() implies #[trigger] ids[j] != id by {
                if j < front.len() {
                    assert(front[j] == ids[j]);
                }
            }
        }
    }
}

/// The episodes to go on with that are in the grid have their tile, in order, each at the
/// place where the grid has it; one that is not there is left out.
pub proof fn law_what_comes_next_stands_at_its_place(next: Seq<NextUp>, ids: Seq<i64>, paths: Seq<String>, scan: Seq<Scanned>)
    ensures
        next_tiles(next, ids, paths, scan).len() == next.filter(|n: NextUp| ids.contains(n.item_id)).len(),
        forall|k: int|
            0 <= k < next_tiles(next, ids, paths, scan).len() ==> {
                let (t, n) = (#[trigger] next_tiles(next, ids, paths, scan)[k], next.filter(|n: NextUp| ids.contains(n.item_id))[k]);
                &&& 0 <= t.index < ids.len() && ids[t.index] == n.item_id
                &&& t.season == n.season && t.episode == n.episode && !t.starred && !t.watched
                &&& t.label == n.show_title@ + " · S"@ + dec_two(n.season as int) + "E"@ + dec_two(n.episode as int) + (match n.title {
                    Some(x) => " — "@ + x@,
                    None => Seq::empty(),
                })
                &&& n.there ==> (n.still matches Some(p) ==> t.thumb == p@)
                &&& n.runtime_min matches Some(m) ==> t.duration == dec_int(m as int) + " min"@
                &&& n.resume is None ==> t.progress == Number::Finite(none())
            },
    decreases next.len(),
{
    reveal(Seq::filter);
    let p = |n: NextUp| ids.contains(n.item_id);
    if next.len() > 0 {
        let front = next.drop_last();
        law_what_comes_next_stands_at_its_place(front, ids, paths, scan);
        let kept = front.filter(p);
        let last = next.last();
        assert(next.filter(p) == (if p(last) { kept.push(last) } else { kept }));
        lemma_place_in(ids, last.item_id);
        assert(p(last) == (place_in(ids, last.item_id) is Some));
        let before = next_tiles(front, ids, paths, scan);
        let all = next_tiles(next, ids, paths, scan);
        assert forall|k: int| 0 <= k < before.len() implies all[k] == before[k] && next.filter(p)[k] == kept[k] by {}
    }
}

/// What plays at a place of the grid is that place's file and item.
pub proof fn law_a_place_plays_its_file(rows: Seq<VideoRow>, i: int)
    requires
        0 <= i < rows.len(),
    ensures
        plays(rows).0.len() == rows.len() && plays(rows).1.len() == rows.len(),
        plays(rows).0[i] == rows[i].abs_path@,
        plays(rows).1[i] == rows[i].item_id,
{
}

/// A card of the rail says what is known of its title.
pub proof fn law_a_card_says_what_is_known(it: DiscoverItem)
    ensures
        ({
            let v = discover_view(it);
            &&& v.tmdb_id == it.tmdb_id && v.title == it.title@ && v.is_movie == it.is_movie && v.poster == opt_string(it.poster)
            &&& it.year matches Some(y) ==> v.year == y
            &&& it.year is None ==> v.year == 0
            &&& it.release_date matches Some(d) ==> v.release_date == date_text(d@)
            &&& it.vote matches Some(x) ==> v.vote == single_number(x)
        }),
{
}

/// A tab shows what is neither deleted nor put away, unless it is there for just that, and
/// television goes by season and episode whatever the tab.
pub proof fn law_a_tab_shows_its_own(category: Seq<char>, kind: Seq<char>, show: i64)
    ensures
        category == "starred"@ ==> tab_filter(category) == "vm.deleted_at IS NULL AND vm.starred = 1"@,
        category == "archive"@ ==> tab_filter(category) == "vm.deleted_at IS NULL AND vm.archived = 1"@,
        category == "trash"@ ==> tab_filter(category) == "vm.deleted_at IS NOT NULL"@,
        category == "continue"@ ==> tab_filter(category) == "vm.deleted_at IS NULL AND vm.archived = 0 AND vm.last_accessed IS NOT NULL AND COALESCE(wp.finished,0) = 0 AND COALESCE(wp.position_s,0) > 0"@,
        category != "starred"@ && category != "archive"@ && category != "trash"@ && category != "continue"@ ==> tab_filter(category) == "vm.deleted_at IS NULL AND vm.archived = 0"@,
        kind == "tv"@ ==> tab_order(category, kind) == "ep.season, ep.episode"@,
        kind != "tv"@ && category == "continue"@ ==> tab_order(category, kind) == "vm.last_accessed DESC"@,
        kind != "tv"@ && category == "trash"@ ==> tab_order(category, kind) == "vm.deleted_at DESC"@,
        kind != "tv"@ && category != "continue"@ && category != "trash"@ ==> tab_order(category, kind) == "i.added DESC, i.id DESC"@,
        kind == "movies"@ ==> kind_clause(kind, None) == " AND vm.item_id IN (SELECT item_id FROM movies)"@ && kind_clause(kind, Some(show)) == kind_clause(kind, None),
        kind == "tv"@ ==> kind_clause(kind, Some(show)) == " AND ep.show_id = "@ + dec_int(show as int) && kind_clause(kind, None) == " AND ep.item_id IS NOT NULL"@,
        kind != "tv"@ && kind != "movies"@ ==> kind_clause(kind, None).len() == 0,
{
    reveal_strlit("continue");
    reveal_strlit("starred");
    reveal_strlit("archive");
    reveal_strlit("trash");
    reveal_strlit("tv");
    reveal_strlit("movies");
    assert("continue"@.len() == 8 && "starred"@.len() == 7 && "archive"@.len() == 7 && "trash"@.len() == 5 && "tv"@.len() == 2 && "movies"@.len() == 6);
    assert("starred"@[0] == 's' && "archive"@[0] == 'a');
}
/// The posters that are fetched are those that a title names, in order.
pub proof fn law_the_posters_that_are_named(items: Seq<DiscoverItem>)
    ensures
        posters(items) == items.filter(|x: DiscoverItem| x.poster_path is Some).map_values(|x: DiscoverItem| x.poster_path->0@),
    decreases items.len(),
{
    reveal(Seq::filter);
    let p = |x: DiscoverItem| x.poster_path is Some;
    let wanted = items.filter(|x: DiscoverItem| x.poster_path is Some).map_values(|x: DiscoverItem| x.poster_path->0@);
    if items.len() > 0 {
        let front = items.drop_last();
        law_the_posters_that_are_named(front);
        let kept = front.filter(p);
        assert(items.filter(p) == (if p(items.last()) { kept.push(items.last()) } else { kept }));
        assert(front.filter(|x: DiscoverItem| x.poster_path is Some).map_values(|x: DiscoverItem| x.poster_path->0@) == posters(front));
    }
    assert(posters(items) =~= wanted);
}

} // verus!
