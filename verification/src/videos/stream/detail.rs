//! The pane of the title that is open: its seasons, its episodes, its language
//! cuts, and the files of the episode that is picked.

use vstd::prelude::*;
use super::state::{
    episode_numbers, episodes_in, find_lang, first_count, max_ep_for, offered, place_of_lang, stream_label, stream_name, StreamState,
};
use super::title::{
    caption_union, captions_view, file_sub, file_text, files_view, meta_line, meta_text, tracks_by_file, tracks_of, Caption, CaptionView, Details, Dub, FileView, StreamError, StreamFile,
};
use crate::status::figures::opt_string;
use crate::text::{dec, dec_int, push_dec, push_dec_int, same, views};

verus! {

/// Something to pick: what it stands for, what it says, and whether it is picked.
#[derive(Debug)]
pub struct StreamChip {
    pub id: String,
    pub label: String,
    pub active: bool,
}

/// What a chip shows.
pub type ChipView = (Seq<char>, Seq<char>, bool);

/// The chips as they are.
pub open spec fn chips_view(v: Seq<StreamChip>) -> Seq<ChipView> {
    Seq::new(v.len(), |i: int| (v[i].id@, v[i].label@, v[i].active))
}

/// The pane of a title, but for its files.
#[derive(Debug)]
pub struct DetailPane {
    pub title: String,
    pub overview: String,
    pub meta: String,
    pub is_series: bool,
    pub dubs: Vec<StreamChip>,
    pub seasons: Vec<i32>,
    pub episodes: Vec<i32>,
    pub season: i32,
    pub episode: i32,
}

/// The language cuts, the one that is open picked.
pub open spec fn dub_chips(dubs: Seq<Dub>, cur: Seq<char>) -> Seq<ChipView> {
    Seq::new(dubs.len(), |i: int| (dubs[i].subject_id@, dubs[i].name@, dubs[i].subject_id@ == cur))
}

fn chips_of(dubs: &Vec<Dub>, cur: &str) -> (r: Vec<StreamChip>)
    ensures
        chips_view(r@) == dub_chips(dubs@, cur@),
{
    let mut out: Vec<StreamChip> = Vec::new();
    let mut i: usize = 0;
    while i < dubs.len()
        invariant
            i <= dubs@.len(),
            out@.len() == i,
            forall|j: int|
                0 <= j < i ==> ((#[trigger] out@[j]).id@, out@[j].label@, out@[j].active) == dub_chips(dubs@, cur@)[j],
        decreases dubs@.len() - i,
    {
        let d = &dubs[i];
        let active = same(d.subject_id.as_str(), cur);
        out.push(StreamChip { id: d.subject_id.clone(), label: d.name.clone(), active });
        i = i + 1;
    }
    assert(chips_view(out@) =~= dub_chips(dubs@, cur@));
    out
}

/// The pane of a title. `dubs` are the language cuts worth offering; a split show
/// has its seasons from `split`, every other title its own. The episodes are those
/// of the season on screen.
pub fn push_details(
    d: &Details,
    dubs: &Vec<Dub>,
    split: &Vec<(i64, String)>,
    opened_id: &str,
    active_season: i64,
) -> (r: DetailPane)
    requires
        d.rating.wf(),
    ensures
        r.title@ == d.title@,
        r.overview@ == d.overview@,
        r.meta@ == meta_text(*d),
        r.is_series == (d.is_series || split@.len() > 0),
        chips_view(r.dubs@) == dub_chips(dubs@, if d.id@.len() == 0 { opened_id@ } else { d.id@ }),
        r.seasons@ == (if split@.len() == 0 {
            Seq::new(d.seasons@.len(), |i: int| d.seasons@[i].number as i32)
        } else {
            Seq::new(split@.len(), |i: int| split@[i].0 as i32)
        }),
        ({
            let count = if split@.len() == 0 {
                episodes_in(d.seasons@, active_season as int, first_count(d.seasons@))
            } else {
                first_count(d.seasons@)
            };
            r.episodes@ == Seq::new(offered(count) as nat, |i: int| (i + 1) as i32)
        }),
        r.season == active_season as i32,
        r.episode == (if r.is_series { 1int } else { 0 }),
{
    let whole = split.len() == 0;
    let mut seasons: Vec<i32> = Vec::new();
    let mut i: usize = 0;
    if whole {
        while i < d.seasons.len()
            invariant
                i <= d.seasons@.len(),
                seasons@.len() == i,
                forall|j: int| 0 <= j < i ==> #[trigger] seasons@[j] == d.seasons@[j].number as i32,
            decreases d.seasons@.len() - i,
        {
            #[verifier::truncate]
            let n: i32 = d.seasons[i].number as i32;
            seasons.push(n);
            i = i + 1;
        }
        assert(seasons@ =~= Seq::new(d.seasons@.len(), |i: int| d.seasons@[i].number as i32));
    } else {
        while i < split.len()
            invariant
                i <= split@.len(),
                seasons@.len() == i,
                forall|j: int| 0 <= j < i ==> #[trigger] seasons@[j] == split@[j].0 as i32,
            decreases split@.len() - i,
        {
            #[verifier::truncate]
            let n: i32 = split[i].0 as i32;
            seasons.push(n);
            i = i + 1;
        }
        assert(seasons@ =~= Seq::new(split@.len(), |i: int| split@[i].0 as i32));
    }
    let count: i64 = if whole {
        max_ep_for(&d.seasons, active_season)
    } else if d.seasons.len() > 0 {
        d.seasons[0].max_ep
    } else {
        0
    };
    let is_series = d.is_series || !whole;
    let cur = if d.id.as_str().is_empty() { opened_id } else { d.id.as_str() };
    DetailPane {
        title: d.title.clone(),
        overview: d.overview.clone(),
        meta: meta_line(d),
        is_series,
        dubs: chips_of(dubs, cur),
        seasons,
        episodes: episode_numbers(count),
        season: #[verifier::truncate] (active_season as i32),
        episode: if is_series { 1 } else { 0 },
    }
}

/// Whether a list of files has no subtitle track at all, and so has to be asked
/// for them: tracks come from elsewhere, not with the files.
pub open spec fn bare(files: Seq<FileView>) -> bool {
    &&& files.len() > 0
    &&& forall|i: int| 0 <= i < files.len() ==> (#[trigger] files[i]).captions.len() == 0
}

/// See [`bare`].
pub fn needs_captions(files: &Vec<StreamFile>) -> (r: bool)
    ensures
        r == bare(files_view(files@)),
{
    let mut i: usize = 0;
    while i < files.len()
        invariant
            i <= files@.len(),
            forall|j: int| 0 <= j < i ==> (#[trigger] files@[j])@.captions.len() == 0,
        decreases files@.len() - i,
    {
        if files[i].captions.len() > 0 {
            assert(files_view(files@)[i as int].captions.len() > 0);
            return false;
        }
        i = i + 1;
    }
    assert forall|j: int| 0 <= j < files_view(files@).len() implies (#[trigger] files_view(files@)[j]).captions.len() == 0 by {
        assert(files@[j]@.captions.len() == 0);
    }
    files.len() > 0
}

/// The resources to ask for tracks: the first three that differ.
pub open spec fn probed(ids: Seq<Seq<char>>) -> Seq<Seq<char>>
    decreases ids.len(),
{
    if ids.len() == 0 {
        Seq::empty()
    } else {
        let rest = probed(ids.drop_last());
        let id = ids.last();
        if rest.len() >= 3 || id.len() == 0 || rest.contains(id) { rest } else { rest.push(id) }
    }
}

/// The resource of each file.
pub open spec fn resource_ids(files: Seq<FileView>) -> Seq<Seq<char>> {
    Seq::new(files.len(), |i: int| files[i].resource_id)
}

fn has_text(v: &Vec<String>, s: &str) -> (r: bool)
    ensures
        r == views(v@).contains(s@),
{
    let mut i: usize = 0;
    while i < v.len()
        invariant
            i <= v@.len(),
            forall|j: int| 0 <= j < i ==> (#[trigger] v@[j])@ != s@,
        decreases v@.len() - i,
    {
        if same(v[i].as_str(), s) {
            assert(views(v@)[i as int] == s@);
            return true;
        }
        i = i + 1;
    }
    assert forall|j: int| 0 <= j < views(v@).len() implies views(v@)[j] != s@ by {
        assert(v@[j]@ != s@);
    }
    false
}

/// Which resources are asked for the tracks of an episode; none where the files
/// came with tracks.
pub fn captions_to_probe(files: &Vec<StreamFile>) -> (r: Vec<String>)
    ensures
        views(r@) == (if bare(files_view(files@)) { probed(resource_ids(files_view(files@))) } else { Seq::empty() }),
{
    let mut out: Vec<String> = Vec::new();
    assert(views(out@) =~= Seq::<Seq<char>>::empty());
    if !needs_captions(files) {
        return out;
    }
    let ghost all = resource_ids(files_view(files@));
    let mut i: usize = 0;
    assert(all.take(0) =~= Seq::<Seq<char>>::empty());
    while i < files.len()
        invariant
            i <= files@.len(),
            all == resource_ids(files_view(files@)),
            views(out@) == probed(all.take(i as int)),
            out@.len() == views(out@).len(),
        decreases files@.len() - i,
    {
        assert(all.take(i + 1).drop_last() =~= all.take(i as int));
        assert(all.take(i + 1).last() == files@[i as int].resource_id@);
        let id = &files[i].resource_id;
        if out.len() < 3 && !id.as_str().is_empty() && !has_text(&out, id.as_str()) {
            let ghost was = views(out@);
            out.push(id.clone());
            assert(views(out@) =~= was.push(id@));
        }
        i = i + 1;
    }
    assert(all.take(i as int) =~= all);
    out
}

/// The files of an episode with the tracks that were found: every file gets them
/// all, unless some file had tracks already or none was found.
pub open spec fn attached(files: Seq<FileView>, tracks: Seq<CaptionView>) -> Seq<FileView> {
    if !bare(files) || tracks.len() == 0 {
        files
    } else {
        Seq::new(files.len(), |i: int| FileView { captions: tracks, ..files[i] })
    }
}

/// See [`attached`].
pub fn attach_episode_captions(files: &Vec<StreamFile>, tracks: &Vec<Caption>) -> (r: Vec<StreamFile>)
    ensures
        files_view(r@) == attached(files_view(files@), captions_view(tracks@)),
{
    let take = needs_captions(files) && tracks.len() > 0;
    let mut out: Vec<StreamFile> = Vec::new();
    let mut i: usize = 0;
    while i < files.len()
        invariant
            i <= files@.len(),
            out@.len() == i,
            take == (bare(files_view(files@)) && tracks@.len() > 0),
            forall|j: int|
                0 <= j < i ==> (#[trigger] out@[j])@ == (if take {
                    FileView { captions: captions_view(tracks@), ..files@[j]@ }
                } else {
                    files@[j]@
                }),
        decreases files@.len() - i,
    {
        if take {
            out.push(files[i].with_captions(tracks));
        } else {
            out.push(files[i].copy());
        }
        i = i + 1;
    }
    proof {
        let want = attached(files_view(files@), captions_view(tracks@));
        assert forall|j: int| 0 <= j < want.len() implies files_view(out@)[j] == want[j] by {
            assert(out@[j]@ == files_view(out@)[j]);
            assert(files_view(files@)[j] == files@[j]@);
        }
        assert(files_view(out@) =~= want);
    }
    out
}

/// What became of a step of loading the files of an episode.
#[derive(Clone, Copy, Debug, PartialEq, Eq, Structural)]
pub enum Loaded {
    /// Nothing is kept.
    NoneKept,
    /// Files are kept; whether they have no tracks, and whether they are old.
    Kept { bare: bool, stale: bool },
    /// Tracks were looked for; whether some were found.
    Probed { gained: bool },
    /// What is kept was dealt with.
    Ready,
    /// No server could be asked.
    NoServer(StreamError),
    /// The servers could not say.
    Failed(StreamError),
    /// The servers answered; whether the answer differs from what was kept.
    Found { changed: bool },
}

/// What is to be done next.
#[derive(Clone, Copy, Debug, PartialEq, Eq, Structural)]
pub enum LoadAct {
    /// Nothing more.
    Leave,
    /// Go on.
    GoOn,
    /// Say that streams are looked for, and go on.
    SayFinding,
    /// Show what is kept; then look for tracks, or go on.
    PaintKept { probe: bool },
    /// Keep the files with their tracks, show them, and go on.
    KeepAndPaint,
    /// Ask the servers.
    Fetch,
    /// Say what went wrong.
    Say(StreamError),
    /// Show an empty list and say what went wrong.
    BlankAndSay(StreamError),
    /// Show what was found.
    PaintFound,
}

/// How far the loading of an episode's files has come.
#[derive(Clone, Copy, Debug, PartialEq, Eq, Structural)]
pub struct Load {
    /// Something is on screen.
    pub painted: bool,
    /// The servers are to be asked.
    pub wants: bool,
}

/// What a step leads to. Kept files are shown at once; the servers are asked where
/// nothing is kept or it is old; a list on screen is never taken away for an
/// error, nor painted again for an answer that changes nothing.
pub open spec fn load_next(l: Load, current: bool, heard: Loaded) -> (Load, LoadAct) {
    match heard {
        Loaded::NoneKept => (Load { painted: false, wants: true }, LoadAct::SayFinding),
        Loaded::Kept { bare, stale } => if current {
            (Load { painted: true, wants: stale }, LoadAct::PaintKept { probe: bare })
        } else {
            (l, LoadAct::Leave)
        },
        Loaded::Probed { gained } => (l, if gained && current { LoadAct::KeepAndPaint } else { LoadAct::GoOn }),
        Loaded::Ready => (l, if l.wants && current { LoadAct::Fetch } else { LoadAct::Leave }),
        Loaded::NoServer(e) => (l, if current && !l.painted { LoadAct::Say(e) } else { LoadAct::Leave }),
        Loaded::Failed(e) => (l, if current && !l.painted { LoadAct::BlankAndSay(e) } else { LoadAct::Leave }),
        Loaded::Found { changed } => (
            l,
            if current && (changed || !l.painted) { LoadAct::PaintFound } else { LoadAct::Leave },
        ),
    }
}

impl Load {
    /// Nothing done yet.
    pub fn new() -> (r: Load)
        ensures
            r == (Load { painted: false, wants: true }),
    {
        Load { painted: false, wants: true }
    }

    /// Takes in what became of a step; `current` says that the action it belongs
    /// to is still the newest.
    pub fn load_files(&mut self, current: bool, heard: Loaded) -> (r: LoadAct)
        ensures
            (*final(self), r) == load_next(*old(self), current, heard),
    {
        match heard {
            Loaded::NoneKept => {
                self.painted = false;
                self.wants = true;
                LoadAct::SayFinding
            },
            Loaded::Kept { bare, stale } => {
                if !current {
                    return LoadAct::Leave;
                }
                self.painted = true;
                self.wants = stale;
                LoadAct::PaintKept { probe: bare }
            },
            Loaded::Probed { gained } => {
                if gained && current {
                    LoadAct::KeepAndPaint
                } else {
                    LoadAct::GoOn
                }
            },
            Loaded::Ready => {
                if self.wants && current {
                    LoadAct::Fetch
                } else {
                    LoadAct::Leave
                }
            },
            Loaded::NoServer(e) => {
                if current && !self.painted {
                    LoadAct::Say(e)
                } else {
                    LoadAct::Leave
                }
            },
            Loaded::Failed(e) => {
                if current && !self.painted {
                    LoadAct::BlankAndSay(e)
                } else {
                    LoadAct::Leave
                }
            },
            Loaded::Found { changed } => {
                if current && (changed || !self.painted) {
                    LoadAct::PaintFound
                } else {
                    LoadAct::Leave
                }
            },
        }
    }
}

/// Whether a step puts files on the screen, or takes them off.
pub open spec fn paints(a: LoadAct) -> bool {
    a is PaintKept || a is KeepAndPaint || a is PaintFound || a is BlankAndSay
}

/// A slow answer for one episode never lands on another: once a newer action has
/// come, no step touches the list, says an error or asks the servers.
pub proof fn law_a_superseded_load_paints_nothing(l: Load, heard: Loaded)
    ensures
        ({
            let a = load_next(l, false, heard).1;
            !paints(a) && !(a is Say) && !(a is Fetch)
        }),
{
}

/// A list that is on screen stays there whatever goes wrong later.
pub proof fn law_an_error_keeps_the_list(l: Load, current: bool, e: StreamError)
    requires
        l.painted,
    ensures
        load_next(l, current, Loaded::NoServer(e)).1 is Leave,
        load_next(l, current, Loaded::Failed(e)).1 is Leave,
        load_next(l, current, Loaded::Found { changed: false }).1 is Leave,
{
}

/// A row of the list of files.
#[derive(Debug)]
pub struct StreamFileRow {
    pub index: usize,
    pub label: String,
    pub sub: String,
    pub uploader: String,
    pub subs: String,
    pub has_subs: bool,
}

/// What a row shows.
#[verifier::ext_equal]
pub struct FileRowView {
    pub index: int,
    pub label: Seq<char>,
    pub sub: Seq<char>,
    pub uploader: Seq<char>,
    pub subs: Seq<char>,
    pub has_subs: bool,
}

impl View for StreamFileRow {
    type V = FileRowView;

    open spec fn view(&self) -> FileRowView {
        FileRowView {
            index: self.index as int,
            label: self.label@,
            sub: self.sub@,
            uploader: self.uploader@,
            subs: self.subs@,
            has_subs: self.has_subs,
        }
    }
}

/// The rows as they are.
pub open spec fn file_rows_view(v: Seq<StreamFileRow>) -> Seq<FileRowView> {
    Seq::new(v.len(), |i: int| v[i]@)
}

/// A rung.
pub open spec fn rung(resolution: int) -> Seq<char> {
    if resolution > 0 { dec_int(resolution) + "p"@ } else { "Auto"@ }
}

/// How many tracks a file has.
pub open spec fn subs_text(n: nat) -> Seq<char> {
    if n == 0 { "No subs"@ } else if n == 1 { "1 sub"@ } else { dec(n) + " subs"@ }
}

/// The row of a file.
pub open spec fn file_row(f: FileView, i: int) -> FileRowView {
    FileRowView {
        index: i,
        label: rung(f.resolution),
        sub: file_text(f),
        uploader: f.uploader,
        subs: subs_text(f.captions.len()),
        has_subs: f.captions.len() > 0,
    }
}

fn row_of(f: &StreamFile, index: usize) -> (r: StreamFileRow)
    ensures
        r@ == file_row(f@, index as int),
{
    let n: usize = f.captions.len();
    let label = if f.resolution > 0 {
        let mut s = String::new();
        push_dec_int(&mut s, f.resolution);
        assert(s@ =~= dec_int(f.resolution as int));
        s.append("p");
        s
    } else {
        "Auto".to_owned()
    };
    let subs = if n == 0 {
        "No subs".to_owned()
    } else if n == 1 {
        "1 sub".to_owned()
    } else {
        let mut s = String::new();
        push_dec(&mut s, n as u64);
        assert(s@ =~= dec(n as nat));
        s.append(" subs");
        s
    };
    StreamFileRow { index, label, sub: file_sub(f), uploader: f.uploader.clone(), subs, has_subs: n > 0 }
}

/// What a track is called in the picker.
pub open spec fn track_label(c: CaptionView, i: int) -> Seq<char> {
    if c.lang.len() == 0 { "Track "@ + dec((i + 1) as nat) } else { c.lang }
}

/// The picker of tracks.
pub open spec fn track_chips(tracks: Seq<CaptionView>, choice: Option<int>) -> Seq<ChipView> {
    Seq::new(tracks.len(), |i: int| (dec(i as nat), track_label(tracks[i], i), Some(i) == choice))
}

fn track_chips_of(tracks: &Vec<Caption>, choice: Option<usize>) -> (r: Vec<StreamChip>)
    ensures
        chips_view(r@) == track_chips(captions_view(tracks@), place(choice)),
{
    let total: usize = tracks.len();
    let mut out: Vec<StreamChip> = Vec::new();
    let mut i: usize = 0;
    while i < total
        invariant
            total == tracks@.len(),
            i <= total,
            out@.len() == i,
            forall|j: int|
                0 <= j < i ==> ((#[trigger] out@[j]).id@, out@[j].label@, out@[j].active) == track_chips(
                    captions_view(tracks@),
                    place(choice),
                )[j],
        decreases total - i,
    {
        let mut id = String::new();
        push_dec(&mut id, i as u64);
        assert(id@ =~= dec(i as nat));
        let label = if tracks[i].lang.as_str().is_empty() {
            let mut s = "Track ".to_owned();
            push_dec(&mut s, i as u64 + 1);
            s
        } else {
            tracks[i].lang.clone()
        };
        let active = match choice {
            Some(c) => c == i,
            None => false,
        };
        assert(captions_view(tracks@)[i as int] == tracks@[i as int]@);
        out.push(StreamChip { id, label, active });
        i = i + 1;
    }
    assert(chips_view(out@) =~= track_chips(captions_view(tracks@), place(choice)));
    out
}

/// A place as a number.
pub open spec fn place(i: Option<usize>) -> Option<int> {
    match i {
        Some(k) => Some(k as int),
        None => None,
    }
}

/// What is said of a list of files.
pub open spec fn files_status(n: nat, from_cache: bool, resolution: Seq<char>) -> Seq<char> {
    let label = if resolution.len() == 0 { "all qualities"@ } else { resolution + "p"@ };
    if n == 0 {
        "No streams at this quality — try another."@
    } else if from_cache {
        dec(n) + " streams · "@ + label + " · saved"@
    } else {
        dec(n) + " streams · "@ + label
    }
}

/// See [`files_status`].
pub fn status_of_files(n: usize, from_cache: bool, resolution: &str) -> (r: String)
    ensures
        r@ == files_status(n as nat, from_cache, resolution@),
{
    if n == 0 {
        return "No streams at this quality — try another.".to_owned();
    }
    let label = if resolution.is_empty() {
        "all qualities".to_owned()
    } else {
        let mut l = resolution.to_owned();
        l.append("p");
        l
    };
    let mut s = String::new();
    push_dec(&mut s, n as u64);
    assert(s@ =~= dec(n as nat));
    s.append(" streams · ");
    s.append(label.as_str());
    if from_cache {
        s.append(" · saved");
    }
    s
}

/// The list of files as it is shown.
#[derive(Debug)]
pub struct Painted {
    pub rows: Vec<StreamFileRow>,
    pub subs: Vec<StreamChip>,
    pub sub_choice: Option<usize>,
    pub current: Option<usize>,
    pub current_label: String,
    pub status: String,
}

/// Shows the files of an episode. The language picked before is picked again where
/// the episode has it, and the file to be played is armed.
pub fn paint_files(st: &mut StreamState, found: Vec<StreamFile>, armed: Option<usize>, from_cache: bool) -> (r: Painted)
    ensures
        ({
            let files = files_view(found@);
            let tracks = tracks_of(tracks_by_file(files));
            &&& final(st).files@ == found@
            &&& captions_view(final(st).subs@) == tracks
            &&& place(final(st).sub_choice) == (match opt_string(old(st).sub_lang) {
                Some(l) => place_of_lang(final(st).subs@, l),
                None => None,
            })
            &&& final(st).current_stream == (match armed {
                Some(i) => i,
                None => 0,
            })
            &&& file_rows_view(r.rows@) == Seq::new(files.len(), |i: int| file_row(files[i], i))
            &&& chips_view(r.subs@) == track_chips(tracks, place(r.sub_choice))
            &&& r.sub_choice == final(st).sub_choice
            &&& r.current == armed
            &&& r.current_label@ == (match armed {
                Some(i) if i < files.len() => stream_name(files[i as int].resolution),
                _ => Seq::empty(),
            })
            &&& r.status@ == files_status(files.len(), from_cache, old(st).resolution@)
        }),
        *final(st) == (StreamState {
            files: final(st).files,
            subs: final(st).subs,
            sub_choice: final(st).sub_choice,
            current_stream: final(st).current_stream,
            ..*old(st)
        }),
{
    let ghost files = files_view(found@);
    let mut rows: Vec<StreamFileRow> = Vec::new();
    let mut i: usize = 0;
    while i < found.len()
        invariant
            i <= found@.len(),
            files == files_view(found@),
            rows@.len() == i,
            forall|j: int| 0 <= j < i ==> (#[trigger] rows@[j])@ == file_row(files[j], j),
        decreases found@.len() - i,
    {
        assert(files[i as int] == found@[i as int]@);
        rows.push(row_of(&found[i], i));
        i = i + 1;
    }
    assert(file_rows_view(rows@) =~= Seq::new(files.len(), |i: int| file_row(files[i], i)));
    let tracks = caption_union(&found);
    let choice = match &st.sub_lang {
        Some(l) => find_lang(&tracks, l.as_str()),
        None => None,
    };
    let chips = track_chips_of(&tracks, choice);
    let current_label = match armed {
        Some(i) => {
            if i < found.len() {
                stream_label(found[i].resolution)
            } else {
                String::new()
            }
        },
        None => String::new(),
    };
    assert(!(armed matches Some(i) && i < files.len()) ==> current_label@ =~= Seq::<char>::empty());
    let status = status_of_files(found.len(), from_cache, st.resolution.as_str());
    st.subs = tracks;
    st.sub_choice = choice;
    st.files = found;
    st.current_stream = match armed {
        Some(i) => i,
        None => 0,
    };
    Painted { rows, subs: chips, sub_choice: choice, current: armed, current_label, status }
}

/// The resources that are asked for tracks are the first that differ, three at most; none is
/// asked twice, and fewer than three only where there are no more.
pub proof fn law_three_resources_are_asked_at_most(ids: Seq<Seq<char>>)
    ensures
        probed(ids).len() <= 3,
        probed(ids).no_duplicates(),
        forall|x: Seq<char>| #[trigger] probed(ids).contains(x) ==> ids.contains(x) && x.len() > 0,
        probed(ids).len() < 3 ==> forall|x: Seq<char>| ids.contains(x) && x.len() > 0 ==> #[trigger] probed(ids).contains(x),
    decreases ids.len(),
{
    let all = probed(ids);
    if ids.len() > 0 {
        let front = ids.drop_last();
        let rest = probed(front);
        let last = ids.last();
        law_three_resources_are_asked_at_most(front);
        assert(ids[ids.len() - 1] == last);
        assert forall|x: Seq<char>| #[trigger] all.contains(x) implies ids.contains(x) && x.len() > 0 by {
            let k = choose|k: int| 0 <= k < all.len() && all[k] == x;
            if k < rest.len() {
                assert(rest.contains(rest[k]));
                let j = choose|j: int| 0 <= j < front.len() && front[j] == x;
                assert(ids[j] == x);
            }
        }
        if all.len() < 3 {
            assert forall|x: Seq<char>| ids.contains(x) && x.len() > 0 implies #[trigger] all.contains(x) by {
                let j = choose|j: int| 0 <= j < ids.len() && ids[j] == x;
                if j < front.len() {
                    assert(front[j] == x);
                    assert(rest.contains(x));
                    let k = choose|k: int| 0 <= k < rest.len() && rest[k] == x;
                    assert(all[k] == x);
                } else if rest.contains(x) {
                    let k = choose|k: int| 0 <= k < rest.len() && rest[k] == x;
                    assert(all[k] == x);
                } else {
                    assert(all[rest.len() as int] == x);
                }
            }
        }
    }
}

/// Tracks are given to every file, all of them, exactly where no file had any and some were
/// found; nothing else of a file changes.
pub proof fn law_tracks_go_to_every_file_that_had_none(files: Seq<FileView>, tracks: Seq<CaptionView>, i: int)
    requires
        0 <= i < files.len(),
    ensures
        attached(files, tracks).len() == files.len(),
        tracks.len() == 0 ==> attached(files, tracks) == files,
        (exists|k: int| 0 <= k < files.len() && (#[trigger] files[k]).captions.len() > 0) ==> attached(files, tracks) == files,
        (forall|k: int| 0 <= k < files.len() ==> (#[trigger] files[k]).captions.len() == 0) && tracks.len() > 0 ==> attached(files, tracks)[i] == (FileView {
            captions: tracks,
            ..files[i]
        }),
{
}

/// The open cut is the one that is picked, and each cut has its chip.
pub proof fn law_the_open_cut_is_picked(dubs: Seq<Dub>, cur: Seq<char>, i: int)
    requires
        0 <= i < dubs.len(),
    ensures
        dub_chips(dubs, cur).len() == dubs.len(),
        dub_chips(dubs, cur)[i].0 == dubs[i].subject_id@,
        dub_chips(dubs, cur)[i].1 == dubs[i].name@,
        dub_chips(dubs, cur)[i].2 == (dubs[i].subject_id@ == cur),
{
}

/// A file's row says its rung, who put it up and how many tracks it has.
pub proof fn law_a_file_row_says_what_it_is(f: FileView, i: int)
    ensures
        file_row(f, i).index == i,
        file_row(f, i).uploader == f.uploader,
        file_row(f, i).has_subs == (f.captions.len() > 0),
        f.resolution > 0 ==> file_row(f, i).label == dec_int(f.resolution) + "p"@,
        f.resolution <= 0 ==> file_row(f, i).label == "Auto"@,
        f.captions.len() == 0 ==> file_row(f, i).subs == "No subs"@,
        f.captions.len() == 1 ==> file_row(f, i).subs == "1 sub"@,
        f.captions.len() > 1 ==> file_row(f, i).subs == dec(f.captions.len()) + " subs"@,
{
}

/// Each track has its chip under its place, called by its language or else by its number from
/// one, and exactly the one that was chosen is picked.
pub proof fn law_the_chosen_track_is_picked(tracks: Seq<CaptionView>, choice: Option<int>, i: int)
    requires
        0 <= i < tracks.len(),
    ensures
        track_chips(tracks, choice).len() == tracks.len(),
        track_chips(tracks, choice)[i].0 == dec(i as nat),
        tracks[i].lang.len() > 0 ==> track_chips(tracks, choice)[i].1 == tracks[i].lang,
        tracks[i].lang.len() == 0 ==> track_chips(tracks, choice)[i].1 == "Track "@ + dec((i + 1) as nat),
        track_chips(tracks, choice)[i].2 == (choice == Some(i)),
{
}

/// What is said of a list of files: how many there are, at which quality, and whether they
/// were kept; of an empty one, that there are none.
pub proof fn law_a_list_of_files_is_counted(n: nat, from_cache: bool, resolution: Seq<char>)
    requires
        n > 0,
    ensures
        ({
            let label = if resolution.len() == 0 { "all qualities"@ } else { resolution + "p"@ };
            &&& files_status(n, true, resolution) == dec(n) + " streams · "@ + label + " · saved"@
            &&& files_status(n, false, resolution) == dec(n) + " streams · "@ + label
        }),
        files_status(0, from_cache, resolution) == "No streams at this quality — try another."@,
{
}

/// Kept files are shown at once and fetched again only where they are old; the servers are
/// asked only where that is wanted; what they answer is painted only where it changes
/// something or nothing is on the screen.
pub proof fn law_a_load_goes_its_way(l: Load, bare: bool, stale: bool, gained: bool, changed: bool)
    ensures
        load_next(l, true, Loaded::NoneKept) == ((Load { painted: false, wants: true }), LoadAct::SayFinding),
        load_next(l, true, (Loaded::Kept { bare, stale })) == ((Load { painted: true, wants: stale }), (LoadAct::PaintKept { probe: bare })),
        load_next(l, true, (Loaded::Probed { gained })).1 == (if gained { LoadAct::KeepAndPaint } else { LoadAct::GoOn }),
        load_next(l, true, Loaded::Ready).1 == (if l.wants { LoadAct::Fetch } else { LoadAct::Leave }),
        load_next(l, true, (Loaded::Found { changed })).1 == (if changed || !l.painted { LoadAct::PaintFound } else { LoadAct::Leave }),
{
}

} // verus!
