//! The section of live television as it is used: what each of its buttons changes,
//! and what is done for it.

use vstd::prelude::*;
use super::livetv::{
    fetching, fetching_text, is_page, loaded, loaded_text, loads_on_entry, opening, opening_text, push_channels,
    resync_now, stream_at, toggle_playlist, toggled, Channel, ChannelPage,
};
use super::splus::title::copy_texts;
use super::stream::state::{bumped, Guard};
use crate::text::views;
use crate::transfer::words::page_count;

verus! {

/// What a channel is.
#[verifier::ext_equal]
pub struct ChannelView {
    pub id: Seq<char>,
    pub name: Seq<char>,
    pub group: Seq<char>,
    pub logo: Seq<char>,
    pub url: Seq<char>,
    pub res: u32,
}

impl View for Channel {
    type V = ChannelView;

    open spec fn view(&self) -> ChannelView {
        ChannelView {
            id: self.id@,
            name: self.name@,
            group: self.group@,
            logo: self.logo@,
            url: self.url@,
            res: self.res,
        }
    }
}

impl Channel {
    /// The same channel once more.
    pub fn copy(&self) -> (r: Channel)
        ensures
            r@ == self@,
    {
        Channel {
            id: self.id.clone(),
            name: self.name.clone(),
            group: self.group.clone(),
            logo: self.logo.clone(),
            url: self.url.clone(),
            res: self.res,
        }
    }
}

/// The section: the channels that are loaded, the playlists that are picked, the
/// channel that plays with its place among them, how the grid is narrowed and sorted,
/// and which load and which player are the newest.
#[derive(Debug)]
pub struct Tuner {
    pub channels: Vec<Channel>,
    pub picked: Vec<String>,
    pub now: Option<(usize, Channel)>,
    pub query: String,
    pub group: String,
    pub sort: String,
    pub asc: bool,
    pub page: i64,
    pub loads: Guard,
    pub plays: Guard,
}

/// What the section is.
#[verifier::ext_equal]
pub struct TunerView {
    pub channels: Seq<Channel>,
    pub picked: Seq<Seq<char>>,
    pub now: Option<(int, ChannelView)>,
    pub query: Seq<char>,
    pub group: Seq<char>,
    pub sort: Seq<char>,
    pub asc: bool,
    pub page: int,
    pub loads: u64,
    pub plays: u64,
}

/// The channel that plays, as it is.
pub open spec fn now_view(now: Option<(usize, Channel)>) -> Option<(int, ChannelView)> {
    match now {
        Some((i, c)) => Some((i as int, c@)),
        None => None,
    }
}

impl View for Tuner {
    type V = TunerView;

    open spec fn view(&self) -> TunerView {
        TunerView {
            channels: self.channels@,
            picked: views(self.picked@),
            now: now_view(self.now),
            query: self.query@,
            group: self.group@,
            sort: self.sort@,
            asc: self.asc,
            page: self.page as int,
            loads: self.loads.now,
            plays: self.plays.now,
        }
    }
}

/// What the section hears.
#[derive(Debug)]
pub enum Wish {
    /// It is entered; these playlists were kept.
    Enter(Vec<String>),
    /// The playlists are to be fetched anew.
    Refresh,
    /// A load brought these channels.
    Loaded(u64, Vec<Channel>),
    /// Logos came.
    Logos,
    Search(String),
    SetGroup(String),
    SetPage(i64),
    SetSort(String, bool),
    /// The channel of this place is to play.
    Play(i32),
    /// A player ended.
    Ended(u64),
    /// The picker is opened, or its box is typed in.
    Picker,
    Toggle(String),
    ClearPicks,
    SavePicks,
    /// The picks were kept, in this form; or they were not, for this reason.
    Saved(Result<Vec<String>, String>),
}

/// One thing that is done.
#[derive(Debug)]
pub enum Deed {
    /// The number of picked playlists is shown.
    CountPicked(usize),
    /// The grid, the sidebar and their counts are emptied.
    Blank,
    /// What was kept of the playlists is dropped.
    DropCache,
    /// The playlists are fetched for a load.
    Fetch(u64, Vec<String>),
    /// The number of channels is shown, and that nothing is fetched any more.
    Total(usize),
    Say(String),
    PaintGroups,
    PaintChannels,
    PaintPlaylists,
    /// The pill shows the channel that plays.
    ShowNow,
    /// The channel plays, but no card of the grid is its own.
    NoCard,
    /// The pill is emptied.
    ClearNow,
    /// A player is started for a stream, under the name of its channel.
    Start(u64, String, String),
    /// The picks are kept.
    Keep(Vec<String>),
}

/// What a deed is.
#[verifier::ext_equal]
pub enum DeedView {
    CountPicked(int),
    Blank,
    DropCache,
    Fetch(u64, Seq<Seq<char>>),
    Total(int),
    Say(Seq<char>),
    PaintGroups,
    PaintChannels,
    PaintPlaylists,
    ShowNow,
    NoCard,
    ClearNow,
    Start(u64, Seq<char>, Seq<char>),
    Keep(Seq<Seq<char>>),
}

impl View for Deed {
    type V = DeedView;

    open spec fn view(&self) -> DeedView {
        match *self {
            Deed::CountPicked(n) => DeedView::CountPicked(n as int),
            Deed::Blank => DeedView::Blank,
            Deed::DropCache => DeedView::DropCache,
            Deed::Fetch(load, urls) => DeedView::Fetch(load, views(urls@)),
            Deed::Total(n) => DeedView::Total(n as int),
            Deed::Say(words) => DeedView::Say(words@),
            Deed::PaintGroups => DeedView::PaintGroups,
            Deed::PaintChannels => DeedView::PaintChannels,
            Deed::PaintPlaylists => DeedView::PaintPlaylists,
            Deed::ShowNow => DeedView::ShowNow,
            Deed::NoCard => DeedView::NoCard,
            Deed::ClearNow => DeedView::ClearNow,
            Deed::Start(play, url, name) => DeedView::Start(play, url@, name@),
            Deed::Keep(urls) => DeedView::Keep(views(urls@)),
        }
    }
}

/// The deeds as they are.
pub open spec fn deeds_view(v: Seq<Deed>) -> Seq<DeedView> {
    Seq::new(v.len(), |i: int| v[i]@)
}

/// What follows something that was heard: the section, and what is done.
pub type After = (TunerView, Seq<DeedView>);

/// The picked playlists are fetched; without any the grid is emptied. A fetch that was
/// asked for is announced.
pub open spec fn load_after(t: TunerView, announce: bool) -> After {
    if t.picked.len() == 0 {
        (TunerView { page: 0, ..t }, seq![DeedView::Blank])
    } else {
        let load = bumped(t.loads);
        let fetch = seq![DeedView::Fetch(load, t.picked)];
        (
            TunerView { loads: load, ..t },
            if announce { fetch.push(DeedView::Say(fetching_text(t.picked.len()))) } else { fetch },
        )
    }
}

/// On entering, what was kept is picked where nothing is picked yet, and it is loaded
/// where nothing is loaded yet.
pub open spec fn enter_after(t: TunerView, kept: Seq<Seq<char>>) -> After {
    let u = if t.picked.len() == 0 { TunerView { picked: kept, ..t } } else { t };
    let count = seq![DeedView::CountPicked(u.picked.len() as int)];
    if u.picked.len() > 0 && u.channels.len() == 0 {
        let l = load_after(u, false);
        (l.0, count + l.1)
    } else {
        (u, count)
    }
}

/// The channels of a load take the place of those before, unless a newer load has
/// begun. The channel that plays is found again by its stream; where it is gone it plays
/// on, and no card is its own.
pub open spec fn loaded_after(t: TunerView, load: u64, channels: Seq<Channel>) -> After {
    if load != t.loads {
        (t, Seq::empty())
    } else {
        let u = TunerView { channels, page: 0, ..t };
        let painted = seq![
            DeedView::Total(channels.len() as int),
            DeedView::Say(loaded_text(channels.len())),
            DeedView::PaintGroups,
            DeedView::PaintChannels,
        ];
        match t.now {
            None => (u, painted),
            Some((_, c)) => match stream_at(channels, c.url) {
                Some(i) => (TunerView { now: Some((i, c)), ..u }, painted.push(DeedView::ShowNow)),
                None => (u, painted.push(DeedView::NoCard)),
            },
        }
    }
}

/// A channel that is listed starts to play, and is the one that plays from then on.
pub open spec fn play_after(t: TunerView, index: int) -> After {
    let i = if index < 0 { 0 } else { index };
    if i >= t.channels.len() {
        (t, Seq::empty())
    } else {
        let c = t.channels[i]@;
        let play = bumped(t.plays);
        (
            TunerView { now: Some((i, c)), plays: play, ..t },
            seq![DeedView::Say(opening_text(c.name)), DeedView::ShowNow, DeedView::Start(play, c.url, c.name)],
        )
    }
}

/// What follows something that was heard.
pub open spec fn tuner_after(t: TunerView, w: Wish) -> After {
    let paint = seq![DeedView::PaintChannels];
    match w {
        Wish::Enter(kept) => enter_after(t, views(kept@)),
        Wish::Refresh => {
            let l = load_after(t, true);
            (l.0, seq![DeedView::DropCache] + l.1)
        },
        Wish::Loaded(load, channels) => loaded_after(t, load, channels@),
        Wish::Logos => (t, if t.now is Some { paint.push(DeedView::ShowNow) } else { paint }),
        Wish::Search(q) => (TunerView { query: q@, page: 0, ..t }, paint),
        Wish::SetGroup(g) => (TunerView { group: g@, page: 0, ..t }, paint),
        Wish::SetPage(p) => (TunerView { page: if p < 0 { 0 } else { p as int }, ..t }, paint),
        Wish::SetSort(key, asc) => (TunerView { sort: key@, asc, page: 0, ..t }, paint),
        Wish::Play(i) => play_after(t, i as int),
        Wish::Ended(play) => if play == t.plays {
            (TunerView { now: None, ..t }, seq![DeedView::ClearNow])
        } else {
            (t, Seq::empty())
        },
        Wish::Picker => (t, seq![DeedView::PaintPlaylists]),
        Wish::Toggle(url) => {
            let picked = toggled(t.picked, url@);
            (
                TunerView { picked, ..t },
                seq![DeedView::CountPicked(picked.len() as int), DeedView::PaintPlaylists],
            )
        },
        Wish::ClearPicks => (
            TunerView { picked: Seq::empty(), ..t },
            seq![DeedView::CountPicked(0), DeedView::PaintPlaylists],
        ),
        Wish::SavePicks => (t, seq![DeedView::Keep(t.picked)]),
        Wish::Saved(Ok(saved)) => {
            let u = TunerView { picked: views(saved@), ..t };
            let l = load_after(u, true);
            (l.0, seq![DeedView::CountPicked(u.picked.len() as int)] + l.1)
        },
        Wish::Saved(Err(why)) => (t, seq![DeedView::Say(why@)]),
    }
}

/// The first deeds and the ones behind them.
fn chained(first: Vec<Deed>, rest: Vec<Deed>) -> (r: Vec<Deed>)
    ensures
        deeds_view(r@) == deeds_view(first@) + deeds_view(rest@),
{
    let mut out = first;
    let mut more = rest;
    let ghost all = rest@;
    out.append(&mut more);
    assert(deeds_view(out@) =~= deeds_view(first@) + deeds_view(all));
    out
}

impl Tuner {
    /// A section that was not entered yet.
    pub fn new() -> (r: Tuner)
        ensures
            r@ == (TunerView {
                channels: Seq::empty(),
                picked: Seq::empty(),
                now: None,
                query: ""@,
                group: ""@,
                sort: "default"@,
                asc: true,
                page: 0,
                loads: 0,
                plays: 0,
            }),
    {
        let r = Tuner {
            channels: Vec::new(),
            picked: Vec::new(),
            now: None,
            query: "".to_owned(),
            group: "".to_owned(),
            sort: "default".to_owned(),
            asc: true,
            page: 0,
            loads: Guard::new(),
            plays: Guard::new(),
        };
        assert(views(r.picked@) =~= Seq::<Seq<char>>::empty());
        r
    }

    fn load(&mut self, announce: bool) -> (r: Vec<Deed>)
        ensures
            (final(self)@, deeds_view(r@)) == load_after(old(self)@, announce),
    {
        let n: usize = self.picked.len();
        if n == 0 {
            self.page = 0;
            let r = vec![Deed::Blank];
            assert(deeds_view(r@) =~= seq![DeedView::Blank]);
            return r;
        }
        let load = self.loads.next_epoch();
        let urls = copy_texts(&self.picked);
        let mut r = vec![Deed::Fetch(load, urls)];
        let ghost fetch = seq![DeedView::Fetch(load, views(self.picked@))];
        assert(deeds_view(r@) =~= fetch);
        if announce {
            r.push(Deed::Say(fetching(n as u64)));
            assert(deeds_view(r@) =~= fetch.push(DeedView::Say(fetching_text(n as nat))));
        }
        r
    }

    fn enter(&mut self, kept: Vec<String>) -> (r: Vec<Deed>)
        ensures
            (final(self)@, deeds_view(r@)) == enter_after(old(self)@, views(kept@)),
    {
        if self.picked.len() == 0 {
            self.picked = kept;
        }
        let n: usize = self.picked.len();
        let count = vec![Deed::CountPicked(n)];
        assert(deeds_view(count@) =~= seq![DeedView::CountPicked(n as int)]);
        if loads_on_entry(n, self.channels.len()) {
            chained(count, self.load(false))
        } else {
            count
        }
    }

    fn take(&mut self, load: u64, channels: Vec<Channel>) -> (r: Vec<Deed>)
        ensures
            (final(self)@, deeds_view(r@)) == loaded_after(old(self)@, load, channels@),
    {
        if !self.loads.is_current(load) {
            let r: Vec<Deed> = Vec::new();
            assert(deeds_view(r@) =~= Seq::<DeedView>::empty());
            return r;
        }
        let n: usize = channels.len();
        let ghost list = channels@;
        self.channels = channels;
        self.page = 0;
        let mut r = vec![Deed::Total(n), Deed::Say(loaded(n as u64)), Deed::PaintGroups, Deed::PaintChannels];
        let ghost painted = seq![
            DeedView::Total(n as int),
            DeedView::Say(loaded_text(n as nat)),
            DeedView::PaintGroups,
            DeedView::PaintChannels,
        ];
        assert(deeds_view(r@) =~= painted);
        match self.now.take() {
            None => {},
            Some((was, c)) => {
                match resync_now(&self.channels, c.url.as_str()) {
                    Some(i) => {
                        self.now = Some((i, c));
                        r.push(Deed::ShowNow);
                        assert(deeds_view(r@) =~= painted.push(DeedView::ShowNow));
                    },
                    None => {
                        self.now = Some((was, c));
                        r.push(Deed::NoCard);
                        assert(deeds_view(r@) =~= painted.push(DeedView::NoCard));
                    },
                }
            },
        }
        r
    }

    fn play(&mut self, index: i32) -> (r: Vec<Deed>)
        ensures
            (final(self)@, deeds_view(r@)) == play_after(old(self)@, index as int),
    {
        let i: usize = if index < 0 {
            0
        } else {
            index as usize
        };
        if i >= self.channels.len() {
            let r: Vec<Deed> = Vec::new();
            assert(deeds_view(r@) =~= Seq::<DeedView>::empty());
            return r;
        }
        let c = self.channels[i].copy();
        let ghost v = c@;
        let play = self.plays.next_epoch();
        let r = vec![
            Deed::Say(opening(c.name.as_str())),
            Deed::ShowNow,
            Deed::Start(play, c.url.clone(), c.name.clone()),
        ];
        assert(deeds_view(r@) =~= seq![
            DeedView::Say(opening_text(v.name)),
            DeedView::ShowNow,
            DeedView::Start(play, v.url, v.name),
        ]);
        self.now = Some((i, c));
        r
    }

    /// What a button or an event changes, and what is done for it.
    pub fn wire(&mut self, w: Wish) -> (r: Vec<Deed>)
        ensures
            (final(self)@, deeds_view(r@)) == tuner_after(old(self)@, w),
    {
        let r: Vec<Deed>;
        match w {
            Wish::Enter(kept) => {
                r = self.enter(kept);
            },
            Wish::Refresh => {
                let first = vec![Deed::DropCache];
                assert(deeds_view(first@) =~= seq![DeedView::DropCache]);
                r = chained(first, self.load(true));
            },
            Wish::Loaded(load, channels) => {
                r = self.take(load, channels);
            },
            Wish::Logos => {
                if self.now.is_some() {
                    r = vec![Deed::PaintChannels, Deed::ShowNow];
                    assert(deeds_view(r@) =~= seq![DeedView::PaintChannels].push(DeedView::ShowNow));
                } else {
                    r = vec![Deed::PaintChannels];
                    assert(deeds_view(r@) =~= seq![DeedView::PaintChannels]);
                }
            },
            Wish::Search(q) => {
                self.query = q;
                self.page = 0;
                r = vec![Deed::PaintChannels];
                assert(deeds_view(r@) =~= seq![DeedView::PaintChannels]);
            },
            Wish::SetGroup(g) => {
                self.group = g;
                self.page = 0;
                r = vec![Deed::PaintChannels];
                assert(deeds_view(r@) =~= seq![DeedView::PaintChannels]);
            },
            Wish::SetPage(p) => {
                self.page = if p < 0 {
                    0
                } else {
                    p
                };
                r = vec![Deed::PaintChannels];
                assert(deeds_view(r@) =~= seq![DeedView::PaintChannels]);
            },
            Wish::SetSort(key, asc) => {
                self.sort = key;
                self.asc = asc;
                self.page = 0;
                r = vec![Deed::PaintChannels];
                assert(deeds_view(r@) =~= seq![DeedView::PaintChannels]);
            },
            Wish::Play(i) => {
                r = self.play(i);
            },
            Wish::Ended(play) => {
                if self.plays.is_current(play) {
                    self.now = None;
                    r = vec![Deed::ClearNow];
                    assert(deeds_view(r@) =~= seq![DeedView::ClearNow]);
                } else {
                    r = Vec::new();
                    assert(deeds_view(r@) =~= Seq::<DeedView>::empty());
                }
            },
            Wish::Picker => {
                r = vec![Deed::PaintPlaylists];
                assert(deeds_view(r@) =~= seq![DeedView::PaintPlaylists]);
            },
            Wish::Toggle(url) => {
                toggle_playlist(&mut self.picked, url.as_str());
                let n: usize = self.picked.len();
                r = vec![Deed::CountPicked(n), Deed::PaintPlaylists];
                assert(deeds_view(r@) =~= seq![DeedView::CountPicked(n as int), DeedView::PaintPlaylists]);
            },
            Wish::ClearPicks => {
                self.picked = Vec::new();
                assert(views(self.picked@) =~= Seq::<Seq<char>>::empty());
                r = vec![Deed::CountPicked(0), Deed::PaintPlaylists];
                assert(deeds_view(r@) =~= seq![DeedView::CountPicked(0), DeedView::PaintPlaylists]);
            },
            Wish::SavePicks => {
                let urls = copy_texts(&self.picked);
                r = vec![Deed::Keep(urls)];
                assert(deeds_view(r@) =~= seq![DeedView::Keep(views(self.picked@))]);
            },
            Wish::Saved(Ok(saved)) => {
                self.picked = saved;
                let n: usize = self.picked.len();
                let count = vec![Deed::CountPicked(n)];
                assert(deeds_view(count@) =~= seq![DeedView::CountPicked(n as int)]);
                r = chained(count, self.load(true));
            },
            Wish::Saved(Err(why)) => {
                r = vec![Deed::Say(why)];
                assert(deeds_view(r@) =~= seq![DeedView::Say(why@)]);
            },
        }
        r
    }

    /// The page of the grid that is shown; a page that there is none of gives way to
    /// the last.
    pub fn paint(&mut self) -> (r: ChannelPage)
        ensures
            is_page(
                old(self).channels@,
                old(self).query@,
                old(self).group@,
                old(self).sort@,
                old(self).asc,
                old(self).page as int,
                r,
            ),
            final(self)@ == (TunerView { page: r.page as int, ..old(self)@ }),
    {
        let r = push_channels(
            &self.channels,
            self.query.as_str(),
            self.group.as_str(),
            self.sort.as_str(),
            self.asc,
            self.page,
        );
        assert(r.page <= i64::MAX) by {
            assert(r.pages == page_count(r.matched as int, 42));
        }
        self.page = r.page as i64;
        r
    }
}

/// A load that a newer one overtook changes nothing.
pub proof fn law_an_overtaken_load_changes_nothing(t: TunerView, w: Wish, channels: Vec<Channel>)
    requires
        w is Refresh,
        t.picked.len() > 0,
    ensures
        ({
            let again = tuner_after(t, w).0;
            tuner_after(again, Wish::Loaded(t.loads, channels)) == (again, Seq::<DeedView>::empty())
        }),
{
}

/// The end of the player before leaves the channel that was switched to alone.
pub proof fn law_a_switch_keeps_the_new_channel(t: TunerView, i: i32)
    requires
        0 <= i < t.channels.len(),
    ensures
        ({
            let switched = tuner_after(t, Wish::Play(i)).0;
            &&& switched.now == Some((i as int, t.channels[i as int]@))
            &&& tuner_after(switched, Wish::Ended(t.plays)) == (switched, Seq::<DeedView>::empty())
            &&& tuner_after(switched, Wish::Ended(switched.plays)).0.now is None
        }),
{
}

/// A grid that is narrowed or sorted otherwise begins at its first page.
pub proof fn law_a_new_grid_begins_at_its_first_page(t: TunerView, w: Wish)
    requires
        w is Search || w is SetGroup || w is SetSort,
    ensures
        tuner_after(t, w).0.page == 0,
{
}

/// Fetching the playlists anew leaves the channel that plays, and the picks, alone.
pub proof fn law_a_reload_leaves_the_player_alone(t: TunerView, channels: Vec<Channel>)
    ensures
        ({
            let r = tuner_after(t, Wish::Loaded(t.loads, channels)).0;
            &&& r.picked == t.picked
            &&& r.plays == t.plays
            &&& t.now is None ==> r.now is None
            &&& t.now matches Some(n) ==> (r.now matches Some(m) && m.1 == n.1)
        }),
{
}

/// What was kept is picked on entering only where nothing is picked yet, and loaded only
/// where nothing is loaded yet.
pub proof fn law_entering_keeps_what_is_there(t: TunerView, kept: Seq<Seq<char>>)
    ensures
        t.picked.len() > 0 ==> enter_after(t, kept).0.picked == t.picked,
        t.picked.len() == 0 ==> enter_after(t, kept).0.picked == kept,
        enter_after(t, kept).1[0] == DeedView::CountPicked(enter_after(t, kept).0.picked.len() as int),
        t.channels.len() > 0 ==> enter_after(t, kept).0.loads == t.loads && enter_after(t, kept).1.len() == 1,
        t.channels.len() == 0 && (t.picked.len() > 0 || kept.len() > 0) ==> enter_after(t, kept).1.last() == DeedView::Fetch(
            bumped(t.loads),
            enter_after(t, kept).0.picked,
        ),
        enter_after(t, kept).0.now == t.now,
{
}

/// A channel plays where it is listed, at its place, under a number of its own; a place that
/// is not listed changes nothing.
pub proof fn law_a_listed_channel_plays(t: TunerView, index: int)
    ensures
        index >= t.channels.len() && index >= 0 ==> play_after(t, index) == (t, Seq::<DeedView>::empty()),
        0 <= index < t.channels.len() ==> ({
            let c = t.channels[index]@;
            let (u, d) = play_after(t, index);
            &&& u.now == Some((index, c))
            &&& u.plays == bumped(t.plays)
            &&& u.channels == t.channels && u.picked == t.picked && u.page == t.page && u.loads == t.loads
            &&& d.len() == 3 && d[1] == DeedView::ShowNow && d[2] == DeedView::Start(bumped(t.plays), c.url, c.name)
        }),
        index < 0 && t.channels.len() > 0 ==> play_after(t, index) == play_after(t, 0),
{
}

/// Searching, another group and another order begin at the first page and change nothing
/// else; a page that is asked for is turned to; and each paints the grid.
pub proof fn law_narrowing_begins_at_the_first_page(t: TunerView, text: String, asc: bool, p: i64)
    ensures
        tuner_after(t, Wish::Search(text)).0 == (TunerView { query: text@, page: 0, ..t }),
        tuner_after(t, Wish::SetGroup(text)).0 == (TunerView { group: text@, page: 0, ..t }),
        tuner_after(t, Wish::SetSort(text, asc)).0 == (TunerView { sort: text@, asc, page: 0, ..t }),
        tuner_after(t, Wish::Search(text)).1 == seq![DeedView::PaintChannels],
        tuner_after(t, Wish::SetGroup(text)).1 == seq![DeedView::PaintChannels],
        tuner_after(t, Wish::SetSort(text, asc)).1 == seq![DeedView::PaintChannels],
{
}

/// A playlist that is switched is counted and shown; cleared picks are none; what is saved
/// is what was picked.
pub proof fn law_picks_are_counted_as_they_change(t: TunerView, url: String)
    ensures
        tuner_after(t, Wish::Toggle(url)).0.picked == toggled(t.picked, url@),
        tuner_after(t, Wish::Toggle(url)).1 == seq![
            DeedView::CountPicked(toggled(t.picked, url@).len() as int),
            DeedView::PaintPlaylists,
        ],
        tuner_after(t, Wish::ClearPicks).0.picked.len() == 0,
        tuner_after(t, Wish::ClearPicks).1 == seq![DeedView::CountPicked(0), DeedView::PaintPlaylists],
        tuner_after(t, Wish::SavePicks) == (t, seq![DeedView::Keep(t.picked)]),
        tuner_after(t, Wish::Refresh).1[0] == DeedView::DropCache,
        t.picked.len() > 0 ==> tuner_after(t, Wish::Refresh).1[1] == DeedView::Fetch(bumped(t.loads), t.picked),
        t.picked.len() == 0 ==> tuner_after(t, Wish::Refresh).1[1] == DeedView::Blank,
{
}

/// Only the end of what plays now clears the player.
pub proof fn law_only_the_playing_channel_ends(t: TunerView, play: u64)
    ensures
        play == t.plays ==> tuner_after(t, Wish::Ended(play)).0.now is None && tuner_after(t, Wish::Ended(play)).1 == seq![DeedView::ClearNow],
        play != t.plays ==> tuner_after(t, Wish::Ended(play)) == (t, Seq::<DeedView>::empty()),
{
}

} // verus!
