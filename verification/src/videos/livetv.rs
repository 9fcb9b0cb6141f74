//! Live television: the playlists that are picked, one page of the grid of
//! channels, and the channel that plays.

use vstd::prelude::*;
use crate::double::{of_nat, Double};
use crate::find::{contains, has};
use crate::order::{
    lemma_rising_push, num_order, nums, order, order_of, order_of_nums, places, precedes, rising, through,
};
use crate::outside::{json_string, json_text, lowercase, to_lowercase};
use crate::status::figures::opt_string;
use crate::text::{chars_of, dec, push_dec, same, slice_of, trim, trim_end, trimmed, views};
use crate::tools::media::over;
use crate::transfer::words::{page_count, pages};

verus! {

/// Channels per page: a grid of seven by six.
pub const PAGE_SIZE: usize = 42;

/// How much of a channel's name the pill shows before it trails off.
pub const PILL_CHARS: usize = 20;

/// A channel: a live stream and what is said of it. `res` is its height in lines,
/// zero where that is not known.
#[derive(Debug)]
pub struct Channel {
    pub id: String,
    pub name: String,
    pub group: String,
    pub logo: String,
    pub url: String,
    pub res: u32,
}

/// A channel's name as the pill shows it: cut by characters, with an ellipsis.
pub open spec fn pill_text(name: Seq<char>) -> Seq<char> {
    if name.len() <= 20 { name } else { trim_end(name.take(20)) + "…"@ }
}

fn trimmed_end(v: &Vec<char>, n: usize) -> (r: String)
    requires
        n <= v@.len(),
    ensures
        r@ == trim_end(v@.take(n as int)),
{
    let mut k: usize = n;
    while k > 0 && crate::text::space(v[k - 1])
        invariant
            k <= n <= v@.len(),
            trim_end(v@.take(n as int)) == trim_end(v@.take(k as int)),
        decreases k,
    {
        assert(v@.take(k as int).last() == v@[k - 1]);
        assert(v@.take(k as int).drop_last() =~= v@.take(k - 1));
        k = k - 1;
    }
    if k > 0 {
        assert(v@.take(k as int).last() == v@[k - 1]);
    }
    assert(v@.subrange(0, k as int) =~= v@.take(k as int));
    slice_of(v, 0, k)
}

/// See [`pill_text`].
pub fn pill_label(name: &str) -> (r: String)
    ensures
        r@ == pill_text(name@),
{
    let v = chars_of(name);
    if v.len() <= PILL_CHARS {
        return name.to_owned();
    }
    let mut s = trimmed_end(&v, PILL_CHARS);
    s.append("…");
    s
}

/// A byte count for the detail sheet.
pub open spec fn logo_bytes(n: nat) -> Seq<char> {
    if n < 1024 {
        dec(n) + " B"@
    } else if n < 1024 * 1024 {
        over(of_nat(n), 10).text(1) + " KB"@
    } else {
        over(of_nat(n), 20).text(1) + " MB"@
    }
}

/// See [`logo_bytes`].
pub fn human_bytes(n: u64) -> (r: String)
    ensures
        r@ == logo_bytes(n as nat),
{
    let mut s = String::new();
    assert(s@ =~= Seq::<char>::empty());
    if n < 1024 {
        push_dec(&mut s, n);
        assert(s@ =~= dec(n as nat));
        s.append(" B");
        return s;
    }
    let x = Double::from_u64(n);
    if n < 1024 * 1024 {
        let y = Double { neg: x.neg, m: x.m, e: x.e - 10 };
        y.push_text(&mut s, 1);
        assert(s@ =~= y.text(1));
        s.append(" KB");
    } else {
        let y = Double { neg: x.neg, m: x.m, e: x.e - 20 };
        y.push_text(&mut s, 1);
        assert(s@ =~= y.text(1));
        s.append(" MB");
    }
    s
}

/// What became of a logo.
#[derive(Debug)]
pub enum Logo {
    /// It was not asked for yet.
    Unasked,
    /// It could not be had.
    Failed,
    /// It is kept in a file, so many bytes long.
    Kept(String, u64),
}

/// The line about a channel's logo.
pub open spec fn logo_line(url: Seq<char>, logo: Logo) -> Seq<char> {
    if url.len() == 0 {
        "This channel publishes no logo."@
    } else {
        match logo {
            Logo::Kept(path, size) => "Logo cached · "@ + logo_bytes(size as nat) + " · "@ + path@,
            Logo::Failed => "The logo could not be downloaded."@,
            Logo::Unasked => "Logo not fetched yet."@,
        }
    }
}

/// See [`logo_line`].
pub fn cache_line(url: &str, logo: &Logo) -> (r: String)
    ensures
        r@ == logo_line(url@, *logo),
{
    if url.is_empty() {
        return "This channel publishes no logo.".to_owned();
    }
    match logo {
        Logo::Kept(path, size) => {
            let mut s = "Logo cached · ".to_owned();
            let b = human_bytes(*size);
            s.append(b.as_str());
            s.append(" · ");
            s.append(path.as_str());
            s
        },
        Logo::Failed => "The logo could not be downloaded.".to_owned(),
        Logo::Unasked => "Logo not fetched yet.".to_owned(),
    }
}

/// A group of channels and how many it has.
#[derive(Debug)]
pub struct LiveGroup {
    pub name: String,
    pub count: u64,
}

/// The groups as they are.
pub open spec fn groups_view(v: Seq<LiveGroup>) -> Seq<(Seq<char>, nat)> {
    Seq::new(v.len(), |i: int| (v[i].name@, v[i].count as nat))
}

/// One channel more in a group.
pub open spec fn counted(groups: Seq<(Seq<char>, nat)>, name: Seq<char>) -> Seq<(Seq<char>, nat)>
    decreases groups.len(),
{
    if groups.len() == 0 {
        seq![(name, 1nat)]
    } else if groups[0].0 == name {
        seq![(name, groups[0].1 + 1)] + groups.skip(1)
    } else {
        seq![groups[0]] + counted(groups.skip(1), name)
    }
}

/// The groups of some channels in the order in which they first come, each with
/// how many channels it has; a channel without a group counts nowhere.
pub open spec fn tally(channels: Seq<Channel>) -> Seq<(Seq<char>, nat)>
    decreases channels.len(),
{
    if channels.len() == 0 {
        Seq::empty()
    } else {
        let rest = tally(channels.drop_last());
        let g = channels.last().group@;
        if g.len() == 0 { rest } else { counted(rest, g) }
    }
}

fn count_in(groups: &mut Vec<LiveGroup>, name: &String, limit: usize)
    requires
        forall|i: int| 0 <= i < old(groups)@.len() ==> (#[trigger] old(groups)@[i]).count <= limit,
        limit < usize::MAX,
    ensures
        groups_view(final(groups)@) == counted(groups_view(old(groups)@), name@),
        forall|i: int| 0 <= i < final(groups)@.len() ==> (#[trigger] final(groups)@[i]).count <= limit + 1,
{
    let ghost was = groups@;
    let ghost all = groups_view(was);
    let mut i: usize = 0;
    assert(all.skip(0) =~= all);
    assert(all.take(0) + counted(all, name@) =~= counted(all, name@));
    while i < groups.len()
        invariant
            i <= groups@.len(),
            groups@ == was,
            was == old(groups)@,
            all == groups_view(was),
            limit < usize::MAX,
            forall|j: int| 0 <= j < was.len() ==> (#[trigger] was[j]).count <= limit,
            counted(all, name@) == all.take(i as int) + counted(all.skip(i as int), name@),
        decreases groups@.len() - i,
    {
        assert(all.skip(i as int)[0] == all[i as int]);
        assert(all.skip(i as int).skip(1) =~= all.skip(i + 1));
        if same(groups[i].name.as_str(), name.as_str()) {
            let n: u64 = groups[i].count;
            groups.set(i, LiveGroup { name: name.clone(), count: n + 1 });
            assert(groups_view(groups@) =~= all.take(i as int) + (seq![(name@, (n + 1) as nat)] + all.skip(i + 1)));
            assert forall|j: int| 0 <= j < groups@.len() implies (#[trigger] groups@[j]).count <= limit + 1 by {
                assert(was[j].count <= limit);
            }
            return;
        }
        assert(all.take(i as int) + (seq![all[i as int]] + counted(all.skip(i + 1), name@)) =~= all.take(i + 1)
            + counted(all.skip(i + 1), name@));
        i = i + 1;
    }
    assert(all.skip(i as int).len() == 0);
    assert(all.take(i as int) =~= all);
    groups.push(LiveGroup { name: name.clone(), count: 1 });
    assert(groups_view(groups@) =~= all + seq![(name@, 1nat)]);
    assert forall|j: int| 0 <= j < groups@.len() implies (#[trigger] groups@[j]).count <= limit + 1 by {
        if j < was.len() {
            assert(was[j].count <= limit);
        }
    }
}

fn tally_groups(channels: &Vec<Channel>) -> (r: Vec<LiveGroup>)
    ensures
        groups_view(r@) == tally(channels@),
{
    let mut out: Vec<LiveGroup> = Vec::new();
    let mut i: usize = 0;
    let total: usize = channels.len();
    assert(channels@.take(0) =~= Seq::<Channel>::empty());
    assert(groups_view(out@) =~= Seq::<(Seq<char>, nat)>::empty());
    while i < total
        invariant
            total == channels@.len(),
            i <= total,
            forall|j: int| 0 <= j < out@.len() ==> (#[trigger] out@[j]).count <= i,
            groups_view(out@) == tally(channels@.take(i as int)),
        decreases total - i,
    {
        assert(channels@.take(i + 1).drop_last() =~= channels@.take(i as int));
        if !channels[i].group.as_str().is_empty() {
            count_in(&mut out, &channels[i].group, i);
        }
        i = i + 1;
    }
    assert(channels@.take(i as int) =~= channels@);
    out
}

/// A list in the order of some places.
pub open spec fn picked<T>(list: Seq<T>, o: Seq<int>) -> Seq<T> {
    Seq::new(o.len(), |i: int| list[o[i]])
}

/// The sidebar: the groups in the order of their names, the names' small letters
/// given.
pub fn order_groups(groups: &Vec<LiveGroup>, lowered: &Vec<String>) -> (r: Vec<LiveGroup>)
    requires
        groups@.len() == lowered@.len(),
    ensures
        groups_view(r@) == picked(groups_view(groups@), order(views(lowered@), lowered@.len())),
{
    let o = order_of(lowered);
    let mut out: Vec<LiveGroup> = Vec::new();
    let mut i: usize = 0;
    while i < o.len()
        invariant
            i <= o@.len(),
            o@.len() == groups@.len(),
            out@.len() == i,
            forall|j: int| 0 <= j < o@.len() ==> #[trigger] o@[j] < groups@.len(),
            forall|j: int| 0 <= j < i ==> ((#[trigger] out@[j]).name@, out@[j].count as nat) == groups_view(groups@)[o@[j] as int],
        decreases o@.len() - i,
    {
        let g = &groups[o[i]];
        out.push(LiveGroup { name: g.name.clone(), count: g.count });
        i = i + 1;
    }
    proof {
        let p = order(views(lowered@), lowered@.len());
        assert(places(o@) == p);
        assert forall|j: int| 0 <= j < o@.len() implies groups_view(out@)[j] == groups_view(groups@)[p[j]] by {
            assert(places(o@)[j] == o@[j]);
            assert((out@[j].name@, out@[j].count as nat) == groups_view(groups@)[o@[j] as int]);
        }
        assert(groups_view(out@) =~= picked(groups_view(groups@), p));
    }
    out
}

/// The small letters of some groups' names.
pub open spec fn lowered_groups(g: Seq<(Seq<char>, nat)>) -> Seq<Seq<char>> {
    Seq::new(g.len(), |i: int| lowercase(g[i].0))
}

/// The sidebar: every group that some channel has, by name, with how many have it.
pub fn push_groups(channels: &Vec<Channel>) -> (r: Vec<LiveGroup>)
    ensures
        groups_view(r@) == picked(
            tally(channels@),
            order(lowered_groups(tally(channels@)), tally(channels@).len()),
        ),
{
    let groups = tally_groups(channels);
    let mut lowered: Vec<String> = Vec::new();
    let mut i: usize = 0;
    while i < groups.len()
        invariant
            i <= groups@.len(),
            lowered@.len() == i,
            forall|j: int| 0 <= j < i ==> (#[trigger] lowered@[j])@ == lowercase(groups@[j].name@),
        decreases groups@.len() - i,
    {
        lowered.push(to_lowercase(groups[i].name.as_str()));
        i = i + 1;
    }
    assert(views(lowered@) =~= lowered_groups(tally(channels@)));
    order_groups(&groups, &lowered)
}

/// Whether a channel is shown: in the group that is open, and found by the query.
pub open spec fn is_shown(c: Channel, lowered: Seq<char>, group: Seq<char>, q: Seq<char>) -> bool {
    &&& group.len() == 0 || c.group@ == group
    &&& q.len() == 0 || has(lowered, q)
}

/// The places of the channels that are shown.
pub open spec fn shown_places(channels: Seq<Channel>, lowered: Seq<Seq<char>>, group: Seq<char>, q: Seq<char>) -> Seq<int>
    decreases channels.len(),
{
    if channels.len() == 0 {
        Seq::empty()
    } else {
        let n = channels.len() - 1;
        let rest = shown_places(channels.drop_last(), lowered, group, q);
        if is_shown(channels[n], lowered[n], group, q) { rest.push(n) } else { rest }
    }
}

/// How the shown channels are ordered: by name, by group and then name, by
/// resolution and then name, or as the playlists have them; downwards in reverse.
pub open spec fn sorted_places(
    channels: Seq<Channel>,
    names: Seq<Seq<char>>,
    groups: Seq<Seq<char>>,
    list: Seq<int>,
    sort: Seq<char>,
    asc: bool,
) -> Seq<int> {
    let by_name = through(list, order(picked(names, list), list.len()));
    let up = if sort == "name"@ {
        by_name
    } else if sort == "group"@ {
        through(by_name, order(picked(groups, by_name), by_name.len()))
    } else if sort == "res"@ {
        let res = Seq::new(by_name.len(), |i: int| channels[by_name[i]].res as int);
        through(by_name, num_order(res, by_name.len()))
    } else {
        list
    };
    if asc { up } else { up.reverse() }
}

pub(crate) fn pick_texts(list: &Vec<String>, o: &Vec<usize>) -> (r: Vec<String>)
    requires
        forall|j: int| 0 <= j < o@.len() ==> #[trigger] o@[j] < list@.len(),
    ensures
        views(r@) == picked(views(list@), places(o@)),
        r@.len() == o@.len(),
{
    let mut out: Vec<String> = Vec::new();
    let mut i: usize = 0;
    while i < o.len()
        invariant
            i <= o@.len(),
            out@.len() == i,
            forall|j: int| 0 <= j < o@.len() ==> #[trigger] o@[j] < list@.len(),
            forall|j: int| 0 <= j < i ==> (#[trigger] out@[j])@ == list@[o@[j] as int]@,
        decreases o@.len() - i,
    {
        out.push(list[o[i]].clone());
        i = i + 1;
    }
    assert(views(out@) =~= picked(views(list@), places(o@)));
    out
}

pub(crate) fn pick_places(outer: &Vec<usize>, inner: &Vec<usize>, limit: usize) -> (r: Vec<usize>)
    requires
        forall|j: int| 0 <= j < inner@.len() ==> #[trigger] inner@[j] < outer@.len(),
        forall|j: int| 0 <= j < outer@.len() ==> #[trigger] outer@[j] < limit,
    ensures
        places(r@) == through(places(outer@), places(inner@)),
        r@.len() == inner@.len(),
        forall|j: int| 0 <= j < r@.len() ==> #[trigger] r@[j] < limit,
{
    let mut out: Vec<usize> = Vec::new();
    let mut i: usize = 0;
    while i < inner.len()
        invariant
            i <= inner@.len(),
            out@.len() == i,
            forall|j: int| 0 <= j < inner@.len() ==> #[trigger] inner@[j] < outer@.len(),
            forall|j: int| 0 <= j < outer@.len() ==> #[trigger] outer@[j] < limit,
            forall|j: int| 0 <= j < i ==> #[trigger] out@[j] == outer@[inner@[j] as int] && out@[j] < limit,
        decreases inner@.len() - i,
    {
        out.push(outer[inner[i]]);
        i = i + 1;
    }
    assert(places(out@) =~= through(places(outer@), places(inner@)));
    out
}

pub(crate) fn reversed(v: &Vec<usize>, limit: usize) -> (r: Vec<usize>)
    requires
        forall|j: int| 0 <= j < v@.len() ==> #[trigger] v@[j] < limit,
    ensures
        places(r@) == places(v@).reverse(),
        r@.len() == v@.len(),
        forall|j: int| 0 <= j < r@.len() ==> #[trigger] r@[j] < limit,
{
    let n: usize = v.len();
    let mut out: Vec<usize> = Vec::new();
    let mut i: usize = 0;
    while i < n
        invariant
            n == v@.len(),
            i <= n,
            out@.len() == i,
            forall|j: int| 0 <= j < v@.len() ==> #[trigger] v@[j] < limit,
            forall|j: int| 0 <= j < i ==> #[trigger] out@[j] == v@[n - 1 - j] && out@[j] < limit,
        decreases n - i,
    {
        out.push(v[n - 1 - i]);
        i = i + 1;
    }
    assert(places(out@) =~= places(v@).reverse());
    out
}

fn sort_places(
    channels: &Vec<Channel>,
    names: &Vec<String>,
    groups: &Vec<String>,
    list: Vec<usize>,
    sort: &str,
    asc: bool,
) -> (r: Vec<usize>)
    requires
        names@.len() == channels@.len(),
        groups@.len() == channels@.len(),
        forall|j: int| 0 <= j < list@.len() ==> #[trigger] list@[j] < channels@.len(),
    ensures
        places(r@) == sorted_places(channels@, views(names@), views(groups@), places(list@), sort@, asc),
        r@.len() == list@.len(),
        forall|j: int| 0 <= j < r@.len() ==> #[trigger] r@[j] < channels@.len(),
{
    let total: usize = channels.len();
    let keys = pick_texts(names, &list);
    let by_name = pick_places(&list, &order_of(&keys), total);
    let up = if same(sort, "name") {
        by_name
    } else if same(sort, "group") {
        let keys = pick_texts(groups, &by_name);
        pick_places(&by_name, &order_of(&keys), total)
    } else if same(sort, "res") {
        let mut keys: Vec<u64> = Vec::new();
        let mut i: usize = 0;
        while i < by_name.len()
            invariant
                i <= by_name@.len(),
                keys@.len() == i,
                forall|j: int| 0 <= j < by_name@.len() ==> #[trigger] by_name@[j] < channels@.len(),
                forall|j: int| 0 <= j < i ==> #[trigger] keys@[j] == channels@[by_name@[j] as int].res,
            decreases by_name@.len() - i,
        {
            keys.push(channels[by_name[i]].res as u64);
            i = i + 1;
        }
        assert(nums(keys@) =~= Seq::new(
            places(by_name@).len(),
            |i: int| channels@[places(by_name@)[i]].res as int,
        ));
        pick_places(&by_name, &order_of_nums(&keys), total)
    } else {
        list
    };
    if asc {
        up
    } else {
        reversed(&up, total)
    }
}

/// A channel of the page. `index` is its place in the whole list, so that a click
/// finds it after a filter, a sort and a page turn.
#[derive(Debug)]
pub struct LiveChannel {
    pub index: usize,
    pub id: String,
    pub name: String,
    pub group: String,
    pub logo: String,
}

/// What a channel of the page shows.
pub type LiveView = (int, Seq<char>, Seq<char>, Seq<char>, Seq<char>);

impl View for LiveChannel {
    type V = LiveView;

    open spec fn view(&self) -> LiveView {
        (self.index as int, self.id@, self.name@, self.group@, self.logo@)
    }
}

/// The channels of the page as they are.
pub open spec fn live_view(v: Seq<LiveChannel>) -> Seq<LiveView> {
    Seq::new(v.len(), |i: int| v[i]@)
}

/// One page of the grid.
#[derive(Debug)]
pub struct ChannelPage {
    pub rows: Vec<LiveChannel>,
    pub matched: usize,
    pub pages: u64,
    pub page: u64,
}

/// The page that is shown for the one asked for: never before the first or behind
/// the last.
pub open spec fn page_shown(asked: int, pages: int) -> int {
    let p = if asked < 0 { 0 } else { asked };
    if p > pages - 1 { pages - 1 } else { p }
}

/// The end of a page: where the page is full or the list ends.
pub open spec fn page_end(page: int, matched: int) -> int {
    if (page + 1) * 42 < matched { (page + 1) * 42 } else { matched }
}

/// The start of a page.
pub open spec fn page_start(page: int, matched: int) -> int {
    if page * 42 < matched { page * 42 } else { matched }
}

/// What the page shows of a channel.
pub open spec fn live_row(channels: Seq<Channel>, i: int) -> LiveView {
    (i, channels[i].id@, channels[i].name@, channels[i].group@, channels[i].logo@)
}

/// One page of a list in order.
pub open spec fn page_rows(channels: Seq<Channel>, list: Seq<int>, page: int) -> Seq<LiveView> {
    let s = list.subrange(page_start(page, list.len() as int), page_end(page, list.len() as int));
    Seq::new(s.len(), |i: int| live_row(channels, s[i]))
}

/// One page of the grid: narrowed by the query and the group, in the order asked
/// for. `q` and the names and groups are given in small letters.
pub fn channel_page(
    channels: &Vec<Channel>,
    names: &Vec<String>,
    groups: &Vec<String>,
    group: &str,
    q: &str,
    sort: &str,
    asc: bool,
    asked: i64,
) -> (r: ChannelPage)
    requires
        names@.len() == channels@.len(),
        groups@.len() == channels@.len(),
    ensures
        ({
            let list = sorted_places(
                channels@,
                views(names@),
                views(groups@),
                shown_places(channels@, views(names@), group@, q@),
                sort@,
                asc,
            );
            let count = page_count(list.len() as int, 42);
            &&& r.matched == list.len()
            &&& r.pages == count
            &&& r.page == page_shown(asked as int, count)
            &&& live_view(r.rows@) == page_rows(channels@, list, r.page as int)
        }),
        r.rows@.len() <= PAGE_SIZE,
{
    let mut shown: Vec<usize> = Vec::new();
    let total: usize = channels.len();
    let mut i: usize = 0;
    assert(channels@.take(0) =~= Seq::<Channel>::empty());
    assert(places(shown@) =~= Seq::<int>::empty());
    while i < total
        invariant
            total == channels@.len(),
            i <= total,
            names@.len() == channels@.len(),
            shown@.len() <= i,
            forall|j: int| 0 <= j < shown@.len() ==> #[trigger] shown@[j] < total,
            places(shown@) == shown_places(channels@.take(i as int), views(names@), group@, q@),
        decreases total - i,
    {
        assert(channels@.take(i + 1).drop_last() =~= channels@.take(i as int));
        assert(channels@.take(i + 1)[i as int] == channels@[i as int]);
        assert(views(names@)[i as int] == names@[i as int]@);
        let c = &channels[i];
        if (group.is_empty() || same(c.group.as_str(), group)) && (q.is_empty() || contains(names[i].as_str(), q)) {
            let ghost was = places(shown@);
            shown.push(i);
            assert(places(shown@) =~= was.push(i as int));
        }
        i = i + 1;
    }
    assert(channels@.take(i as int) =~= channels@);
    let ord = sort_places(channels, names, groups, shown, sort, asc);
    let ghost list = places(ord@);
    let matched: usize = ord.len();
    let count: u64 = pages(matched as u64, 42);
    proof {
        if matched > 0 {
            crate::transfer::words::law_pages_hold_every_row(matched as int, 42);
        }
    }
    let p: u64 = if asked < 0 { 0 } else { asked as u64 };
    let page: u64 = if p > count - 1 { count - 1 } else { p };
    assert(page * 42 <= matched) by {
        if matched == 0 {
            assert(page == 0);
        } else {
            assert(page <= count - 1);
        }
    }
    let start: usize = page as usize * PAGE_SIZE;
    let end: usize = if matched - start > PAGE_SIZE { start + PAGE_SIZE } else { matched };
    let ghost s = list.subrange(page_start(page as int, matched as int), page_end(page as int, matched as int));
    assert(start == page_start(page as int, matched as int));
    assert(end == page_end(page as int, matched as int));
    let mut rows: Vec<LiveChannel> = Vec::new();
    let mut k: usize = start;
    while k < end
        invariant
            start <= k <= end <= matched,
            matched == ord@.len(),
            rows@.len() == k - start,
            list == places(ord@),
            forall|j: int| 0 <= j < ord@.len() ==> #[trigger] ord@[j] < channels@.len(),
            forall|j: int| 0 <= j < k - start ==> (#[trigger] rows@[j])@ == live_row(channels@, ord@[start + j] as int),
        decreases end - k,
    {
        let at: usize = ord[k];
        let c = &channels[at];
        rows.push(
            LiveChannel {
                index: at,
                id: c.id.clone(),
                name: c.name.clone(),
                group: c.group.clone(),
                logo: c.logo.clone(),
            },
        );
        k = k + 1;
    }
    proof {
        assert forall|j: int| 0 <= j < s.len() implies live_view(rows@)[j] == live_row(channels@, s[j]) by {
            assert(rows@[j]@ == live_row(channels@, ord@[start + j] as int));
            assert(s[j] == list[start + j]);
        }
        assert(live_view(rows@) =~= page_rows(channels@, list, page as int));
    }
    ChannelPage { rows, matched, pages: count, page }
}

/// The small letters of some channels' names.
pub open spec fn lowered_names(channels: Seq<Channel>) -> Seq<Seq<char>> {
    Seq::new(channels.len(), |i: int| lowercase(channels[i].name@))
}

/// The small letters of some channels' groups.
pub open spec fn lowered_by_group(channels: Seq<Channel>) -> Seq<Seq<char>> {
    Seq::new(channels.len(), |i: int| lowercase(channels[i].group@))
}

/// Whether `r` is the page of the grid for what the search box, the sidebar and the
/// sort chips say.
pub open spec fn is_page(
    channels: Seq<Channel>,
    query: Seq<char>,
    group: Seq<char>,
    sort: Seq<char>,
    asc: bool,
    asked: int,
    r: ChannelPage,
) -> bool {
    let list = sorted_places(
        channels,
        lowered_names(channels),
        lowered_by_group(channels),
        shown_places(channels, lowered_names(channels), group, lowercase(trim(query))),
        sort,
        asc,
    );
    let count = page_count(list.len() as int, 42);
    &&& r.matched == list.len()
    &&& r.pages == count
    &&& r.page == page_shown(asked, count)
    &&& live_view(r.rows@) == page_rows(channels, list, r.page as int)
}

/// One page of the grid for what the search box, the sidebar and the sort chips
/// say.
pub fn push_channels(
    channels: &Vec<Channel>,
    query: &str,
    group: &str,
    sort: &str,
    asc: bool,
    asked: i64,
) -> (r: ChannelPage)
    ensures
        is_page(channels@, query@, group@, sort@, asc, asked as int, r),
        r.rows@.len() <= PAGE_SIZE,
{
    let q = to_lowercase(trimmed(query).as_str());
    let mut names: Vec<String> = Vec::new();
    let mut groups: Vec<String> = Vec::new();
    let mut i: usize = 0;
    while i < channels.len()
        invariant
            i <= channels@.len(),
            names@.len() == i,
            groups@.len() == i,
            forall|j: int| 0 <= j < i ==> (#[trigger] names@[j])@ == lowercase(channels@[j].name@),
            forall|j: int| 0 <= j < i ==> (#[trigger] groups@[j])@ == lowercase(channels@[j].group@),
        decreases channels@.len() - i,
    {
        names.push(to_lowercase(channels[i].name.as_str()));
        groups.push(to_lowercase(channels[i].group.as_str()));
        i = i + 1;
    }
    assert(views(names@) =~= lowered_names(channels@));
    assert(views(groups@) =~= lowered_by_group(channels@));
    channel_page(channels, &names, &groups, group, q.as_str(), sort, asc, asked)
}

/// Every channel that is shown is in its place in the whole list, so a click on a
/// row plays the channel that the row names.
pub proof fn law_rows_name_their_channel(channels: Seq<Channel>, list: Seq<int>, page: int, i: int)
    requires
        0 <= page_start(page, list.len() as int) <= page_end(page, list.len() as int) <= list.len(),
        0 <= i < page_rows(channels, list, page).len(),
    ensures
        page_rows(channels, list, page)[i].2 == channels[page_rows(channels, list, page)[i].0].name@,
{
}

/// The logos to ask for: those of the page that are not known, not asked for and
/// not empty, each once.
pub open spec fn logos_wanted(urls: Seq<Seq<char>>, known: Seq<Seq<char>>, pending: Seq<Seq<char>>) -> Seq<Seq<char>>
    decreases urls.len(),
{
    if urls.len() == 0 {
        Seq::empty()
    } else {
        let rest = logos_wanted(urls.drop_last(), known, pending);
        let u = urls.last();
        if u.len() == 0 || known.contains(u) || pending.contains(u) || rest.contains(u) { rest } else { rest.push(u) }
    }
}

fn is_in(v: &Vec<String>, s: &str) -> (r: bool)
    ensures
        r == views(v@).contains(s@),
{
    let mut i: usize = 0;
    while i < v.len()
        invariant
            i <= v@.len(),
            forall|j: int| 0 <= j < i ==> (#[trigger] v@[j])@ != s@,
        decreases v@.len() - i,
    {
        if same(v[i].as_str(), s) {
            assert(views(v@)[i as int] == s@);
            return true;
        }
        i = i + 1;
    }
    assert forall|j: int| 0 <= j < views(v@).len() implies views(v@)[j] != s@ by {
        assert(v@[j]@ != s@);
    }
    false
}

/// See [`logos_wanted`].
pub fn fetch_logos(urls: &Vec<String>, known: &Vec<String>, pending: &Vec<String>) -> (r: Vec<String>)
    ensures
        views(r@) == logos_wanted(views(urls@), views(known@), views(pending@)),
{
    let ghost all = views(urls@);
    let mut out: Vec<String> = Vec::new();
    let mut i: usize = 0;
    assert(all.take(0) =~= Seq::<Seq<char>>::empty());
    assert(views(out@) =~= Seq::<Seq<char>>::empty());
    while i < urls.len()
        invariant
            i <= urls@.len(),
            all == views(urls@),
            views(out@) == logos_wanted(all.take(i as int), views(known@), views(pending@)),
        decreases urls@.len() - i,
    {
        assert(all.take(i + 1).drop_last() =~= all.take(i as int));
        assert(all.take(i + 1).last() == urls@[i as int]@);
        let u = urls[i].as_str();
        if !u.is_empty() && !is_in(known, u) && !is_in(pending, u) && !is_in(&out, u) {
            let ghost was = views(out@);
            out.push(urls[i].clone());
            assert(views(out@) =~= was.push(urls@[i as int]@));
        }
        i = i + 1;
    }
    assert(all.take(i as int) =~= all);
    out
}

/// A playlist switched: taken out where it first stands, else put behind.
pub open spec fn toggled(picked: Seq<Seq<char>>, url: Seq<char>) -> Seq<Seq<char>>
    decreases picked.len(),
{
    if picked.len() == 0 {
        seq![url]
    } else if picked[0] == url {
        picked.skip(1)
    } else {
        seq![picked[0]] + toggled(picked.skip(1), url)
    }
}

/// Switches a playlist in the picker.
pub fn toggle_playlist(picks: &mut Vec<String>, url: &str)
    ensures
        views(final(picks)@) == toggled(views(old(picks)@), url@),
{
    let ghost all = views(picks@);
    let mut i: usize = 0;
    assert(all.skip(0) =~= all);
    assert(all.take(0) + toggled(all, url@) =~= toggled(all, url@));
    while i < picks.len()
        invariant
            i <= picks@.len(),
            all == views(picks@),
            all == views(old(picks)@),
            toggled(all, url@) == all.take(i as int) + toggled(all.skip(i as int), url@),
        decreases picks@.len() - i,
    {
        assert(all.skip(i as int)[0] == picks@[i as int]@);
        assert(all.skip(i as int).skip(1) =~= all.skip(i + 1));
        if same(picks[i].as_str(), url) {
            let _ = picks.remove(i);
            assert(views(picks@) =~= all.take(i as int) + all.skip(i + 1));
            return;
        }
        assert(all.take(i as int) + (seq![all[i as int]] + toggled(all.skip(i + 1), url@)) =~= all.take(i + 1) + toggled(
            all.skip(i + 1),
            url@,
        ));
        i = i + 1;
    }
    assert(all.take(i as int) =~= all);
    picks.push(url.to_owned());
    assert(views(picks@) =~= all + seq![url@]);
}

proof fn lemma_toggle_absent(picked: Seq<Seq<char>>, url: Seq<char>)
    requires
        !picked.contains(url),
    ensures
        toggled(picked, url) == picked.push(url),
    decreases picked.len(),
{
    if picked.len() > 0 {
        assert(picked[0] != url);
        assert(!picked.skip(1).contains(url)) by {
            if picked.skip(1).contains(url) {
                let i = choose|i: int| 0 <= i < picked.skip(1).len() && picked.skip(1)[i] == url;
                assert(picked[i + 1] == url);
            }
        }
        lemma_toggle_absent(picked.skip(1), url);
        assert(seq![picked[0]] + picked.skip(1).push(url) =~= picked.push(url));
    } else {
        assert(seq![url] =~= picked.push(url));
    }
}

proof fn lemma_toggle_last(picked: Seq<Seq<char>>, url: Seq<char>)
    requires
        !picked.contains(url),
    ensures
        toggled(picked.push(url), url) == picked,
    decreases picked.len(),
{
    let p = picked.push(url);
    if picked.len() > 0 {
        assert(picked[0] != url);
        assert(p[0] == picked[0]);
        assert(!picked.skip(1).contains(url)) by {
            if picked.skip(1).contains(url) {
                let i = choose|i: int| 0 <= i < picked.skip(1).len() && picked.skip(1)[i] == url;
                assert(picked[i + 1] == url);
            }
        }
        lemma_toggle_last(picked.skip(1), url);
        assert(p.skip(1) =~= picked.skip(1).push(url));
        assert(seq![picked[0]] + picked.skip(1) =~= picked);
    } else {
        assert(p.skip(1) =~= picked);
    }
}

/// Switching a playlist that was not picked twice leaves the picker as it was.
pub proof fn law_toggling_twice_changes_nothing(picked: Seq<Seq<char>>, url: Seq<char>)
    requires
        !picked.contains(url),
    ensures
        toggled(toggled(picked, url), url) == picked,
{
    lemma_toggle_absent(picked, url);
    lemma_toggle_last(picked, url);
}

/// A playlist of the picker: its kind, its name and its address.
#[derive(Debug)]
pub struct Listed {
    pub kind: String,
    pub name: String,
    pub url: String,
}

/// A row of the picker.
#[derive(Debug)]
pub struct LivePlaylist {
    pub on: bool,
    pub name: String,
    pub kind: String,
    pub url: String,
}

/// What a row of the picker shows.
pub type PlaylistView = (bool, Seq<char>, Seq<char>, Seq<char>);

/// The rows as they are.
pub open spec fn playlists_view(v: Seq<LivePlaylist>) -> Seq<PlaylistView> {
    Seq::new(v.len(), |i: int| (v[i].on, v[i].name@, v[i].kind@, v[i].url@))
}

/// The kind of playlists that a tab of the picker shows.
pub open spec fn tab_kind(tab: Seq<char>) -> Seq<char> {
    if tab == "category"@ || tab == "language"@ { tab } else { "country"@ }
}

/// The rows of a tab that its query finds, the names' small letters given.
pub open spec fn playlist_rows(
    all: Seq<Listed>,
    lowered: Seq<Seq<char>>,
    tab: Seq<char>,
    q: Seq<char>,
    picked: Seq<Seq<char>>,
) -> Seq<PlaylistView>
    decreases all.len(),
{
    if all.len() == 0 {
        Seq::empty()
    } else {
        let p = all.last();
        let rest = playlist_rows(all.drop_last(), lowered, tab, q, picked);
        if p.kind@ == tab_kind(tab) && (q.len() == 0 || has(lowered[all.len() - 1], q)) {
            rest.push((picked.contains(p.url@), p.name@, p.kind@, p.url@))
        } else {
            rest
        }
    }
}

/// See [`playlist_rows`]. The kinds are `country`, `category` and `language`.
pub fn playlist_page(
    all: &Vec<Listed>,
    lowered: &Vec<String>,
    tab: &str,
    q: &str,
    picks: &Vec<String>,
) -> (r: Vec<LivePlaylist>)
    requires
        all@.len() == lowered@.len(),
    ensures
        playlists_view(r@) == playlist_rows(all@, views(lowered@), tab@, q@, views(picks@)),
{
    let kind = if same(tab, "category") || same(tab, "language") { tab } else { "country" };
    let mut out: Vec<LivePlaylist> = Vec::new();
    let mut i: usize = 0;
    assert(all@.take(0) =~= Seq::<Listed>::empty());
    assert(playlists_view(out@) =~= Seq::<PlaylistView>::empty());
    while i < all.len()
        invariant
            i <= all@.len(),
            all@.len() == lowered@.len(),
            kind@ == tab_kind(tab@),
            playlists_view(out@) == playlist_rows(all@.take(i as int), views(lowered@), tab@, q@, views(picks@)),
        decreases all@.len() - i,
    {
        assert(all@.take(i + 1).drop_last() =~= all@.take(i as int));
        assert(views(lowered@)[i as int] == lowered@[i as int]@);
        let p = &all[i];
        if same(p.kind.as_str(), kind) && (q.is_empty() || contains(lowered[i].as_str(), q)) {
            let ghost was = playlists_view(out@);
            let row = LivePlaylist {
                on: is_in(picks, p.url.as_str()),
                name: p.name.clone(),
                kind: p.kind.clone(),
                url: p.url.clone(),
            };
            out.push(row);
            assert(playlists_view(out@) =~= was.push((views(picks@).contains(p.url@), p.name@, p.kind@, p.url@)));
        }
        i = i + 1;
    }
    assert(all@.take(i as int) =~= all@);
    out
}

/// The small letters of some playlists' names.
pub open spec fn lowered_listed(all: Seq<Listed>) -> Seq<Seq<char>> {
    Seq::new(all.len(), |i: int| lowercase(all[i].name@))
}

/// The rows of the picker for the tab that is open and what its filter box says.
pub fn push_playlists(all: &Vec<Listed>, tab: &str, query: &str, picks: &Vec<String>) -> (r: Vec<LivePlaylist>)
    ensures
        playlists_view(r@) == playlist_rows(
            all@,
            lowered_listed(all@),
            tab@,
            lowercase(trim(query@)),
            views(picks@),
        ),
{
    let q = to_lowercase(trimmed(query).as_str());
    let mut lowered: Vec<String> = Vec::new();
    let mut i: usize = 0;
    while i < all.len()
        invariant
            i <= all@.len(),
            lowered@.len() == i,
            forall|j: int| 0 <= j < i ==> (#[trigger] lowered@[j])@ == lowercase(all@[j].name@),
        decreases all@.len() - i,
    {
        lowered.push(to_lowercase(all[i].name.as_str()));
        i = i + 1;
    }
    assert(views(lowered@) =~= lowered_listed(all@));
    playlist_page(all, &lowered, tab, q.as_str(), picks)
}

/// What is said while playlists are fetched.
pub open spec fn fetching_text(n: nat) -> Seq<char> {
    "Fetching "@ + dec(n) + " playlist"@ + (if n == 1 { ""@ } else { "s"@ }) + "…"@
}

/// See [`fetching_text`].
pub fn fetching(n: u64) -> (r: String)
    ensures
        r@ == fetching_text(n as nat),
{
    let mut s = "Fetching ".to_owned();
    push_dec(&mut s, n);
    s.append(" playlist");
    s.append(if n == 1 { "" } else { "s" });
    s.append("…");
    s
}

/// What is said once playlists were loaded.
pub open spec fn loaded_text(count: nat) -> Seq<char> {
    if count == 0 { "Those playlists came back empty."@ } else { dec(count) + " channels"@ }
}

/// See [`loaded_text`].
pub fn loaded(count: u64) -> (r: String)
    ensures
        r@ == loaded_text(count as nat),
{
    if count == 0 {
        return "Those playlists came back empty.".to_owned();
    }
    let mut s = String::new();
    push_dec(&mut s, count);
    assert(s@ =~= dec(count as nat));
    s.append(" channels");
    s
}

/// What happens on entering the section: playlists picked before are loaded where
/// nothing is loaded yet.
pub fn loads_on_entry(picked: usize, channels: usize) -> (r: bool)
    ensures
        r == (picked > 0 && channels == 0),
{
    picked > 0 && channels == 0
}

/// The line under the name of the channel that plays.
pub open spec fn res_text(res: nat) -> Seq<char> {
    if res == 0 { Seq::empty() } else { dec(res) + "p"@ }
}

/// See [`res_text`].
pub fn res_label(res: u32) -> (r: String)
    ensures
        r@ == res_text(res as nat),
{
    let mut s = String::new();
    assert(s@ =~= Seq::<char>::empty());
    if res != 0 {
        push_dec(&mut s, res as u64);
        assert(s@ =~= dec(res as nat));
        s.append("p");
    }
    s
}

/// What is said while a channel opens.
pub open spec fn opening_text(name: Seq<char>) -> Seq<char> {
    "Opening "@ + name + " in mpv…"@
}

/// See [`opening_text`].
pub fn opening(name: &str) -> (r: String)
    ensures
        r@ == opening_text(name@),
{
    let mut s = "Opening ".to_owned();
    s.append(name);
    s.append(" in mpv…");
    s
}

/// What is said once a channel plays.
pub fn playing(name: &str) -> (r: String)
    ensures
        r@ == "Playing "@ + name@ + " in mpv"@,
{
    let mut s = "Playing ".to_owned();
    s.append(name);
    s.append(" in mpv");
    s
}

/// Where a stream first stands among some channels.
pub open spec fn stream_at(channels: Seq<Channel>, url: Seq<char>) -> Option<int>
    decreases channels.len(),
{
    if channels.len() == 0 {
        None
    } else if channels[0].url@ == url {
        Some(0)
    } else {
        match stream_at(channels.skip(1), url) {
            Some(i) => Some(i + 1),
            None => None,
        }
    }
}

/// After a reload, where the channel that plays stands now, found by its stream;
/// nothing where it is no longer listed.
pub fn resync_now(channels: &Vec<Channel>, url: &str) -> (r: Option<usize>)
    ensures
        r is Some <==> stream_at(channels@, url@) is Some,
        r matches Some(i) ==> Some(i as int) == stream_at(channels@, url@) && i < channels@.len(),
{
    let mut i: usize = 0;
    assert(channels@.skip(0) =~= channels@);
    while i < channels.len()
        invariant
            i <= channels@.len(),
            stream_at(channels@, url@) == (match stream_at(channels@.skip(i as int), url@) {
                Some(k) => Some(k + i),
                None => None,
            }),
        decreases channels@.len() - i,
    {
        assert(channels@.skip(i as int)[0] == channels@[i as int]);
        assert(channels@.skip(i as int).skip(1) =~= channels@.skip(i + 1));
        if same(channels[i].url.as_str(), url) {
            return Some(i);
        }
        i = i + 1;
    }
    None
}

/// What the player reports: its clock, running or not; the sound track; something
/// else.
#[derive(Clone, Copy, Debug, PartialEq, Eq, Structural)]
pub enum Heard {
    Clock(bool),
    Track,
    Other,
}

/// What a line of the player says, by the event and the property that it names and by
/// whether the clock runs in it.
pub open spec fn heard_of(event: Option<Seq<char>>, name: Option<Seq<char>>, runs: bool) -> Heard {
    if event == Some("property-change"@) && name == Some("time-pos"@) {
        Heard::Clock(runs)
    } else if event == Some("property-change"@) && name == Some("aid"@) {
        Heard::Track
    } else {
        Heard::Other
    }
}

/// Whether an optional text is there and reads as another.
fn reads(s: &Option<String>, text: &str) -> (r: bool)
    ensures
        r == (opt_string(*s) == Some(text@)),
{
    match s {
        Some(t) => same(t.as_str(), text),
        None => false,
    }
}

/// What a report says, its event and its property given; see [`heard_of`].
pub fn heard_in(event: &Option<String>, name: &Option<String>, runs: bool) -> (r: Heard)
    ensures
        r == heard_of(opt_string(*event), opt_string(*name), runs),
{
    if !reads(event, "property-change") {
        Heard::Other
    } else if reads(name, "time-pos") {
        Heard::Clock(runs)
    } else if reads(name, "aid") {
        Heard::Track
    } else {
        Heard::Other
    }
}

/// What a line of the player says; `runs` tells whether the number in it is above zero.
pub fn heard(line: &str, runs: bool) -> (r: Heard)
    ensures
        r == heard_of(json_text(line@, "event"@), json_text(line@, "name"@), runs),
{
    heard_in(&json_string(line, "event"), &json_string(line, "name"), runs)
}

/// What is to be done about a report.
#[derive(Clone, Copy, Debug, PartialEq, Eq, Structural)]
pub enum Answer {
    /// Nothing.
    Nothing,
    /// Say that the channel plays.
    SayPlaying,
    /// Seek to the live edge.
    SeekToEdge,
    /// Stop listening: another channel owns the window.
    Leave,
}

/// What is known of the player.
#[derive(Clone, Copy, Debug, PartialEq, Eq, Structural)]
pub struct Watch {
    pub playing: bool,
    pub seen_track: bool,
}

/// What a report leads to. The first running clock says that the channel plays;
/// the first track is the one that the player opened with, every later one seeks.
pub open spec fn watch_next(w: Watch, heard: Heard, current: bool) -> (Watch, Answer) {
    if !current {
        (w, Answer::Leave)
    } else {
        match heard {
            Heard::Clock(runs) => if runs && !w.playing {
                (Watch { playing: true, seen_track: w.seen_track }, Answer::SayPlaying)
            } else {
                (w, Answer::Nothing)
            },
            Heard::Track => (
                Watch { playing: w.playing, seen_track: true },
                if w.seen_track { Answer::SeekToEdge } else { Answer::Nothing },
            ),
            Heard::Other => (w, Answer::Nothing),
        }
    }
}

impl Watch {
    /// A player that has just been started.
    pub fn new() -> (r: Watch)
        ensures
            r == (Watch { playing: false, seen_track: false }),
    {
        Watch { playing: false, seen_track: false }
    }

    /// Takes in a report; `current` says that this player is still the one that
    /// was started last.
    pub fn watch_mpv(&mut self, heard: Heard, current: bool) -> (r: Answer)
        ensures
            (*final(self), r) == watch_next(*old(self), heard, current),
    {
        if !current {
            return Answer::Leave;
        }
        match heard {
            Heard::Clock(runs) => {
                if runs && !self.playing {
                    self.playing = true;
                    Answer::SayPlaying
                } else {
                    Answer::Nothing
                }
            },
            Heard::Track => {
                let again = self.seen_track;
                self.seen_track = true;
                if again {
                    Answer::SeekToEdge
                } else {
                    Answer::Nothing
                }
            },
            Heard::Other => Answer::Nothing,
        }
    }
}

/// A channel is said to play once: after that no report says so again.
pub proof fn law_playing_is_said_once(w: Watch, heard: Heard, later: Heard)
    requires
        watch_next(w, heard, true).1 == Answer::SayPlaying,
    ensures
        watch_next(watch_next(w, heard, true).0, later, true).1 != Answer::SayPlaying,
        watch_next(w, heard, true).0.playing,
{
}

/// The channels that are shown are exactly those of the open group, or of all groups, whose
/// name holds the query, in the order of the list.
pub proof fn law_the_grid_shows_what_is_asked_for(
    channels: Seq<Channel>,
    lowered: Seq<Seq<char>>,
    group: Seq<char>,
    q: Seq<char>,
)
    ensures
        rising(shown_places(channels, lowered, group, q)),
        forall|i: int|
            #[trigger] shown_places(channels, lowered, group, q).contains(i) ==> {
                &&& 0 <= i < channels.len()
                &&& group.len() > 0 ==> channels[i].group@ == group
                &&& q.len() > 0 ==> exists|k: int| 0 <= k <= lowered[i].len() - q.len() && #[trigger] lowered[i].subrange(k, k + q.len()) == q
            },
        forall|i: int, k: int|
            #![trigger lowered[i].subrange(k, k + q.len())]
            0 <= i < channels.len() && (group.len() == 0 || channels[i].group@ == group) && 0 <= k <= lowered[i].len() - q.len()
                && lowered[i].subrange(k, k + q.len()) == q ==> shown_places(channels, lowered, group, q).contains(i),
        q.len() == 0 ==> forall|i: int|
            0 <= i < channels.len() && (group.len() == 0 || channels[i].group@ == group) ==> #[trigger] shown_places(
                channels,
                lowered,
                group,
                q,
            ).contains(i),
    decreases channels.len(),
{
    let all = shown_places(channels, lowered, group, q);
    if channels.len() > 0 {
        let front = channels.drop_last();
        let n = front.len() as int;
        let before = shown_places(front, lowered, group, q);
        law_the_grid_shows_what_is_asked_for(front, lowered, group, q);
        assert forall|k: int| 0 <= k < before.len() implies #[trigger] before[k] < n by {
            assert(before.contains(before[k]));
        }
        lemma_rising_push(before, n);
        assert forall|i: int| #[trigger] before.contains(i) implies all.contains(i) by {
            let k = choose|k: int| 0 <= k < before.len() && before[k] == i;
            assert(all[k] == i);
        }
        if all.len() > before.len() {
            assert(all[before.len() as int] == n);
        }
        assert forall|i: int| #[trigger] all.contains(i) implies {
            &&& 0 <= i < channels.len()
            &&& group.len() > 0 ==> channels[i].group@ == group
            &&& q.len() > 0 ==> exists|k: int| 0 <= k <= lowered[i].len() - q.len() && #[trigger] lowered[i].subrange(k, k + q.len()) == q
        } by {
            let j = choose|j: int| 0 <= j < all.len() && all[j] == i;
            if j < before.len() {
                assert(before.contains(before[j]));
                assert(front[i] == channels[i]);
            } else {
                if q.len() > 0 {
                    let t = lowered[n];
                    let k = choose|k: int| 0 <= k <= t.len() && #[trigger] crate::find::begins(t.skip(k), q);
                    assert(t.skip(k).take(q.len() as int) =~= t.subrange(k, k + q.len()));
                }
            }
        }
        assert forall|i: int, k: int|
            #![trigger lowered[i].subrange(k, k + q.len())]
            0 <= i < channels.len() && (group.len() == 0 || channels[i].group@ == group) && 0 <= k <= lowered[i].len() - q.len()
                && lowered[i].subrange(k, k + q.len()) == q implies all.contains(i) by {
            if i < n {
                assert(front[i] == channels[i]);
                assert(lowered[i].subrange(k, k + q.len()) == q);
                assert(before.contains(i));
            } else {
                let t = lowered[n];
                assert(t.skip(k).take(q.len() as int) =~= t.subrange(k, k + q.len()));
                assert(crate::find::begins(t.skip(k), q));
                assert(has(t, q));
            }
        }
        if q.len() == 0 {
            assert forall|i: int| 0 <= i < channels.len() && (group.len() == 0 || channels[i].group@ == group) implies #[trigger] all.contains(
                i,
            ) by {
                if i < n {
                    assert(front[i] == channels[i]);
                    assert(before.contains(i));
                }
            }
        }
    }
}

/// Asked for downwards, the channels stand in the reverse of their order upwards, whatever
/// they are sorted by.
pub proof fn law_channels_turn_round(
    channels: Seq<Channel>,
    names: Seq<Seq<char>>,
    groups: Seq<Seq<char>>,
    list: Seq<int>,
    sort: Seq<char>,
)
    ensures
        ({
            let up = sorted_places(channels, names, groups, list, sort, true);
            let down = sorted_places(channels, names, groups, list, sort, false);
            &&& down.len() == up.len()
            &&& forall|i: int| 0 <= i < up.len() ==> #[trigger] down[i] == up[up.len() - 1 - i]
        }),
{
}

proof fn lemma_through_keeps(outer: Seq<int>, inner: Seq<int>)
    requires
        outer.no_duplicates(),
        crate::order::all_places(inner, outer.len()),
    ensures
        through(outer, inner).len() == outer.len(),
        through(outer, inner).no_duplicates(),
        forall|x: int| #[trigger] through(outer, inner).contains(x) ==> outer.contains(x),
        forall|i: int| 0 <= i < inner.len() ==> #[trigger] through(outer, inner)[i] == outer[inner[i]],
{
    let o = through(outer, inner);
    assert forall|i: int, j: int| 0 <= i < o.len() && 0 <= j < o.len() && i != j implies o[i] != o[j] by {
        assert(inner[i] != inner[j]);
        assert(0 <= inner[i] < outer.len() && 0 <= inner[j] < outer.len());
    }
    assert forall|x: int| #[trigger] o.contains(x) implies outer.contains(x) by {
        let i = choose|i: int| 0 <= i < o.len() && o[i] == x;
        assert(0 <= inner[i] < outer.len());
    }
}

/// Upwards, channels go up by name; by group and then by name; or by resolution and then by
/// name; by anything else they stay as they are. None is lost and none comes twice.
pub proof fn law_channels_sort_as_asked(
    channels: Seq<Channel>,
    names: Seq<Seq<char>>,
    groups: Seq<Seq<char>>,
    list: Seq<int>,
    sort: Seq<char>,
)
    requires
        list.no_duplicates(),
    ensures
        ({
            let up = sorted_places(channels, names, groups, list, sort, true);
            &&& up.len() == list.len()
            &&& up.no_duplicates()
            &&& forall|x: int| #[trigger] up.contains(x) ==> list.contains(x)
            &&& sort == "name"@ ==> forall|i: int, j: int|
                0 <= i < j < up.len() ==> !precedes(names[#[trigger] up[j]], names[#[trigger] up[i]])
            &&& sort == "group"@ ==> forall|i: int, j: int|
                0 <= i < j < up.len() ==> {
                    &&& !precedes(groups[#[trigger] up[j]], groups[#[trigger] up[i]])
                    &&& groups[up[i]] == groups[up[j]] ==> !precedes(names[up[j]], names[up[i]])
                }
            &&& sort == "res"@ ==> forall|i: int, j: int|
                0 <= i < j < up.len() ==> {
                    &&& channels[#[trigger] up[i]].res <= channels[#[trigger] up[j]].res
                    &&& channels[up[i]].res == channels[up[j]].res ==> !precedes(names[up[j]], names[up[i]])
                }
            &&& sort != "name"@ && sort != "group"@ && sort != "res"@ ==> up == list
        }),
{
    reveal_strlit("name");
    reveal_strlit("group");
    reveal_strlit("res");
    assert("name"@.len() == 4 && "group"@.len() == 5 && "res"@.len() == 3);
    let keys = picked(names, list);
    let first = order(keys, list.len());
    crate::order::law_order_sorts(keys, list.len());
    let by_name = through(list, first);
    lemma_through_keeps(list, first);
    assert forall|i: int, j: int| 0 <= i < j < by_name.len() implies !precedes(
        names[#[trigger] by_name[j]],
        names[#[trigger] by_name[i]],
    ) by {
        assert(by_name[i] == list[first[i]] && by_name[j] == list[first[j]]);
        assert(keys[first[i]] == names[by_name[i]] && keys[first[j]] == names[by_name[j]]);
        assert(!precedes(keys[first[j]], keys[first[i]]));
    }
    let up = sorted_places(channels, names, groups, list, sort, true);
    if sort == "group"@ {
        let gk = picked(groups, by_name);
        let o = order(gk, by_name.len());
        crate::order::law_order_sorts(gk, by_name.len());
        lemma_through_keeps(by_name, o);
        assert forall|i: int, j: int| 0 <= i < j < up.len() implies {
            &&& !precedes(groups[#[trigger] up[j]], groups[#[trigger] up[i]])
            &&& groups[up[i]] == groups[up[j]] ==> !precedes(names[up[j]], names[up[i]])
        } by {
            assert(up[i] == by_name[o[i]] && up[j] == by_name[o[j]]);
            assert(gk[o[i]] == groups[up[i]] && gk[o[j]] == groups[up[j]]);
            assert(!precedes(gk[o[j]], gk[o[i]]));
            if groups[up[i]] == groups[up[j]] {
                assert(o[i] < o[j]);
            }
        }
    } else if sort == "res"@ {
        let rk = Seq::new(by_name.len(), |i: int| channels[by_name[i]].res as int);
        let o = num_order(rk, by_name.len());
        crate::order::law_num_order_sorts(rk, by_name.len());
        lemma_through_keeps(by_name, o);
        assert forall|i: int, j: int| 0 <= i < j < up.len() implies {
            &&& channels[#[trigger] up[i]].res <= channels[#[trigger] up[j]].res
            &&& channels[up[i]].res == channels[up[j]].res ==> !precedes(names[up[j]], names[up[i]])
        } by {
            assert(up[i] == by_name[o[i]] && up[j] == by_name[o[j]]);
            assert(0 <= o[i] < by_name.len() && 0 <= o[j] < by_name.len());
            assert(rk[o[i]] == channels[up[i]].res && rk[o[j]] == channels[up[j]].res);
            assert(rk[o[i]] <= rk[o[j]]);
            if channels[up[i]].res == channels[up[j]].res {
                assert(o[i] < o[j]);
            }
        }
    }
}

/// Every channel of the list is on one page, forty-two to a page, and its row there says
/// what the channel says.
pub proof fn law_every_channel_is_on_its_page(channels: Seq<Channel>, list: Seq<int>, k: int)
    requires
        0 <= k < list.len(),
    ensures
        0 <= k / 42 < page_count(list.len() as int, 42),
        page_rows(channels, list, k / 42).len() <= 42,
        k % 42 < page_rows(channels, list, k / 42).len(),
        ({
            let (row, c) = (page_rows(channels, list, k / 42)[k % 42], channels[list[k]]);
            &&& row.0 == list[k]
            &&& row.1 == c.id@
            &&& row.2 == c.name@
            &&& row.3 == c.group@
            &&& row.4 == c.logo@
        }),
{
    crate::transfer::words::law_pages_hold_every_row(list.len() as int, 42);
}

/// The page that is asked for is shown where there is one; else the first, or the last.
pub proof fn law_the_page_asked_for_is_shown(asked: int, pages: int)
    requires
        pages >= 1,
    ensures
        0 <= asked < pages ==> page_shown(asked, pages) == asked,
        asked < 0 ==> page_shown(asked, pages) == 0,
        asked >= pages ==> page_shown(asked, pages) == pages - 1,
{
}

/// How many channels are of a group.
pub open spec fn members(channels: Seq<Channel>, name: Seq<char>) -> Seq<Channel> {
    channels.filter(|c: Channel| c.group@ == name)
}

proof fn lemma_counted(groups: Seq<(Seq<char>, nat)>, name: Seq<char>)
    requires
        forall|i: int, j: int| 0 <= i < j < groups.len() ==> (#[trigger] groups[i]).0 != (#[trigger] groups[j]).0,
    ensures
        ({
            let after = counted(groups, name);
            &&& forall|i: int, j: int| 0 <= i < j < after.len() ==> (#[trigger] after[i]).0 != (#[trigger] after[j]).0
            &&& after.len() >= groups.len()
            &&& forall|i: int|
                0 <= i < groups.len() ==> (#[trigger] after[i]).0 == groups[i].0 && after[i].1 == groups[i].1 + (if groups[i].0
                    == name { 1int } else { 0 })
            &&& (after.len() == groups.len()) == (exists|i: int| 0 <= i < groups.len() && (#[trigger] groups[i]).0 == name)
            &&& after.len() > groups.len() ==> after.len() == groups.len() + 1 && after.last() == (name, 1nat)
        }),
    decreases groups.len(),
{
    let after = counted(groups, name);
    if groups.len() > 0 {
        let rest = groups.skip(1);
        assert forall|i: int, j: int| 0 <= i < j < rest.len() implies (#[trigger] rest[i]).0 != (#[trigger] rest[j]).0 by {
            assert(groups[i + 1].0 != groups[j + 1].0);
        }
        if groups[0].0 == name {
            assert forall|i: int| 0 <= i < groups.len() implies (#[trigger] after[i]).0 == groups[i].0 && after[i].1 == groups[i].1
                + (if groups[i].0 == name { 1int } else { 0 }) by {
                if i > 0 {
                    assert(after[i] == rest[i - 1]);
                    assert(groups[0].0 != groups[i].0);
                }
            }
        } else {
            lemma_counted(rest, name);
            let tail = counted(rest, name);
            assert forall|i: int| 0 <= i < after.len() implies after[i] == (if i == 0 { groups[0] } else { tail[i - 1] }) by {}
            assert forall|i: int| 0 <= i < groups.len() implies (#[trigger] after[i]).0 == groups[i].0 && after[i].1 == groups[i].1
                + (if groups[i].0 == name { 1int } else { 0 }) by {
                if i > 0 {
                    assert(after[i] == tail[i - 1]);
                    assert(rest[i - 1] == groups[i]);
                }
            }
            if exists|i: int| 0 <= i < rest.len() && (#[trigger] rest[i]).0 == name {
                let i = choose|i: int| 0 <= i < rest.len() && (#[trigger] rest[i]).0 == name;
                assert(groups[i + 1].0 == name);
            }
            if exists|i: int| 0 <= i < groups.len() && (#[trigger] groups[i]).0 == name {
                let i = choose|i: int| 0 <= i < groups.len() && (#[trigger] groups[i]).0 == name;
                assert(rest[i - 1].0 == name);
            }
            assert forall|i: int, j: int| 0 <= i < j < after.len() implies (#[trigger] after[i]).0 != (#[trigger] after[j]).0 by {
                if i > 0 {
                    assert(tail[i - 1].0 != tail[j - 1].0);
                } else if j - 1 < rest.len() {
                    assert(tail[j - 1].0 == rest[j - 1].0);
                    assert(groups[0].0 != groups[j].0);
                } else {
                    assert(tail[j - 1] == tail.last());
                }
            }
        }
    }
}

/// The sidebar counts: each group that some channel has stands there once, with as many
/// channels as have it; no other does, and no channel without a group counts.
pub proof fn law_groups_count_their_channels(channels: Seq<Channel>)
    ensures
        forall|i: int, j: int|
            0 <= i < j < tally(channels).len() ==> (#[trigger] tally(channels)[i]).0 != (#[trigger] tally(channels)[j]).0,
        forall|i: int|
            0 <= i < tally(channels).len() ==> {
                let g = #[trigger] tally(channels)[i];
                g.0.len() > 0 && g.1 > 0 && g.1 == members(channels, g.0).len()
            },
        forall|k: int|
            0 <= k < channels.len() && (#[trigger] channels[k]).group@.len() > 0 ==> exists|i: int|
                0 <= i < tally(channels).len() && (#[trigger] tally(channels)[i]).0 == channels[k].group@,
    decreases channels.len(), 0int,
{
    reveal(Seq::filter);
    if channels.len() > 0 {
        let front = channels.drop_last();
        law_groups_count_their_channels(front);
        let rest = tally(front);
        let name = channels.last().group@;
        let after = tally(channels);
        assert forall|g: Seq<char>| #[trigger] members(channels, g).len() == members(front, g).len() + (if g == name { 1int } else { 0 }) by {}
        if name.len() > 0 {
            lemma_counted(rest, name);
            assert forall|i: int| 0 <= i < after.len() implies {
                let g = #[trigger] after[i];
                g.0.len() > 0 && g.1 > 0 && g.1 == members(channels, g.0).len()
            } by {
                if i < rest.len() {
                    assert(after[i].0 == rest[i].0);
                    assert(rest[i].1 == members(front, rest[i].0).len());
                } else {
                    lemma_no_members(front, name);
                }
            }
            assert forall|k: int| 0 <= k < channels.len() && (#[trigger] channels[k]).group@.len() > 0 implies exists|i: int|
                0 <= i < after.len() && (#[trigger] after[i]).0 == channels[k].group@ by {
                if k < front.len() {
                    assert(front[k] == channels[k]);
                    let i = choose|i: int| 0 <= i < rest.len() && (#[trigger] rest[i]).0 == front[k].group@;
                    assert(after[i].0 == rest[i].0);
                } else if after.len() > rest.len() {
                    assert(after[after.len() - 1].0 == name);
                } else {
                    let i = choose|i: int| 0 <= i < rest.len() && (#[trigger] rest[i]).0 == name;
                    assert(after[i].0 == rest[i].0);
                }
            }
        } else {
            assert forall|i: int| 0 <= i < after.len() implies {
                let g = #[trigger] after[i];
                g.0.len() > 0 && g.1 > 0 && g.1 == members(channels, g.0).len()
            } by {
                assert(rest[i].1 == members(front, rest[i].0).len());
            }
            assert forall|k: int| 0 <= k < channels.len() && (#[trigger] channels[k]).group@.len() > 0 implies exists|i: int|
                0 <= i < after.len() && (#[trigger] after[i]).0 == channels[k].group@ by {
                assert(front[k] == channels[k]);
            }
        }
    }
}

proof fn lemma_no_members(channels: Seq<Channel>, name: Seq<char>)
    requires
        name.len() > 0,
        !(exists|i: int| 0 <= i < tally(channels).len() && (#[trigger] tally(channels)[i]).0 == name),
    ensures
        members(channels, name).len() == 0,
    decreases channels.len(), 1int,
{
    law_groups_count_their_channels(channels);
    lemma_none_left(channels, name);
}

proof fn lemma_none_left(channels: Seq<Channel>, name: Seq<char>)
    requires
        forall|k: int| 0 <= k < channels.len() ==> (#[trigger] channels[k]).group@ != name,
    ensures
        members(channels, name).len() == 0,
    decreases channels.len(),
{
    reveal(Seq::filter);
    if channels.len() > 0 {
        let front = channels.drop_last();
        assert forall|k: int| 0 <= k < front.len() implies (#[trigger] front[k]).group@ != name by {
            assert(front[k] == channels[k]);
        }
        lemma_none_left(front, name);
    }
}

/// The logos that are asked for are exactly those of the page that are not empty, not known
/// and not on their way, each once.
pub proof fn law_logos_are_asked_for_once(urls: Seq<Seq<char>>, known: Seq<Seq<char>>, pending: Seq<Seq<char>>)
    ensures
        logos_wanted(urls, known, pending).no_duplicates(),
        forall|u: Seq<char>|
            #[trigger] logos_wanted(urls, known, pending).contains(u) <==> urls.contains(u) && u.len() > 0 && !known.contains(u)
                && !pending.contains(u),
    decreases urls.len(),
{
    let all = logos_wanted(urls, known, pending);
    if urls.len() > 0 {
        let front = urls.drop_last();
        let rest = logos_wanted(front, known, pending);
        let l = urls.last();
        law_logos_are_asked_for_once(front, known, pending);
        assert forall|u: Seq<char>| #[trigger] all.contains(u) <==> urls.contains(u) && u.len() > 0 && !known.contains(u)
            && !pending.contains(u) by {
            assert(urls =~= front.push(l));
            if urls.contains(u) {
                let k = choose|k: int| 0 <= k < urls.len() && urls[k] == u;
                if k < front.len() {
                    assert(front[k] == u);
                }
            }
            if front.contains(u) {
                let k = choose|k: int| 0 <= k < front.len() && front[k] == u;
                assert(urls[k] == u);
            }
            assert(urls[urls.len() - 1] == l);
            if rest.contains(u) {
                let k = choose|k: int| 0 <= k < rest.len() && rest[k] == u;
                assert(all[k] == u);
            }
            if all.len() > rest.len() {
                assert(all[rest.len() as int] == l);
                if all.contains(u) {
                    let k = choose|k: int| 0 <= k < all.len() && all[k] == u;
                    if k < rest.len() {
                        assert(rest[k] == u);
                    }
                }
            }
        }
    }
}

/// A picked playlist is taken out, any other put in, and no other changes.
pub proof fn law_toggling_switches_one_playlist(picked: Seq<Seq<char>>, url: Seq<char>, other: Seq<char>)
    requires
        picked.no_duplicates(),
        other != url,
    ensures
        toggled(picked, url).contains(url) == !picked.contains(url),
        toggled(picked, url).contains(other) == picked.contains(other),
        toggled(picked, url).no_duplicates(),
    decreases picked.len(),
{
    let t = toggled(picked, url);
    if picked.len() == 0 {
        assert(t[0] == url);
    } else {
        let rest = picked.skip(1);
        assert forall|i: int, j: int| 0 <= i < rest.len() && 0 <= j < rest.len() && i != j implies rest[i] != rest[j] by {
            assert(picked[i + 1] != picked[j + 1]);
        }
        assert forall|x: Seq<char>| #[trigger] picked.contains(x) == (picked[0] == x || rest.contains(x)) by {
            if picked.contains(x) {
                let k = choose|k: int| 0 <= k < picked.len() && picked[k] == x;
                if k > 0 {
                    assert(rest[k - 1] == x);
                }
            }
            if rest.contains(x) {
                let k = choose|k: int| 0 <= k < rest.len() && rest[k] == x;
                assert(picked[k + 1] == x);
            }
        }
        if picked[0] == url {
            assert(!rest.contains(url)) by {
                if rest.contains(url) {
                    let k = choose|k: int| 0 <= k < rest.len() && rest[k] == url;
                    assert(picked[k + 1] != picked[0]);
                }
            }
        } else {
            law_toggling_switches_one_playlist(rest, url, other);
            let tail = toggled(rest, url);
            if picked[0] != other {
                law_toggling_switches_one_playlist(rest, url, picked[0]);
            } else {
                law_toggling_switches_one_playlist(rest, url, other);
            }
            assert(!rest.contains(picked[0])) by {
                if rest.contains(picked[0]) {
                    let k = choose|k: int| 0 <= k < rest.len() && rest[k] == picked[0];
                    assert(picked[k + 1] != picked[0]);
                }
            }
            assert forall|x: Seq<char>| #[trigger] t.contains(x) == (picked[0] == x || tail.contains(x)) by {
                if t.contains(x) {
                    let k = choose|k: int| 0 <= k < t.len() && t[k] == x;
                    if k > 0 {
                        assert(tail[k - 1] == x);
                    }
                }
                if tail.contains(x) {
                    let k = choose|k: int| 0 <= k < tail.len() && tail[k] == x;
                    assert(t[k + 1] == x);
                }
                if picked[0] == x {
                    assert(t[0] == x);
                }
            }
            assert forall|i: int, j: int| 0 <= i < t.len() && 0 <= j < t.len() && i != j implies t[i] != t[j] by {
                if i > 0 && j > 0 {
                    assert(tail[i - 1] != tail[j - 1]);
                } else if i == 0 {
                    assert(tail.contains(tail[j - 1]));
                } else {
                    assert(tail.contains(tail[i - 1]));
                }
            }
        }
    }
}

/// A tab of the picker lists exactly the playlists of its kind whose name holds the query,
/// in their order, each marked where it is picked.
pub proof fn law_the_picker_lists_the_tab(
    all: Seq<Listed>,
    lowered: Seq<Seq<char>>,
    tab: Seq<char>,
    q: Seq<char>,
    picked: Seq<Seq<char>>,
) -> (idx: Seq<int>)
    ensures
        rising(idx),
        forall|i: int|
            #[trigger] idx.contains(i) <==> {
                &&& 0 <= i < all.len()
                &&& all[i].kind@ == (if tab == "category"@ || tab == "language"@ { tab } else { "country"@ })
                &&& q.len() == 0 || has(lowered[i], q)
            },
        playlist_rows(all, lowered, tab, q, picked).len() == idx.len(),
        forall|k: int|
            0 <= k < idx.len() ==> {
                let (row, p) = (playlist_rows(all, lowered, tab, q, picked)[k], all[#[trigger] idx[k]]);
                row.0 == picked.contains(p.url@) && row.1 == p.name@ && row.2 == p.kind@ && row.3 == p.url@
            },
    decreases all.len(),
{
    if all.len() == 0 {
        Seq::empty()
    } else {
        let front = all.drop_last();
        let n = front.len() as int;
        let before = law_the_picker_lists_the_tab(front, lowered, tab, q, picked);
        let kind = if tab == "category"@ || tab == "language"@ { tab } else { "country"@ };
        assert forall|k: int| 0 <= k < before.len() implies 0 <= #[trigger] before[k] < n && front[before[k]] == all[before[k]] by {
            assert(before.contains(before[k]));
        }
        let keep = all.last().kind@ == kind && (q.len() == 0 || has(lowered[n], q));
        lemma_rising_push(before, n);
        let idx = if keep { before.push(n) } else { before };
        assert forall|i: int| #[trigger] idx.contains(i) <==> {
            &&& 0 <= i < all.len()
            &&& all[i].kind@ == kind
            &&& q.len() == 0 || has(lowered[i], q)
        } by {
            if idx.contains(i) {
                let k = choose|k: int| 0 <= k < idx.len() && idx[k] == i;
                if k < before.len() {
                    assert(before.contains(before[k]));
                    assert(front[i] == all[i]);
                }
            }
            if 0 <= i < n {
                assert(front[i] == all[i]);
                if all[i].kind@ == kind && (q.len() == 0 || has(lowered[i], q)) {
                    assert(before.contains(i));
                }
            }
        }
        assert forall|k: int| 0 <= k < idx.len() implies idx[k] == (if k < before.len() { before[k] } else { n }) by {}
        idx
    }
}

/// The channel that plays is found again at the first place that has its stream, and is
/// lost only where none has.
pub proof fn law_the_channel_is_found_by_its_stream(channels: Seq<Channel>, url: Seq<char>)
    ensures
        stream_at(channels, url) matches Some(i) ==> 0 <= i < channels.len() && channels[i].url@ == url && forall|j: int|
            0 <= j < i ==> (#[trigger] channels[j]).url@ != url,
        stream_at(channels, url) is None ==> forall|j: int| 0 <= j < channels.len() ==> (#[trigger] channels[j]).url@ != url,
    decreases channels.len(),
{
    if channels.len() > 0 && channels[0].url@ != url {
        let rest = channels.skip(1);
        law_the_channel_is_found_by_its_stream(rest, url);
        match stream_at(rest, url) {
            Some(k) => {
                assert(rest[k] == channels[k + 1]);
                assert forall|j: int| 0 <= j < k + 1 implies (#[trigger] channels[j]).url@ != url by {
                    if j > 0 {
                        assert(rest[j - 1] == channels[j]);
                    }
                }
            },
            None => {
                assert forall|j: int| 0 <= j < channels.len() implies (#[trigger] channels[j]).url@ != url by {
                    if j > 0 {
                        assert(rest[j - 1] == channels[j]);
                    }
                }
            },
        }
    }
}

/// A name of twenty characters is shown whole; a longer one begins with what is shown of
/// it and trails off, without white space before the dots.
pub proof fn law_the_pill_shortens_long_names(name: Seq<char>)
    ensures
        name.len() <= 20 ==> pill_text(name) == name,
        name.len() > 20 ==> {
            let t = pill_text(name);
            &&& 1 <= t.len() <= 21
            &&& t.last() == '…'
            &&& t.drop_last() == name.take(t.len() - 1)
            &&& t.len() > 1 ==> !crate::text::is_space(t[t.len() - 2])
            &&& forall|i: int| t.len() - 1 <= i < 20 ==> crate::text::is_space(#[trigger] name[i])
        },
{
    if name.len() > 20 {
        reveal_strlit("…");
        let s = name.take(20);
        lemma_trimmed_behind(s);
        let t = pill_text(name);
        assert(t.drop_last() =~= trim_end(s));
        assert(t.drop_last() =~= name.take(t.len() - 1));
        assert forall|i: int| t.len() - 1 <= i < 20 implies crate::text::is_space(#[trigger] name[i]) by {
            assert(s[i] == name[i]);
        }
    }
}

proof fn lemma_trimmed_behind(s: Seq<char>)
    ensures
        trim_end(s).len() <= s.len(),
        trim_end(s) == s.take(trim_end(s).len() as int),
        trim_end(s).len() > 0 ==> !crate::text::is_space(trim_end(s).last()),
        forall|i: int| trim_end(s).len() <= i < s.len() ==> crate::text::is_space(#[trigger] s[i]),
    decreases s.len(),
{
    if s.len() > 0 && crate::text::is_space(s.last()) {
        let f = s.drop_last();
        lemma_trimmed_behind(f);
        assert(f.take(trim_end(f).len() as int) =~= s.take(trim_end(f).len() as int));
        assert forall|i: int| trim_end(s).len() <= i < s.len() implies crate::text::is_space(#[trigger] s[i]) by {
            if i < f.len() {
                assert(f[i] == s[i]);
            }
        }
    } else {
        assert(s.take(s.len() as int) =~= s);
    }
}

/// A logo's size is said in bytes, from a kilobyte on in kilobytes and from a megabyte on in
/// megabytes, to one decimal.
pub proof fn law_a_logo_size_is_said_in_its_unit(n: nat)
    ensures
        n < 0x400 ==> logo_bytes(n) == dec(n) + " B"@,
        0x400 <= n < 0x10_0000 ==> logo_bytes(n) == over(of_nat(n), 10).text(1) + " KB"@,
        0x10_0000 <= n ==> logo_bytes(n) == over(of_nat(n), 20).text(1) + " MB"@,
{
}

/// A channel's logo is said to be missing, kept, failed or not yet asked for, as it is.
pub proof fn law_a_logo_is_said_as_it_is(url: Seq<char>, path: String, size: u64)
    requires
        url.len() > 0,
    ensures
        logo_line(Seq::empty(), Logo::Failed) == "This channel publishes no logo."@,
        logo_line(url, Logo::Kept(path, size)) == "Logo cached · "@ + logo_bytes(size as nat) + " · "@ + path@,
        logo_line(url, Logo::Failed) == "The logo could not be downloaded."@,
        logo_line(url, Logo::Unasked) == "Logo not fetched yet."@,
{
}

/// What the tuner says: how many playlists it fetches, how many channels came, which it
/// opens; and a channel's rung where it is known.
pub proof fn law_the_tuner_says_what_it_does(n: nat, name: Seq<char>)
    ensures
        fetching_text(1) == "Fetching "@ + dec(1) + " playlist"@ + ""@ + "…"@,
        n != 1 ==> fetching_text(n) == "Fetching "@ + dec(n) + " playlist"@ + "s"@ + "…"@,
        loaded_text(0) == "Those playlists came back empty."@,
        n > 0 ==> loaded_text(n) == dec(n) + " channels"@,
        res_text(0).len() == 0,
        n > 0 ==> res_text(n) == dec(n) + "p"@,
        opening_text(name) == "Opening "@ + name + " in mpv…"@,
{
}

/// The player is heard of two things: its clock and its track; anything else is none of them.
pub proof fn law_the_player_is_heard_by_its_properties(event: Option<Seq<char>>, name: Option<Seq<char>>, runs: bool)
    ensures
        (heard_of(event, name, runs) == Heard::Clock(runs)) == (event == Some("property-change"@) && name == Some("time-pos"@)),
        (heard_of(event, name, runs) is Track) == (event == Some("property-change"@) && name == Some("aid"@)),
{
    reveal_strlit("time-pos");
    reveal_strlit("aid");
    assert("time-pos"@.len() == 8 && "aid"@.len() == 3);
}

/// A player that is no longer the newest is left; one that plays seeks to the edge only at a
/// change of its track, not at the first; and what else it says changes nothing.
pub proof fn law_only_a_changed_track_seeks(w: Watch, heard: Heard, runs: bool)
    ensures
        watch_next(w, heard, false) == (w, Answer::Leave),
        watch_next(w, Heard::Track, true).0 == (Watch { playing: w.playing, seen_track: true }),
        w.seen_track ==> watch_next(w, Heard::Track, true).1 == Answer::SeekToEdge,
        !w.seen_track ==> watch_next(w, Heard::Track, true).1 == Answer::Nothing,
        watch_next(w, Heard::Other, true) == (w, Answer::Nothing),
        watch_next(w, Heard::Clock(false), true) == (w, Answer::Nothing),
        w.playing ==> watch_next(w, Heard::Clock(runs), true) == (w, Answer::Nothing),
        !w.playing ==> watch_next(w, Heard::Clock(true), true) == ((Watch { playing: true, seen_track: w.seen_track }), Answer::SayPlaying),
{
}

} // verus!
