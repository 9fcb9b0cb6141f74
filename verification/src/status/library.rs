//! The library popup, the metric strip and the library's growth.

use vstd::prelude::*;
use crate::status::card::{blocks_view, rows_view, Block, BlockView, Card, CardView, Row, RowView};
use crate::status::collect::cards_view;
use crate::status::figures::{bytes, bytes_text, num, num_text};
use crate::text::{divide, same, trunc_div, views};

verus! {

/// The value of the first row with key `k`.
pub open spec fn hit(rows: Seq<RowView>, k: Seq<char>) -> Option<Seq<char>>
    decreases rows.len(),
{
    if rows.len() == 0 {
        None
    } else if rows[0].0 == k {
        Some(rows[0].1)
    } else {
        hit(rows.skip(1), k)
    }
}

/// The value of `k` in the first group that has it.
pub open spec fn hit_group(groups: Seq<BlockView>, k: Seq<char>) -> Option<Seq<char>>
    decreases groups.len(),
{
    if groups.len() == 0 {
        None
    } else {
        let here = match groups[0] {
            BlockView::Rows(_, rows) => hit(rows, k),
            BlockView::Table(_, _, _) => None,
        };
        if here is Some {
            here
        } else {
            hit_group(groups.skip(1), k)
        }
    }
}

/// What a card says of `k`: on its face, or else in a group behind it.
pub open spec fn pick(c: CardView, k: Seq<char>) -> Option<Seq<char>> {
    if hit(c.rows, k) is Some {
        hit(c.rows, k)
    } else {
        hit_group(c.groups, k)
    }
}

fn find_row<'a>(rows: &'a Vec<Row>, k: &str) -> (r: Option<&'a String>)
    ensures
        hit(rows_view(rows@), k@) == match r {
            Some(v) => Some(v@),
            None => None,
        },
{
    let ghost all = rows_view(rows@);
    let mut i: usize = 0;
    assert(all.skip(0) =~= all);
    while i < rows.len()
        invariant
            i <= rows@.len(),
            all == rows_view(rows@),
            hit(all, k@) == hit(all.skip(i as int), k@),
        decreases rows@.len() - i,
    {
        assert(all.skip(i as int)[0] == rows@[i as int]@);
        if same(rows[i].k.as_str(), k) {
            return Some(&rows[i].v);
        }
        assert(all.skip(i as int).skip(1) =~= all.skip(i + 1));
        i = i + 1;
    }
    None
}

fn find_group<'a>(groups: &'a Vec<Block>, k: &str) -> (r: Option<&'a String>)
    ensures
        hit_group(blocks_view(groups@), k@) == match r {
            Some(v) => Some(v@),
            None => None,
        },
{
    let ghost all = blocks_view(groups@);
    let mut i: usize = 0;
    assert(all.skip(0) =~= all);
    while i < groups.len()
        invariant
            i <= groups@.len(),
            all == blocks_view(groups@),
            hit_group(all, k@) == hit_group(all.skip(i as int), k@),
        decreases groups@.len() - i,
    {
        assert(all.skip(i as int)[0] == groups@[i as int]@);
        assert(all.skip(i as int).skip(1) =~= all.skip(i + 1));
        match &groups[i] {
            Block::Rows(_, rows) => {
                let r = find_row(rows, k);
                if r.is_some() {
                    return r;
                }
            },
            Block::Table(_, _, _) => {},
        }
        i = i + 1;
    }
    None
}

fn pick_of<'a>(c: &'a Card, k: &str) -> (r: Option<&'a String>)
    ensures
        pick(c@, k@) == match r {
            Some(v) => Some(v@),
            None => None,
        },
{
    let r = find_row(&c.rows, k);
    if r.is_some() {
        return r;
    }
    find_group(&c.groups, k)
}

/// What the popup says of one media section.
#[derive(Debug)]
pub struct SectionLine {
    pub name: String,
    pub key: String,
    pub accent: String,
    pub count: String,
    pub size: String,
    pub missing: String,
    pub status: String,
    pub level: String,
}

/// What a section line reads.
#[verifier::ext_equal]
pub struct SectionView {
    pub name: Seq<char>,
    pub key: Seq<char>,
    pub accent: Seq<char>,
    pub count: Seq<char>,
    pub size: Seq<char>,
    pub missing: Seq<char>,
    pub status: Seq<char>,
    pub level: Seq<char>,
}

impl View for SectionLine {
    type V = SectionView;

    open spec fn view(&self) -> SectionView {
        SectionView {
            name: self.name@,
            key: self.key@,
            accent: self.accent@,
            count: self.count@,
            size: self.size@,
            missing: self.missing@,
            status: self.status@,
            level: self.level@,
        }
    }
}

/// What section lines read.
pub open spec fn sections_view(v: Seq<SectionLine>) -> Seq<SectionView> {
    Seq::new(v.len(), |i: int| v[i]@)
}

/// The first of three answers, or else `last`.
pub open spec fn first_of(a: Option<Seq<char>>, b: Option<Seq<char>>, c: Option<Seq<char>>, last: Seq<char>) -> Seq<char> {
    match a {
        Some(v) => v,
        None => match b {
            Some(v) => v,
            None => match c {
                Some(v) => v,
                None => last,
            },
        },
    }
}

/// The popup's line of a section, lifted out of its card.
pub open spec fn section_of(c: CardView) -> SectionView {
    SectionView {
        name: c.name,
        key: c.key,
        accent: c.accent,
        count: first_of(pick(c, "Items"@), pick(c, "Tracks"@), pick(c, "Library"@), "—"@),
        size: first_of(pick(c, "Size"@), pick(c, "On disk"@), None, "—"@),
        missing: first_of(pick(c, "Missing files"@), None, None, "0"@),
        status: c.status,
        level: c.level,
    }
}

fn line_of_card(c: &Card) -> (r: SectionLine)
    ensures
        r@ == section_of(c@),
{
    let count = match pick_of(c, "Items") {
        Some(v) => v.clone(),
        None => match pick_of(c, "Tracks") {
            Some(v) => v.clone(),
            None => match pick_of(c, "Library") {
                Some(v) => v.clone(),
                None => "—".to_owned(),
            },
        },
    };
    let size = match pick_of(c, "Size") {
        Some(v) => v.clone(),
        None => match pick_of(c, "On disk") {
            Some(v) => v.clone(),
            None => "—".to_owned(),
        },
    };
    let missing = match pick_of(c, "Missing files") {
        Some(v) => v.clone(),
        None => "0".to_owned(),
    };
    SectionLine {
        name: c.name.clone(),
        key: c.key.clone(),
        accent: c.accent.clone(),
        count,
        size,
        missing,
        status: c.status.clone(),
        level: c.level.clone(),
    }
}

/// The line of the first card with key `key`, or none.
pub open spec fn section_with(cards: Seq<CardView>, key: Seq<char>) -> Seq<SectionView>
    decreases cards.len(),
{
    if cards.len() == 0 {
        Seq::empty()
    } else if cards[0].key == key {
        seq![section_of(cards[0])]
    } else {
        section_with(cards.skip(1), key)
    }
}

fn push_section(out: &mut Vec<SectionLine>, cards: &Vec<Card>, key: &str)
    ensures
        sections_view(final(out)@) == sections_view(old(out)@) + section_with(cards_view(cards@), key@),
{
    let ghost all = cards_view(cards@);
    let ghost base = sections_view(out@);
    let mut i: usize = 0;
    assert(all.skip(0) =~= all);
    while i < cards.len()
        invariant
            i <= cards@.len(),
            all == cards_view(cards@),
            base == sections_view(out@),
            base == sections_view(old(out)@),
            section_with(all, key@) == section_with(all.skip(i as int), key@),
        decreases cards@.len() - i,
    {
        assert(all.skip(i as int)[0] == cards@[i as int]@);
        if same(cards[i].key.as_str(), key) {
            out.push(line_of_card(&cards[i]));
            assert(sections_view(out@) =~= base + seq![section_of(all[i as int])]);
            return;
        }
        assert(all.skip(i as int).skip(1) =~= all.skip(i + 1));
        i = i + 1;
    }
    assert(sections_view(out@) =~= base + Seq::<SectionView>::empty());
}

/// A watched folder and whether it is there.
#[derive(Debug)]
pub struct Root {
    pub path: String,
    pub exists: bool,
}

/// A watched folder as the popup shows it: its state and tint, and the sections
/// that found something under it.
#[derive(Debug)]
pub struct RootLine {
    pub path: String,
    pub state: String,
    pub cls: String,
    pub sections: Vec<String>,
}

/// What a folder's line reads.
pub type RootView = (Seq<char>, Seq<char>, Seq<char>, Seq<Seq<char>>);

impl View for RootLine {
    type V = RootView;

    open spec fn view(&self) -> RootView {
        (self.path@, self.state@, self.cls@, views(self.sections@))
    }
}

/// What folder lines read.
pub open spec fn roots_view(v: Seq<RootLine>) -> Seq<RootView> {
    Seq::new(v.len(), |i: int| v[i]@)
}

/// The sections that found something under `path`, in the order they were asked.
pub open spec fn sections_under(hits: Seq<(String, String)>, path: Seq<char>) -> Seq<Seq<char>>
    decreases hits.len(),
{
    if hits.len() == 0 {
        Seq::empty()
    } else if hits.last().0@ == path {
        sections_under(hits.drop_last(), path).push(hits.last().1@)
    } else {
        sections_under(hits.drop_last(), path)
    }
}

/// The line of a watched folder.
pub open spec fn root_line(r: Root, hits: Seq<(String, String)>) -> RootView {
    (
        r.path@,
        if r.exists { "On disk"@ } else { "Missing"@ },
        if r.exists { ""@ } else { "b"@ },
        sections_under(hits, r.path@),
    )
}

fn line_of_root(r: &Root, hits: &Vec<(String, String)>) -> (l: RootLine)
    ensures
        l@ == root_line(*r, hits@),
{
    let mut sections: Vec<String> = Vec::new();
    let mut i: usize = 0;
    assert(hits@.take(0) =~= Seq::<(String, String)>::empty());
    assert(views(sections@) =~= Seq::<Seq<char>>::empty());
    while i < hits.len()
        invariant
            i <= hits@.len(),
            views(sections@) == sections_under(hits@.take(i as int), r.path@),
        decreases hits@.len() - i,
    {
        let ghost before = views(sections@);
        assert(hits@.take(i + 1).drop_last() =~= hits@.take(i as int));
        if same(hits[i].0.as_str(), r.path.as_str()) {
            sections.push(hits[i].1.clone());
            assert(views(sections@) =~= before.push(hits@[i as int].1@));
        }
        i = i + 1;
    }
    assert(hits@.take(i as int) =~= hits@);
    let state = if r.exists { "On disk" } else { "Missing" };
    let cls = if r.exists { "" } else { "b" };
    RootLine { path: r.path.clone(), state: state.to_owned(), cls: cls.to_owned(), sections }
}

/// The prefix under which a folder's files lie: the folder with a separator
/// behind it, so that no neighbour whose name begins alike is taken for it.
pub fn root_prefix(path: &str, sep: char) -> (r: String)
    ensures
        r@ == if path@.len() > 0 && path@.last() == sep { path@ } else { path@.push(sep) },
{
    let n: usize = path.unicode_len();
    let mut s = path.to_owned();
    if n > 0 && path.get_char(n - 1) == sep {
        return s;
    }
    s.push(sep);
    s
}

/// The library popup.
#[derive(Debug)]
pub struct Library {
    pub roots: Vec<RootLine>,
    pub sections: Vec<SectionLine>,
    pub items: String,
    pub bytes: String,
    pub databases: usize,
}

/// The lines of the media sections, in the popup's order.
pub open spec fn media_sections(cards: Seq<CardView>) -> Seq<SectionView> {
    section_with(cards, "photos"@) + section_with(cards, "videos"@) + section_with(cards, "music"@)
        + section_with(cards, "books"@)
}

/// What the library popup shows: the watched folders, and what each media section
/// found in them. `hits` are pairs of a folder and a section that found something
/// under it.
pub fn library(
    cards: &Vec<Card>,
    items: i64,
    size: i64,
    roots: &Vec<Root>,
    hits: &Vec<(String, String)>,
    databases: usize,
) -> (r: Library)
    ensures
        roots_view(r.roots@) == Seq::new(roots@.len(), |i: int| root_line(roots@[i], hits@)),
        sections_view(r.sections@) == media_sections(cards_view(cards@)),
        r.items@ == num_text(items as int),
        r.bytes@ == bytes_text(size as int),
        r.databases == databases,
{
    let mut lines: Vec<RootLine> = Vec::new();
    let mut i: usize = 0;
    while i < roots.len()
        invariant
            i <= roots@.len(),
            lines@.len() == i,
            forall|j: int| 0 <= j < i ==> (#[trigger] lines@[j])@ == root_line(roots@[j], hits@),
        decreases roots@.len() - i,
    {
        lines.push(line_of_root(&roots[i], hits));
        i = i + 1;
    }
    let mut sections: Vec<SectionLine> = Vec::new();
    assert(sections_view(sections@) =~= Seq::<SectionView>::empty());
    push_section(&mut sections, cards, "photos");
    push_section(&mut sections, cards, "videos");
    push_section(&mut sections, cards, "music");
    push_section(&mut sections, cards, "books");
    assert(sections_view(sections@) =~= media_sections(cards_view(cards@)));
    assert(roots_view(lines@) =~= Seq::new(roots@.len(), |i: int| root_line(roots@[i], hits@)));
    Library { roots: lines, sections, items: num(items), bytes: bytes(size), databases }
}

/// The slot of the fourteen-day curve that a day falls into.
pub open spec fn day_slot(day: int, day0: int) -> int {
    let d = day - day0;
    if d < 0 { 0 } else if d > 13 { 13 } else { d }
}

/// What was added up to slot `k`.
pub open spec fn added_up_to(rows: Seq<(i64, i64)>, day0: int, k: int) -> int
    decreases rows.len(),
{
    if rows.len() == 0 {
        0
    } else {
        added_up_to(rows.drop_last(), day0, k) + (if day_slot(rows.last().0 as int, day0) <= k {
            rows.last().1 as int
        } else {
            0
        })
    }
}

/// The counts of `rows`, sign aside, together.
pub open spec fn mass(rows: Seq<(i64, i64)>) -> int
    decreases rows.len(),
{
    if rows.len() == 0 {
        0
    } else {
        mass(rows.drop_last()) + (if rows.last().1 < 0 { -rows.last().1 } else { rows.last().1 as int })
    }
}

proof fn lemma_added_within_mass(rows: Seq<(i64, i64)>, day0: int, k: int)
    ensures
        -mass(rows) <= added_up_to(rows, day0, k) <= mass(rows),
        mass(rows) >= 0,
    decreases rows.len(),
{
    if rows.len() > 0 {
        lemma_added_within_mass(rows.drop_last(), day0, k);
    }
}

proof fn lemma_mass_prefix(rows: Seq<(i64, i64)>, i: int)
    requires
        0 <= i <= rows.len(),
    ensures
        mass(rows.take(i)) <= mass(rows),
    decreases rows.len() - i,
{
    if i < rows.len() {
        lemma_mass_prefix(rows, i + 1);
        assert(rows.take(i + 1).drop_last() =~= rows.take(i));
    } else {
        assert(rows.take(i) =~= rows);
    }
}

fn added_by(rows: &Vec<(i64, i64)>, day0: i64, k: i64) -> (n: i64)
    requires
        mass(rows@) <= i64::MAX,
        0 <= k < 14,
    ensures
        n == added_up_to(rows@, day0 as int, k as int),
{
    let mut n: i64 = 0;
    let mut i: usize = 0;
    assert(rows@.take(0) =~= Seq::<(i64, i64)>::empty());
    while i < rows.len()
        invariant
            i <= rows@.len(),
            mass(rows@) <= i64::MAX,
            0 <= k < 14,
            n == added_up_to(rows@.take(i as int), day0 as int, k as int),
        decreases rows@.len() - i,
    {
        assert(rows@.take(i + 1).drop_last() =~= rows@.take(i as int));
        proof {
            lemma_added_within_mass(rows@.take(i + 1), day0 as int, k as int);
            lemma_mass_prefix(rows@, i + 1);
        }
        let d: i128 = rows[i].0 as i128 - day0 as i128;
        let slot: i64 = if d < 0 {
            0
        } else if d > 13 {
            13
        } else {
            d as i64
        };
        if slot <= k {
            n = n + rows[i].1;
        }
        i = i + 1;
    }
    assert(rows@.take(i as int) =~= rows@);
    n
}

/// The library's growth over fourteen days from `day0` on, from counts of items
/// by day: what had been added by the end of each.
pub fn growth(rows: &Vec<(i64, i64)>, day0: i64) -> (r: Vec<i64>)
    requires
        mass(rows@) <= i64::MAX,
    ensures
        r@.len() == 14,
        forall|k: int| 0 <= k < 14 ==> (#[trigger] r@[k]) == added_up_to(rows@, day0 as int, k),
{
    let mut out: Vec<i64> = Vec::new();
    let mut k: i64 = 0;
    while k < 14
        invariant
            0 <= k <= 14,
            mass(rows@) <= i64::MAX,
            out@.len() == k,
            forall|j: int| 0 <= j < k ==> (#[trigger] out@[j]) == added_up_to(rows@, day0 as int, j),
        decreases 14 - k,
    {
        out.push(added_by(rows, day0, k));
        k = k + 1;
    }
    out
}

/// Where nothing was taken away, the curve only climbs.
pub proof fn law_growth_climbs(rows: Seq<(i64, i64)>, day0: int, j: int, k: int)
    requires
        j <= k,
        forall|i: int| 0 <= i < rows.len() ==> (#[trigger] rows[i]).1 >= 0,
    ensures
        added_up_to(rows, day0, j) <= added_up_to(rows, day0, k),
    decreases rows.len(),
{
    if rows.len() > 0 {
        law_growth_climbs(rows.drop_last(), day0, j, k);
    }
}

/// The last point of the curve counts everything.
pub proof fn law_growth_ends_at_the_total(rows: Seq<(i64, i64)>, day0: int)
    requires
        forall|i: int| 0 <= i < rows.len() ==> (#[trigger] rows[i]).1 >= 0,
    ensures
        added_up_to(rows, day0, 13) == mass(rows),
    decreases rows.len(),
{
    if rows.len() > 0 {
        law_growth_ends_at_the_total(rows.drop_last(), day0);
    }
}

/// What one section adds to the library: its items, their bytes, and how many of them
/// came within the week.
#[derive(Clone, Copy, Debug)]
pub struct Part {
    pub items: i64,
    pub bytes: i64,
    pub week: i64,
}

/// Items, bytes and the week's additions of some sections together.
pub open spec fn totals(parts: Seq<Part>) -> (int, int, int)
    decreases parts.len(),
{
    if parts.len() == 0 {
        (0, 0, 0)
    } else {
        let t = totals(parts.drop_last());
        (t.0 + parts.last().items, t.1 + parts.last().bytes, t.2 + parts.last().week)
    }
}

/// Whether three sums can be counted.
pub open spec fn countable_sums(t: (int, int, int)) -> bool {
    &&& i64::MIN <= t.0 <= i64::MAX
    &&& i64::MIN <= t.1 <= i64::MAX
    &&& i64::MIN <= t.2 <= i64::MAX
}

/// Whether the sums stay in range, section by section.
pub open spec fn totals_fit(parts: Seq<Part>) -> bool {
    forall|i: int| 0 <= i <= parts.len() ==> countable_sums(#[trigger] totals(parts.take(i)))
}

/// What belongs to no single card: the library's totals and its growth.
#[derive(Debug)]
pub struct Extra {
    pub items: i64,
    pub bytes: i64,
    pub week: i64,
    pub spark: Vec<i64>,
}

/// The day that the curve begins with: thirteen days before now.
pub fn first_day(now: i64) -> (r: i64)
    requires
        now >= i64::MIN + 1_123_200,
    ensures
        r == trunc_div(now - 1_123_200, 86_400),
{
    divide(now - 1_123_200, 86_400)
}

/// The totals of the sections, and the growth over the days from `day0` on.
pub fn extra_counts(parts: &Vec<Part>, days: &Vec<(i64, i64)>, day0: i64) -> (r: Extra)
    requires
        totals_fit(parts@),
        mass(days@) <= i64::MAX,
    ensures
        (r.items as int, r.bytes as int, r.week as int) == totals(parts@),
        r.spark@.len() == 14,
        forall|k: int| 0 <= k < 14 ==> (#[trigger] r.spark@[k]) == added_up_to(days@, day0 as int, k),
{
    let mut items: i64 = 0;
    let mut bytes: i64 = 0;
    let mut week: i64 = 0;
    let mut i: usize = 0;
    assert(parts@.take(0) =~= Seq::<Part>::empty());
    while i < parts.len()
        invariant
            i <= parts@.len(),
            totals_fit(parts@),
            (items as int, bytes as int, week as int) == totals(parts@.take(i as int)),
        decreases parts@.len() - i,
    {
        assert(parts@.take(i + 1).drop_last() =~= parts@.take(i as int));
        assert(countable_sums(totals(parts@.take(i + 1))));
        items = items + parts[i].items;
        bytes = bytes + parts[i].bytes;
        week = week + parts[i].week;
        i = i + 1;
    }
    assert(parts@.take(i as int) =~= parts@);
    Extra { items, bytes, week, spark: growth(days, day0) }
}

/// A card is read by the first row that has the key.
pub proof fn law_the_first_row_with_the_key_counts(rows: Seq<RowView>, k: Seq<char>)
    ensures
        hit(rows, k) matches Some(v) ==> exists|i: int|
            0 <= i < rows.len() && (#[trigger] rows[i]).0 == k && rows[i].1 == v && forall|j: int| 0 <= j < i ==> (#[trigger] rows[j]).0 != k,
        hit(rows, k) is None ==> forall|i: int| 0 <= i < rows.len() ==> (#[trigger] rows[i]).0 != k,
    decreases rows.len(),
{
    if rows.len() > 0 && rows[0].0 != k {
        let rest = rows.skip(1);
        law_the_first_row_with_the_key_counts(rest, k);
        if hit(rest, k) is Some {
            let v = hit(rest, k)->0;
            let i = choose|i: int|
                0 <= i < rest.len() && (#[trigger] rest[i]).0 == k && rest[i].1 == v && forall|j: int| 0 <= j < i ==> (#[trigger] rest[j]).0 != k;
            assert(rows[i + 1] == rest[i]);
            assert forall|j: int| 0 <= j < i + 1 implies (#[trigger] rows[j]).0 != k by {
                if j > 0 {
                    assert(rest[j - 1] == rows[j]);
                }
            }
        } else {
            assert forall|i: int| 0 <= i < rows.len() implies (#[trigger] rows[i]).0 != k by {
                if i > 0 {
                    assert(rest[i - 1] == rows[i]);
                }
            }
        }
    }
}

/// What a card shows on its face goes before what stands behind it, and nothing is found
/// that neither shows.
pub proof fn law_the_face_goes_before_the_groups(c: CardView, k: Seq<char>)
    ensures
        hit(c.rows, k) is Some ==> pick(c, k) == hit(c.rows, k),
        hit(c.rows, k) is None && pick(c, k) is Some ==> exists|g: int|
            0 <= g < c.groups.len() && ((#[trigger] c.groups[g]) matches BlockView::Rows(_, rows) && hit(rows, k) == pick(c, k)),
        pick(c, k) is None ==> forall|g: int|
            0 <= g < c.groups.len() ==> ((#[trigger] c.groups[g]) matches BlockView::Rows(_, rows) ==> hit(rows, k) is None),
{
    lemma_hit_group(c.groups, k);
}

proof fn lemma_hit_group(groups: Seq<BlockView>, k: Seq<char>)
    ensures
        hit_group(groups, k) is Some ==> exists|g: int|
            0 <= g < groups.len() && ((#[trigger] groups[g]) matches BlockView::Rows(_, rows) && hit(rows, k) == hit_group(groups, k)),
        hit_group(groups, k) is None ==> forall|g: int|
            0 <= g < groups.len() ==> ((#[trigger] groups[g]) matches BlockView::Rows(_, rows) ==> hit(rows, k) is None),
    decreases groups.len(),
{
    if groups.len() > 0 {
        let rest = groups.skip(1);
        lemma_hit_group(rest, k);
        let here = match groups[0] {
            BlockView::Rows(_, rows) => hit(rows, k),
            BlockView::Table(_, _, _) => None,
        };
        if here is None {
            if hit_group(rest, k) is Some {
                let g = choose|g: int|
                    0 <= g < rest.len() && ((#[trigger] rest[g]) matches BlockView::Rows(_, rows) && hit(rows, k) == hit_group(rest, k));
                assert(groups[g + 1] == rest[g]);
            } else {
                assert forall|g: int| 0 <= g < groups.len() implies ((#[trigger] groups[g]) matches BlockView::Rows(_, rows) ==> hit(
                    rows,
                    k,
                ) is None) by {
                    if g > 0 {
                        assert(rest[g - 1] == groups[g]);
                    }
                }
            }
        } else {
            assert(groups[0] is Rows);
        }
    }
}

/// A section's line is that of the first card under its key: what the card says of its
/// items, tracks or library, of its size, and of the files that it misses.
pub proof fn law_a_section_is_read_off_its_card(cards: Seq<CardView>, key: Seq<char>)
    ensures
        section_with(cards, key).len() <= 1,
        (section_with(cards, key).len() == 0) == (forall|i: int| 0 <= i < cards.len() ==> (#[trigger] cards[i]).key != key),
        section_with(cards, key).len() == 1 ==> exists|i: int|
            0 <= i < cards.len() && (#[trigger] cards[i]).key == key && (forall|j: int| 0 <= j < i ==> (#[trigger] cards[j]).key != key) && ({
                let (s, c) = (section_with(cards, key)[0], cards[i]);
                &&& s.name == c.name && s.key == c.key && s.accent == c.accent && s.status == c.status && s.level == c.level
                &&& pick(c, "Items"@) matches Some(v) ==> s.count == v
                &&& pick(c, "Items"@) is None ==> (pick(c, "Tracks"@) matches Some(v) ==> s.count == v)
                &&& pick(c, "Items"@) is None && pick(c, "Tracks"@) is None ==> (pick(c, "Library"@) matches Some(v) ==> s.count == v)
                &&& pick(c, "Size"@) matches Some(v) ==> s.size == v
                &&& pick(c, "Size"@) is None ==> (pick(c, "On disk"@) matches Some(v) ==> s.size == v)
                &&& pick(c, "Missing files"@) matches Some(v) ==> s.missing == v
                &&& pick(c, "Missing files"@) is None ==> s.missing == "0"@
            }),
    decreases cards.len(),
{
    if cards.len() > 0 {
        if cards[0].key == key {
            assert(section_with(cards, key)[0] == section_of(cards[0]));
        } else {
            let rest = cards.skip(1);
            law_a_section_is_read_off_its_card(rest, key);
            assert forall|i: int| 0 <= i < rest.len() implies (#[trigger] rest[i]) == cards[i + 1] by {}
            if section_with(rest, key).len() == 0 {
                assert forall|i: int| 0 <= i < cards.len() implies (#[trigger] cards[i]).key != key by {
                    if i > 0 {
                        assert(rest[i - 1].key != key);
                    }
                }
            } else {
                let i = choose|i: int|
                    0 <= i < rest.len() && (#[trigger] rest[i]).key == key && (forall|j: int| 0 <= j < i ==> (#[trigger] rest[j]).key != key)
                        && section_with(rest, key)[0] == section_of(rest[i]);
                lemma_first_card(rest, key);
                let f = choose|f: int|
                    0 <= f < rest.len() && (#[trigger] rest[f]).key == key && (forall|j: int| 0 <= j < f ==> (#[trigger] rest[j]).key != key)
                        && section_with(rest, key) == seq![section_of(rest[f])];
                assert(cards[f + 1] == rest[f]);
                assert forall|j: int| 0 <= j < f + 1 implies (#[trigger] cards[j]).key != key by {
                    if j > 0 {
                        assert(rest[j - 1].key != key);
                    }
                }
                assert(section_with(cards, key)[0] == section_of(cards[f + 1]));
            }
        }
    }
}

proof fn lemma_first_card(cards: Seq<CardView>, key: Seq<char>)
    requires
        section_with(cards, key).len() > 0,
    ensures
        exists|f: int|
            0 <= f < cards.len() && (#[trigger] cards[f]).key == key && (forall|j: int| 0 <= j < f ==> (#[trigger] cards[j]).key != key)
                && section_with(cards, key) == seq![section_of(cards[f])],
    decreases cards.len(),
{
    if cards[0].key == key {
        assert(cards[0].key == key);
    } else {
        let rest = cards.skip(1);
        lemma_first_card(rest, key);
        let f = choose|f: int|
            0 <= f < rest.len() && (#[trigger] rest[f]).key == key && (forall|j: int| 0 <= j < f ==> (#[trigger] rest[j]).key != key)
                && section_with(rest, key) == seq![section_of(rest[f])];
        assert(cards[f + 1] == rest[f]);
        assert forall|j: int| 0 <= j < f + 1 implies (#[trigger] cards[j]).key != key by {
            if j > 0 {
                assert(rest[j - 1].key != key);
            }
        }
    }
}

/// The figures of the library are those of its sections together.
pub proof fn law_totals_add_up(a: Seq<Part>, b: Seq<Part>, p: Part)
    ensures
        totals(a + b).0 == totals(a).0 + totals(b).0,
        totals(a + b).1 == totals(a).1 + totals(b).1,
        totals(a + b).2 == totals(a).2 + totals(b).2,
        totals(seq![p]) == (p.items as int, p.bytes as int, p.week as int),
    decreases b.len(),
{
    reveal_with_fuel(totals, 2);
    assert(seq![p].drop_last() =~= Seq::<Part>::empty());
    if b.len() == 0 {
        assert(a + b =~= a);
    } else {
        assert((a + b).drop_last() =~= a + b.drop_last());
        law_totals_add_up(a, b.drop_last(), p);
    }
}

/// The curve counts every addition from its day on: one before the first day from the start,
/// one behind the last day at the end.
pub proof fn law_an_addition_counts_from_its_day(rows: Seq<(i64, i64)>, day: i64, n: i64, day0: int, k: int)
    requires
        0 <= k <= 13,
    ensures
        added_up_to(rows.push((day, n)), day0, k) - added_up_to(rows, day0, k) == (if day <= day0 + k || k == 13 {
            n as int
        } else {
            0
        }),
        added_up_to(Seq::empty(), day0, k) == 0,
{
    assert(rows.push((day, n)).drop_last() =~= rows);
}

/// A watched folder names the sections that found something under it, and no other, in the
/// order in which they were asked.
pub proof fn law_a_folder_names_its_sections(hits: Seq<(String, String)>, path: Seq<char>)
    ensures
        sections_under(hits, path) == hits.filter(|x: (String, String)| x.0@ == path).map_values(|x: (String, String)| x.1@),
    decreases hits.len(),
{
    reveal(Seq::filter);
    let p = |x: (String, String)| x.0@ == path;
    let wanted = hits.filter(|x: (String, String)| x.0@ == path).map_values(|x: (String, String)| x.1@);
    if hits.len() > 0 {
        let front = hits.drop_last();
        law_a_folder_names_its_sections(front, path);
        let kept = front.filter(p);
        assert(hits.filter(p) == (if p(hits.last()) { kept.push(hits.last()) } else { kept }));
        assert(front.filter(|x: (String, String)| x.0@ == path).map_values(|x: (String, String)| x.1@) == sections_under(front, path));
    }
    assert(sections_under(hits, path) =~= wanted);
}

/// A watched folder says whether it is there, and the popup lists photos, videos, music and
/// books in this order.
pub proof fn law_a_watched_folder_says_whether_it_is_there(r: Root, hits: Seq<(String, String)>, cards: Seq<CardView>)
    ensures
        root_line(r, hits).0 == r.path@,
        r.exists ==> root_line(r, hits).1 == "On disk"@ && root_line(r, hits).2 == ""@,
        !r.exists ==> root_line(r, hits).1 == "Missing"@ && root_line(r, hits).2 == "b"@,
        root_line(r, hits).3 == sections_under(hits, r.path@),
        media_sections(cards) == section_with(cards, "photos"@) + section_with(cards, "videos"@) + section_with(cards, "music"@) + section_with(
            cards,
            "books"@,
        ),
{
}

} // verus!
