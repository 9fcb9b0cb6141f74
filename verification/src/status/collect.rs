//! The whole page: the fold of all sections into one level and headline, the
//! metric strip, the library popup and the live scan.

use vstd::prelude::*;
use crate::order::{lemma_rising_push, rising};
use crate::status::card::{Card, CardView, Sec};
use crate::status::figures::{bytes, bytes_text, num, num_text, rank_of, worse, worse_of, BUSY, OK, PROBLEM, UNKNOWN};
use crate::status::services::ScanRow;
use crate::text::{dec_int, divide, followed, join, join_strings, push_dec_int, same, trunc_div, views};

verus! {

/// What cards read.
pub open spec fn cards_view(cards: Seq<Card>) -> Seq<CardView> {
    Seq::new(cards.len(), |i: int| cards[i]@)
}

/// The worst of `levels`, and at least `ok`.
pub open spec fn worst(levels: Seq<Seq<char>>) -> Seq<char>
    decreases levels.len(),
{
    if levels.len() == 0 {
        OK@
    } else {
        worse_of(worst(levels.drop_last()), levels.last())
    }
}

/// The levels of cards.
pub open spec fn levels_of(cards: Seq<CardView>) -> Seq<Seq<char>> {
    Seq::new(cards.len(), |i: int| cards[i].level)
}

/// How many cards could not be asked.
pub open spec fn unknown_count(cards: Seq<CardView>) -> nat
    decreases cards.len(),
{
    if cards.len() == 0 {
        0
    } else {
        unknown_count(cards.drop_last()) + (if cards.last().level == UNKNOWN@ { 1nat } else { 0nat })
    }
}

/// A card in trouble as the page header quotes it.
pub open spec fn told_of(c: CardView) -> Seq<char> {
    match c.why {
        Some(w) => if w.len() > 0 { c.name + ": "@ + w } else { c.name + " reporting a problem"@ },
        None => c.name + " reporting a problem"@,
    }
}

/// The cards in trouble, in order.
pub open spec fn told(cards: Seq<CardView>) -> Seq<Seq<char>>
    decreases cards.len(),
{
    if cards.len() == 0 {
        Seq::empty()
    } else if cards.last().level == PROBLEM@ {
        told(cards.drop_last()).push(told_of(cards.last()))
    } else {
        told(cards.drop_last())
    }
}

/// What the page header and the sidebar say.
#[derive(Debug)]
pub struct Summary {
    pub level: String,
    pub headline: String,
    pub note: String,
    pub short: String,
    pub online: i64,
}

/// What a summary reads.
#[verifier::ext_equal]
pub struct SummaryView {
    pub level: Seq<char>,
    pub headline: Seq<char>,
    pub note: Seq<char>,
    pub short: Seq<char>,
    pub online: int,
}

impl View for Summary {
    type V = SummaryView;

    open spec fn view(&self) -> SummaryView {
        SummaryView {
            level: self.level@,
            headline: self.headline@,
            note: self.note@,
            short: self.short@,
            online: self.online as int,
        }
    }
}

/// The fold of the cards: the worst level, and the most useful fact about it. A
/// problem is quoted from the cards that have it; work in progress is counted.
pub open spec fn summary_of(cards: Seq<CardView>, jobs_running: int) -> SummaryView {
    let level = worst(levels_of(cards));
    let online = cards.len() - unknown_count(cards);
    if level == PROBLEM@ {
        let note = join(told(cards), " · "@);
        SummaryView { level, headline: "Attention Needed"@, note, short: note, online }
    } else if level == BUSY@ {
        SummaryView {
            level,
            headline: "All Systems Operational"@,
            note: num_text(jobs_running) + " Tasks Running · "@ + dec_int(online) + " sections responding"@,
            short: num_text(jobs_running) + " jobs running"@,
            online,
        }
    } else {
        SummaryView {
            level,
            headline: "All Systems Operational"@,
            note: dec_int(online) + " sections responding · no failed jobs"@,
            short: "All systems operational"@,
            online,
        }
    }
}

fn tell(c: &Card) -> (r: String)
    ensures
        r@ == told_of(c@),
{
    let mut s = c.name.clone();
    match &c.why {
        Some(w) => {
            if !w.as_str().is_empty() {
                s.append(": ");
                s.append(w.as_str());
            } else {
                s.append(" reporting a problem");
            }
        },
        None => {
            s.append(" reporting a problem");
        },
    }
    s
}

/// The fold of the section cards into one level, a headline and its notes.
pub fn summarize(cards: &Vec<Card>, jobs_running: i64) -> (r: Summary)
    requires
        cards@.len() <= i64::MAX,
    ensures
        r@ == summary_of(cards_view(cards@), jobs_running as int),
{
    let ghost all = cards_view(cards@);
    let mut level: &str = OK;
    let mut unknown: i64 = 0;
    let mut lines: Vec<String> = Vec::new();
    let mut i: usize = 0;
    assert(all.take(0) =~= Seq::<CardView>::empty());
    assert(levels_of(all).take(0) =~= Seq::<Seq<char>>::empty());
    assert(views(lines@) =~= Seq::<Seq<char>>::empty());
    while i < cards.len()
        invariant
            i <= cards@.len() <= i64::MAX,
            all == cards_view(cards@),
            level@ == worst(levels_of(all).take(i as int)),
            0 <= unknown <= i,
            unknown == unknown_count(all.take(i as int)),
            views(lines@) == told(all.take(i as int)),
        decreases cards@.len() - i,
    {
        let ghost before = views(lines@);
        assert(all.take(i + 1).drop_last() =~= all.take(i as int));
        assert(levels_of(all).take(i + 1).drop_last() =~= levels_of(all).take(i as int));
        assert(all.take(i + 1).last() == cards@[i as int]@);
        let here = cards[i].level.as_str();
        level = worse(level, here);
        if same(here, UNKNOWN) {
            unknown = unknown + 1;
        }
        if same(here, PROBLEM) {
            let line = tell(&cards[i]);
            let ghost l = line@;
            lines.push(line);
            assert(views(lines@) =~= before.push(l));
        }
        i = i + 1;
    }
    assert(all.take(i as int) =~= all);
    assert(levels_of(all).take(i as int) =~= levels_of(all));
    let online: i64 = cards.len() as i64 - unknown;
    if same(level, PROBLEM) {
        let note = join_strings(&lines, " · ");
        let short = note.clone();
        Summary { level: level.to_owned(), headline: "Attention Needed".to_owned(), note, short, online }
    } else if same(level, BUSY) {
        let mut note = followed(num(jobs_running), " Tasks Running · ");
        push_dec_int(&mut note, online);
        note.append(" sections responding");
        Summary {
            level: level.to_owned(),
            headline: "All Systems Operational".to_owned(),
            note,
            short: followed(num(jobs_running), " jobs running"),
            online,
        }
    } else {
        Summary {
            level: level.to_owned(),
            headline: "All Systems Operational".to_owned(),
            note: crate::text::count_of(online, " sections responding · no failed jobs"),
            short: "All systems operational".to_owned(),
            online,
        }
    }
}

/// A level that some section reports is never folded away by a better one: the
/// whole ranks at least as bad as every part.
pub proof fn law_worst_is_at_least_every_level(levels: Seq<Seq<char>>, i: int)
    requires
        0 <= i < levels.len(),
    ensures
        rank_of(worst(levels)) >= rank_of(levels[i]),
    decreases levels.len(),
{
    if i < levels.len() - 1 {
        law_worst_is_at_least_every_level(levels.drop_last(), i);
        assert(levels.drop_last()[i] == levels[i]);
    }
}

/// The whole is `ok` or some section's own level, so a section that could not be
/// asked never colours it.
pub proof fn law_worst_is_some_level(levels: Seq<Seq<char>>)
    ensures
        worst(levels) == OK@ || levels.contains(worst(levels)),
        rank_of(worst(levels)) >= 1,
    decreases levels.len(),
{
    reveal_strlit("ok");
    reveal_strlit("busy");
    reveal_strlit("problem");
    if levels.len() > 0 {
        let front = levels.drop_last();
        law_worst_is_some_level(front);
        if worst(levels) == levels.last() {
            assert(levels[levels.len() - 1] == levels.last());
        } else if front.contains(worst(front)) {
            let k = choose|k: int| 0 <= k < front.len() && front[k] == worst(front);
            assert(levels[k] == worst(front));
        }
    } else {
        assert(OK@ != PROBLEM@) by {
            assert(OK@.len() != PROBLEM@.len());
        }
        assert(OK@ != BUSY@) by {
            assert(OK@.len() != BUSY@.len());
        }
    }
}

/// One section's live scan.
#[derive(Debug)]
pub struct ScanLine {
    pub section: String,
    pub total: i64,
    pub done: i64,
    pub failed: i64,
    pub active: bool,
    pub pct: i64,
}

/// What a scan line reads.
pub type ScanView = (Seq<char>, int, int, int, bool, int);

impl View for ScanLine {
    type V = ScanView;

    open spec fn view(&self) -> ScanView {
        (self.section@, self.total as int, self.done as int, self.failed as int, self.active, self.pct as int)
    }
}

/// What scan lines read.
pub open spec fn scans_view(v: Seq<ScanLine>) -> Seq<ScanView> {
    Seq::new(v.len(), |i: int| v[i]@)
}

/// How far a scan is, in percent, held to what a bar can draw.
pub open spec fn scan_pct(seen: int, total: int) -> int {
    if total > 0 {
        let p = trunc_div(seen * 100, total);
        if p < 0 { 0 } else if p > 100 { 100 } else { p }
    } else {
        0
    }
}

/// A scan row as the page shows it.
pub open spec fn scan_line(r: ScanRow) -> ScanView {
    let seen = r.added + r.failed;
    (r.section@, r.total as int, seen, r.failed as int, r.active, scan_pct(seen, r.total as int))
}

/// Something is being scanned right now.
pub open spec fn scanning(rows: Seq<ScanRow>) -> bool {
    exists|i: int| 0 <= i < rows.len() && (#[trigger] rows[i]).active
}

/// The rows worth a bar: active, or with something found.
pub open spec fn scan_lines(rows: Seq<ScanRow>) -> Seq<ScanView>
    decreases rows.len(),
{
    if rows.len() == 0 {
        Seq::empty()
    } else if rows.last().active || rows.last().total > 0 {
        scan_lines(rows.drop_last()).push(scan_line(rows.last()))
    } else {
        scan_lines(rows.drop_last())
    }
}

/// A scan row whose progress can be computed.
pub open spec fn countable(r: ScanRow) -> bool {
    i64::MIN <= r.added + r.failed <= i64::MAX && i64::MIN <= (r.added + r.failed) * 100 <= i64::MAX
}

/// Live indexing progress: one line for each section that scans or has found
/// something, and none at all once nothing runs.
pub fn scan(rows: &Vec<ScanRow>) -> (r: (Vec<ScanLine>, bool))
    requires
        forall|i: int| 0 <= i < rows@.len() ==> countable(#[trigger] rows@[i]),
    ensures
        r.1 == scanning(rows@),
        scans_view(r.0@) == if scanning(rows@) { scan_lines(rows@) } else { Seq::empty() },
{
    let mut running = false;
    let mut out: Vec<ScanLine> = Vec::new();
    let mut i: usize = 0;
    assert(rows@.take(0) =~= Seq::<ScanRow>::empty());
    assert(scans_view(out@) =~= Seq::<ScanView>::empty());
    while i < rows.len()
        invariant
            i <= rows@.len(),
            forall|j: int| 0 <= j < rows@.len() ==> countable(#[trigger] rows@[j]),
            running == (exists|j: int| 0 <= j < i && (#[trigger] rows@[j]).active),
            scans_view(out@) == scan_lines(rows@.take(i as int)),
        decreases rows@.len() - i,
    {
        let ghost before = scans_view(out@);
        assert(rows@.take(i + 1).drop_last() =~= rows@.take(i as int));
        let r = &rows[i];
        assert(countable(rows@[i as int]));
        if r.active {
            running = true;
        }
        if r.active || r.total > 0 {
            let seen: i64 = r.added + r.failed;
            let pct: i64 = if r.total > 0 {
                let p: i64 = divide(seen * 100, r.total);
                if p < 0 {
                    0
                } else if p > 100 {
                    100
                } else {
                    p
                }
            } else {
                0
            };
            out.push(ScanLine {
                section: r.section.clone(),
                total: r.total,
                done: seen,
                failed: r.failed,
                active: r.active,
                pct,
            });
            assert(scans_view(out@) =~= before.push(scan_line(rows@[i as int])));
        }
        i = i + 1;
    }
    assert(rows@.take(i as int) =~= rows@);
    if !running {
        return (Vec::new(), false);
    }
    (out, true)
}

/// A tile of the "Today" column.
#[derive(Debug)]
pub struct Tile {
    pub label: String,
    pub value: String,
    pub accent: String,
}

/// What a tile reads.
pub type TileView = (Seq<char>, Seq<char>, Seq<char>);

impl View for Tile {
    type V = TileView;

    open spec fn view(&self) -> TileView {
        (self.label@, self.value@, self.accent@)
    }
}

/// What tiles read.
pub open spec fn tiles_view(v: Seq<Tile>) -> Seq<TileView> {
    Seq::new(v.len(), |i: int| v[i]@)
}

fn tile(label: &str, value: String, accent: &str) -> (r: Tile)
    ensures
        r@ == (label@, value@, accent@),
{
    Tile { label: label.to_owned(), value, accent: accent.to_owned() }
}

/// The "Today" column.
pub fn today(music: i64, photos: i64, tools: i64, finances: i64) -> (r: Vec<Tile>)
    ensures
        tiles_view(r@) == seq![
            ("Tracks played"@, num_text(music as int), "pink"@),
            ("Photos imported"@, num_text(photos as int), "violet"@),
            ("Tools jobs done"@, num_text(tools as int), "cyan"@),
            ("Transactions"@, num_text(finances as int), "lime"@),
        ],
{
    let r = vec![
        tile("Tracks played", num(music), "pink"),
        tile("Photos imported", num(photos), "violet"),
        tile("Tools jobs done", num(tools), "cyan"),
        tile("Transactions", num(finances), "lime"),
    ];
    assert(tiles_view(r@) =~= seq![
        ("Tracks played"@, num_text(music as int), "pink"@),
        ("Photos imported"@, num_text(photos as int), "violet"@),
        ("Tools jobs done"@, num_text(tools as int), "cyan"@),
        ("Transactions"@, num_text(finances as int), "lime"@),
    ]);
    r
}

/// What the ten sections report.
#[derive(Debug)]
pub struct Reports {
    pub photos: Sec,
    pub videos: Sec,
    pub music: Sec,
    pub books: Sec,
    pub cloud: Sec,
    pub tools: Sec,
    pub finances: Sec,
    pub transfer: Sec,
    pub ai: Sec,
    pub system: Sec,
}

/// The cards of the ten sections, in the page's order.
pub open spec fn page_cards(r: Reports) -> Seq<CardView> {
    seq![
        r.music.card@,
        r.books.card@,
        r.photos.card@,
        r.videos.card@,
        r.cloud.card@,
        r.finances.card@,
        r.transfer.card@,
        r.tools.card@,
        r.ai.card@,
        r.system.card@,
    ]
}

/// The head of the page: the fold of the sections, their cards, and the figures
/// that the hero and the sidebar share.
#[derive(Debug)]
pub struct Snapshot {
    pub summary: Summary,
    pub cards: Vec<Card>,
    pub jobs_running: i64,
    pub jobs_failed: i64,
    pub cloud_status: String,
    pub library_bytes: String,
    pub library_items: String,
    pub today: Vec<Tile>,
    pub events: Vec<crate::status::card::Event>,
}

/// Builds the head of the page from what the sections report. Files on the wire
/// count as work in progress beside the running jobs.
pub fn collect(r: Reports, inflight: i64, lib_items: i64, lib_bytes: i64) -> (s: Snapshot)
    requires
        i64::MIN <= r.tools.running + inflight <= i64::MAX,
    ensures
        cards_view(s.cards@) == page_cards(r),
        s.jobs_running == r.tools.running + inflight,
        s.jobs_failed == r.tools.failed,
        s.cloud_status@ == r.cloud.card@.status,
        s.library_bytes@ == bytes_text(lib_bytes as int),
        s.library_items@ == num_text(lib_items as int),
        s.summary@ == summary_of(page_cards(r), r.tools.running + inflight),
        tiles_view(s.today@) == seq![
            ("Tracks played"@, num_text(r.music.today as int), "pink"@),
            ("Photos imported"@, num_text(r.photos.today as int), "violet"@),
            ("Tools jobs done"@, num_text(r.tools.today as int), "cyan"@),
            ("Transactions"@, num_text(r.finances.today as int), "lime"@),
        ],
        s.events@ == r.tools.events@,
{
    let jobs_running: i64 = r.tools.running + inflight;
    let jobs_failed: i64 = r.tools.failed;
    let cloud_status = r.cloud.card.status.clone();
    let tiles = today(r.music.today, r.photos.today, r.tools.today, r.finances.today);
    let ghost want = page_cards(r);
    let cards = vec![
        r.music.card,
        r.books.card,
        r.photos.card,
        r.videos.card,
        r.cloud.card,
        r.finances.card,
        r.transfer.card,
        r.tools.card,
        r.ai.card,
        r.system.card,
    ];
    assert(cards_view(cards@) =~= want);
    let summary = summarize(&cards, jobs_running);
    Snapshot {
        summary,
        cards,
        jobs_running,
        jobs_failed,
        cloud_status,
        library_bytes: bytes(lib_bytes),
        library_items: num(lib_items),
        today: tiles,
        events: r.tools.events,
    }
}

/// Where a level of trouble comes from: the whole is a problem exactly where some card has
/// one, else busy exactly where some card is, else in order.
pub proof fn law_the_level_is_that_of_the_cards(cards: Seq<CardView>, jobs_running: int)
    ensures
        ({
            let level = summary_of(cards, jobs_running).level;
            let trouble = exists|i: int| 0 <= i < cards.len() && (#[trigger] cards[i]).level == "problem"@;
            let busy = exists|i: int| 0 <= i < cards.len() && (#[trigger] cards[i]).level == "busy"@;
            &&& (level == "problem"@) == trouble
            &&& (level == "busy"@) == (!trouble && busy)
            &&& (level == "ok"@) == (!trouble && !busy)
        }),
{
    let levels = levels_of(cards);
    let level = worst(levels);
    law_worst_is_some_level(levels);
    assert forall|i: int| 0 <= i < cards.len() implies rank_of(level) >= rank_of((#[trigger] cards[i]).level) by {
        law_worst_is_at_least_every_level(levels, i);
        assert(levels[i] == cards[i].level);
    }
    reveal_strlit("ok");
    reveal_strlit("busy");
    reveal_strlit("problem");
    assert("ok"@.len() == 2 && "busy"@.len() == 4 && "problem"@.len() == 7);
    if levels.contains(level) {
        let k = choose|k: int| 0 <= k < levels.len() && levels[k] == level;
        assert(cards[k].level == level);
    }
}

proof fn lemma_told(cards: Seq<CardView>) -> (idx: Seq<int>)
    ensures
        rising(idx),
        told(cards).len() == idx.len(),
        forall|k: int|
            0 <= k < idx.len() ==> {
                &&& 0 <= #[trigger] idx[k] < cards.len()
                &&& cards[idx[k]].level == "problem"@
                &&& told(cards)[k] == told_of(cards[idx[k]])
            },
        forall|i: int| 0 <= i < cards.len() && (#[trigger] cards[i]).level == "problem"@ ==> idx.contains(i),
    decreases cards.len(),
{
    if cards.len() == 0 {
        Seq::empty()
    } else {
        let front = cards.drop_last();
        let n = front.len() as int;
        let before = lemma_told(front);
        assert forall|i: int| 0 <= i < n implies front[i] == #[trigger] cards[i] by {}
        if cards.last().level == "problem"@ {
            lemma_rising_push(before, n);
            let idx = before.push(n);
            assert forall|i: int| 0 <= i < cards.len() && (#[trigger] cards[i]).level == "problem"@ implies idx.contains(i) by {
                if i < n {
                    assert(before.contains(i));
                }
            }
            idx
        } else {
            assert forall|i: int| 0 <= i < cards.len() && (#[trigger] cards[i]).level == "problem"@ implies before.contains(
                i,
            ) by {
                assert(front[i] == cards[i]);
            }
            before
        }
    }
}

/// The note of a page in trouble has one part for each card that reports a problem, in the
/// order of the cards, and none for any other: the card's name with what it says is wrong,
/// or that it reports a problem.
pub proof fn law_the_note_names_the_cards_in_trouble(cards: Seq<CardView>, jobs_running: int) -> (idx: Seq<int>)
    ensures
        rising(idx),
        forall|i: int| #[trigger] idx.contains(i) ==> 0 <= i < cards.len() && cards[i].level == "problem"@,
        forall|i: int| 0 <= i < cards.len() && (#[trigger] cards[i]).level == "problem"@ ==> idx.contains(i),
        idx.len() > 0 ==> {
            let s = summary_of(cards, jobs_running);
            &&& s.headline == "Attention Needed"@
            &&& s.short == s.note
            &&& s.note == join(
                Seq::new(
                    idx.len(),
                    |k: int|
                        if cards[idx[k]].why is Some && cards[idx[k]].why->0.len() > 0 {
                            cards[idx[k]].name + ": "@ + cards[idx[k]].why->0
                        } else {
                            cards[idx[k]].name + " reporting a problem"@
                        },
                ),
                " · "@,
            )
        },
        idx.len() == 0 ==> summary_of(cards, jobs_running).headline == "All Systems Operational"@,
{
    let idx = lemma_told(cards);
    law_the_level_is_that_of_the_cards(cards, jobs_running);
    assert forall|i: int| #[trigger] idx.contains(i) implies 0 <= i < cards.len() && cards[i].level == "problem"@ by {
        let k = choose|k: int| 0 <= k < idx.len() && idx[k] == i;
        assert(0 <= idx[k] < cards.len());
    }
    if idx.len() > 0 {
        assert(idx.contains(idx[0]));
        assert(cards[idx[0]].level == "problem"@);
        assert(told(cards) =~= Seq::new(
            idx.len(),
            |k: int|
                if cards[idx[k]].why is Some && cards[idx[k]].why->0.len() > 0 {
                    cards[idx[k]].name + ": "@ + cards[idx[k]].why->0
                } else {
                    cards[idx[k]].name + " reporting a problem"@
                },
        ));
    } else {
        if exists|i: int| 0 <= i < cards.len() && (#[trigger] cards[i]).level == "problem"@ {
            let i = choose|i: int| 0 <= i < cards.len() && (#[trigger] cards[i]).level == "problem"@;
            assert(idx.contains(i));
        }
    }
    idx
}

/// The sections that respond are those whose card could be asked.
pub proof fn law_the_cards_that_respond_are_counted(cards: Seq<CardView>, jobs_running: int) -> (idx: Seq<int>)
    ensures
        rising(idx),
        forall|i: int| #[trigger] idx.contains(i) ==> 0 <= i < cards.len() && cards[i].level != "unknown"@,
        forall|i: int| 0 <= i < cards.len() && (#[trigger] cards[i]).level != "unknown"@ ==> idx.contains(i),
        summary_of(cards, jobs_running).online == idx.len(),
    decreases cards.len(),
{
    if cards.len() == 0 {
        Seq::empty()
    } else {
        let front = cards.drop_last();
        let n = front.len() as int;
        let before = law_the_cards_that_respond_are_counted(front, jobs_running);
        assert forall|i: int| #[trigger] before.contains(i) implies 0 <= i < n && cards[i].level != "unknown"@ by {
            assert(front[i] == cards[i]);
        }
        assert forall|k: int| 0 <= k < before.len() implies #[trigger] before[k] < n by {
            assert(before.contains(before[k]));
        }
        if cards.last().level != "unknown"@ {
            lemma_rising_push(before, n);
            let idx = before.push(n);
            assert forall|i: int| 0 <= i < cards.len() && (#[trigger] cards[i]).level != "unknown"@ implies idx.contains(i) by {
                if i < n {
                    assert(front[i] == cards[i]);
                    assert(before.contains(i));
                }
            }
            assert forall|i: int| #[trigger] idx.contains(i) implies 0 <= i < cards.len() && cards[i].level != "unknown"@ by {
                let k = choose|k: int| 0 <= k < idx.len() && idx[k] == i;
                if k < before.len() {
                    assert(before.contains(before[k]));
                }
            }
            idx
        } else {
            assert forall|i: int| 0 <= i < cards.len() && (#[trigger] cards[i]).level != "unknown"@ implies before.contains(
                i,
            ) by {
                assert(front[i] == cards[i]);
            }
            before
        }
    }
}

/// While something is scanned, there is one bar for each section that scans or has found
/// something, in their order; its share is what was seen, added or failed, of the total,
/// rounded down and held between nothing and the whole.
pub proof fn law_a_bar_for_each_section_that_scans(rows: Seq<ScanRow>) -> (idx: Seq<int>)
    ensures
        rising(idx),
        forall|i: int| #[trigger] idx.contains(i) ==> 0 <= i < rows.len() && (rows[i].active || rows[i].total > 0),
        forall|i: int| 0 <= i < rows.len() && ((#[trigger] rows[i]).active || rows[i].total > 0) ==> idx.contains(i),
        scan_lines(rows).len() == idx.len(),
        forall|k: int|
            0 <= k < idx.len() ==> {
                let (r, line) = (rows[#[trigger] idx[k]], scan_lines(rows)[k]);
                &&& line.0 == r.section@
                &&& line.1 == r.total
                &&& line.2 == r.added + r.failed
                &&& line.3 == r.failed
                &&& line.4 == r.active
                &&& 0 <= line.5 <= 100
                &&& 0 <= r.added + r.failed <= r.total && r.total > 0 ==> line.5 * r.total <= 100 * (r.added + r.failed) && 100
                    * (r.added + r.failed) < (line.5 + 1) * r.total
                &&& r.added + r.failed > r.total && r.total > 0 ==> line.5 == 100
                &&& r.total <= 0 ==> line.5 == 0
            },
    decreases rows.len(),
{
    if rows.len() == 0 {
        Seq::empty()
    } else {
        let front = rows.drop_last();
        let n = front.len() as int;
        let before = law_a_bar_for_each_section_that_scans(front);
        assert forall|i: int| #[trigger] before.contains(i) implies 0 <= i < n && (rows[i].active || rows[i].total > 0) by {
            assert(front[i] == rows[i]);
        }
        assert forall|k: int| 0 <= k < before.len() implies 0 <= #[trigger] before[k] < n && front[before[k]] == rows[before[k]] by {
            assert(before.contains(before[k]));
        }
        if rows.last().active || rows.last().total > 0 {
            lemma_scan_share(rows.last().added + rows.last().failed, rows.last().total as int);
            lemma_rising_push(before, n);
            let idx = before.push(n);
            assert forall|i: int| 0 <= i < rows.len() && ((#[trigger] rows[i]).active || rows[i].total > 0) implies idx.contains(
                i,
            ) by {
                if i < n {
                    assert(front[i] == rows[i]);
                    assert(before.contains(i));
                }
            }
            assert forall|i: int| #[trigger] idx.contains(i) implies 0 <= i < rows.len() && (rows[i].active || rows[i].total
                > 0) by {
                let k = choose|k: int| 0 <= k < idx.len() && idx[k] == i;
                if k < before.len() {
                    assert(before.contains(before[k]));
                }
            }
            assert forall|k: int| 0 <= k < idx.len() implies idx[k] == (if k < before.len() { before[k] } else { n }) by {}
            idx
        } else {
            assert forall|i: int| 0 <= i < rows.len() && ((#[trigger] rows[i]).active || rows[i].total > 0) implies before.contains(
                i,
            ) by {
                assert(front[i] == rows[i]);
            }
            before
        }
    }
}

proof fn lemma_scan_share(seen: int, total: int)
    ensures
        0 <= scan_pct(seen, total) <= 100,
        0 <= seen <= total && total > 0 ==> scan_pct(seen, total) * total <= 100 * seen && 100 * seen < (scan_pct(
            seen,
            total,
        ) + 1) * total,
        seen > total && total > 0 ==> scan_pct(seen, total) == 100,
{
    if total > 0 {
        if seen >= 0 {
            let p = (seen * 100) / total;
            vstd::arithmetic::div_mod::lemma_fundamental_div_mod(seen * 100, total);
            let r = (seen * 100) % total;
            assert(p * total <= 100 * seen && 100 * seen < (p + 1) * total) by (nonlinear_arith)
                requires
                    seen * 100 == total * p + r,
                    0 <= r < total,
            ;
            assert(seen <= total ==> p <= 100) by (nonlinear_arith)
                requires
                    p * total <= 100 * seen,
                    total > 0,
            ;
            assert(seen > total ==> p >= 100) by (nonlinear_arith)
                requires
                    100 * seen < (p + 1) * total,
                    total > 0,
            ;
            assert(p >= 0) by (nonlinear_arith)
                requires
                    100 * seen < (p + 1) * total,
                    total > 0,
                    seen >= 0,
            ;
        }
    }
}

/// As many sections are counted that do not answer as say so.
pub proof fn law_sections_that_do_not_answer_are_counted(cards: Seq<CardView>)
    ensures
        unknown_count(cards) == cards.filter(|x: CardView| x.level == "unknown"@).len(),
    decreases cards.len(),
{
    reveal(Seq::filter);
    let p = |x: CardView| x.level == "unknown"@;
    if cards.len() > 0 {
        let front = cards.drop_last();
        law_sections_that_do_not_answer_are_counted(front);
        let kept = front.filter(p);
        assert(cards.filter(p) == (if p(cards.last()) { kept.push(cards.last()) } else { kept }));
    }
}


/// The page has its ten cards, each in its place.
pub proof fn law_the_page_has_its_ten_cards(r: Reports)
    ensures
        page_cards(r).len() == 10,
        page_cards(r)[0] == r.music.card@ && page_cards(r)[1] == r.books.card@ && page_cards(r)[2] == r.photos.card@ && page_cards(r)[3] == r.videos.card@,
        page_cards(r)[4] == r.cloud.card@ && page_cards(r)[5] == r.finances.card@ && page_cards(r)[6] == r.transfer.card@ && page_cards(r)[7] == r.tools.card@,
        page_cards(r)[8] == r.ai.card@ && page_cards(r)[9] == r.system.card@,
{
}

} // verus!
