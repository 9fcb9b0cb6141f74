//! The shape of what the dashboard shows of one section: rows on the card's face,
//! key figures, and groups and tables behind it.

use vstd::prelude::*;
use crate::status::figures::opt_string;

verus! {

/// One `key: value` line; `cls` tints the value.
#[derive(Debug)]
pub struct Row {
    pub k: String,
    pub v: String,
    pub cls: String,
}

/// What a row reads: key, value, tint.
pub type RowView = (Seq<char>, Seq<char>, Seq<char>);

impl View for Row {
    type V = RowView;

    open spec fn view(&self) -> RowView {
        (self.k@, self.v@, self.cls@)
    }
}

/// What rows read.
pub open spec fn rows_view(rows: Seq<Row>) -> Seq<RowView> {
    Seq::new(rows.len(), |i: int| rows[i]@)
}

/// A table cell: plain text, or a status pill.
#[derive(Debug)]
pub enum Cell {
    Text(String),
    Tag(String, String),
}

/// What a cell reads; a pill has its tint beside it.
#[verifier::ext_equal]
pub enum CellView {
    Text(Seq<char>),
    Tag(Seq<char>, Seq<char>),
}

impl View for Cell {
    type V = CellView;

    open spec fn view(&self) -> CellView {
        match *self {
            Cell::Text(t) => CellView::Text(t@),
            Cell::Tag(t, c) => CellView::Tag(t@, c@),
        }
    }
}

/// What the cells of one table line read.
pub open spec fn cells_view(cells: Seq<Cell>) -> Seq<CellView> {
    Seq::new(cells.len(), |i: int| cells[i]@)
}

/// What the lines of a table read.
pub open spec fn lines_view(lines: Seq<Vec<Cell>>) -> Seq<Seq<CellView>> {
    Seq::new(lines.len(), |i: int| cells_view(lines[i]@))
}

/// A key figure: the value and what it counts.
#[derive(Debug)]
pub struct Kpi {
    pub value: String,
    pub label: String,
}

/// What a key figure reads.
pub type KpiView = (Seq<char>, Seq<char>);

impl View for Kpi {
    type V = KpiView;

    open spec fn view(&self) -> KpiView {
        (self.value@, self.label@)
    }
}

/// What key figures read.
pub open spec fn kpis_view(kpis: Seq<Kpi>) -> Seq<KpiView> {
    Seq::new(kpis.len(), |i: int| kpis[i]@)
}

/// A group of rows or a table, under a heading.
#[derive(Debug)]
pub enum Block {
    Rows(String, Vec<Row>),
    Table(String, Vec<String>, Vec<Vec<Cell>>),
}

/// What a block reads.
#[verifier::ext_equal]
pub enum BlockView {
    Rows(Seq<char>, Seq<RowView>),
    Table(Seq<char>, Seq<Seq<char>>, Seq<Seq<CellView>>),
}

impl View for Block {
    type V = BlockView;

    open spec fn view(&self) -> BlockView {
        match *self {
            Block::Rows(h, rows) => BlockView::Rows(h@, rows_view(rows@)),
            Block::Table(h, cols, lines) => BlockView::Table(
                h@,
                crate::text::views(cols@),
                lines_view(lines@),
            ),
        }
    }
}

/// What blocks read.
pub open spec fn blocks_view(blocks: Seq<Block>) -> Seq<BlockView> {
    Seq::new(blocks.len(), |i: int| blocks[i]@)
}

/// One section's card. `why` says what is wrong where something is, `more` what
/// the popup behind the card adds.
#[derive(Debug)]
pub struct Card {
    pub key: String,
    pub name: String,
    pub accent: String,
    pub level: String,
    pub status: String,
    pub rows: Vec<Row>,
    pub kpis: Vec<Kpi>,
    pub groups: Vec<Block>,
    pub why: Option<String>,
    pub more: Option<String>,
}

/// What a card reads.
#[verifier::ext_equal]
pub struct CardView {
    pub key: Seq<char>,
    pub name: Seq<char>,
    pub accent: Seq<char>,
    pub level: Seq<char>,
    pub status: Seq<char>,
    pub rows: Seq<RowView>,
    pub kpis: Seq<KpiView>,
    pub groups: Seq<BlockView>,
    pub why: Option<Seq<char>>,
    pub more: Option<Seq<char>>,
}

impl View for Card {
    type V = CardView;

    open spec fn view(&self) -> CardView {
        CardView {
            key: self.key@,
            name: self.name@,
            accent: self.accent@,
            level: self.level@,
            status: self.status@,
            rows: rows_view(self.rows@),
            kpis: kpis_view(self.kpis@),
            groups: blocks_view(self.groups@),
            why: opt_string(self.why),
            more: opt_string(self.more),
        }
    }
}

/// An event of the timeline: when, in which accent, its title and description.
#[derive(Debug)]
pub struct Event {
    pub at: i64,
    pub accent: String,
    pub title: String,
    pub desc: String,
}

/// What an event reads.
pub type EventView = (int, Seq<char>, Seq<char>, Seq<char>);

impl View for Event {
    type V = EventView;

    open spec fn view(&self) -> EventView {
        (self.at as int, self.accent@, self.title@, self.desc@)
    }
}

/// What events read.
pub open spec fn events_view(events: Seq<Event>) -> Seq<EventView> {
    Seq::new(events.len(), |i: int| events[i]@)
}

/// Per-section result: the card, and the few figures that the header, the metric
/// strip and the "Today" column reuse.
#[derive(Debug)]
pub struct Sec {
    pub card: Card,
    pub running: i64,
    pub failed: i64,
    pub today: i64,
    pub events: Vec<Event>,
}

/// A row.
pub fn row(k: &str, v: String, cls: &str) -> (r: Row)
    ensures
        r@ == (k@, v@, cls@),
{
    Row { k: k.to_owned(), v, cls: cls.to_owned() }
}

/// A row of fixed text.
pub fn row_str(k: &str, v: &str, cls: &str) -> (r: Row)
    ensures
        r@ == (k@, v@, cls@),
{
    Row { k: k.to_owned(), v: v.to_owned(), cls: cls.to_owned() }
}

/// A key figure.
pub fn kpi(value: String, label: &str) -> (r: Kpi)
    ensures
        r@ == (value@, label@),
{
    Kpi { value, label: label.to_owned() }
}

/// A group of rows.
pub fn grp(h: &str, rows: Vec<Row>) -> (r: Block)
    ensures
        r@ == BlockView::Rows(h@, rows_view(rows@)),
{
    Block::Rows(h.to_owned(), rows)
}

/// A table.
pub fn table(h: &str, cols: Vec<String>, lines: Vec<Vec<Cell>>) -> (r: Block)
    ensures
        r@ == BlockView::Table(h@, crate::text::views(cols@), lines_view(lines@)),
{
    Block::Table(h.to_owned(), cols, lines)
}

/// A status pill.
pub fn tag(text: &str, cls: &str) -> (r: Cell)
    ensures
        r@ == CellView::Tag(text@, cls@),
{
    Cell::Tag(text.to_owned(), cls.to_owned())
}

/// A plain cell.
pub fn cell(text: &str) -> (r: Cell)
    ensures
        r@ == CellView::Text(text@),
{
    Cell::Text(text.to_owned())
}

/// What a card reads that says nothing of trouble and offers nothing more.
pub open spec fn plain(
    key: Seq<char>,
    name: Seq<char>,
    accent: Seq<char>,
    level: Seq<char>,
    status: Seq<char>,
    rows: Seq<RowView>,
    kpis: Seq<KpiView>,
    groups: Seq<BlockView>,
) -> CardView {
    CardView { key, name, accent, level, status, rows, kpis, groups, why: None, more: None }
}

/// A card.
pub fn card(
    key: &str,
    name: &str,
    accent: &str,
    level: &str,
    status: &str,
    rows: Vec<Row>,
    kpis: Vec<Kpi>,
    groups: Vec<Block>,
) -> (r: Card)
    ensures
        r@ == plain(
            key@,
            name@,
            accent@,
            level@,
            status@,
            rows_view(rows@),
            kpis_view(kpis@),
            blocks_view(groups@),
        ),
{
    Card {
        key: key.to_owned(),
        name: name.to_owned(),
        accent: accent.to_owned(),
        level: level.to_owned(),
        status: status.to_owned(),
        rows,
        kpis,
        groups,
        why: None,
        more: None,
    }
}

/// The card with its trouble named, where `why` names one.
pub open spec fn explained(c: CardView, why: Seq<char>) -> CardView {
    if why.len() == 0 {
        c
    } else {
        CardView { why: Some(why), ..c }
    }
}

impl Sec {
    /// A section that reports a card and nothing else.
    pub fn new(card: Card) -> (r: Sec)
        ensures
            r.card@ == card@,
            r.running == 0,
            r.failed == 0,
            r.today == 0,
            r.events@.len() == 0,
    {
        Sec { card, running: 0, failed: 0, today: 0, events: Vec::new() }
    }

    /// Why this card is not in order, in one line specific enough to act on; an
    /// empty line says nothing.
    pub fn why(self, why: String) -> (r: Sec)
        ensures
            r.card@ == explained(self.card@, why@),
            r.running == self.running,
            r.failed == self.failed,
            r.today == self.today,
            r.events@ == self.events@,
    {
        let mut s = self;
        if !why.as_str().is_empty() {
            s.card.why = Some(why);
        }
        s
    }
}

/// The card of a section whose database did not open.
pub open spec fn unavailable_card(key: Seq<char>, name: Seq<char>, accent: Seq<char>) -> CardView {
    plain(
        key,
        name,
        accent,
        "unknown"@,
        "Unavailable"@,
        seq![("Database"@, "Could not open"@, "rd"@)],
        Seq::empty(),
        Seq::empty(),
    )
}

/// The section whose database did not open.
pub fn unavailable(key: &str, name: &str, accent: &str) -> (r: Sec)
    ensures
        r.card@ == unavailable_card(key@, name@, accent@),
        r.running == 0,
        r.failed == 0,
        r.today == 0,
        r.events@.len() == 0,
{
    let rows = vec![row_str("Database", "Could not open", "rd")];
    let c = card(key, name, accent, "unknown", "Unavailable", rows, Vec::new(), Vec::new());
    assert(c@ =~~= unavailable_card(key@, name@, accent@));
    Sec::new(c)
}

/// A card names its trouble exactly where there is one, and nothing else of it changes; the
/// card of a section that could not be opened says so.
pub proof fn law_a_card_names_its_trouble(c: CardView, why: Seq<char>, key: Seq<char>, name: Seq<char>, accent: Seq<char>)
    ensures
        why.len() > 0 ==> explained(c, why) == (CardView { why: Some(why), ..c }),
        why.len() == 0 ==> explained(c, why) == c,
        ({
            let u = unavailable_card(key, name, accent);
            &&& u.key == key && u.name == name && u.accent == accent && u.level == "unknown"@ && u.status == "Unavailable"@
            &&& u.rows == seq![("Database"@, "Could not open"@, "rd"@)]
            &&& u.kpis.len() == 0 && u.groups.len() == 0 && u.why is None && u.more is None
        }),
{
}

} // verus!
