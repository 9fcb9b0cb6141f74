//! The finances card: accounts, and the bills that come due or are late.

use vstd::prelude::*;
use crate::double::{hundred, of_int, quotient, Double};
use crate::status::card::{card, cell, cells_view, explained, grp, kpi, lines_view, plain, row, rows_view, table, tag, BlockView, CardView, Cell, CellView, Row, RowView, Sec};
use crate::status::figures::{days_text, num, num_text, plural_days, BUSY, OK, PROBLEM};
use crate::text::{count_of, dec_int, followed, join, join_strings, push_dec_int, same, views};

verus! {

/// A bill that is overdue, by how many days, and its amount in hundredths.
#[derive(Debug)]
pub struct LateBill {
    pub name: String,
    pub days: i64,
    pub minor: i64,
}

/// A bill that comes due or is late.
#[derive(Debug)]
pub struct DueBill {
    pub name: String,
    pub due_on: String,
    pub minor: i64,
    pub status: String,
}

/// What the ledger answers. `due` counts what falls due within `lead` days.
#[derive(Debug)]
pub struct MoneyFacts {
    pub accounts: i64,
    pub txns: i64,
    pub txn_today: i64,
    pub lead: i64,
    pub due: i64,
    pub late: Vec<LateBill>,
    pub upcoming: Vec<DueBill>,
    pub uncategorized: i64,
    pub today: String,
}

/// An amount in hundredths, printed with two decimals.
pub open spec fn amount_text(minor: int) -> Seq<char> {
    quotient(of_int(minor), hundred()).text(2)
}

/// See [`amount_text`].
pub fn amount(minor: i64) -> (r: String)
    ensures
        r@ == amount_text(minor as int),
{
    let mut out = String::new();
    let v = Double::from_i64(minor).div(&Double::hundred());
    v.push_text(&mut out, 2);
    assert(out@ =~= amount_text(minor as int));
    out
}

/// The row of a late bill.
pub open spec fn late_row(b: LateBill) -> RowView {
    (b.name@, amount_text(b.minor as int) + " · "@ + days_text(b.days as int) + " late"@, "rd"@)
}

/// The rows of the late bills.
pub open spec fn late_rows(late: Seq<LateBill>) -> Seq<RowView> {
    Seq::new(late.len(), |i: int| late_row(late[i]))
}

fn row_of_late(b: &LateBill) -> (r: Row)
    ensures
        r@ == late_row(*b),
{
    let mut v = followed(amount(b.minor), " · ");
    v.append(plural_days(b.days).as_str());
    v.append(" late");
    row(b.name.as_str(), v, "rd")
}

fn rows_of_late(late: &Vec<LateBill>) -> (r: Vec<Row>)
    ensures
        rows_view(r@) == late_rows(late@),
{
    let mut out: Vec<Row> = Vec::new();
    let mut i: usize = 0;
    while i < late.len()
        invariant
            i <= late@.len(),
            out@.len() == i,
            forall|j: int| 0 <= j < i ==> (#[trigger] out@[j])@ == late_row(late@[j]),
        decreases late@.len() - i,
    {
        out.push(row_of_late(&late[i]));
        i = i + 1;
    }
    assert(rows_view(out@) =~= late_rows(late@));
    out
}

/// One line of the table of bills.
pub open spec fn due_line(b: DueBill) -> Seq<CellView> {
    seq![
        CellView::Text(b.name@),
        CellView::Text(b.due_on@),
        CellView::Tag(amount_text(b.minor as int), if b.status@ == "overdue"@ { "b"@ } else { "w"@ }),
    ]
}

/// The lines of the table of bills.
pub open spec fn due_lines(upcoming: Seq<DueBill>) -> Seq<Seq<CellView>> {
    Seq::new(upcoming.len(), |i: int| due_line(upcoming[i]))
}

fn line_of_due(b: &DueBill) -> (r: Vec<Cell>)
    ensures
        cells_view(r@) == due_line(*b),
{
    let cls = if same(b.status.as_str(), "overdue") { "b" } else { "w" };
    let r = vec![cell(b.name.as_str()), cell(b.due_on.as_str()), tag(amount(b.minor).as_str(), cls)];
    assert(cells_view(r@) =~= due_line(*b));
    r
}

fn lines_of_due(upcoming: &Vec<DueBill>) -> (r: Vec<Vec<Cell>>)
    ensures
        lines_view(r@) == due_lines(upcoming@),
{
    let mut out: Vec<Vec<Cell>> = Vec::new();
    let mut i: usize = 0;
    while i < upcoming.len()
        invariant
            i <= upcoming@.len(),
            out@.len() == i,
            forall|j: int| 0 <= j < i ==> cells_view((#[trigger] out@[j])@) == due_line(upcoming@[j]),
        decreases upcoming@.len() - i,
    {
        out.push(line_of_due(&upcoming[i]));
        i = i + 1;
    }
    assert(lines_view(out@) =~= due_lines(upcoming@));
    out
}

/// A late bill as the headline names it.
pub open spec fn late_name(b: LateBill) -> Seq<char> {
    b.name@ + " ("@ + days_text(b.days as int) + " late)"@
}

/// The first three late bills by name, or fewer where there are fewer.
pub open spec fn late_names(late: Seq<LateBill>) -> Seq<Seq<char>> {
    Seq::new(if late.len() > 3 { 3 } else { late.len() }, |i: int| late_name(late[i]))
}

/// What is unpaid, by name and how late.
pub open spec fn money_why(late: Seq<LateBill>) -> Seq<char> {
    let names = join(late_names(late), ", "@);
    if late.len() == 0 {
        Seq::empty()
    } else if late.len() > 3 {
        "Unpaid bills: "@ + names + ", and "@ + dec_int(late.len() - 3) + " more"@
    } else {
        "Unpaid bills: "@ + names
    }
}

fn why_of_money(late: &Vec<LateBill>) -> (r: String)
    requires
        late@.len() <= i64::MAX,
    ensures
        r@ == money_why(late@),
{
    if late.len() == 0 {
        return String::new();
    }
    let n: usize = if late.len() > 3 {
        3
    } else {
        late.len()
    };
    let mut names: Vec<String> = Vec::new();
    let mut i: usize = 0;
    while i < n
        invariant
            i <= n <= late@.len(),
            names@.len() == i,
            forall|j: int| 0 <= j < i ==> (#[trigger] names@[j])@ == late_name(late@[j]),
        decreases n - i,
    {
        let mut s = late[i].name.clone();
        s.append(" (");
        s.append(plural_days(late[i].days).as_str());
        s.append(" late)");
        names.push(s);
        i = i + 1;
    }
    assert(views(names@) =~= late_names(late@));
    let mut out = "Unpaid bills: ".to_owned();
    out.append(join_strings(&names, ", ").as_str());
    if late.len() > 3 {
        out.append(", and ");
        push_dec_int(&mut out, late.len() as i64 - 3);
        out.append(" more");
    }
    out
}

/// The level of the finances.
pub open spec fn money_level(f: MoneyFacts) -> Seq<char> {
    if f.late@.len() > 0 {
        PROBLEM@
    } else if f.due > 0 {
        BUSY@
    } else {
        OK@
    }
}

/// The status line of the finances.
pub open spec fn money_status(f: MoneyFacts) -> Seq<char> {
    if f.late@.len() > 0 {
        dec_int(f.late@.len() as int) + " overdue"@
    } else if f.due > 0 {
        dec_int(f.due as int) + " due soon"@
    } else {
        "Operational"@
    }
}

/// The finances card.
pub open spec fn finances_view(f: MoneyFacts) -> CardView {
    let overdue = f.late@.len() as int;
    let loose = ("Uncategorized"@, num_text(f.uncategorized as int), if f.uncategorized > 0 { "o"@ } else { "g"@ });
    explained(
        plain(
            "finances"@,
            "Finances"@,
            "lime"@,
            money_level(f),
            money_status(f),
            seq![
                ("Accounts"@, num_text(f.accounts as int), ""@),
                ("Transactions"@, num_text(f.txn_today as int) + " today"@, ""@),
                (
                    "Due ≤ "@ + dec_int(f.lead as int) + "d"@,
                    num_text(f.due as int),
                    if f.due > 0 { "o"@ } else { "g"@ },
                ),
                ("Overdue"@, num_text(overdue), if overdue > 0 { "rd"@ } else { "g"@ }),
                loose,
            ],
            seq![
                (num_text(f.accounts as int), "Accounts"@),
                (num_text(f.due as int), "Due soon"@),
                (num_text(overdue), "Overdue"@),
            ],
            seq![
                BlockView::Rows("Overdue — pay or reschedule these"@, late_rows(f.late@)),
                BlockView::Table("Coming due"@, seq!["Item"@, "Due"@, "Amount"@], due_lines(f.upcoming@)),
                BlockView::Rows("Ledger"@, seq![
                    ("Transactions"@, num_text(f.txns as int), ""@),
                    ("Posted today"@, num_text(f.txn_today as int), ""@),
                    loose,
                    ("Open accounts"@, num_text(f.accounts as int), ""@),
                ]),
                BlockView::Rows("Engine"@, seq![
                    ("Alert lead"@, dec_int(f.lead as int) + " days"@, "mut"@),
                    ("Today"@, f.today@, "mut"@),
                ]),
            ],
        ),
        money_why(f.late@),
    )
}

/// The finances section's report.
pub fn finances_card(f: &MoneyFacts) -> (r: Sec)
    requires
        f.late@.len() <= i64::MAX,
    ensures
        r.card@ == finances_view(*f),
        r.running == 0,
        r.failed == 0,
        r.today == f.txn_today,
        r.events@.len() == 0,
{
    let overdue: i64 = f.late.len() as i64;
    let level = if overdue > 0 {
        PROBLEM
    } else if f.due > 0 {
        BUSY
    } else {
        OK
    };
    let status = if overdue > 0 {
        count_of(overdue, " overdue")
    } else if f.due > 0 {
        count_of(f.due, " due soon")
    } else {
        "Operational".to_owned()
    };
    let loose_cls = if f.uncategorized > 0 { "o" } else { "g" };
    let mut lead = "Due ≤ ".to_owned();
    push_dec_int(&mut lead, f.lead);
    lead.append("d");
    let cols = vec!["Item".to_owned(), "Due".to_owned(), "Amount".to_owned()];
    assert(views(cols@) =~= seq!["Item"@, "Due"@, "Amount"@]);
    let c = card(
        "finances",
        "Finances",
        "lime",
        level,
        status.as_str(),
        vec![
            row("Accounts", num(f.accounts), ""),
            row("Transactions", followed(num(f.txn_today), " today"), ""),
            row(lead.as_str(), num(f.due), if f.due > 0 { "o" } else { "g" }),
            row("Overdue", num(overdue), if overdue > 0 { "rd" } else { "g" }),
            row("Uncategorized", num(f.uncategorized), loose_cls),
        ],
        vec![kpi(num(f.accounts), "Accounts"), kpi(num(f.due), "Due soon"), kpi(num(overdue), "Overdue")],
        vec![
            grp("Overdue — pay or reschedule these", rows_of_late(&f.late)),
            table("Coming due", cols, lines_of_due(&f.upcoming)),
            grp("Ledger", vec![
                row("Transactions", num(f.txns), ""),
                row("Posted today", num(f.txn_today), ""),
                row("Uncategorized", num(f.uncategorized), loose_cls),
                row("Open accounts", num(f.accounts), ""),
            ]),
            grp("Engine", vec![
                row("Alert lead", count_of(f.lead, " days"), "mut"),
                row("Today", f.today.clone(), "mut"),
            ]),
        ],
    );
    let mut s = Sec::new(c).why(why_of_money(&f.late));
    s.today = f.txn_today;
    assert(s.card@ =~~= finances_view(*f));
    s
}

/// The finances are in trouble exactly where a bill is late, and say how many are; they are
/// busy where none is late and one comes due.
pub proof fn law_late_bills_are_the_trouble(f: MoneyFacts)
    ensures
        (finances_view(f).level == "problem"@) == (f.late@.len() > 0),
        (finances_view(f).level == "busy"@) == (f.late@.len() == 0 && f.due > 0),
        (finances_view(f).level == "ok"@) == (f.late@.len() == 0 && f.due <= 0),
        f.late@.len() > 0 ==> finances_view(f).status == dec_int(f.late@.len() as int) + " overdue"@,
        f.late@.len() == 0 && f.due > 0 ==> finances_view(f).status == dec_int(f.due as int) + " due soon"@,
        f.late@.len() == 0 ==> finances_view(f).why is None,
{
    reveal_strlit("problem");
    reveal_strlit("busy");
    reveal_strlit("ok");
    assert("problem"@.len() == 7 && "busy"@.len() == 4 && "ok"@.len() == 2);
}

/// What is unpaid is named: each of the late bills and how late it is, the first three where
/// there are more, and then how many more.
pub proof fn law_the_unpaid_bills_are_named(late: Seq<LateBill>)
    ensures
        ({
            let name = |i: int| late[i].name@ + " ("@ + days_text(late[i].days as int) + " late)"@;
            &&& late.len() == 1 ==> money_why(late) == "Unpaid bills: "@ + name(0)
            &&& late.len() == 2 ==> money_why(late) == "Unpaid bills: "@ + (name(0) + ", "@ + name(1))
            &&& late.len() == 3 ==> money_why(late) == "Unpaid bills: "@ + (name(0) + ", "@ + name(1) + ", "@ + name(2))
            &&& late.len() > 3 ==> money_why(late) == "Unpaid bills: "@ + (name(0) + ", "@ + name(1) + ", "@ + name(2)) + ", and "@
                + dec_int(late.len() - 3) + " more"@
        }),
{
    reveal_with_fuel(join, 4);
    let n = late_names(late);
    if n.len() == 2 {
        assert(n.drop_last().len() == 1);
    }
    if n.len() == 3 {
        assert(n.drop_last().len() == 2);
        assert(n.drop_last().drop_last().len() == 1);
    }
}

/// The finances card has its counts; behind it every late bill says its amount and how late it
/// is, and every bill that comes due its day and its amount.
pub proof fn law_the_finances_card_lists_its_bills(f: MoneyFacts)
    ensures
        ({
            let c = finances_view(f);
            let late = f.late@.len() as int;
            &&& c.rows[0].1 == num_text(f.accounts as int) && c.rows[1].1 == num_text(f.txn_today as int) + " today"@
            &&& c.rows[2] == ("Due ≤ "@ + dec_int(f.lead as int) + "d"@, num_text(f.due as int), if f.due > 0 { "o"@ } else { "g"@ })
            &&& c.rows[3] == ("Overdue"@, num_text(late), if late > 0 { "rd"@ } else { "g"@ })
            &&& c.rows[4] == ("Uncategorized"@, num_text(f.uncategorized as int), if f.uncategorized > 0 { "o"@ } else { "g"@ })
            &&& c.kpis[0].0 == num_text(f.accounts as int) && c.kpis[1].0 == num_text(f.due as int) && c.kpis[2].0 == num_text(late)
            &&& c.groups[0] matches BlockView::Rows(_, rows) && rows.len() == late && forall|i: int|
                0 <= i < late ==> #[trigger] rows[i] == (f.late@[i].name@, quotient(of_int(f.late@[i].minor as int), hundred()).text(2) + " · "@ + days_text(
                    f.late@[i].days as int,
                ) + " late"@, "rd"@)
            &&& c.groups[1] matches BlockView::Table(_, _, lines) && lines.len() == f.upcoming@.len() && forall|i: int|
                0 <= i < f.upcoming@.len() ==> (#[trigger] lines[i])[0] == CellView::Text(f.upcoming@[i].name@) && lines[i][1] == CellView::Text(f.upcoming@[i].due_on@) && lines[i][2]
                    == CellView::Tag(quotient(of_int(f.upcoming@[i].minor as int), hundred()).text(2), if f.upcoming@[i].status@ == "overdue"@ { "b"@ } else { "w"@ })
        }),
{
}

} // verus!
