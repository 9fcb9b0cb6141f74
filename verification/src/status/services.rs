//! The cards of what runs inside the app itself: the transfer listener, the
//! installed models, and the process.

use vstd::prelude::*;
use crate::status::card::{card, cell, cells_view, grp, kpi, lines_view, plain, row, row_str, table, tag, BlockView, CardView, Cell, CellView, RowView, Sec};
use crate::find::{ends, ends_with, strip_tail};
use crate::status::figures::{bytes, bytes_text, dur, dur_text, num, num_text, opt_string, rate_between, wire_rate, Reading, BUSY, OK};
use crate::text::{count_of, dec_int, followed, parse_i64, parse_int, push_dec_int, split_words, views, words};

verus! {

/// One section's indexing progress.
#[derive(Default, Clone, Debug)]
pub struct ScanRow {
    pub section: String,
    pub total: i64,
    pub added: i64,
    pub failed: i64,
    pub active: bool,
}

/// What only the running app knows: in-process services with no database behind
/// them, and facts of the build.
#[derive(Default, Clone, Debug)]
pub struct Live {
    pub transfer_running: bool,
    pub transfer_port: u16,
    /// The LAN address the phone URL is built from.
    pub transfer_ip: String,
    pub transfer_devices: i64,
    pub transfer_inflight: i64,
    /// Cumulative bytes this run, out and in.
    pub transfer_sent: u64,
    pub transfer_recv: u64,
    /// Model files installed under the app's models directory.
    pub ai_models: i64,
    /// Bytes those model files take up.
    pub ai_models_bytes: i64,
    pub app_version: String,
    pub renderer: String,
    /// Seconds this process has been up.
    pub uptime_s: i64,
    /// Live per-section scan counters, empty when nothing is indexing.
    pub scan: Vec<ScanRow>,
}

/// The last readings of the two transfer counters.
#[derive(Clone, Copy, Debug, PartialEq, Eq, Structural)]
pub struct Meter {
    pub sent: Reading,
    pub recv: Reading,
}

impl Meter {
    /// No readings yet.
    pub fn new() -> (r: Meter)
        ensures
            r == (Meter { sent: Reading { total: 0, at: 0 }, recv: Reading { total: 0, at: 0 } }),
    {
        Meter { sent: Reading::none(), recv: Reading::none() }
    }
}

/// Bytes per second out and in since the last readings.
pub fn transfer_rates(meter: &mut Meter, live: &Live, t: i64) -> (r: (i64, i64))
    requires
        t - old(meter).sent.at <= i64::MAX,
        t - old(meter).recv.at <= i64::MAX,
        live.transfer_sent - old(meter).sent.total <= i64::MAX,
        live.transfer_recv - old(meter).recv.total <= i64::MAX,
    ensures
        *final(meter) == (Meter {
            sent: Reading { total: live.transfer_sent, at: t },
            recv: Reading { total: live.transfer_recv, at: t },
        }),
        r.0 == rate_between(old(meter).sent, live.transfer_sent, t),
        r.1 == rate_between(old(meter).recv, live.transfer_recv, t),
{
    let mut sent = meter.sent;
    let mut recv = meter.recv;
    let a: i64 = wire_rate(&mut sent, live.transfer_sent, t);
    let b: i64 = wire_rate(&mut recv, live.transfer_recv, t);
    meter.sent = sent;
    meter.recv = recv;
    (a, b)
}

/// What moved since the last local midnight: files and bytes, out and in.
#[derive(Clone, Copy, Debug)]
pub struct MovedToday {
    pub out_files: i64,
    pub out_bytes: i64,
    pub in_files: i64,
    pub in_bytes: i64,
}

/// A rate as it reads, a dash where nothing moves.
pub open spec fn rate_text(b: int) -> Seq<char> {
    if b > 0 { bytes_text(b) + "/s"@ } else { "—"@ }
}

fn rate_line(b: i64) -> (r: String)
    ensures
        r@ == rate_text(b as int),
{
    if b > 0 { followed(bytes(b), "/s") } else { "—".to_owned() }
}

/// Where the transfer server listens, and in which tint that reads.
pub open spec fn server_text(live: Live) -> (Seq<char>, Seq<char>) {
    if !live.transfer_running {
        ("Stopped"@, "mut"@)
    } else if live.transfer_ip@.len() == 0 {
        (":"@ + dec_int(live.transfer_port as int), "g"@)
    } else {
        (live.transfer_ip@ + ":"@ + dec_int(live.transfer_port as int), "g"@)
    }
}

fn server_line(live: &Live) -> (r: (String, &'static str))
    ensures
        (r.0@, r.1@) == server_text(*live),
{
    if !live.transfer_running {
        ("Stopped".to_owned(), "mut")
    } else if live.transfer_ip.as_str().is_empty() {
        let mut s = ":".to_owned();
        push_dec_int(&mut s, live.transfer_port as i64);
        (s, "g")
    } else {
        let mut s = live.transfer_ip.clone();
        s.append(":");
        push_dec_int(&mut s, live.transfer_port as i64);
        (s, "g")
    }
}

/// The tint of a figure that stands out while it is positive.
pub open spec fn moving_cls(v: int) -> Seq<char> {
    if v > 0 { "o"@ } else { "mut"@ }
}

fn cls_moving(v: i64) -> (r: &'static str)
    ensures
        r@ == moving_cls(v as int),
{
    if v > 0 { "o" } else { "mut" }
}

/// The status line of the transfer card.
pub open spec fn transfer_status(live: Live) -> Seq<char> {
    if !live.transfer_running {
        "Not sharing"@
    } else if live.transfer_inflight > 0 {
        dec_int(live.transfer_inflight as int) + " in flight"@
    } else {
        "Listening"@
    }
}

/// The transfer card, for the rates out and in and what moved today.
pub open spec fn transfer_view(live: Live, sent: int, recv: int, m: MovedToday) -> CardView {
    let (server, server_cls) = server_text(live);
    let sending = ("Sending"@, rate_text(sent), moving_cls(sent));
    plain(
        "transfer"@,
        "Transfer"@,
        "orange"@,
        if live.transfer_inflight > 0 { BUSY@ } else { OK@ },
        transfer_status(live),
        seq![
            ("Server"@, server, server_cls),
            sending,
            (
                "Sent today"@,
                num_text(m.out_files as int) + " · "@ + bytes_text(m.out_bytes as int),
                if m.out_files > 0 { "g"@ } else { "mut"@ },
            ),
            ("Paired devices"@, num_text(live.transfer_devices as int), ""@),
            ("In flight"@, num_text(live.transfer_inflight as int), moving_cls(live.transfer_inflight as int)),
        ],
        seq![
            (bytes_text(m.out_bytes as int), "Sent today"@),
            (if sent > 0 || recv > 0 { rate_text(sent) } else { "Idle"@ }, "Sending now"@),
            (num_text(live.transfer_devices as int), "Paired devices"@),
        ],
        seq![
            BlockView::Rows("Server"@, seq![
                ("Address"@, server, server_cls),
                ("Paired devices"@, num_text(live.transfer_devices as int), ""@),
                ("Transfers in flight"@, num_text(live.transfer_inflight as int), ""@),
            ]),
            BlockView::Rows("Right now"@, seq![
                sending,
                ("Receiving"@, rate_text(recv), moving_cls(recv)),
            ]),
            BlockView::Rows("Today"@, seq![
                ("Files sent"@, num_text(m.out_files as int), ""@),
                ("Bytes sent"@, bytes_text(m.out_bytes as int), ""@),
                ("Files received"@, num_text(m.in_files as int), ""@),
                ("Bytes received"@, bytes_text(m.in_bytes as int), ""@),
            ]),
        ],
    )
}

/// The transfer section's report.
pub fn transfer_card(live: &Live, sent: i64, recv: i64, m: &MovedToday) -> (r: Sec)
    ensures
        r.card@ == transfer_view(*live, sent as int, recv as int, *m),
        r.running == 0,
        r.failed == 0,
        r.today == 0,
        r.events@.len() == 0,
{
    let status = if !live.transfer_running {
        "Not sharing".to_owned()
    } else if live.transfer_inflight > 0 {
        count_of(live.transfer_inflight, " in flight")
    } else {
        "Listening".to_owned()
    };
    let (server, server_cls) = server_line(live);
    let mut sent_today = followed(num(m.out_files), " · ");
    sent_today.append(bytes(m.out_bytes).as_str());
    let now_line = if sent > 0 || recv > 0 {
        rate_line(sent)
    } else {
        "Idle".to_owned()
    };
    let c = card(
        "transfer",
        "Transfer",
        "orange",
        if live.transfer_inflight > 0 { BUSY } else { OK },
        status.as_str(),
        vec![
            row("Server", server.clone(), server_cls),
            row("Sending", rate_line(sent), cls_moving(sent)),
            row("Sent today", sent_today, if m.out_files > 0 { "g" } else { "mut" }),
            row("Paired devices", num(live.transfer_devices), ""),
            row("In flight", num(live.transfer_inflight), cls_moving(live.transfer_inflight)),
        ],
        vec![
            kpi(bytes(m.out_bytes), "Sent today"),
            kpi(now_line, "Sending now"),
            kpi(num(live.transfer_devices), "Paired devices"),
        ],
        vec![
            grp("Server", vec![
                row("Address", server, server_cls),
                row("Paired devices", num(live.transfer_devices), ""),
                row("Transfers in flight", num(live.transfer_inflight), ""),
            ]),
            grp("Right now", vec![
                row("Sending", rate_line(sent), cls_moving(sent)),
                row("Receiving", rate_line(recv), cls_moving(recv)),
            ]),
            grp("Today", vec![
                row("Files sent", num(m.out_files), ""),
                row("Bytes sent", bytes(m.out_bytes), ""),
                row("Files received", num(m.in_files), ""),
                row("Bytes received", bytes(m.in_bytes), ""),
            ]),
        ],
    );
    let s = Sec::new(c);
    assert(s.card@ =~~= transfer_view(*live, sent as int, recv as int, *m));
    s
}

/// The row that says whether the transcription program was found.
pub open spec fn cli_row(cli: bool) -> RowView {
    ("whisper-cli"@, if cli { "Found"@ } else { "Not found"@ }, if cli { "g"@ } else { "o"@ })
}

/// The status line of the models card.
pub open spec fn ai_status(live: Live, cli: bool) -> Seq<char> {
    if live.ai_models > 0 && cli {
        "Ready"@
    } else if live.ai_models == 0 {
        "No models installed"@
    } else {
        "whisper-cli missing"@
    }
}

/// The models card, for whether the transcription program was found.
pub open spec fn ai_view(live: Live, cli: bool) -> CardView {
    let ready = live.ai_models > 0 && cli;
    plain(
        "ai"@,
        "AI & Models"@,
        "brand"@,
        OK@,
        ai_status(live, cli),
        seq![
            ("Models installed"@, num_text(live.ai_models as int), if live.ai_models > 0 { ""@ } else { "mut"@ }),
            ("Models size"@, bytes_text(live.ai_models_bytes as int), ""@),
            cli_row(cli),
            (
                "Transcription"@,
                if ready { "Available"@ } else { "Unavailable"@ },
                if ready { "g"@ } else { "o"@ },
            ),
        ],
        seq![
            (num_text(live.ai_models as int), "Models"@),
            (bytes_text(live.ai_models_bytes as int), "On disk"@),
            (if ready { "Yes"@ } else { "No"@ }, "Transcription ready"@),
        ],
        seq![
            BlockView::Rows("Installed"@, seq![
                ("Model files"@, num_text(live.ai_models as int), ""@),
                ("Total size"@, bytes_text(live.ai_models_bytes as int), ""@),
                cli_row(cli),
            ]),
        ],
    )
}

/// The models section's report.
pub fn ai_card(live: &Live, cli: bool) -> (r: Sec)
    ensures
        r.card@ == ai_view(*live, cli),
        r.running == 0,
        r.failed == 0,
        r.today == 0,
        r.events@.len() == 0,
{
    let ready = live.ai_models > 0 && cli;
    let status = if ready {
        "Ready"
    } else if live.ai_models == 0 {
        "No models installed"
    } else {
        "whisper-cli missing"
    };
    let found = if cli { "Found" } else { "Not found" };
    let found_cls = if cli { "g" } else { "o" };
    let c = card(
        "ai",
        "AI & Models",
        "brand",
        OK,
        status,
        vec![
            row("Models installed", num(live.ai_models), if live.ai_models > 0 { "" } else { "mut" }),
            row("Models size", bytes(live.ai_models_bytes), ""),
            row_str("whisper-cli", found, found_cls),
            row_str(
                "Transcription",
                if ready { "Available" } else { "Unavailable" },
                if ready { "g" } else { "o" },
            ),
        ],
        vec![
            kpi(num(live.ai_models), "Models"),
            kpi(bytes(live.ai_models_bytes), "On disk"),
            kpi(if ready { "Yes".to_owned() } else { "No".to_owned() }, "Transcription ready"),
        ],
        vec![
            grp("Installed", vec![
                row("Model files", num(live.ai_models), ""),
                row("Total size", bytes(live.ai_models_bytes), ""),
                row_str("whisper-cli", found, found_cls),
            ]),
        ],
    );
    let s = Sec::new(c);
    assert(s.card@ =~~= ai_view(*live, cli));
    s
}

/// The sizes of databases together.
pub open spec fn sizes_sum(dbs: Seq<(String, i64)>) -> int
    decreases dbs.len(),
{
    if dbs.len() == 0 {
        0
    } else {
        sizes_sum(dbs.drop_last()) + dbs.last().1
    }
}

/// File sizes add up within sixty-four bits from the first to any of them.
pub open spec fn sizes_fit(dbs: Seq<(String, i64)>) -> bool {
    forall|i: int| 0 <= i <= dbs.len() ==> i64::MIN <= #[trigger] sizes_sum(dbs.take(i)) <= i64::MAX
}

/// See [`sizes_sum`].
pub fn sum_sizes(dbs: &Vec<(String, i64)>) -> (r: i64)
    requires
        sizes_fit(dbs@),
    ensures
        r == sizes_sum(dbs@),
{
    let mut n: i64 = 0;
    let mut i: usize = 0;
    assert(dbs@.take(0) =~= Seq::<(String, i64)>::empty());
    while i < dbs.len()
        invariant
            i <= dbs@.len(),
            sizes_fit(dbs@),
            n == sizes_sum(dbs@.take(i as int)),
        decreases dbs@.len() - i,
    {
        assert(dbs@.take(i + 1).drop_last() =~= dbs@.take(i as int));
        assert(i64::MIN <= sizes_sum(dbs@.take(i + 1)) <= i64::MAX);
        n = n + dbs[i].1;
        i = i + 1;
    }
    assert(dbs@.take(i as int) =~= dbs@);
    n
}

/// One line of the table of databases.
pub open spec fn db_line(db: (String, i64)) -> Seq<CellView> {
    seq![
        CellView::Text(db.0@),
        CellView::Text(bytes_text(db.1 as int)),
        if db.1 > 0 { CellView::Tag("Present"@, ""@) } else { CellView::Tag("Empty"@, "i"@) },
    ]
}

/// The lines of the table of databases.
pub open spec fn db_lines(dbs: Seq<(String, i64)>) -> Seq<Seq<CellView>> {
    Seq::new(dbs.len(), |i: int| db_line(dbs[i]))
}

fn lines_of_dbs(dbs: &Vec<(String, i64)>) -> (r: Vec<Vec<Cell>>)
    ensures
        lines_view(r@) == db_lines(dbs@),
{
    let mut out: Vec<Vec<Cell>> = Vec::new();
    let mut i: usize = 0;
    while i < dbs.len()
        invariant
            i <= dbs@.len(),
            out@.len() == i,
            forall|j: int| 0 <= j < i ==> cells_view((#[trigger] out@[j])@) == db_line(dbs@[j]),
        decreases dbs@.len() - i,
    {
        let size: i64 = dbs[i].1;
        let pill = if size > 0 { tag("Present", "") } else { tag("Empty", "i") };
        let line = vec![cell(dbs[i].0.as_str()), Cell::Text(bytes(size)), pill];
        assert(cells_view(line@) =~= db_line(dbs@[i as int]));
        out.push(line);
        i = i + 1;
    }
    assert(lines_view(out@) =~= db_lines(dbs@));
    out
}

/// A memory reading as it reads, a dash where there is none.
pub open spec fn rss_text(rss: int) -> Seq<char> {
    if rss > 0 { bytes_text(rss) } else { "—"@ }
}

/// See [`rss_text`].
pub fn rss_line(rss: i64) -> (r: String)
    ensures
        r@ == rss_text(rss as int),
{
    if rss > 0 { bytes(rss) } else { "—".to_owned() }
}

/// The resident pages that a memory status line says in its second word, none
/// where it says nothing.
pub open spec fn resident_pages(statm: Seq<char>) -> int {
    let w = words(statm);
    if w.len() < 2 {
        0
    } else {
        match parse_int(w[1]) {
            Some(n) => n,
            None => 0,
        }
    }
}

/// Resident set size, from the process's memory status line in pages of 4096
/// bytes.
pub fn rss_bytes(statm: &str) -> (r: i64)
    requires
        i64::MIN <= resident_pages(statm@) * 4096 <= i64::MAX,
    ensures
        r == resident_pages(statm@) * 4096,
{
    let w = split_words(statm);
    assert(views(w@).len() == w@.len());
    if w.len() < 2 {
        return 0;
    }
    assert(views(w@)[1] == w@[1]@);
    match parse_i64(w[1].as_str()) {
        Some(n) => n * 4096,
        None => 0,
    }
}

/// What the process and the build say.
#[derive(Debug)]
pub struct SystemFacts {
    pub dbs: Vec<(String, i64)>,
    pub rss: i64,
    pub os: String,
    pub arch: String,
}

/// The system card.
pub open spec fn system_view(live: Live, f: SystemFacts, lib_bytes: int) -> CardView {
    let total = sizes_sum(f.dbs@);
    plain(
        "system"@,
        "System"@,
        "slate"@,
        OK@,
        "Healthy"@,
        seq![
            ("Version"@, live.app_version@, ""@),
            ("Session"@, dur_text(live.uptime_s as int), ""@),
            ("Memory (RSS)"@, rss_text(f.rss as int), if f.rss > 0 { ""@ } else { "mut"@ }),
            ("Database size"@, bytes_text(total), ""@),
            ("Renderer"@, live.renderer@, "mut"@),
        ],
        seq![
            (live.app_version@, "Version"@),
            (rss_text(f.rss as int), "Memory (RSS)"@),
            (dur_text(live.uptime_s as int), "Session"@),
        ],
        seq![
            BlockView::Rows("Build"@, seq![
                ("Version"@, live.app_version@, ""@),
                ("Renderer"@, live.renderer@, ""@),
                ("Platform"@, f.os@ + " · "@ + f.arch@, "mut"@),
            ]),
            BlockView::Table("Databases"@, seq!["File"@, "Size"@, "State"@], db_lines(f.dbs@)),
            BlockView::Rows("Storage"@, seq![
                ("Library total"@, bytes_text(lib_bytes), ""@),
                ("Databases"@, bytes_text(total), ""@),
            ]),
        ],
    )
}

/// The system section's report.
pub fn system_card(live: &Live, f: &SystemFacts, lib_bytes: i64) -> (r: Sec)
    requires
        sizes_fit(f.dbs@),
    ensures
        r.card@ == system_view(*live, *f, lib_bytes as int),
        r.running == 0,
        r.failed == 0,
        r.today == 0,
        r.events@.len() == 0,
{
    let total: i64 = sum_sizes(&f.dbs);
    let mut platform = f.os.clone();
    platform.append(" · ");
    platform.append(f.arch.as_str());
    let cols = vec!["File".to_owned(), "Size".to_owned(), "State".to_owned()];
    assert(views(cols@) =~= seq!["File"@, "Size"@, "State"@]);
    let c = card(
        "system",
        "System",
        "slate",
        OK,
        "Healthy",
        vec![
            row("Version", live.app_version.clone(), ""),
            row("Session", dur(live.uptime_s), ""),
            row("Memory (RSS)", rss_line(f.rss), if f.rss > 0 { "" } else { "mut" }),
            row("Database size", bytes(total), ""),
            row("Renderer", live.renderer.clone(), "mut"),
        ],
        vec![
            kpi(live.app_version.clone(), "Version"),
            kpi(rss_line(f.rss), "Memory (RSS)"),
            kpi(dur(live.uptime_s), "Session"),
        ],
        vec![
            grp("Build", vec![
                row("Version", live.app_version.clone(), ""),
                row("Renderer", live.renderer.clone(), ""),
                row("Platform", platform, "mut"),
            ]),
            table("Databases", cols, lines_of_dbs(&f.dbs)),
            grp("Storage", vec![
                row("Library total", bytes(lib_bytes), ""),
                row("Databases", bytes(total), ""),
            ]),
        ],
    );
    let s = Sec::new(c);
    assert(s.card@ =~~= system_view(*live, *f, lib_bytes as int));
    s
}

/// A name without every `.db` at its end.
pub open spec fn bare(name: Seq<char>) -> Seq<char>
    decreases name.len(),
{
    if ends(name, ".db"@) && name.len() > 0 {
        proof {
            reveal_strlit(".db");
        }
        bare(name.take(name.len() - ".db"@.len()))
    } else {
        name
    }
}

/// The section whose database a file of the backup is; none where the file is no
/// database.
pub fn db_section(name: &str) -> (r: Option<String>)
    ensures
        opt_string(r) == (if ends(name@, ".db"@) { Some(bare(name@)) } else { None }),
{
    if !ends_with(name, ".db") {
        return None;
    }
    let mut s: String = strip_tail(name, ".db");
    proof {
        reveal_strlit(".db");
    }
    while ends_with(s.as_str(), ".db")
        invariant
            bare(s@) == bare(name@),
            ".db"@.len() == 3,
        decreases s@.len(),
    {
        s = strip_tail(s.as_str(), ".db");
    }
    Some(s)
}

/// The sections of which there is anything, as the names of their databases.
pub open spec fn filled(sections: Seq<(String, i64)>) -> Seq<(Seq<char>, int)>
    decreases sections.len(),
{
    if sections.len() == 0 {
        Seq::empty()
    } else {
        let rest = filled(sections.drop_last());
        let last = sections.last();
        if last.1 > 0 { rest.push((last.0@ + ".db"@, last.1 as int)) } else { rest }
    }
}

/// The names and the sizes of some databases.
pub open spec fn sizes_view(v: Seq<(String, i64)>) -> Seq<(Seq<char>, int)> {
    Seq::new(v.len(), |i: int| (v[i].0@, v[i].1 as int))
}

/// The databases with their sizes: those of the backup, then those beside it that
/// hold anything, by their sections.
pub fn db_sizes(listed: Vec<(String, i64)>, beside: &Vec<(String, i64)>) -> (r: Vec<(String, i64)>)
    ensures
        sizes_view(r@) == sizes_view(listed@) + filled(beside@),
{
    let mut out = listed;
    let mut i: usize = 0;
    proof {
        assert(beside@.take(0) =~= Seq::<(String, i64)>::empty());
        assert(sizes_view(listed@) + filled(beside@.take(0)) =~= sizes_view(listed@));
    }
    while i < beside.len()
        invariant
            i <= beside@.len(),
            sizes_view(out@) == sizes_view(listed@) + filled(beside@.take(i as int)),
        decreases beside@.len() - i,
    {
        let ghost before = out@;
        assert(beside@.take(i + 1).drop_last() =~= beside@.take(i as int));
        if beside[i].1 > 0 {
            out.push((followed(beside[i].0.clone(), ".db"), beside[i].1));
            assert(sizes_view(out@) =~= sizes_view(before).push((beside@[i as int].0@ + ".db"@, beside@[i as int].1 as int)));
            assert(sizes_view(out@) =~= sizes_view(listed@) + filled(beside@.take(i + 1)));
        }
        i = i + 1;
    }
    assert(beside@.take(i as int) =~= beside@);
    out
}

/// The size of some databases together is the sum of their sizes.
pub proof fn law_the_sizes_of_databases_add_up(a: Seq<(String, i64)>, b: Seq<(String, i64)>, x: (String, i64))
    ensures
        sizes_sum(a + b) == sizes_sum(a) + sizes_sum(b),
        sizes_sum(seq![x]) == x.1,
    decreases b.len(),
{
    reveal_with_fuel(sizes_sum, 2);
    assert(seq![x].drop_last() =~= Seq::<(String, i64)>::empty());
    if b.len() == 0 {
        assert(a + b =~= a);
    } else {
        assert((a + b).drop_last() =~= a + b.drop_last());
        law_the_sizes_of_databases_add_up(a, b.drop_last(), x);
    }
}

/// The databases that are shown are those of the sections that hold something, in order.
pub proof fn law_the_databases_that_hold_something(sections: Seq<(String, i64)>)
    ensures
        filled(sections) == sections.filter(|x: (String, i64)| x.1 > 0).map_values(|x: (String, i64)| (x.0@ + ".db"@, x.1 as int)),
    decreases sections.len(),
{
    reveal(Seq::filter);
    let p = |x: (String, i64)| x.1 > 0;
    let wanted = sections.filter(|x: (String, i64)| x.1 > 0).map_values(|x: (String, i64)| (x.0@ + ".db"@, x.1 as int));
    if sections.len() > 0 {
        let front = sections.drop_last();
        law_the_databases_that_hold_something(front);
        let kept = front.filter(p);
        assert(sections.filter(p) == (if p(sections.last()) { kept.push(sections.last()) } else { kept }));
        assert(front.filter(|x: (String, i64)| x.1 > 0).map_values(|x: (String, i64)| (x.0@ + ".db"@, x.1 as int)) == filled(front));
    }
    assert(filled(sections) =~= wanted);
}


/// A name loses every ".db" at its end and nothing else.
pub proof fn law_a_database_is_called_by_its_section(name: Seq<char>)
    ensures
        bare(name + ".db"@) == bare(name),
        !ends(bare(name), ".db"@),
        !ends(name, ".db"@) ==> bare(name) == name,
        bare(name).len() <= name.len() && bare(name) == name.take(bare(name).len() as int),
    decreases name.len(),
{
    reveal_strlit(".db");
    let t = name + ".db"@;
    assert(".db"@.len() == 3);
    assert(t.skip(name.len() as int) =~= ".db"@);
    assert(t.take(name.len() as int) =~= name);
    assert(name.take(name.len() as int) =~= name);
    if ends(name, ".db"@) {
        let front = name.take(name.len() - 3);
        law_a_database_is_called_by_its_section(front);
        assert(front.take(bare(front).len() as int) =~= name.take(bare(front).len() as int));
    }
}

/// The transfer card is busy exactly while something moves, and says how much; it listens
/// only while the server runs, and says where.
pub proof fn law_the_transfer_card_is_busy_while_something_moves(live: Live, sent: int, recv: int, m: MovedToday)
    ensures
        (transfer_view(live, sent, recv, m).level == "busy"@) == (live.transfer_inflight > 0),
        (transfer_view(live, sent, recv, m).level == "ok"@) == (live.transfer_inflight <= 0),
        !live.transfer_running ==> transfer_view(live, sent, recv, m).status == "Not sharing"@,
        live.transfer_running && live.transfer_inflight > 0 ==> transfer_view(live, sent, recv, m).status == dec_int(
            live.transfer_inflight as int,
        ) + " in flight"@,
        live.transfer_running && live.transfer_inflight <= 0 ==> transfer_view(live, sent, recv, m).status == "Listening"@,
        live.transfer_running && live.transfer_ip@.len() > 0 ==> server_text(live).0 == live.transfer_ip@ + ":"@ + dec_int(
            live.transfer_port as int,
        ),
{
    reveal_strlit("problem");
    reveal_strlit("busy");
    reveal_strlit("ok");
    assert("problem"@.len() == 7 && "busy"@.len() == 4 && "ok"@.len() == 2);
}

/// Transcription is ready exactly where a model is installed and the program is there.
pub proof fn law_transcription_needs_a_model_and_the_program(live: Live, cli: bool)
    ensures
        ai_view(live, cli).status == (if live.ai_models == 0 {
            "No models installed"@
        } else if live.ai_models > 0 && cli {
            "Ready"@
        } else {
            "whisper-cli missing"@
        }),
{
}

/// The pages that a program holds in memory are the second word of its status line.
pub proof fn law_the_second_word_counts_the_pages(statm: Seq<char>, n: i64)
    requires
        words(statm).len() >= 2,
        words(statm)[1] == dec_int(n as int),
    ensures
        resident_pages(statm) == n,
{
    crate::text::law_integers_read_back(n);
}

/// The system card says its version, how long it runs, what it holds in memory and what its
/// databases take; each database has its line.
pub proof fn law_the_system_card_says_what_it_takes(live: Live, f: SystemFacts, lib_bytes: int)
    ensures
        ({
            let c = system_view(live, f, lib_bytes);
            &&& c.rows[0].1 == live.app_version@ && c.rows[1].1 == dur_text(live.uptime_s as int) && c.rows[3].1 == bytes_text(sizes_sum(f.dbs@)) && c.rows[4].1 == live.renderer@
            &&& f.rss > 0 ==> c.rows[2].1 == bytes_text(f.rss as int) && c.rows[2].2 == ""@
            &&& f.rss <= 0 ==> c.rows[2].1 == "—"@ && c.rows[2].2 == "mut"@
            &&& c.groups[1] matches BlockView::Table(_, _, lines) && lines.len() == f.dbs@.len() && forall|i: int|
                0 <= i < f.dbs@.len() ==> (#[trigger] lines[i])[0] == CellView::Text(f.dbs@[i].0@) && lines[i][1] == CellView::Text(bytes_text(f.dbs@[i].1 as int)) && lines[i][2]
                    == (if f.dbs@[i].1 > 0 { CellView::Tag("Present"@, ""@) } else { CellView::Tag("Empty"@, "i"@) })
            &&& c.groups[2] matches BlockView::Rows(_, rows) && rows[0].1 == bytes_text(lib_bytes) && rows[1].1 == bytes_text(sizes_sum(f.dbs@))
        }),
{
}

/// A rate is said while something moves; the transfer card says what it sends and the models
/// card whether its program was found.
pub proof fn law_rates_are_said_while_something_moves(b: int, live: Live, sent: int, recv: int, m: MovedToday, cli: bool)
    ensures
        b > 0 ==> rate_text(b) == bytes_text(b) + "/s"@,
        b <= 0 ==> rate_text(b) == "—"@,
        b > 0 ==> moving_cls(b) == "o"@,
        b <= 0 ==> moving_cls(b) == "mut"@,
        cli_row(true) == ("whisper-cli"@, "Found"@, "g"@),
        cli_row(false) == ("whisper-cli"@, "Not found"@, "o"@),
        !live.transfer_running ==> server_text(live) == ("Stopped"@, "mut"@),
        live.transfer_running && live.transfer_ip@.len() == 0 ==> server_text(live) == (":"@ + dec_int(live.transfer_port as int), "g"@),
        sent <= 0 && recv <= 0 ==> transfer_view(live, sent, recv, m).kpis[1].0 == "Idle"@,
        sent > 0 || recv > 0 ==> transfer_view(live, sent, recv, m).kpis[1].0 == rate_text(sent),
        transfer_view(live, sent, recv, m).kpis[0].0 == bytes_text(m.out_bytes as int),
        transfer_view(live, sent, recv, m).kpis[2].0 == num_text(live.transfer_devices as int),
{
}

} // verus!
