//! The tool runner's card: what runs, what failed, and which programs are there.

use vstd::prelude::*;
use crate::double::Number;
use crate::status::card::{card, cell, cells_view, events_view, explained, grp, kpi, lines_view, plain, row, row_str, table, tag, BlockView, CardView, Cell, CellView, Event, EventView, Row, RowView, Sec};
use crate::status::figures::{clock, clock_text, num, num_text, opt_string, or_dash, text_or_dash, BUSY, OK, PROBLEM};
use crate::text::{count_of, dec_int, same, views};

verus! {

/// A job that runs now.
#[derive(Debug)]
pub struct LiveJob {
    pub kind: String,
    pub progress: Number,
    pub created: i64,
    pub message: Option<String>,
}

/// A job that ended in the last day.
#[derive(Debug)]
pub struct EndedJob {
    pub kind: String,
    pub state: String,
    pub updated: i64,
    pub message: Option<String>,
}

/// What the job queue and the search for programs answer. The counts of done and
/// failed jobs are of the last day; `latest_error` is the failed job updated last,
/// by kind and message.
#[derive(Debug)]
pub struct JobFacts {
    pub running: i64,
    pub queued: i64,
    pub done: i64,
    pub failed: i64,
    pub live: Vec<LiveJob>,
    pub recent: Vec<EndedJob>,
    pub latest_error: Option<(String, Option<String>)>,
    pub ffmpeg: bool,
    pub rclone: bool,
    pub mpv: bool,
    pub ytdlp: Option<String>,
}

/// A running job whose figures can be printed for a reader `offset` seconds east
/// of UTC.
pub open spec fn printable(j: LiveJob, offset: int) -> bool {
    &&& j.progress.wf()
    &&& i64::MIN <= j.created + offset <= i64::MAX
}

/// One line of the table of running jobs.
pub open spec fn live_line(j: LiveJob, offset: int) -> Seq<CellView> {
    seq![
        CellView::Text(j.kind@),
        CellView::Text(or_dash(opt_string(j.message))),
        CellView::Text(clock_text(j.created as int, offset)),
        CellView::Tag(dec_int(j.progress.percent()) + "%"@, ""@),
    ]
}

/// The lines of the table of running jobs.
pub open spec fn live_lines(live: Seq<LiveJob>, offset: int) -> Seq<Seq<CellView>> {
    Seq::new(live.len(), |i: int| live_line(live[i], offset))
}

fn line_of_job(j: &LiveJob, offset: i64) -> (r: Vec<Cell>)
    requires
        printable(*j, offset as int),
    ensures
        cells_view(r@) == live_line(*j, offset as int),
{
    let pct: i64 = j.progress.to_percent();
    let r = vec![
        cell(j.kind.as_str()),
        Cell::Text(text_or_dash(&j.message)),
        Cell::Text(clock(j.created, offset)),
        tag(count_of(pct, "%").as_str(), ""),
    ];
    assert(cells_view(r@) =~= live_line(*j, offset as int));
    r
}

fn lines_of_jobs(live: &Vec<LiveJob>, offset: i64) -> (r: Vec<Vec<Cell>>)
    requires
        forall|i: int| 0 <= i < live@.len() ==> printable(#[trigger] live@[i], offset as int),
    ensures
        lines_view(r@) == live_lines(live@, offset as int),
{
    let mut out: Vec<Vec<Cell>> = Vec::new();
    let mut i: usize = 0;
    while i < live.len()
        invariant
            i <= live@.len(),
            out@.len() == i,
            forall|j: int| 0 <= j < live@.len() ==> printable(#[trigger] live@[j], offset as int),
            forall|j: int| 0 <= j < i ==> cells_view((#[trigger] out@[j])@) == live_line(live@[j], offset as int),
        decreases live@.len() - i,
    {
        out.push(line_of_job(&live[i], offset));
        i = i + 1;
    }
    assert(lines_view(out@) =~= live_lines(live@, offset as int));
    out
}

/// An ended job on the timeline.
pub open spec fn ended_event(j: EndedJob) -> EventView {
    (
        j.updated as int,
        "cyan"@,
        (if j.state@ == "error"@ {
            "Tools job failed — "@
        } else {
            "Tools job finished — "@
        }) + j.kind@,
        match j.message {
            Some(m) => m@,
            None => "no message"@,
        },
    )
}

/// The ended jobs on the timeline.
pub open spec fn ended_events(recent: Seq<EndedJob>) -> Seq<EventView> {
    Seq::new(recent.len(), |i: int| ended_event(recent[i]))
}

fn event_of_job(j: &EndedJob) -> (e: Event)
    ensures
        e@ == ended_event(*j),
{
    let mut title = if same(j.state.as_str(), "error") {
        "Tools job failed — ".to_owned()
    } else {
        "Tools job finished — ".to_owned()
    };
    title.append(j.kind.as_str());
    let desc = match &j.message {
        Some(m) => m.clone(),
        None => "no message".to_owned(),
    };
    Event { at: j.updated, accent: "cyan".to_owned(), title, desc }
}

fn events_of_jobs(recent: &Vec<EndedJob>) -> (r: Vec<Event>)
    ensures
        events_view(r@) == ended_events(recent@),
{
    let mut out: Vec<Event> = Vec::new();
    let mut i: usize = 0;
    while i < recent.len()
        invariant
            i <= recent@.len(),
            out@.len() == i,
            forall|j: int| 0 <= j < i ==> (#[trigger] out@[j])@ == ended_event(recent@[j]),
        decreases recent@.len() - i,
    {
        out.push(event_of_job(&recent[i]));
        i = i + 1;
    }
    assert(events_view(out@) =~= ended_events(recent@));
    out
}

/// The level of the tool runner.
pub open spec fn jobs_level(f: JobFacts) -> Seq<char> {
    if f.failed > 0 {
        PROBLEM@
    } else if f.running > 0 {
        BUSY@
    } else {
        OK@
    }
}

/// The status line of the tool runner.
pub open spec fn jobs_status(f: JobFacts) -> Seq<char> {
    if f.failed > 0 {
        dec_int(f.failed as int) + " failed"@
    } else if f.running > 0 {
        dec_int(f.running as int) + " running"@
    } else {
        "Idle"@
    }
}

/// What the failed jobs' trouble reads: the latest one's own message where it
/// left one.
pub open spec fn jobs_why(f: JobFacts) -> Seq<char> {
    if f.failed == 0 {
        Seq::empty()
    } else {
        match f.latest_error {
            Some((kind, message)) => {
                let detail = match message {
                    Some(m) => if m@.len() == 0 { "no message"@ } else { m@ },
                    None => "no message"@,
                };
                if f.failed > 1 {
                    dec_int(f.failed as int) + " jobs failed in 24h, latest "@ + kind@ + ": "@ + detail
                } else {
                    kind@ + " job failed: "@ + detail
                }
            },
            None => dec_int(f.failed as int) + " jobs failed in the last 24 hours"@,
        }
    }
}

fn why_of_jobs(f: &JobFacts) -> (r: String)
    ensures
        r@ == jobs_why(*f),
{
    if f.failed == 0 {
        return String::new();
    }
    match &f.latest_error {
        Some((kind, message)) => {
            let detail: &str = match message {
                Some(m) => if m.as_str().is_empty() { "no message" } else { m.as_str() },
                None => "no message",
            };
            if f.failed > 1 {
                let mut s = count_of(f.failed, " jobs failed in 24h, latest ");
                s.append(kind.as_str());
                s.append(": ");
                s.append(detail);
                s
            } else {
                let mut s = kind.clone();
                s.append(" job failed: ");
                s.append(detail);
                s
            }
        },
        None => count_of(f.failed, " jobs failed in the last 24 hours"),
    }
}

/// A row that says whether a program was found.
pub open spec fn program_row(name: Seq<char>, there: bool, yes: Seq<char>) -> RowView {
    (name, if there { yes } else { "Not found"@ }, if there { "g"@ } else { "rd"@ })
}

fn row_of_program(name: &str, there: bool, yes: &str) -> (r: Row)
    ensures
        r@ == program_row(name@, there, yes@),
{
    row_str(name, if there { yes } else { "Not found" }, if there { "g" } else { "rd" })
}

/// The tool runner's card.
pub open spec fn tools_view(f: JobFacts, offset: int) -> CardView {
    let running = ("Running"@, num_text(f.running as int), if f.running > 0 { "o"@ } else { "mut"@ });
    let done = ("Done 24h"@, num_text(f.done as int), "g"@);
    let failed = ("Failed 24h"@, num_text(f.failed as int), if f.failed > 0 { "rd"@ } else { "g"@ });
    explained(
        plain(
            "tools"@,
            "Tools"@,
            "cyan"@,
            jobs_level(f),
            jobs_status(f),
            seq![
                running,
                ("Queued"@, num_text(f.queued as int), ""@),
                done,
                failed,
                program_row("ffmpeg"@, f.ffmpeg, "Found"@),
            ],
            seq![
                (num_text(f.running as int), "Running"@),
                (num_text(f.queued as int), "Queued"@),
                (num_text(f.done as int), "Done 24h"@),
            ],
            seq![
                BlockView::Table(
                    "Running now"@,
                    seq!["Job"@, "Message"@, "Started"@, "Progress"@],
                    live_lines(f.live@, offset),
                ),
                BlockView::Rows("Queue"@, seq![
                    ("Waiting"@, num_text(f.queued as int), ""@),
                    done,
                    failed,
                ]),
                BlockView::Rows("Binaries"@, seq![
                    program_row("ffmpeg"@, f.ffmpeg, "On PATH"@),
                    match f.ytdlp {
                        Some(v) => ("yt-dlp"@, v@, "g"@),
                        None => ("yt-dlp"@, "Not found"@, "rd"@),
                    },
                    program_row("rclone"@, f.rclone, "On PATH"@),
                    program_row("mpv"@, f.mpv, "On PATH"@),
                ]),
            ],
        ),
        jobs_why(f),
    )
}

/// The tool runner's report.
pub fn tools_card(f: &JobFacts, offset: i64) -> (r: Sec)
    requires
        forall|i: int| 0 <= i < f.live@.len() ==> printable(#[trigger] f.live@[i], offset as int),
    ensures
        r.card@ == tools_view(*f, offset as int),
        r.running == f.running,
        r.failed == f.failed,
        r.today == f.done,
        events_view(r.events@) == ended_events(f.recent@),
{
    let level = if f.failed > 0 {
        PROBLEM
    } else if f.running > 0 {
        BUSY
    } else {
        OK
    };
    let status = if f.failed > 0 {
        count_of(f.failed, " failed")
    } else if f.running > 0 {
        count_of(f.running, " running")
    } else {
        "Idle".to_owned()
    };
    let running_cls = if f.running > 0 { "o" } else { "mut" };
    let failed_cls = if f.failed > 0 { "rd" } else { "g" };
    let cols = vec!["Job".to_owned(), "Message".to_owned(), "Started".to_owned(), "Progress".to_owned()];
    assert(views(cols@) =~= seq!["Job"@, "Message"@, "Started"@, "Progress"@]);
    let ytdlp = match &f.ytdlp {
        Some(v) => row("yt-dlp", v.clone(), "g"),
        None => row_str("yt-dlp", "Not found", "rd"),
    };
    let c = card(
        "tools",
        "Tools",
        "cyan",
        level,
        status.as_str(),
        vec![
            row("Running", num(f.running), running_cls),
            row("Queued", num(f.queued), ""),
            row("Done 24h", num(f.done), "g"),
            row("Failed 24h", num(f.failed), failed_cls),
            row_of_program("ffmpeg", f.ffmpeg, "Found"),
        ],
        vec![kpi(num(f.running), "Running"), kpi(num(f.queued), "Queued"), kpi(num(f.done), "Done 24h")],
        vec![
            table("Running now", cols, lines_of_jobs(&f.live, offset)),
            grp("Queue", vec![
                row("Waiting", num(f.queued), ""),
                row("Done 24h", num(f.done), "g"),
                row("Failed 24h", num(f.failed), failed_cls),
            ]),
            grp("Binaries", vec![
                row_of_program("ffmpeg", f.ffmpeg, "On PATH"),
                ytdlp,
                row_of_program("rclone", f.rclone, "On PATH"),
                row_of_program("mpv", f.mpv, "On PATH"),
            ]),
        ],
    );
    let mut s = Sec::new(c).why(why_of_jobs(f));
    s.running = f.running;
    s.failed = f.failed;
    s.today = f.done;
    s.events = events_of_jobs(&f.recent);
    assert(s.card@ =~~= tools_view(*f, offset as int));
    s
}

/// The tool runner is in trouble exactly where a job failed, and says how many; it is busy
/// where none did and one runs.
pub proof fn law_the_tools_are_in_trouble_where_a_job_failed(f: JobFacts, offset: int)
    ensures
        (tools_view(f, offset).level == "problem"@) == (f.failed > 0),
        (tools_view(f, offset).level == "busy"@) == (f.failed <= 0 && f.running > 0),
        (tools_view(f, offset).level == "ok"@) == (f.failed <= 0 && f.running <= 0),
        f.failed > 0 ==> tools_view(f, offset).status == dec_int(f.failed as int) + " failed"@,
        f.failed <= 0 && f.running > 0 ==> tools_view(f, offset).status == dec_int(f.running as int) + " running"@,
        f.failed == 0 ==> tools_view(f, offset).why is None,
{
    reveal_strlit("problem");
    reveal_strlit("busy");
    reveal_strlit("ok");
    assert("problem"@.len() == 7 && "busy"@.len() == 4 && "ok"@.len() == 2);
}

/// A job that failed is said to have failed on the timeline, any other to have finished.
pub proof fn law_an_ended_job_is_said_as_it_went(j: EndedJob)
    ensures
        ended_event(j).0 == j.updated,
        j.state@ == "error"@ ==> ended_event(j).2 == "Tools job failed — "@ + j.kind@,
        j.state@ != "error"@ ==> ended_event(j).2 == "Tools job finished — "@ + j.kind@,
{
}

/// Every job that runs has its line: what it is, what it says, since when, and how far it is.
pub proof fn law_every_running_job_has_its_line(f: JobFacts, offset: int, i: int)
    requires
        0 <= i < f.live@.len(),
    ensures
        tools_view(f, offset).groups[0] matches BlockView::Table(_, _, lines) && lines.len() == f.live@.len() && ({
            let (line, j) = (lines[i], f.live@[i]);
            &&& line.len() == 4
            &&& line[0] == CellView::Text(j.kind@)
            &&& j.message matches Some(m) ==> line[1] == CellView::Text(m@)
            &&& line[2] == CellView::Text(clock_text(j.created as int, offset))
            &&& line[3] == CellView::Tag(dec_int(j.progress.percent()) + "%"@, ""@)
        }),
{
}

/// The latest job that failed is named with its message; where several failed, how many did.
pub proof fn law_the_latest_failure_is_named(f: JobFacts, kind: String, m: String)
    requires
        f.failed > 0,
    ensures
        f.latest_error == Some((kind, Some(m))) && m@.len() > 0 && f.failed == 1 ==> jobs_why(f) == kind@ + " job failed: "@ + m@,
        f.latest_error == Some((kind, Some(m))) && m@.len() > 0 && f.failed > 1 ==> jobs_why(f) == dec_int(f.failed as int) + " jobs failed in 24h, latest "@ + kind@
            + ": "@ + m@,
        f.latest_error == Some((kind, None::<String>)) && f.failed == 1 ==> jobs_why(f) == kind@ + " job failed: "@ + "no message"@,
        f.latest_error is None ==> jobs_why(f) == dec_int(f.failed as int) + " jobs failed in the last 24 hours"@,
{
}

/// The card of the tools has its counts, and says of each program whether it was found.
pub proof fn law_the_tools_card_has_its_counts(f: JobFacts, offset: int)
    ensures
        ({
            let c = tools_view(f, offset);
            &&& c.rows[0] == ("Running"@, num_text(f.running as int), if f.running > 0 { "o"@ } else { "mut"@ })
            &&& c.rows[1] == ("Queued"@, num_text(f.queued as int), ""@)
            &&& c.rows[2] == ("Done 24h"@, num_text(f.done as int), "g"@)
            &&& c.rows[3] == ("Failed 24h"@, num_text(f.failed as int), if f.failed > 0 { "rd"@ } else { "g"@ })
            &&& c.rows[4] == ("ffmpeg"@, if f.ffmpeg { "Found"@ } else { "Not found"@ }, if f.ffmpeg { "g"@ } else { "rd"@ })
            &&& c.kpis[0] == (num_text(f.running as int), "Running"@) && c.kpis[1] == (num_text(f.queued as int), "Queued"@) && c.kpis[2] == (num_text(f.done as int), "Done 24h"@)
            &&& c.groups[2] matches BlockView::Rows(_, rows) && rows[0].1 == (if f.ffmpeg { "On PATH"@ } else { "Not found"@ }) && rows[2].1 == (if f.rclone { "On PATH"@ } else {
                "Not found"@
            }) && rows[3].1 == (if f.mpv { "On PATH"@ } else { "Not found"@ }) && (f.ytdlp matches Some(v) ==> rows[1].1 == v@) && (f.ytdlp is None ==> rows[1].1
                == "Not found"@)
        }),
{
}

} // verus!
