//! The cloud section's card: remotes, their mounts and the transfer queue.

use vstd::prelude::*;
use crate::status::card::{card, cell, cells_view, explained, grp, kpi, lines_view, plain, row, row_str, rows_view, table, tag, BlockView, CardView, Cell, CellView, Row, RowView, Sec};
use crate::status::figures::{bytes, bytes_text, file_name, file_name_text, mount_state, mount_text, num, num_text, opt_string, or_dash, text_or_dash, OK, PROBLEM};
use crate::text::{count_of, dec_int, divide, followed, join, join_strings, push_dec_int, same, trunc_div, views};

verus! {

/// A configured remote, with the mount it may have.
#[derive(Debug)]
pub struct Remote {
    pub name: String,
    pub backend: String,
    pub mount_path: Option<String>,
    pub status: Option<String>,
}

/// The files of one state in the transfer queue: how many, and their bytes in all
/// and done.
#[derive(Debug)]
pub struct QueueSum {
    pub state: String,
    pub count: i64,
    pub total: i64,
    pub done: i64,
}

/// One file of the transfer queue.
#[derive(Debug)]
pub struct QueueFile {
    pub src: String,
    pub dest: String,
    pub total: i64,
    pub done: i64,
    pub state: String,
}

/// Whether a remote's mount is in state `st`.
pub open spec fn in_state(r: Remote, st: Seq<char>) -> bool {
    opt_string(r.status) == Some(st)
}

fn has_state(r: &Remote, st: &str) -> (b: bool)
    ensures
        b == in_state(*r, st@),
{
    match &r.status {
        Some(s) => same(s.as_str(), st),
        None => false,
    }
}

/// How many remotes are in state `st`.
pub open spec fn state_count(all: Seq<Remote>, st: Seq<char>) -> nat
    decreases all.len(),
{
    if all.len() == 0 {
        0
    } else {
        state_count(all.drop_last(), st) + (if in_state(all.last(), st) { 1nat } else { 0nat })
    }
}

fn count_state(all: &Vec<Remote>, st: &str) -> (n: usize)
    ensures
        n == state_count(all@, st@),
        n <= all@.len(),
{
    let mut n: usize = 0;
    let mut i: usize = 0;
    assert(all@.take(0) =~= Seq::<Remote>::empty());
    while i < all.len()
        invariant
            i <= all@.len(),
            n <= i,
            n == state_count(all@.take(i as int), st@),
        decreases all@.len() - i,
    {
        assert(all@.take(i + 1).drop_last() =~= all@.take(i as int));
        if has_state(&all[i], st) {
            n = n + 1;
        }
        i = i + 1;
    }
    assert(all@.take(i as int) =~= all@);
    n
}

/// What needs looking at first: errors, then what is not mounted, then the rest.
pub open spec fn remote_rank(r: Remote) -> nat {
    if in_state(r, "error"@) {
        0
    } else if r.status is None || in_state(r, "unmounted"@) {
        1
    } else {
        2
    }
}

/// A remote as a row: its name and the state of its mount.
pub open spec fn remote_row(r: Remote) -> RowView {
    let (label, cls) = mount_text(opt_string(r.status));
    (r.name@, label, cls)
}

/// The rows of the remotes of rank `k`, in order.
pub open spec fn ranked_rows(all: Seq<Remote>, k: nat) -> Seq<RowView>
    decreases all.len(),
{
    if all.len() == 0 {
        Seq::empty()
    } else if remote_rank(all.last()) == k {
        ranked_rows(all.drop_last(), k).push(remote_row(all.last()))
    } else {
        ranked_rows(all.drop_last(), k)
    }
}

/// The rows of all remotes, those that need looking at first.
pub open spec fn sorted_rows(all: Seq<Remote>) -> Seq<RowView> {
    ranked_rows(all, 0) + ranked_rows(all, 1) + ranked_rows(all, 2)
}

fn rank_remote(r: &Remote) -> (k: u8)
    ensures
        k == remote_rank(*r),
{
    if has_state(r, "error") {
        0
    } else if r.status.is_none() || has_state(r, "unmounted") {
        1
    } else {
        2
    }
}

fn row_of_remote(r: &Remote) -> (w: Row)
    ensures
        w@ == remote_row(*r),
{
    let (label, cls) = match &r.status {
        Some(s) => mount_state(Some(s.as_str())),
        None => mount_state(None),
    };
    row_str(r.name.as_str(), label, cls)
}

fn push_ranked(out: &mut Vec<Row>, all: &Vec<Remote>, k: u8)
    ensures
        rows_view(final(out)@) == rows_view(old(out)@) + ranked_rows(all@, k as nat),
{
    let ghost base = rows_view(out@);
    let mut i: usize = 0;
    assert(all@.take(0) =~= Seq::<Remote>::empty());
    assert(rows_view(out@) =~= base + ranked_rows(all@.take(0), k as nat));
    while i < all.len()
        invariant
            i <= all@.len(),
            rows_view(out@) == base + ranked_rows(all@.take(i as int), k as nat),
        decreases all@.len() - i,
    {
        let ghost before = out@;
        assert(all@.take(i + 1).drop_last() =~= all@.take(i as int));
        if rank_remote(&all[i]) == k {
            out.push(row_of_remote(&all[i]));
            assert(rows_view(out@) =~= rows_view(before).push(remote_row(all@[i as int])));
        }
        assert(rows_view(out@) =~= base + ranked_rows(all@.take(i + 1), k as nat));
        i = i + 1;
    }
    assert(all@.take(i as int) =~= all@);
}

/// The names of the remotes in error, in order.
pub open spec fn broken_names(all: Seq<Remote>) -> Seq<Seq<char>>
    decreases all.len(),
{
    if all.len() == 0 {
        Seq::empty()
    } else if in_state(all.last(), "error"@) {
        broken_names(all.drop_last()).push(all.last().name@)
    } else {
        broken_names(all.drop_last())
    }
}

fn names_broken(all: &Vec<Remote>) -> (r: Vec<String>)
    ensures
        views(r@) == broken_names(all@),
{
    let mut out: Vec<String> = Vec::new();
    let mut i: usize = 0;
    assert(all@.take(0) =~= Seq::<Remote>::empty());
    assert(views(out@) =~= Seq::<Seq<char>>::empty());
    while i < all.len()
        invariant
            i <= all@.len(),
            views(out@) == broken_names(all@.take(i as int)),
        decreases all@.len() - i,
    {
        let ghost before = out@;
        assert(all@.take(i + 1).drop_last() =~= all@.take(i as int));
        if has_state(&all[i], "error") {
            out.push(all[i].name.clone());
            assert(views(out@) =~= views(before).push(all@[i as int].name@));
        }
        i = i + 1;
    }
    assert(all@.take(i as int) =~= all@);
    out
}

/// The line that names what rclone cannot reach, empty where it reaches all.
pub open spec fn broken_text(all: Seq<Remote>) -> Seq<char> {
    if broken_names(all).len() == 0 {
        Seq::empty()
    } else {
        "rclone cannot reach "@ + join(broken_names(all), ", "@)
            + " — check the remote's credentials or network"@
    }
}

fn why_broken(all: &Vec<Remote>) -> (r: String)
    ensures
        r@ == broken_text(all@),
{
    let names = names_broken(all);
    let mut out = String::new();
    if names.len() > 0 {
        out.append("rclone cannot reach ");
        assert(out@ =~= "rclone cannot reach "@);
        out.append(join_strings(&names, ", ").as_str());
        out.append(" — check the remote's credentials or network");
    }
    out
}

/// The count of the first sum in state `st`, zero where there is none.
pub open spec fn queue_count(q: Seq<QueueSum>, st: Seq<char>) -> int
    decreases q.len(),
{
    if q.len() == 0 {
        0
    } else if q[0].state@ == st {
        q[0].count as int
    } else {
        queue_count(q.skip(1), st)
    }
}

fn count_queue(q: &Vec<QueueSum>, st: &str) -> (n: i64)
    ensures
        n == queue_count(q@, st@),
{
    let mut i: usize = 0;
    assert(q@.skip(0) =~= q@);
    while i < q.len()
        invariant
            i <= q@.len(),
            queue_count(q@, st@) == queue_count(q@.skip(i as int), st@),
        decreases q@.len() - i,
    {
        if same(q[i].state.as_str(), st) {
            return q[i].count;
        }
        assert(q@.skip(i as int).skip(1) =~= q@.skip(i + 1));
        i = i + 1;
    }
    0
}

/// Whether a file of this state is still to be moved.
pub open spec fn is_pending(state: Seq<char>) -> bool {
    state == "queued"@ || state == "running"@
}

/// The bytes that the pending files still have to move.
pub open spec fn bytes_left(q: Seq<QueueSum>) -> int
    decreases q.len(),
{
    if q.len() == 0 {
        0
    } else {
        bytes_left(q.drop_last()) + (if is_pending(q.last().state@) {
            q.last().total - q.last().done
        } else {
            0
        })
    }
}

fn left_in_queue(q: &Vec<QueueSum>) -> (n: i64)
    requires
        q@.len() <= i64::MAX / 2,
        i64::MIN <= bytes_left(q@) <= i64::MAX,
    ensures
        n == bytes_left(q@),
{
    let mut n: i128 = 0;
    let mut i: usize = 0;
    assert(q@.take(0) =~= Seq::<QueueSum>::empty());
    while i < q.len()
        invariant
            i <= q@.len() <= i64::MAX / 2,
            n == bytes_left(q@.take(i as int)),
            -0x1_0000_0000_0000_0000 * i <= n <= 0x1_0000_0000_0000_0000 * i,
        decreases q@.len() - i,
    {
        assert(q@.take(i + 1).drop_last() =~= q@.take(i as int));
        let s = q[i].state.as_str();
        if same(s, "queued") || same(s, "running") {
            n = n + (q[i].total as i128 - q[i].done as i128);
        }
        i = i + 1;
    }
    assert(q@.take(i as int) =~= q@);
    n as i64
}

/// How far a file has come, in percent.
pub open spec fn percent_done(f: QueueFile) -> int {
    if f.total > 0 { trunc_div(f.done * 100, f.total as int) } else { 0 }
}

/// One line of the queue table.
pub open spec fn queue_line(f: QueueFile) -> Seq<CellView> {
    let pill = if f.state@ == "running"@ {
        CellView::Tag(dec_int(percent_done(f)) + "%"@, ""@)
    } else if f.state@ == "error"@ {
        CellView::Tag("Error"@, "b"@)
    } else {
        CellView::Tag("Queued"@, "i"@)
    };
    seq![
        CellView::Text(file_name_text(f.src@)),
        CellView::Text(f.dest@),
        CellView::Text(bytes_text(f.total as int)),
        pill,
    ]
}

/// A file whose progress in percent can be computed.
pub open spec fn measurable(f: QueueFile) -> bool {
    i64::MIN <= f.done * 100 <= i64::MAX
}

fn line_of_file(f: &QueueFile) -> (r: Vec<Cell>)
    requires
        measurable(*f),
    ensures
        cells_view(r@) == queue_line(*f),
{
    let pct: i64 = if f.total > 0 {
        divide(f.done * 100, f.total)
    } else {
        0
    };
    let s = f.state.as_str();
    let pill = if same(s, "running") {
        tag(count_of(pct, "%").as_str(), "")
    } else if same(s, "error") {
        tag("Error", "b")
    } else {
        tag("Queued", "i")
    };
    let r = vec![
        Cell::Text(file_name(f.src.as_str())),
        cell(f.dest.as_str()),
        Cell::Text(bytes(f.total)),
        pill,
    ];
    assert(cells_view(r@) =~= queue_line(*f));
    r
}

/// The lines of the queue table.
pub open spec fn queue_lines(files: Seq<QueueFile>) -> Seq<Seq<CellView>> {
    Seq::new(files.len(), |i: int| queue_line(files[i]))
}

fn lines_of_files(files: &Vec<QueueFile>) -> (r: Vec<Vec<Cell>>)
    requires
        forall|i: int| 0 <= i < files@.len() ==> measurable(#[trigger] files@[i]),
    ensures
        lines_view(r@) == queue_lines(files@),
{
    let mut out: Vec<Vec<Cell>> = Vec::new();
    let mut i: usize = 0;
    while i < files.len()
        invariant
            i <= files@.len(),
            out@.len() == i,
            forall|j: int| 0 <= j < files@.len() ==> measurable(#[trigger] files@[j]),
            forall|j: int| 0 <= j < i ==> cells_view((#[trigger] out@[j])@) == queue_line(files@[j]),
        decreases files@.len() - i,
    {
        out.push(line_of_file(&files[i]));
        i = i + 1;
    }
    assert(lines_view(out@) =~= queue_lines(files@));
    out
}

/// One line of the table of remotes.
pub open spec fn remote_line(r: Remote) -> Seq<CellView> {
    let (label, cls) = mount_text(opt_string(r.status));
    seq![
        CellView::Text(r.name@),
        CellView::Text(r.backend@),
        CellView::Text(or_dash(opt_string(r.mount_path))),
        CellView::Tag(label, cls),
    ]
}

/// The lines of the table of remotes.
pub open spec fn remote_lines(all: Seq<Remote>) -> Seq<Seq<CellView>> {
    Seq::new(all.len(), |i: int| remote_line(all[i]))
}

fn line_of_remote(r: &Remote) -> (v: Vec<Cell>)
    ensures
        cells_view(v@) == remote_line(*r),
{
    let (label, cls) = match &r.status {
        Some(s) => mount_state(Some(s.as_str())),
        None => mount_state(None),
    };
    let v = vec![
        cell(r.name.as_str()),
        cell(r.backend.as_str()),
        Cell::Text(text_or_dash(&r.mount_path)),
        tag(label, cls),
    ];
    assert(cells_view(v@) =~= remote_line(*r));
    v
}

fn lines_of_remotes(all: &Vec<Remote>) -> (r: Vec<Vec<Cell>>)
    ensures
        lines_view(r@) == remote_lines(all@),
{
    let mut out: Vec<Vec<Cell>> = Vec::new();
    let mut i: usize = 0;
    while i < all.len()
        invariant
            i <= all@.len(),
            out@.len() == i,
            forall|j: int| 0 <= j < i ==> cells_view((#[trigger] out@[j])@) == remote_line(all@[j]),
        decreases all@.len() - i,
    {
        out.push(line_of_remote(&all[i]));
        i = i + 1;
    }
    assert(lines_view(out@) =~= remote_lines(all@));
    out
}

/// The status line of the cloud card.
pub open spec fn cloud_status(all: Seq<Remote>) -> Seq<char> {
    let errored = state_count(all, "error"@) as int;
    if errored > 0 {
        dec_int(errored) + " unreachable"@
    } else if all.len() == 0 {
        "No remotes"@
    } else {
        dec_int(state_count(all, "mounted"@) as int) + " of "@ + dec_int(all.len() as int) + " mounted"@
    }
}

/// The queue row of the cloud card.
pub open spec fn queue_row(q: Seq<QueueSum>) -> RowView {
    let pending = queue_count(q, "queued"@) + queue_count(q, "running"@);
    let failed = queue_count(q, "error"@);
    (
        "Transfer queue"@,
        if pending > 0 {
            num_text(pending) + " · "@ + bytes_text(bytes_left(q)) + " left"@
        } else if failed > 0 {
            num_text(failed) + " failed"@
        } else {
            "Empty"@
        },
        if failed > 0 {
            "rd"@
        } else if pending > 0 {
            "o"@
        } else {
            "mut"@
        },
    )
}

/// The first three remotes worth showing, or fewer where there are fewer.
pub open spec fn shown_rows(all: Seq<Remote>) -> Seq<RowView> {
    let s = sorted_rows(all);
    if s.len() > 3 { s.take(3) } else { s }
}

/// The cloud card without the line that says what the popup adds.
pub open spec fn cloud_face(all: Seq<Remote>, q: Seq<QueueSum>, files: Seq<QueueFile>, rclone: bool) -> CardView {
    let total = all.len() as int;
    let queued = queue_count(q, "queued"@);
    let running = queue_count(q, "running"@);
    let failed = queue_count(q, "error"@);
    let pending = queued + running;
    explained(
        plain(
            "cloud"@,
            "Cloud"@,
            "teal"@,
            if state_count(all, "error"@) > 0 { PROBLEM@ } else { OK@ },
            cloud_status(all),
            seq![
                (
                    "Remotes"@,
                    if total > 3 { dec_int(total) + " · 3 shown"@ } else { num_text(total) },
                    ""@,
                ),
                queue_row(q),
            ] + shown_rows(all),
            seq![
                (num_text(total), "Remotes"@),
                (num_text(state_count(all, "mounted"@) as int), "Mounted"@),
                (num_text(pending), "Queued transfers"@),
            ],
            seq![
                BlockView::Table(
                    "Upload / download queue"@,
                    seq!["File"@, "Destination"@, "Size"@, "State"@],
                    queue_lines(files),
                ),
                BlockView::Rows("Queue"@, seq![
                    ("Running"@, num_text(running), if running > 0 { "o"@ } else { "mut"@ }),
                    ("Waiting"@, num_text(queued), ""@),
                    ("Failed"@, num_text(failed), if failed > 0 { "rd"@ } else { "g"@ }),
                    ("Bytes remaining"@, bytes_text(bytes_left(q)), if pending > 0 { ""@ } else { "mut"@ }),
                ]),
                BlockView::Table(
                    "All remotes"@,
                    seq!["Remote"@, "Type"@, "Mount"@, "Status"@],
                    remote_lines(all),
                ),
                BlockView::Rows("rclone"@, seq![
                    (
                        "Binary"@,
                        if rclone { "Found"@ } else { "Not found"@ },
                        if rclone { "g"@ } else { "rd"@ },
                    ),
                    ("Remotes configured"@, num_text(total), ""@),
                ]),
            ],
        ),
        broken_text(all),
    )
}

/// The cloud card.
pub open spec fn cloud_view(all: Seq<Remote>, q: Seq<QueueSum>, files: Seq<QueueFile>, rclone: bool) -> CardView {
    let face = cloud_face(all, q, files, rclone);
    let pending = queue_count(q, "queued"@) + queue_count(q, "running"@);
    if pending > 0 {
        CardView { more: Some("View queue ("@ + num_text(pending) + ")"@), ..face }
    } else if all.len() > 3 {
        CardView { more: Some("View all "@ + dec_int(all.len() as int) + " remotes"@), ..face }
    } else {
        face
    }
}

fn status_of_cloud(all: &Vec<Remote>, mounted: i64, errored: i64) -> (r: String)
    requires
        all@.len() <= i64::MAX,
        mounted == state_count(all@, "mounted"@),
        errored == state_count(all@, "error"@),
    ensures
        r@ == cloud_status(all@),
{
    if errored > 0 {
        count_of(errored, " unreachable")
    } else if all.len() == 0 {
        "No remotes".to_owned()
    } else {
        let mut s = count_of(mounted, " of ");
        push_dec_int(&mut s, all.len() as i64);
        s.append(" mounted");
        s
    }
}

fn row_of_queue(q: &Vec<QueueSum>, pending: i64, failed: i64, left: i64) -> (r: Row)
    requires
        pending == queue_count(q@, "queued"@) + queue_count(q@, "running"@),
        failed == queue_count(q@, "error"@),
        left == bytes_left(q@),
    ensures
        r@ == queue_row(q@),
{
    let text = if pending > 0 {
        let mut s = followed(num(pending), " · ");
        s.append(bytes(left).as_str());
        s.append(" left");
        s
    } else if failed > 0 {
        followed(num(failed), " failed")
    } else {
        "Empty".to_owned()
    };
    let cls = if failed > 0 {
        "rd"
    } else if pending > 0 {
        "o"
    } else {
        "mut"
    };
    row("Transfer queue", text, cls)
}

fn face_rows(all: &Vec<Remote>, queue: Row) -> (r: Vec<Row>)
    requires
        all@.len() <= i64::MAX,
    ensures
        rows_view(r@) == seq![
            (
                "Remotes"@,
                if all@.len() > 3 {
                    dec_int(all@.len() as int) + " · 3 shown"@
                } else {
                    num_text(all@.len() as int)
                },
                ""@,
            ),
            queue@,
        ] + shown_rows(all@),
{
    let total: i64 = all.len() as i64;
    let mut shown: Vec<Row> = Vec::new();
    assert(rows_view(shown@) =~= Seq::<RowView>::empty());
    push_ranked(&mut shown, all, 0);
    push_ranked(&mut shown, all, 1);
    push_ranked(&mut shown, all, 2);
    assert(rows_view(shown@) =~= sorted_rows(all@));
    if shown.len() > 3 {
        let ghost before = shown@;
        shown.truncate(3);
        assert(rows_view(shown@) =~= rows_view(before).take(3));
    }
    assert(rows_view(shown@) =~= shown_rows(all@));
    let remotes = if total > 3 {
        count_of(total, " · 3 shown")
    } else {
        num(total)
    };
    let mut rows = vec![row("Remotes", remotes, ""), queue];
    let ghost (a, b) = (rows@, shown@);
    rows.append(&mut shown);
    assert(rows_view(rows@) =~= rows_view(a) + rows_view(b));
    assert(rows_view(a) =~= seq![a[0]@, a[1]@]);
    rows
}

/// The cloud section's report.
pub fn cloud_card(all: &Vec<Remote>, q: &Vec<QueueSum>, files: &Vec<QueueFile>, rclone: bool) -> (r: Sec)
    requires
        all@.len() <= i64::MAX,
        q@.len() <= i64::MAX / 2,
        i64::MIN <= queue_count(q@, "queued"@) + queue_count(q@, "running"@) <= i64::MAX,
        i64::MIN <= bytes_left(q@) <= i64::MAX,
        forall|i: int| 0 <= i < files@.len() ==> measurable(#[trigger] files@[i]),
    ensures
        r.card@ == cloud_view(all@, q@, files@, rclone),
        r.running == 0,
        r.failed == 0,
        r.today == 0,
        r.events@.len() == 0,
{
    let total: i64 = all.len() as i64;
    let mounted: i64 = count_state(all, "mounted") as i64;
    let errored: i64 = count_state(all, "error") as i64;
    let status = status_of_cloud(all, mounted, errored);
    let queued: i64 = count_queue(q, "queued");
    let running: i64 = count_queue(q, "running");
    let failed: i64 = count_queue(q, "error");
    let pending: i64 = queued + running;
    let left: i64 = left_in_queue(q);
    let queue = row_of_queue(q, pending, failed, left);
    let rows = face_rows(all, queue);
    let queue_cols = vec!["File".to_owned(), "Destination".to_owned(), "Size".to_owned(), "State".to_owned()];
    assert(views(queue_cols@) =~= seq!["File"@, "Destination"@, "Size"@, "State"@]);
    let remote_cols = vec!["Remote".to_owned(), "Type".to_owned(), "Mount".to_owned(), "Status".to_owned()];
    assert(views(remote_cols@) =~= seq!["Remote"@, "Type"@, "Mount"@, "Status"@]);
    let c = card(
        "cloud",
        "Cloud",
        "teal",
        if errored > 0 { PROBLEM } else { OK },
        status.as_str(),
        rows,
        vec![kpi(num(total), "Remotes"), kpi(num(mounted), "Mounted"), kpi(num(pending), "Queued transfers")],
        vec![
            table("Upload / download queue", queue_cols, lines_of_files(files)),
            grp("Queue", vec![
                row("Running", num(running), if running > 0 { "o" } else { "mut" }),
                row("Waiting", num(queued), ""),
                row("Failed", num(failed), if failed > 0 { "rd" } else { "g" }),
                row("Bytes remaining", bytes(left), if pending > 0 { "" } else { "mut" }),
            ]),
            table("All remotes", remote_cols, lines_of_remotes(all)),
            grp("rclone", vec![
                row_str(
                    "Binary",
                    if rclone { "Found" } else { "Not found" },
                    if rclone { "g" } else { "rd" },
                ),
                row("Remotes configured", num(total), ""),
            ]),
        ],
    );
    let mut s = Sec::new(c).why(why_broken(all));
    assert(s.card@ =~~= cloud_face(all@, q@, files@, rclone));
    if pending > 0 {
        let mut more = "View queue (".to_owned();
        more.append(num(pending).as_str());
        more.append(")");
        s.card.more = Some(more);
    } else if total > 3 {
        let mut more = "View all ".to_owned();
        push_dec_int(&mut more, total);
        more.append(" remotes");
        s.card.more = Some(more);
    }
    assert(s.card@ =~~= cloud_view(all@, q@, files@, rclone));
    s
}

/// As many remotes are counted in a state as are in it.
pub proof fn law_remotes_are_counted_by_state(all: Seq<Remote>, st: Seq<char>)
    ensures
        state_count(all, st) == all.filter(|x: Remote| opt_string(x.status) == Some(st)).len(),
    decreases all.len(),
{
    reveal(Seq::filter);
    let p = |x: Remote| opt_string(x.status) == Some(st);
    if all.len() > 0 {
        let front = all.drop_last();
        law_remotes_are_counted_by_state(front, st);
        let kept = front.filter(p);
        assert(all.filter(p) == (if p(all.last()) { kept.push(all.last()) } else { kept }));
    }
}

/// The remotes that are named as out of reach are exactly those in error, in order.
pub proof fn law_the_remotes_out_of_reach_are_named(all: Seq<Remote>)
    ensures
        broken_names(all) == all.filter(|x: Remote| opt_string(x.status) == Some("error"@)).map_values(|x: Remote| x.name@),
    decreases all.len(),
{
    reveal(Seq::filter);
    let p = |x: Remote| opt_string(x.status) == Some("error"@);
    let wanted = all.filter(|x: Remote| opt_string(x.status) == Some("error"@)).map_values(|x: Remote| x.name@);
    if all.len() > 0 {
        let front = all.drop_last();
        law_the_remotes_out_of_reach_are_named(front);
        let kept = front.filter(p);
        assert(all.filter(p) == (if p(all.last()) { kept.push(all.last()) } else { kept }));
        assert(front.filter(|x: Remote| opt_string(x.status) == Some("error"@)).map_values(|x: Remote| x.name@) == broken_names(front));
    }
    assert(broken_names(all) =~= wanted);
}

proof fn lemma_ranked(all: Seq<Remote>, k: nat)
    ensures
        ranked_rows(all, k) == all.filter(|x: Remote| remote_rank(x) == k).map_values(|x: Remote| (x.name@, mount_text(opt_string(x.status)).0, mount_text(opt_string(x.status)).1)),
    decreases all.len(),
{
    reveal(Seq::filter);
    let p = |x: Remote| remote_rank(x) == k;
    let wanted = all.filter(|x: Remote| remote_rank(x) == k).map_values(|x: Remote| (x.name@, mount_text(opt_string(x.status)).0, mount_text(opt_string(x.status)).1));
    if all.len() > 0 {
        let front = all.drop_last();
        lemma_ranked(front, k);
        let kept = front.filter(p);
        assert(all.filter(p) == (if p(all.last()) { kept.push(all.last()) } else { kept }));
        assert(front.filter(|x: Remote| remote_rank(x) == k).map_values(|x: Remote| (x.name@, mount_text(opt_string(x.status)).0, mount_text(opt_string(x.status)).1)) == ranked_rows(front, k));
    }
    assert(ranked_rows(all, k) =~= wanted);
}


/// The remotes stand in three runs, each in order: those in error, those that are not
/// mounted, and the others. Each shows its name and the state of its mount.
pub proof fn law_remotes_in_trouble_come_first(all: Seq<Remote>)
    ensures
        ({
            let row = |x: Remote| (x.name@, mount_text(opt_string(x.status)).0, mount_text(opt_string(x.status)).1);
            let bad = |x: Remote| opt_string(x.status) == Some("error"@);
            let off = |x: Remote| x.status is None || opt_string(x.status) == Some("unmounted"@);
            sorted_rows(all) == all.filter(bad).map_values(row) + all.filter(off).map_values(row) + all.filter(
                |x: Remote| !bad(x) && !off(x),
            ).map_values(row)
        }),
{
    reveal_strlit("error");
    reveal_strlit("unmounted");
    assert("error"@.len() == 5 && "unmounted"@.len() == 9);
    lemma_ranked(all, 0);
    lemma_ranked(all, 1);
    lemma_ranked(all, 2);
    let row = |x: Remote| (x.name@, mount_text(opt_string(x.status)).0, mount_text(opt_string(x.status)).1);
    let bad = |x: Remote| opt_string(x.status) == Some("error"@);
    let off = |x: Remote| x.status is None || opt_string(x.status) == Some("unmounted"@);
    lemma_same_filter(all, |x: Remote| remote_rank(x) == 0, bad);
    lemma_same_filter(all, |x: Remote| remote_rank(x) == 1, off);
    lemma_same_filter(all, |x: Remote| remote_rank(x) == 2, |x: Remote| !bad(x) && !off(x));
}

proof fn lemma_same_filter(all: Seq<Remote>, p: spec_fn(Remote) -> bool, q: spec_fn(Remote) -> bool)
    requires
        forall|x: Remote| #[trigger] p(x) == q(x),
    ensures
        all.filter(p) == all.filter(q),
    decreases all.len(),
{
    reveal(Seq::filter);
    if all.len() > 0 {
        lemma_same_filter(all.drop_last(), p, q);
        assert(p(all.last()) == q(all.last()));
    }
}

/// What is left to move is, for each state that waits or runs, the bytes that are not done.
pub proof fn law_what_is_left_adds_up(a: Seq<QueueSum>, b: Seq<QueueSum>, x: QueueSum)
    ensures
        bytes_left(a + b) == bytes_left(a) + bytes_left(b),
        bytes_left(seq![x]) == (if x.state@ == "queued"@ || x.state@ == "running"@ { x.total - x.done } else { 0int }),
    decreases b.len(),
{
    reveal_with_fuel(bytes_left, 2);
    assert(seq![x].drop_last() =~= Seq::<QueueSum>::empty());
    if b.len() == 0 {
        assert(a + b =~= a);
    } else {
        assert((a + b).drop_last() =~= a + b.drop_last());
        law_what_is_left_adds_up(a, b.drop_last(), x);
    }
}

/// The count of a state is that of its first sum, none where there is no such sum.
pub proof fn law_the_first_sum_of_a_state_counts(q: Seq<QueueSum>, st: Seq<char>)
    ensures
        (exists|i: int|
            0 <= i < q.len() && (#[trigger] q[i]).state@ == st && queue_count(q, st) == q[i].count as int && forall|j: int|
                0 <= j < i ==> !((#[trigger] q[j]).state@ == st)) || ((forall|i: int| 0 <= i < q.len() ==> !((#[trigger] q[i]).state@ == st)) && queue_count(q, st) == 0),
    decreases q.len(),
{
    if q.len() > 0 {
        if q[0].state@ == st {
            assert(q[0].state@ == st && queue_count(q, st) == q[0].count as int);
        } else {
            let rest = q.skip(1);
            law_the_first_sum_of_a_state_counts(rest, st);
            assert forall|i: int| 0 <= i < rest.len() implies (#[trigger] rest[i]) == q[i + 1] by {}
            if exists|i: int|
            0 <= i < rest.len() && (#[trigger] rest[i]).state@ == st && queue_count(rest, st) == rest[i].count as int && forall|j: int|
                0 <= j < i ==> !((#[trigger] rest[j]).state@ == st) {
                let i = choose|i: int|
                    0 <= i < rest.len() && (#[trigger] rest[i]).state@ == st && queue_count(rest, st) == rest[i].count as int && forall|j: int|
                        0 <= j < i ==> !((#[trigger] rest[j]).state@ == st);
                assert(q[i + 1].state@ == st && queue_count(q, st) == q[i + 1].count as int);
                assert forall|j: int| 0 <= j < i + 1 implies !((#[trigger] q[j]).state@ == st) by {
                    if j > 0 {
                        assert(!(rest[j - 1].state@ == st));
                    }
                }
            } else {
                assert forall|i: int| 0 <= i < q.len() implies !((#[trigger] q[i]).state@ == st) by {
                    if i > 0 {
                        assert(!(rest[i - 1].state@ == st));
                    }
                }
            }
        }
    }
}


/// How far a file has come lies between nothing and all of it, grows with what is done, and
/// is all of it exactly at the end.
pub proof fn law_progress_is_a_share_of_the_whole(f: QueueFile, g: QueueFile)
    requires
        0 <= f.done <= g.done <= g.total,
        f.total == g.total,
        f.total > 0,
    ensures
        0 <= percent_done(f) <= percent_done(g) <= 100,
        (percent_done(g) == 100) == (g.done == g.total),
        percent_done(f) * f.total <= f.done * 100 < (percent_done(f) + 1) * f.total,
{
    let t = f.total as int;
    let (a, b) = (f.done * 100, g.done * 100);
    crate::text::law_division_rounds_toward_zero(a, t);
    crate::text::law_division_rounds_toward_zero(b, t);
    let (p, q) = (trunc_div(a, t), trunc_div(b, t));
    assert(0 <= p <= q <= 100 && (q == 100 <==> b >= 100 * t)) by (nonlinear_arith)
        requires
            t > 0,
            0 <= p * t <= a < (p + 1) * t,
            0 <= q * t <= b < (q + 1) * t,
            a <= b <= 100 * t,
    ;
}

/// The cloud is in trouble exactly where a remote is in error, and says how many are.
pub proof fn law_the_cloud_is_in_trouble_where_a_remote_is(all: Seq<Remote>, q: Seq<QueueSum>, files: Seq<QueueFile>, rclone: bool)
    ensures
        ({
            let n = all.filter(|x: Remote| opt_string(x.status) == Some("error"@)).len() as int;
            let up = all.filter(|x: Remote| opt_string(x.status) == Some("mounted"@)).len() as int;
            let c = cloud_view(all, q, files, rclone);
            &&& (c.level == "problem"@) == (n > 0)
            &&& (c.level == "ok"@) == (n == 0)
            &&& n > 0 ==> c.status == dec_int(n) + " unreachable"@
            &&& n == 0 && all.len() > 0 ==> c.status == dec_int(up) + " of "@ + dec_int(all.len() as int) + " mounted"@
            &&& n == 0 ==> c.why is None
        }),
{
    reveal_strlit("problem");
    reveal_strlit("ok");
    assert("problem"@.len() == 7 && "ok"@.len() == 2);
    law_remotes_are_counted_by_state(all, "error"@);
    law_remotes_are_counted_by_state(all, "mounted"@);
    law_the_remotes_out_of_reach_are_named(all);
}

/// The cloud card shows how many remotes there are, what the queue does and three remotes at
/// most; behind it every file of the queue and every remote has its line, and the queue its
/// figures.
pub proof fn law_the_cloud_card_shows_its_remotes_and_its_queue(all: Seq<Remote>, q: Seq<QueueSum>, files: Seq<QueueFile>, rclone: bool)
    ensures
        ({
            let c = cloud_view(all, q, files, rclone);
            let (queued, running, failed) = (queue_count(q, "queued"@), queue_count(q, "running"@), queue_count(q, "error"@));
            let pending = queued + running;
            let n = if all.len() > 3 { 3int } else { all.len() as int };
            &&& c.rows[0].0 == "Remotes"@ && (all.len() > 3 ==> c.rows[0].1 == dec_int(all.len() as int) + " · 3 shown"@) && (all.len() <= 3 ==> c.rows[0].1 == num_text(
                all.len() as int,
            ))
            &&& c.rows[1].0 == "Transfer queue"@
            &&& pending > 0 ==> c.rows[1].1 == num_text(pending) + " · "@ + bytes_text(bytes_left(q)) + " left"@
            &&& pending <= 0 && failed > 0 ==> c.rows[1].1 == num_text(failed) + " failed"@
            &&& pending <= 0 && failed <= 0 ==> c.rows[1].1 == "Empty"@
            &&& c.rows[1].2 == (if failed > 0 { "rd"@ } else if pending > 0 { "o"@ } else { "mut"@ })
            &&& c.rows.len() == 2 + n
            &&& forall|i: int| 0 <= i < n ==> #[trigger] c.rows[i + 2] == sorted_rows(all)[i]
            &&& c.groups[0] matches BlockView::Table(_, _, lines) && lines.len() == files.len() && forall|i: int| 0 <= i < files.len() ==> #[trigger] lines[i] == queue_line(files[i])
            &&& c.groups[1] matches BlockView::Rows(_, rows) && rows[0].1 == num_text(running) && rows[1].1 == num_text(queued) && rows[2].1 == num_text(failed) && rows[3].1
                == bytes_text(bytes_left(q))
            &&& c.groups[2] matches BlockView::Table(_, _, lines) && lines.len() == all.len() && forall|i: int| 0 <= i < all.len() ==> #[trigger] lines[i] == remote_line(all[i])
            &&& pending > 0 ==> c.more == Some("View queue ("@ + num_text(pending) + ")"@)
            &&& pending <= 0 && all.len() > 3 ==> c.more == Some("View all "@ + dec_int(all.len() as int) + " remotes"@)
            &&& pending <= 0 && all.len() <= 3 ==> c.more is None
        }),
{
    lemma_ranked_len(all);
    let s = sorted_rows(all);
    assert(s.len() == all.len());
    let n = if all.len() > 3 { 3int } else { all.len() as int };
    let c = cloud_view(all, q, files, rclone);
    assert(shown_rows(all).len() == n);
    assert forall|i: int| 0 <= i < n implies #[trigger] c.rows[i + 2] == s[i] by {
        assert(c.rows[i + 2] == shown_rows(all)[i]);
    }
}

proof fn lemma_ranked_len(all: Seq<Remote>)
    ensures
        ranked_rows(all, 0).len() + ranked_rows(all, 1).len() + ranked_rows(all, 2).len() == all.len(),
    decreases all.len(),
{
    if all.len() > 0 {
        lemma_ranked_len(all.drop_last());
    }
}

/// A file of the queue says its name, where it goes and its size, and how far it is while it
/// runs; a remote its name, kind, mount and state.
pub proof fn law_a_file_of_the_queue_says_how_it_stands(f: QueueFile, r: Remote)
    ensures
        queue_line(f).len() == 4,
        queue_line(f)[0] == CellView::Text(file_name_text(f.src@)),
        queue_line(f)[1] == CellView::Text(f.dest@),
        queue_line(f)[2] == CellView::Text(bytes_text(f.total as int)),
        f.state@ == "running"@ ==> queue_line(f)[3] == CellView::Tag(dec_int(percent_done(f)) + "%"@, ""@),
        f.state@ == "error"@ ==> queue_line(f)[3] == CellView::Tag("Error"@, "b"@),
        f.state@ != "running"@ && f.state@ != "error"@ ==> queue_line(f)[3] == CellView::Tag("Queued"@, "i"@),
        f.total <= 0 ==> percent_done(f) == 0,
        remote_line(r)[0] == CellView::Text(r.name@) && remote_line(r)[1] == CellView::Text(r.backend@),
        r.mount_path matches Some(m) ==> remote_line(r)[2] == CellView::Text(m@),
        r.mount_path is None ==> remote_line(r)[2] == CellView::Text("—"@),
        opt_string(r.status) == Some("mounted"@) ==> remote_line(r)[3] == CellView::Tag("Mounted"@, "g"@),
        opt_string(r.status) == Some("error"@) ==> remote_line(r)[3] == CellView::Tag("Error"@, "b"@),
        opt_string(r.status) == Some("unmounted"@) ==> remote_line(r)[3] == CellView::Tag("Unmounted"@, "i"@),
        r.status is None ==> remote_line(r)[3] == CellView::Tag("Not mounted"@, "i"@),
{
    reveal_strlit("running");
    reveal_strlit("error");
    reveal_strlit("mounted");
    reveal_strlit("unmounted");
    assert("running"@.len() == 7 && "error"@.len() == 5 && "mounted"@.len() == 7 && "unmounted"@.len() == 9);
    assert("running"@[0] == 'r' && "mounted"@[0] == 'm');
}

} // verus!
