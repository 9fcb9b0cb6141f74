//! The page of downloads.

use vstd::prelude::*;
use crate::text::{dec, join, join_strings, push_dec, same, views};
use crate::videos::stream::title::{and_filled, push_filled};

verus! {

/// A download, with what is said of how many bytes it has and how many there are.
#[derive(Clone, Debug)]
pub struct DownloadRow {
    pub id: i64,
    pub title: String,
    pub label: String,
    pub quality: String,
    pub state: String,
    pub detail: String,
    pub source: String,
    pub done_bytes: i64,
    pub total_bytes: i64,
    pub done_text: String,
    pub total_text: String,
    pub active: bool,
    pub done: bool,
    pub failed: bool,
}

/// What is known of some parts, with points between them.
pub open spec fn three_parts(a: Seq<char>, b: Seq<char>, c: Seq<char>) -> Seq<char> {
    join(and_filled(and_filled(and_filled(Seq::empty(), a), b), c), " · "@)
}

/// See [`three_parts`].
pub fn join_three(a: &String, b: &String, c: &String) -> (r: String)
    ensures
        r@ == three_parts(a@, b@, c@),
{
    let mut parts: Vec<String> = Vec::new();
    assert(views(parts@) =~= Seq::<Seq<char>>::empty());
    push_filled(&mut parts, a);
    push_filled(&mut parts, b);
    push_filled(&mut parts, c);
    join_strings(&parts, " · ")
}

/// A state in words.
pub open spec fn state_name(s: Seq<char>) -> Seq<char> {
    if s == "running"@ {
        "Downloading"@
    } else if s == "waiting"@ {
        "Waiting"@
    } else if s == "done"@ {
        "Saved"@
    } else if s == "missing"@ {
        "Missing"@
    } else {
        "Failed"@
    }
}

/// See [`state_name`].
pub fn pretty_state(s: &str) -> (r: &'static str)
    ensures
        r@ == state_name(s@),
{
    if same(s, "running") {
        "Downloading"
    } else if same(s, "waiting") {
        "Waiting"
    } else if same(s, "done") {
        "Saved"
    } else if same(s, "missing") {
        "Missing"
    } else {
        "Failed"
    }
}

/// The line under a download: what was noted of its end, else how far it is and
/// where it comes from.
pub open spec fn detail_text(r: DownloadRow) -> Seq<char> {
    if r.detail@.len() > 0 && (r.failed || r.done) {
        r.detail@
    } else if r.total_bytes > 0 {
        r.done_text@ + " / "@ + r.total_text@ + " · "@ + r.source@
    } else if r.done_bytes > 0 {
        r.done_text@ + " · "@ + r.source@
    } else {
        r.source@
    }
}

/// See [`detail_text`].
pub fn detail_line(row: &DownloadRow) -> (r: String)
    ensures
        r@ == detail_text(*row),
{
    if !row.detail.as_str().is_empty() && (row.failed || row.done) {
        return row.detail.clone();
    }
    if row.total_bytes > 0 {
        let mut s = row.done_text.clone();
        s.append(" / ");
        s.append(row.total_text.as_str());
        s.append(" · ");
        s.append(row.source.as_str());
        return s;
    }
    if row.done_bytes > 0 {
        let mut s = row.done_text.clone();
        s.append(" · ");
        s.append(row.source.as_str());
        return s;
    }
    row.source.clone()
}

/// A row of the page.
#[derive(Debug)]
pub struct SPlusDownload {
    pub id: i64,
    pub title: String,
    pub state: String,
    pub detail: String,
    pub active: bool,
    pub done: bool,
    pub failed: bool,
}

/// What a row shows.
#[verifier::ext_equal]
pub struct DownloadView {
    pub id: int,
    pub title: Seq<char>,
    pub state: Seq<char>,
    pub detail: Seq<char>,
    pub active: bool,
    pub done: bool,
    pub failed: bool,
}

impl View for SPlusDownload {
    type V = DownloadView;

    open spec fn view(&self) -> DownloadView {
        DownloadView {
            id: self.id as int,
            title: self.title@,
            state: self.state@,
            detail: self.detail@,
            active: self.active,
            done: self.done,
            failed: self.failed,
        }
    }
}

/// The row of a download.
pub open spec fn shown_row(r: DownloadRow) -> DownloadView {
    DownloadView {
        id: r.id as int,
        title: three_parts(r.title@, r.label@, r.quality@),
        state: state_name(r.state@),
        detail: detail_text(r),
        active: r.active,
        done: r.done,
        failed: r.failed,
    }
}

/// How many downloads are under way.
pub open spec fn active_count(rows: Seq<DownloadRow>) -> nat
    decreases rows.len(),
{
    if rows.len() == 0 {
        0
    } else {
        active_count(rows.drop_last()) + (if rows.last().active { 1nat } else { 0 })
    }
}

/// How many bytes the running downloads have.
pub open spec fn running_bytes(rows: Seq<DownloadRow>) -> int
    decreases rows.len(),
{
    if rows.len() == 0 {
        0
    } else {
        running_bytes(rows.drop_last()) + (if rows.last().state@ == "running"@ { rows.last().done_bytes as int } else { 0 })
    }
}

/// The page.
#[derive(Debug)]
pub struct DownloadPage {
    pub rows: Vec<SPlusDownload>,
    pub active: usize,
    /// What the running downloads have; said only where it is above zero.
    pub running: i128,
}

/// Every download as the page shows it, how many are under way, and what the
/// running ones have.
pub fn reload(rows: &Vec<DownloadRow>) -> (r: DownloadPage)
    ensures
        r.rows@.len() == rows@.len(),
        forall|i: int| 0 <= i < r.rows@.len() ==> (#[trigger] r.rows@[i])@ == shown_row(rows@[i]),
        r.active == active_count(rows@),
        r.running == running_bytes(rows@),
{
    let n: usize = rows.len();
    let mut out: Vec<SPlusDownload> = Vec::new();
    let mut active: usize = 0;
    let mut running: i128 = 0;
    let mut i: usize = 0;
    assert(rows@.take(0) =~= Seq::<DownloadRow>::empty());
    while i < n
        invariant
            n == rows@.len(),
            i <= n,
            out@.len() == i,
            active <= i,
            active == active_count(rows@.take(i as int)),
            running == running_bytes(rows@.take(i as int)),
            -0x8000_0000_0000_0000 * i <= running <= 0x7fff_ffff_ffff_ffff * i,
            forall|j: int| 0 <= j < i ==> (#[trigger] out@[j])@ == shown_row(rows@[j]),
        decreases n - i,
    {
        assert(rows@.take(i + 1).drop_last() =~= rows@.take(i as int));
        let r = &rows[i];
        if r.active {
            active = active + 1;
        }
        if same(r.state.as_str(), "running") {
            running = running + r.done_bytes as i128;
        }
        out.push(
            SPlusDownload {
                id: r.id,
                title: join_three(&r.title, &r.label, &r.quality),
                state: pretty_state(r.state.as_str()).to_owned(),
                detail: detail_line(r),
                active: r.active,
                done: r.done,
                failed: r.failed,
            },
        );
        i = i + 1;
    }
    assert(rows@.take(i as int) =~= rows@);
    DownloadPage { rows: out, active, running }
}

/// What is said while a season is queued, and once it is.
pub fn queued_line(n: usize, all: bool) -> (r: String)
    ensures
        r@ == "Queued "@ + dec(n as nat) + (if all { " episodes."@ } else { " episodes…"@ }),
{
    let mut s = "Queued ".to_owned();
    push_dec(&mut s, n as u64);
    s.append(if all { " episodes." } else { " episodes…" });
    s
}

/// As many downloads are counted under way as are.
pub proof fn law_downloads_under_way_are_counted(rows: Seq<DownloadRow>)
    ensures
        active_count(rows) == rows.filter(|x: DownloadRow| x.active).len(),
    decreases rows.len(),
{
    reveal(Seq::filter);
    let p = |x: DownloadRow| x.active;
    if rows.len() > 0 {
        let front = rows.drop_last();
        law_downloads_under_way_are_counted(front);
        let kept = front.filter(p);
        assert(rows.filter(p) == (if p(rows.last()) { kept.push(rows.last()) } else { kept }));
    }
}

/// The running downloads have together what each of them has.
pub proof fn law_running_downloads_add_up(a: Seq<DownloadRow>, b: Seq<DownloadRow>, x: DownloadRow)
    ensures
        running_bytes(a + b) == running_bytes(a) + running_bytes(b),
        running_bytes(seq![x]) == (if x.state@ == "running"@ { x.done_bytes as int } else { 0int }),
    decreases b.len(),
{
    reveal_with_fuel(running_bytes, 2);
    assert(seq![x].drop_last() =~= Seq::<DownloadRow>::empty());
    if b.len() == 0 {
        assert(a + b =~= a);
    } else {
        assert((a + b).drop_last() =~= a + b.drop_last());
        law_running_downloads_add_up(a, b.drop_last(), x);
    }
}


/// The row of a download says what it is, how it stands in words, and what was noted of its end
/// or how far it is and where it comes from.
pub proof fn law_a_download_says_how_it_stands(r: DownloadRow)
    ensures
        ({
            let v = shown_row(r);
            &&& v.id == r.id && v.active == r.active && v.done == r.done && v.failed == r.failed
            &&& r.state@ == "running"@ ==> v.state == "Downloading"@
            &&& r.state@ == "waiting"@ ==> v.state == "Waiting"@
            &&& r.state@ == "done"@ ==> v.state == "Saved"@
            &&& r.state@ == "missing"@ ==> v.state == "Missing"@
            &&& r.state@ == "failed"@ ==> v.state == "Failed"@
            &&& r.detail@.len() > 0 && (r.failed || r.done) ==> v.detail == r.detail@
            &&& r.detail@.len() == 0 || !(r.failed || r.done) ==> (r.total_bytes > 0 ==> v.detail == r.done_text@ + " / "@ + r.total_text@ + " · "@ + r.source@) && (r.total_bytes
                <= 0 && r.done_bytes > 0 ==> v.detail == r.done_text@ + " · "@ + r.source@) && (r.total_bytes <= 0 && r.done_bytes <= 0 ==> v.detail == r.source@)
            &&& r.title@.len() > 0 && r.label@.len() > 0 && r.quality@.len() > 0 ==> v.title == r.title@ + " · "@ + r.label@ + " · "@ + r.quality@
            &&& r.title@.len() > 0 && r.label@.len() == 0 && r.quality@.len() == 0 ==> v.title == r.title@
        }),
{
    reveal_strlit("running");
    reveal_strlit("waiting");
    reveal_strlit("done");
    reveal_strlit("missing");
    reveal_strlit("failed");
    assert("running"@.len() == 7 && "waiting"@.len() == 7 && "done"@.len() == 4 && "missing"@.len() == 7 && "failed"@.len() == 6);
    assert("running"@[0] == 'r' && "waiting"@[0] == 'w' && "missing"@[0] == 'm');
    reveal_with_fuel(join, 4);
    let n = Seq::<Seq<char>>::empty();
    let (a, b, c) = (r.title@, r.label@, r.quality@);
    let p = n.push(a).push(b).push(c);
    assert(p.drop_last() =~= n.push(a).push(b));
    assert(p.drop_last().drop_last() =~= n.push(a));
}

} // verus!
