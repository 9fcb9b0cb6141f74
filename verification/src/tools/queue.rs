//! The queue of jobs as the page shows it, the console under it, and what the
//! buttons of a row ask for.

use vstd::prelude::*;
use crate::double::Number;
use crate::find::{before, head};
use crate::text::{dec, dec_int, push_dec, push_dec_int, same, trim, trimmed, views};
use crate::tools::catalog::{label_of, tool_label};
use vstd::utf8::encode_utf8;

verus! {

/// A job as the queue's table holds it.
#[derive(Debug)]
pub struct JobRow {
    pub id: i64,
    pub kind: String,
    pub state: String,
    pub progress: Number,
    pub message: Option<String>,
}

/// A job as the page shows it.
#[derive(Debug)]
pub struct QueueJob {
    pub id: i64,
    pub name: String,
    pub kind: String,
    pub state: String,
    pub progress: Number,
    pub message: String,
}

/// What the page shows of a job.
#[verifier::ext_equal]
pub struct QueueJobView {
    pub id: int,
    pub name: Seq<char>,
    pub kind: Seq<char>,
    pub state: Seq<char>,
    pub progress: Number,
    pub message: Seq<char>,
}

impl View for QueueJob {
    type V = QueueJobView;

    open spec fn view(&self) -> QueueJobView {
        QueueJobView {
            id: self.id as int,
            name: self.name@,
            kind: self.kind@,
            state: self.state@,
            progress: self.progress,
            message: self.message@,
        }
    }
}

/// The jobs as the page shows them.
pub open spec fn jobs_view(v: Seq<QueueJob>) -> Seq<QueueJobView> {
    Seq::new(v.len(), |i: int| v[i]@)
}

/// What the page shows of one row of the table.
pub open spec fn shown(r: JobRow) -> QueueJobView {
    QueueJobView {
        id: r.id as int,
        name: label_of(r.kind@),
        kind: r.kind@,
        state: r.state@,
        progress: r.progress,
        message: match r.message {
            Some(m) => m@,
            None => Seq::empty(),
        },
    }
}

/// The jobs of the open tool, all of them where none is open.
pub open spec fn scoped(rows: Seq<JobRow>, active: Seq<char>) -> Seq<QueueJobView>
    decreases rows.len(),
{
    if rows.len() == 0 {
        Seq::empty()
    } else {
        let rest = scoped(rows.drop_last(), active);
        if active.len() == 0 || rows.last().kind@ == active { rest.push(shown(rows.last())) } else { rest }
    }
}

/// How many rows are in a state.
pub open spec fn in_state(rows: Seq<JobRow>, state: Seq<char>) -> nat
    decreases rows.len(),
{
    if rows.len() == 0 {
        0
    } else {
        in_state(rows.drop_last(), state) + (if rows.last().state@ == state { 1nat } else { 0nat })
    }
}

/// The queue in a line.
pub open spec fn summary_text(rows: Seq<JobRow>) -> Seq<char> {
    let running = in_state(rows, "running"@);
    let queued = in_state(rows, "queued"@);
    if running + queued == 0 {
        "Idle"@
    } else {
        dec(running) + " running · "@ + dec(queued) + " queued"@
    }
}

fn count_state(rows: &Vec<JobRow>, state: &str) -> (n: usize)
    ensures
        n == in_state(rows@, state@),
        n <= rows@.len(),
{
    let mut n: usize = 0;
    let mut i: usize = 0;
    assert(rows@.take(0) =~= Seq::<JobRow>::empty());
    while i < rows.len()
        invariant
            i <= rows@.len(),
            n <= i,
            n == in_state(rows@.take(i as int), state@),
        decreases rows@.len() - i,
    {
        assert(rows@.take(i + 1).drop_last() =~= rows@.take(i as int));
        if same(rows[i].state.as_str(), state) {
            n = n + 1;
        }
        i = i + 1;
    }
    assert(rows@.take(i as int) =~= rows@);
    n
}

/// See [`summary_text`].
pub fn queue_summary(rows: &Vec<JobRow>) -> (r: String)
    ensures
        r@ == summary_text(rows@),
{
    let running = count_state(rows, "running");
    let queued = count_state(rows, "queued");
    if running == 0 && queued == 0 {
        return "Idle".to_owned();
    }
    let mut s = String::new();
    push_dec(&mut s, running as u64);
    assert(s@ =~= dec(running as nat));
    s.append(" running · ");
    push_dec(&mut s, queued as u64);
    s.append(" queued");
    s
}

/// An integer held to what thirty-two bits with a sign can say.
pub open spec fn held(i: int) -> int {
    if i > i32::MAX { i32::MAX as int } else if i < i32::MIN { i32::MIN as int } else { i }
}

/// A fraction in per cent, to the nearest whole one.
pub open spec fn percent(p: Number) -> int {
    held(p.percent())
}

/// See [`percent`].
pub fn percent_of(p: &Number) -> (r: i64)
    requires
        p.wf(),
    ensures
        r == percent(*p),
{
    let i: i64 = p.to_percent();
    if i > 0x7fff_ffff {
        0x7fff_ffff
    } else if i < -0x8000_0000 {
        -0x8000_0000
    } else {
        i
    }
}

/// The newest job of a kind.
pub open spec fn newest_of(rows: Seq<JobRow>, kind: Seq<char>) -> Option<JobRow>
    decreases rows.len(),
{
    if rows.len() == 0 {
        None
    } else if rows[0].kind@ == kind {
        Some(rows[0])
    } else {
        newest_of(rows.skip(1), kind)
    }
}

/// What is said of a job beside the name of its tool: while it runs, what its
/// message says before the title, else how far it is; afterwards its state.
pub open spec fn job_note(r: JobRow) -> Seq<char> {
    if r.state@ == "running"@ {
        match r.message {
            Some(m) => if trim(m@).len() > 0 {
                trim(head(trim(m@), " — "@))
            } else {
                dec_int(percent(r.progress)) + "%"@
            },
            None => dec_int(percent(r.progress)) + "%"@,
        }
    } else {
        r.state@
    }
}

/// The line above the queue.
pub open spec fn header_text(rows: Seq<JobRow>, active: Seq<char>, label: Seq<char>) -> Seq<char> {
    if active.len() == 0 {
        summary_text(rows)
    } else {
        match newest_of(rows, active) {
            Some(r) => label + " · "@ + job_note(r),
            None => label,
        }
    }
}

fn note_of(r: &JobRow) -> (s: String)
    requires
        r.progress.wf(),
    ensures
        s@ == job_note(*r),
{
    if !same(r.state.as_str(), "running") {
        return r.state.clone();
    }
    match &r.message {
        Some(m) => {
            let t = trimmed(m.as_str());
            if !t.as_str().is_empty() {
                let h = before(t.as_str(), " — ");
                return trimmed(h.as_str());
            }
        },
        None => {},
    }
    let mut s = String::new();
    push_dec_int(&mut s, percent_of(&r.progress));
    assert(s@ =~= dec_int(percent(r.progress)));
    s.append("%");
    s
}

/// See [`header_text`].
pub fn queue_header(rows: &Vec<JobRow>, active: &str, label: &str) -> (r: String)
    requires
        forall|i: int| 0 <= i < rows@.len() ==> (#[trigger] rows@[i]).progress.wf(),
    ensures
        r@ == header_text(rows@, active@, label@),
{
    if active.is_empty() {
        return queue_summary(rows);
    }
    let mut i: usize = 0;
    assert(rows@.skip(0) =~= rows@);
    while i < rows.len()
        invariant
            i <= rows@.len(),
            active@.len() > 0,
            forall|j: int| 0 <= j < rows@.len() ==> (#[trigger] rows@[j]).progress.wf(),
            newest_of(rows@, active@) == newest_of(rows@.skip(i as int), active@),
        decreases rows@.len() - i,
    {
        assert(rows@.skip(i as int).skip(1) =~= rows@.skip(i + 1));
        if same(rows[i].kind.as_str(), active) {
            let mut s = label.to_owned();
            s.append(" · ");
            let note = note_of(&rows[i]);
            s.append(note.as_str());
            return s;
        }
        i = i + 1;
    }
    label.to_owned()
}

/// See [`scoped`].
pub fn queue_jobs(rows: &Vec<JobRow>, active: &str) -> (r: Vec<QueueJob>)
    ensures
        jobs_view(r@) == scoped(rows@, active@),
{
    let mut out: Vec<QueueJob> = Vec::new();
    let mut i: usize = 0;
    assert(rows@.take(0) =~= Seq::<JobRow>::empty());
    assert(jobs_view(out@) =~= Seq::<QueueJobView>::empty());
    while i < rows.len()
        invariant
            i <= rows@.len(),
            jobs_view(out@) == scoped(rows@.take(i as int), active@),
        decreases rows@.len() - i,
    {
        assert(rows@.take(i + 1).drop_last() =~= rows@.take(i as int));
        let row = &rows[i];
        if active.is_empty() || same(row.kind.as_str(), active) {
            let ghost was = jobs_view(out@);
            let message = match &row.message {
                Some(m) => m.clone(),
                None => {
                    let s = String::new();
                    assert(s@ =~= Seq::<char>::empty());
                    s
                },
            };
            let job = QueueJob {
                id: row.id,
                name: tool_label(row.kind.as_str()).to_owned(),
                kind: row.kind.clone(),
                state: row.state.clone(),
                progress: row.progress,
                message,
            };
            assert(job@ == shown(rows@[i as int]));
            out.push(job);
            assert(jobs_view(out@) =~= was.push(shown(rows@[i as int])));
        }
        i = i + 1;
    }
    assert(rows@.take(i as int) =~= rows@);
    out
}

/// What a button of the queue asks for.
#[derive(Clone, Copy, Debug, PartialEq, Eq, Structural)]
pub enum QueueAct {
    Pause,
    Resume,
    Cancel,
    Retry,
    Remove,
    Clear,
    Up,
    Down,
    Open,
    Nothing,
}

/// The request of a button.
pub open spec fn act_of(act: Seq<char>) -> QueueAct {
    if act == "pause"@ {
        QueueAct::Pause
    } else if act == "resume"@ {
        QueueAct::Resume
    } else if act == "cancel"@ {
        QueueAct::Cancel
    } else if act == "retry"@ {
        QueueAct::Retry
    } else if act == "remove"@ {
        QueueAct::Remove
    } else if act == "clear"@ {
        QueueAct::Clear
    } else if act == "up"@ {
        QueueAct::Up
    } else if act == "down"@ {
        QueueAct::Down
    } else if act == "open"@ {
        QueueAct::Open
    } else {
        QueueAct::Nothing
    }
}

/// The request of a button, and whether the job's process is to be stopped once
/// the job's state is changed: pausing and cancelling stop it.
pub fn queue_action(act: &str) -> (r: (QueueAct, bool))
    ensures
        r.0 == act_of(act@),
        r.1 == (r.0 == QueueAct::Pause || r.0 == QueueAct::Cancel),
{
    if same(act, "pause") {
        (QueueAct::Pause, true)
    } else if same(act, "resume") {
        (QueueAct::Resume, false)
    } else if same(act, "cancel") {
        (QueueAct::Cancel, true)
    } else if same(act, "retry") {
        (QueueAct::Retry, false)
    } else if same(act, "remove") {
        (QueueAct::Remove, false)
    } else if same(act, "clear") {
        (QueueAct::Clear, false)
    } else if same(act, "up") {
        (QueueAct::Up, false)
    } else if same(act, "down") {
        (QueueAct::Down, false)
    } else if same(act, "open") {
        (QueueAct::Open, false)
    } else {
        (QueueAct::Nothing, false)
    }
}

/// The line that a job starts its console with.
pub open spec fn heading(kind: Seq<char>, id: int) -> Seq<char> {
    "$ "@ + kind + "  (job #"@ + dec_int(id) + ")"@
}

/// See [`heading`].
pub fn job_heading(kind: &str, id: i64) -> (r: String)
    ensures
        r@ == heading(kind@, id as int),
{
    let mut s = "$ ".to_owned();
    s.append(kind);
    s.append("  (job #");
    push_dec_int(&mut s, id);
    s.append(")");
    s
}

/// The console of the running tool, as UTF-8. It is cut at the front before it
/// grows past 24,000 bytes.
#[derive(Debug)]
pub struct Console {
    pub bytes: Vec<u8>,
}

/// A console with a line behind it, not cut yet.
pub open spec fn longer(log: Seq<u8>, line: Seq<char>) -> Seq<u8> {
    (log + encode_utf8(line)).push(10u8)
}

/// An ellipsis and a line feed in UTF-8.
pub open spec fn ellipsis_line() -> Seq<u8> {
    seq![0xe2u8, 0x80u8, 0xa6u8, 10u8]
}

/// A console with a line behind it: of one that got too long the last 18,000
/// bytes are kept.
pub open spec fn pushed(log: Seq<u8>, line: Seq<char>) -> Seq<u8> {
    let g = longer(log, line);
    if g.len() > 24_000 { ellipsis_line() + g.skip(g.len() - 18_000) } else { g }
}

/// The cut, if one is due, falls between two characters.
pub open spec fn cut_between(log: Seq<u8>, line: Seq<char>) -> bool {
    let g = longer(log, line);
    g.len() > 24_000 ==> !(0x80 <= g[g.len() - 18_000] < 0xc0)
}

fn append_bytes(out: &mut Vec<u8>, more: &[u8])
    ensures
        final(out)@ == old(out)@ + more@,
{
    let ghost base = out@;
    let mut i: usize = 0;
    assert(base + more@.take(0) =~= base);
    while i < more.len()
        invariant
            i <= more@.len(),
            out@ == base + more@.take(i as int),
        decreases more@.len() - i,
    {
        out.push(more[i]);
        assert(out@ =~= base + more@.take(i + 1));
        i = i + 1;
    }
    assert(more@.take(i as int) =~= more@);
}

impl Console {
    /// An empty console.
    pub fn new() -> (r: Console)
        ensures
            r.bytes@ == Seq::<u8>::empty(),
    {
        Console { bytes: Vec::new() }
    }

    /// Empties the console.
    pub fn clear(&mut self)
        ensures
            final(self).bytes@ == Seq::<u8>::empty(),
    {
        self.bytes = Vec::new();
    }

    /// Starts the console anew with a heading.
    pub fn reset(&mut self, heading: &str)
        ensures
            final(self).bytes@ == encode_utf8(heading@).push(10u8),
    {
        let mut fresh: Vec<u8> = Vec::new();
        append_bytes(&mut fresh, heading.as_bytes());
        assert(fresh@ =~= encode_utf8(heading@));
        fresh.push(10);
        self.bytes = fresh;
    }

    /// Whether a line can be put behind the console without cutting a character
    /// in two.
    pub fn takes(&self, line: &str) -> (r: bool)
        ensures
            r == cut_between(self.bytes@, line@),
    {
        let mut all: Vec<u8> = Vec::new();
        append_bytes(&mut all, self.bytes.as_slice());
        assert(all@ =~= self.bytes@);
        append_bytes(&mut all, line.as_bytes());
        all.push(10);
        assert(all@ == longer(self.bytes@, line@));
        if all.len() > 24_000 {
            let b: u8 = all[all.len() - 18_000];
            !(0x80 <= b && b < 0xc0)
        } else {
            true
        }
    }

    /// Puts a line behind the console. The console stays within 24,000 bytes.
    pub fn push(&mut self, line: &str)
        requires
            cut_between(old(self).bytes@, line@),
        ensures
            final(self).bytes@ == pushed(old(self).bytes@, line@),
            final(self).bytes@.len() <= 24_000,
    {
        append_bytes(&mut self.bytes, line.as_bytes());
        self.bytes.push(10);
        let ghost g = self.bytes@;
        assert(g == longer(old(self).bytes@, line@));
        if self.bytes.len() > 24_000 {
            let from: usize = self.bytes.len() - 18_000;
            let mut kept: Vec<u8> = vec![0xe2, 0x80, 0xa6, 10];
            assert(kept@ =~= ellipsis_line());
            let tail = vstd::slice::slice_subrange(self.bytes.as_slice(), from, self.bytes.len());
            assert(tail@ =~= g.skip(from as int));
            append_bytes(&mut kept, tail);
            self.bytes = kept;
        }
    }

    /// Opens the console for a job. With another job running, what that one said is
    /// left standing.
    pub fn begin(&mut self, kind: &str, id: i64, running: i64)
        requires
            running > 1 ==> cut_between(old(self).bytes@, heading(kind@, id as int)),
        ensures
            final(self).bytes@ == (if running <= 1 {
                encode_utf8(heading(kind@, id as int)).push(10u8)
            } else {
                pushed(old(self).bytes@, heading(kind@, id as int))
            }),
    {
        let line = job_heading(kind, id);
        if running <= 1 {
            self.reset(line.as_str());
        } else {
            self.push(line.as_str());
        }
    }
}

/// The last 200 characters of a message, without the white space around it.
pub open spec fn short_message(s: Seq<char>) -> Seq<char> {
    let t = trim(s);
    if t.len() > 200 { t.skip(t.len() - 200) } else { t }
}

/// See [`short_message`].
pub fn truncate_msg(s: &str) -> (r: String)
    ensures
        r@ == short_message(s@),
{
    let t = trimmed(s);
    let v = crate::text::chars_of(t.as_str());
    let n: usize = v.len();
    if n > 200 {
        assert(v@.subrange(n - 200, n as int) =~= v@.skip(n - 200));
        crate::text::slice_of(&v, n - 200, n)
    } else {
        t
    }
}

/// The files that a download mentions, the last mentioned first and each once.
pub open spec fn mentions(dests: Seq<Seq<char>>) -> Seq<Seq<char>>
    decreases dests.len(),
{
    if dests.len() == 0 {
        Seq::empty()
    } else {
        seq![dests.last()] + without(mentions(dests.drop_last()), dests.last())
    }
}

/// A list without one of its texts.
pub open spec fn without(list: Seq<Seq<char>>, s: Seq<char>) -> Seq<Seq<char>>
    decreases list.len(),
{
    if list.len() == 0 {
        Seq::empty()
    } else {
        let rest = without(list.drop_last(), s);
        if list.last() == s { rest } else { rest.push(list.last()) }
    }
}

fn drop_text(list: &Vec<String>, s: &str) -> (r: Vec<String>)
    ensures
        views(r@) == without(views(list@), s@),
{
    let ghost all = views(list@);
    let mut out: Vec<String> = Vec::new();
    let mut i: usize = 0;
    assert(all.take(0) =~= Seq::<Seq<char>>::empty());
    assert(views(out@) =~= Seq::<Seq<char>>::empty());
    while i < list.len()
        invariant
            i <= list@.len(),
            all == views(list@),
            views(out@) == without(all.take(i as int), s@),
        decreases list@.len() - i,
    {
        assert(all.take(i + 1).drop_last() =~= all.take(i as int));
        assert(all.take(i + 1).last() == list@[i as int]@);
        if !same(list[i].as_str(), s) {
            let ghost was = views(out@);
            out.push(list[i].clone());
            assert(views(out@) =~= was.push(list@[i as int]@));
        }
        i = i + 1;
    }
    assert(all.take(i as int) =~= all);
    out
}

/// See [`mentions`].
pub fn mentioned(dests: &Vec<String>) -> (r: Vec<String>)
    ensures
        views(r@) == mentions(views(dests@)),
{
    let ghost all = views(dests@);
    let mut out: Vec<String> = Vec::new();
    let mut i: usize = 0;
    assert(all.take(0) =~= Seq::<Seq<char>>::empty());
    assert(views(out@) =~= Seq::<Seq<char>>::empty());
    while i < dests.len()
        invariant
            i <= dests@.len(),
            all == views(dests@),
            views(out@) == mentions(all.take(i as int)),
        decreases dests@.len() - i,
    {
        assert(all.take(i + 1).drop_last() =~= all.take(i as int));
        assert(all.take(i + 1).last() == dests@[i as int]@);
        let mut rest = drop_text(&out, dests[i].as_str());
        let ghost kept = views(rest@);
        rest.insert(0, dests[i].clone());
        assert(views(rest@) =~= seq![dests@[i as int]@] + kept);
        out = rest;
        i = i + 1;
    }
    assert(all.take(i as int) =~= all);
    out
}

/// A text stands in a list without it nowhere, every other text where it stood.
proof fn lemma_without(list: Seq<Seq<char>>, s: Seq<char>)
    ensures
        !without(list, s).contains(s),
        forall|t: Seq<char>| t != s ==> (#[trigger] without(list, s).contains(t) <==> list.contains(t)),
        list.no_duplicates() ==> without(list, s).no_duplicates(),
    decreases list.len(),
{
    if list.len() > 0 {
        let front = list.drop_last();
        lemma_without(front, s);
        let rest = without(front, s);
        let out = without(list, s);
        assert forall|t: Seq<char>| t != s implies (#[trigger] out.contains(t) <==> list.contains(t)) by {
            assert(rest.contains(t) <==> front.contains(t));
            if list.contains(t) {
                let i = choose|i: int| 0 <= i < list.len() && list[i] == t;
                if i < front.len() {
                    assert(front[i] == t);
                    let j = choose|j: int| 0 <= j < rest.len() && rest[j] == t;
                    assert(out[j] == t);
                } else {
                    assert(out.last() == t);
                }
            }
            if out.contains(t) {
                let j = choose|j: int| 0 <= j < out.len() && out[j] == t;
                if list.last() == s || j < rest.len() {
                    assert(rest[j] == t);
                    let i = choose|i: int| 0 <= i < front.len() && front[i] == t;
                    assert(list[i] == t);
                } else {
                    assert(list[list.len() - 1] == t);
                }
            }
        }
        if out.contains(s) {
            let j = choose|j: int| 0 <= j < out.len() && out[j] == s;
            if list.last() == s || j < rest.len() {
                assert(rest[j] == s);
            }
        }
        if list.no_duplicates() {
            assert(front.no_duplicates());
            if list.last() != s {
                assert(!rest.contains(list.last())) by {
                    if rest.contains(list.last()) {
                        assert(front.contains(list.last()));
                        let i = choose|i: int| 0 <= i < front.len() && front[i] == list.last();
                        assert(list[i] == list[list.len() - 1]);
                    }
                }
                assert forall|a: int, b: int| 0 <= a < out.len() && 0 <= b < out.len() && a != b implies out[a] != out[b] by {
                    if a < rest.len() && b < rest.len() {
                        assert(rest[a] != rest[b]);
                    } else if a < rest.len() {
                        assert(rest.contains(rest[a]));
                    } else {
                        assert(rest.contains(rest[b]));
                    }
                }
            }
        }
    }
}

/// Every file that a download mentions is listed once and no other is, and the
/// file mentioned last comes first.
pub proof fn law_mentions_are_each_once(dests: Seq<Seq<char>>)
    ensures
        mentions(dests).no_duplicates(),
        forall|s: Seq<char>| #[trigger] mentions(dests).contains(s) <==> dests.contains(s),
        dests.len() > 0 ==> mentions(dests)[0] == dests.last(),
    decreases dests.len(),
{
    if dests.len() > 0 {
        let front = dests.drop_last();
        law_mentions_are_each_once(front);
        let x = dests.last();
        let m = mentions(front);
        lemma_without(m, x);
        let rest = without(m, x);
        let out = mentions(dests);
        assert(out == seq![x] + rest);
        assert forall|a: int, b: int| 0 <= a < out.len() && 0 <= b < out.len() && a != b implies out[a] != out[b] by {
            if a > 0 && b > 0 {
                assert(out[a] == rest[a - 1] && out[b] == rest[b - 1]);
            } else if a > 0 {
                assert(rest.contains(rest[a - 1]));
            } else {
                assert(rest.contains(rest[b - 1]));
            }
        }
        assert forall|s: Seq<char>| #[trigger] out.contains(s) <==> dests.contains(s) by {
            if out.contains(s) {
                let i = choose|i: int| 0 <= i < out.len() && out[i] == s;
                if i == 0 {
                    assert(dests[dests.len() - 1] == s);
                } else {
                    assert(rest[i - 1] == s);
                    assert(rest.contains(s));
                    assert(m.contains(s));
                    assert(front.contains(s));
                    let j = choose|j: int| 0 <= j < front.len() && front[j] == s;
                    assert(dests[j] == s);
                }
            }
            if dests.contains(s) {
                if s == x {
                    assert(out[0] == s);
                } else {
                    let j = choose|j: int| 0 <= j < dests.len() && dests[j] == s;
                    assert(front[j] == s);
                    assert(m.contains(s));
                    assert(rest.contains(s));
                    let k = choose|k: int| 0 <= k < rest.len() && rest[k] == s;
                    assert(out[k + 1] == s);
                }
            }
        }
    }
}

/// The queue shows the jobs of the open tool, all jobs where none is open, in their order,
/// each as it is.
pub proof fn law_an_open_tool_shows_its_own_jobs(rows: Seq<JobRow>, active: Seq<char>)
    ensures
        scoped(rows, active) == rows.filter(|x: JobRow| active.len() == 0 || x.kind@ == active).map_values(|x: JobRow| shown(x)),
    decreases rows.len(),
{
    reveal(Seq::filter);
    let p = |x: JobRow| active.len() == 0 || x.kind@ == active;
    let wanted = rows.filter(|x: JobRow| active.len() == 0 || x.kind@ == active).map_values(|x: JobRow| shown(x));
    if rows.len() > 0 {
        let front = rows.drop_last();
        law_an_open_tool_shows_its_own_jobs(front, active);
        let kept = front.filter(p);
        assert(rows.filter(p) == (if p(rows.last()) { kept.push(rows.last()) } else { kept }));
        assert(front.filter(|x: JobRow| active.len() == 0 || x.kind@ == active).map_values(|x: JobRow| shown(x)) == scoped(front, active));
    }
    assert(scoped(rows, active) =~= wanted);
}

/// As many jobs are counted in a state as are in it.
pub proof fn law_jobs_are_counted_by_state(rows: Seq<JobRow>, state: Seq<char>)
    ensures
        in_state(rows, state) == rows.filter(|x: JobRow| x.state@ == state).len(),
    decreases rows.len(),
{
    reveal(Seq::filter);
    let p = |x: JobRow| x.state@ == state;
    if rows.len() > 0 {
        let front = rows.drop_last();
        law_jobs_are_counted_by_state(front, state);
        let kept = front.filter(p);
        assert(rows.filter(p) == (if p(rows.last()) { kept.push(rows.last()) } else { kept }));
    }
}

/// The line above the queue speaks of the first job of its kind, and of none where there is
/// none.
pub proof fn law_the_newest_job_of_a_kind_speaks(rows: Seq<JobRow>, kind: Seq<char>)
    ensures
        (exists|i: int|
            0 <= i < rows.len() && (#[trigger] rows[i]).kind@ == kind && newest_of(rows, kind) == Some(rows[i]) && forall|j: int|
                0 <= j < i ==> !((#[trigger] rows[j]).kind@ == kind)) || ((forall|i: int| 0 <= i < rows.len() ==> !((#[trigger] rows[i]).kind@ == kind)) && newest_of(rows, kind) is None),
    decreases rows.len(),
{
    if rows.len() > 0 {
        if rows[0].kind@ == kind {
            assert(rows[0].kind@ == kind && newest_of(rows, kind) == Some(rows[0]));
        } else {
            let rest = rows.skip(1);
            law_the_newest_job_of_a_kind_speaks(rest, kind);
            assert forall|i: int| 0 <= i < rest.len() implies (#[trigger] rest[i]) == rows[i + 1] by {}
            if exists|i: int|
            0 <= i < rest.len() && (#[trigger] rest[i]).kind@ == kind && newest_of(rest, kind) == Some(rest[i]) && forall|j: int|
                0 <= j < i ==> !((#[trigger] rest[j]).kind@ == kind) {
                let i = choose|i: int|
                    0 <= i < rest.len() && (#[trigger] rest[i]).kind@ == kind && newest_of(rest, kind) == Some(rest[i]) && forall|j: int|
                        0 <= j < i ==> !((#[trigger] rest[j]).kind@ == kind);
                assert(rows[i + 1].kind@ == kind && newest_of(rows, kind) == Some(rows[i + 1]));
                assert forall|j: int| 0 <= j < i + 1 implies !((#[trigger] rows[j]).kind@ == kind) by {
                    if j > 0 {
                        assert(!(rest[j - 1].kind@ == kind));
                    }
                }
            } else {
                assert forall|i: int| 0 <= i < rows.len() implies !((#[trigger] rows[i]).kind@ == kind) by {
                    if i > 0 {
                        assert(!(rest[i - 1].kind@ == kind));
                    }
                }
            }
        }
    }
}


/// A row says what its job is: its number, kind, state and progress, its message where it
/// has one, and the name of its tool.
pub proof fn law_a_row_says_what_its_job_is(r: JobRow)
    ensures
        shown(r).id == r.id,
        shown(r).kind == r.kind@,
        shown(r).state == r.state@,
        shown(r).progress == r.progress,
        shown(r).name == label_of(r.kind@),
        r.message matches Some(m) ==> shown(r).message == m@,
        r.message is None ==> shown(r).message.len() == 0,
{
}

/// The queue is idle exactly where no job runs or waits; else it says how many do.
pub proof fn law_the_queue_says_how_many_run_and_wait(rows: Seq<JobRow>)
    ensures
        ({
            let running = rows.filter(|x: JobRow| x.state@ == "running"@).len();
            let queued = rows.filter(|x: JobRow| x.state@ == "queued"@).len();
            &&& running == 0 && queued == 0 ==> summary_text(rows) == "Idle"@
            &&& running > 0 || queued > 0 ==> summary_text(rows) == dec(running) + " running · "@ + dec(queued) + " queued"@
        }),
{
    let (r, q) = ("running"@, "queued"@);
    law_jobs_are_counted_by_state(rows, r);
    law_jobs_are_counted_by_state(rows, q);
    assert((|x: JobRow| x.state@ == r) =~= (|x: JobRow| x.state@ == "running"@));
    assert((|x: JobRow| x.state@ == q) =~= (|x: JobRow| x.state@ == "queued"@));
}

/// What is said of a job that runs is what its message says before the title, or how far it
/// is where it says nothing; of any other job, its state.
pub proof fn law_a_job_says_how_it_stands(r: JobRow)
    ensures
        r.state@ != "running"@ ==> job_note(r) == r.state@,
        r.state@ == "running"@ && r.message is None ==> job_note(r) == dec_int(percent(r.progress)) + "%"@,
        r.state@ == "running"@ ==> (r.message matches Some(m) ==> (trim(m@).len() == 0 ==> job_note(r) == dec_int(
            percent(r.progress),
        ) + "%"@) && (trim(m@).len() > 0 ==> job_note(r) == trim(head(trim(m@), " — "@)))),
{
}

/// A console keeps its end: a line goes behind what is there, and of one that got too long
/// the last eighteen thousand bytes stay, behind an ellipsis.
pub proof fn law_a_console_keeps_its_end(log: Seq<u8>, line: Seq<char>)
    ensures
        ({
            let whole = log + encode_utf8(line) + seq![10u8];
            &&& whole.len() <= 24_000 ==> pushed(log, line) == whole
            &&& whole.len() > 24_000 ==> pushed(log, line).len() == 18_004 && pushed(log, line).skip(4) == whole.skip(
                whole.len() - 18_000,
            )
            &&& pushed(log, line).last() == 10u8
            &&& pushed(log, line).len() <= 24_000
        }),
{
    let whole = log + encode_utf8(line) + seq![10u8];
    assert(longer(log, line) =~= whole);
    if whole.len() > 24_000 {
        assert(pushed(log, line).skip(4) =~= whole.skip(whole.len() - 18_000));
    }
}

/// A message is kept by its end: two hundred characters at most, and whole where it fits.
pub proof fn law_a_message_is_kept_by_its_end(s: Seq<char>)
    ensures
        short_message(s).len() <= 200,
        trim(s).len() <= 200 ==> short_message(s) == trim(s),
        trim(s).len() > 200 ==> short_message(s).len() == 200 && short_message(s) == trim(s).skip(trim(s).len() - 200),
{
}

/// A number that does not fit is held to the nearest that does.
pub proof fn law_a_held_number_is_the_nearest_that_fits(i: int)
    ensures
        i32::MIN <= held(i) <= i32::MAX,
        i32::MIN <= i <= i32::MAX ==> held(i) == i,
        i < i32::MIN ==> held(i) == i32::MIN,
        i > i32::MAX ==> held(i) == i32::MAX,
{
}

/// Above the queue stands what the open tool does, by its newest job, else what the whole
/// queue does; a console begins with its job.
pub proof fn law_the_open_tool_heads_the_queue(rows: Seq<JobRow>, active: Seq<char>, label: Seq<char>, kind: Seq<char>, id: int)
    ensures
        header_text(rows, Seq::empty(), label) == summary_text(rows),
        active.len() > 0 ==> (newest_of(rows, active) matches Some(r) ==> header_text(rows, active, label) == label + " · "@ + job_note(r)),
        active.len() > 0 && newest_of(rows, active) is None ==> header_text(rows, active, label) == label,
        heading(kind, id) == "$ "@ + kind + "  (job #"@ + dec_int(id) + ")"@,
{
}

/// A list without one of its texts has all the others, in order.
pub proof fn law_a_list_without_a_text_has_the_others(list: Seq<Seq<char>>, s: Seq<char>)
    ensures
        without(list, s) == list.filter(|x: Seq<char>| x != s),
    decreases list.len(),
{
    reveal(Seq::filter);
    let p = |x: Seq<char>| x != s;
    let wanted = list.filter(|x: Seq<char>| x != s);
    if list.len() > 0 {
        let front = list.drop_last();
        law_a_list_without_a_text_has_the_others(front, s);
        let kept = front.filter(p);
        assert(list.filter(p) == (if p(list.last()) { kept.push(list.last()) } else { kept }));
        assert(front.filter(|x: Seq<char>| x != s) == without(front, s));
    }
    assert(without(list, s) =~= wanted);
}

} // verus!
