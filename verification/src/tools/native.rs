//! The jobs that the app runs itself: what to do next after each thing that
//! happened, what to report, and how a failure reads.

use vstd::prelude::*;
use crate::double::{of_nat, Double};
use crate::find::{begins, lines, lines_of, starts_with, strip_tail, without_tail};
use crate::order::{order, order_of};
use crate::text::{dec, join, join_strings, pieces, push_dec, split_on, trim_start, views};
use crate::tools::media::over;
use crate::tools::paths::{inside, join_path};
use crate::tools::progress::{part, part_of, Share};
use crate::tools::queue::{short_message, truncate_msg};

verus! {

/// A job that the app runs itself.
#[derive(Debug)]
pub enum Native {
    Hash { files: Vec<String>, manifest: Option<String> },
    FolderDiff { a: String, b: String },
    Rename { dir: String, start: u64 },
    Merge { inputs: Vec<String> },
    /// `sound` is the file that the extracted sound goes to.
    Transcribe { input: String, output: String, sound: String },
    MediaInfo { input: String, output: String },
    ContactSheet { input: String, output: String },
    CacheClean,
    Other,
}

/// A job under way. `stage` counts what is done of it; `lines` holds the hashes
/// made so far, or the files to rename.
#[derive(Debug)]
pub struct NativeRun {
    pub job: Native,
    pub share: Share,
    pub stage: u64,
    pub lines: Vec<String>,
}

/// What happened.
#[derive(Debug)]
pub enum Told {
    /// The job begins.
    Began,
    /// What was asked for is done.
    Done,
    /// It is done, and this line came of it.
    Line(String),
    /// These files are in the folder.
    Listed(Vec<String>),
    /// How two folders compare: the numbers of files only in the one, only in the
    /// other, in both but unlike, and alike.
    Compared(u64, u64, u64, u64),
    /// Yes or no.
    Answer(bool),
    /// A program ended, well or not, and said this.
    Ran(bool, String),
    /// A program could not be started.
    NotStarted(String),
    /// Bytes freed and files removed.
    Swept(u64, u64),
    /// It failed.
    Failed(String),
    /// The job is to stop.
    Stopped,
}

/// What is to be done next.
#[derive(Debug)]
pub enum Act {
    /// Hash a file.
    Hash(String),
    /// Write a text to a file.
    Write(String, String),
    /// Hash every file of a folder and report within a share.
    HashTree(String, Share),
    /// Compare the two folders' hashes.
    Compare,
    /// List the files of a folder.
    List(String),
    /// Rename a file by the pattern, with this number.
    Rename(String, u64),
    /// Read how a clip is made.
    Probe(String),
    /// Tell whether all clips are made alike.
    Match,
    /// Put the clips together.
    Concat,
    /// Run a program.
    Run(&'static str, Vec<String>),
    /// Look for the model of speech.
    FindModel,
    /// Look for the program that transcribes.
    FindWhisper,
    /// Transcribe, into files with this prefix.
    Whisper(String),
    /// Work out the filter of a contact sheet.
    Filter(String),
    /// Remove the cached files.
    Sweep,
    /// The job failed, and why.
    Fail(String),
    /// The job is done.
    Finish,
    /// Nothing: what happened was not waited for.
    Wait,
}

/// What is to be done next, in the language of contracts.
pub enum ActView {
    Hash(Seq<char>),
    Write(Seq<char>, Seq<char>),
    HashTree(Seq<char>, Share),
    Compare,
    List(Seq<char>),
    Rename(Seq<char>, nat),
    Probe(Seq<char>),
    Match,
    Concat,
    Run(Seq<char>, Seq<Seq<char>>),
    FindModel,
    FindWhisper,
    Whisper(Seq<char>),
    Filter(Seq<char>),
    Sweep,
    Fail(Seq<char>),
    Finish,
    Wait,
}

impl View for Act {
    type V = ActView;

    open spec fn view(&self) -> ActView {
        match *self {
            Act::Hash(f) => ActView::Hash(f@),
            Act::Write(f, t) => ActView::Write(f@, t@),
            Act::HashTree(f, s) => ActView::HashTree(f@, s),
            Act::Compare => ActView::Compare,
            Act::List(f) => ActView::List(f@),
            Act::Rename(f, n) => ActView::Rename(f@, n as nat),
            Act::Probe(f) => ActView::Probe(f@),
            Act::Match => ActView::Match,
            Act::Concat => ActView::Concat,
            Act::Run(p, args) => ActView::Run(p@, views(args@)),
            Act::FindModel => ActView::FindModel,
            Act::FindWhisper => ActView::FindWhisper,
            Act::Whisper(p) => ActView::Whisper(p@),
            Act::Filter(f) => ActView::Filter(f@),
            Act::Sweep => ActView::Sweep,
            Act::Fail(e) => ActView::Fail(e@),
            Act::Finish => ActView::Finish,
            Act::Wait => ActView::Wait,
        }
    }
}

/// What to report and what to do: how far the job is, with the message to put
/// beside it if that changes.
#[derive(Debug)]
pub struct Reply {
    pub note: Option<(Double, Option<String>)>,
    pub act: Act,
}

/// A reply and the job's counters after it.
pub struct NextView {
    pub stage: nat,
    pub lines: Seq<Seq<char>>,
    pub note: Option<(Double, Option<Seq<char>>)>,
    pub act: ActView,
}

/// What is reported.
pub open spec fn note_view(n: Option<(Double, Option<String>)>) -> Option<(Double, Option<Seq<char>>)> {
    match n {
        Some((d, Some(m))) => Some((d, Some(m@))),
        Some((d, None)) => Some((d, None)),
        None => None,
    }
}

/// A reply without a report.
pub open spec fn plainly(stage: nat, lines: Seq<Seq<char>>, act: ActView) -> NextView {
    NextView { stage, lines, note: None, act }
}

/// A failure that a program's own words explain.
pub open spec fn failed(what: Seq<char>, said: Seq<char>) -> ActView {
    ActView::Fail(what + short_message(said))
}

/// A program that was not found.
pub open spec fn not_found(what: Seq<char>, e: Seq<char>) -> ActView {
    ActView::Fail(what + " ("@ + e + ")"@)
}

/// The end of a hash job: the lines go to the manifest, or into the message.
pub open spec fn hash_end(manifest: Option<String>, share: Share, n: nat, all: Seq<Seq<char>>) -> NextView {
    match manifest {
        Some(m) => NextView {
            stage: n,
            lines: all,
            note: if n == 0 { None } else { Some((share.at(part(n, n)), None)) },
            act: ActView::Write(m@, join(all, "\n"@)),
        },
        None => NextView {
            stage: n,
            lines: all,
            note: Some((share.end(), Some(join(all, " · "@)))),
            act: ActView::Finish,
        },
    }
}

/// A hash job: file after file, then the end.
pub open spec fn hash_next(
    files: Seq<String>,
    manifest: Option<String>,
    share: Share,
    stage: nat,
    all: Seq<Seq<char>>,
    told: Told,
) -> NextView {
    match told {
        Told::Began => if files.len() == 0 {
            hash_end(manifest, share, 0, all)
        } else {
            plainly(stage, all, ActView::Hash(files[0]@))
        },
        Told::Line(l) => if stage < files.len() {
            if stage + 1 == files.len() {
                hash_end(manifest, share, stage + 1, all.push(l@))
            } else {
                NextView {
                    stage: stage + 1,
                    lines: all.push(l@),
                    note: Some((share.at(part(stage + 1, files.len())), None)),
                    act: ActView::Hash(files[stage as int + 1]@),
                }
            }
        } else {
            plainly(stage, all, ActView::Wait)
        },
        Told::Done => plainly(stage, all, if stage == files.len() { ActView::Finish } else { ActView::Wait }),
        Told::Failed(e) => plainly(
            stage,
            all,
            ActView::Fail(if stage < files.len() { "read "@ + files[stage as int]@ + ": "@ + e@ } else { e@ }),
        ),
        _ => plainly(stage, all, ActView::Wait),
    }
}

/// Half of a share, and the other half.
pub open spec fn first_half(s: Share) -> Share {
    Share { base: s.base, span: over(s.span, 1) }
}

/// See [`first_half`].
pub open spec fn second_half(s: Share) -> Share {
    Share { base: Double::joined(s.base, over(s.span, 1)), span: over(s.span, 1) }
}

/// How two folders compare, in a line.
pub open spec fn compared_text(only_a: nat, only_b: nat, unlike: nat, alike: nat) -> Seq<char> {
    "only-in-A "@ + dec(only_a) + " · only-in-B "@ + dec(only_b) + " · modified "@ + dec(unlike) + " · same "@ + dec(
        alike,
    )
}

/// A comparison of two folders: the one, the other, both.
pub open spec fn diff_next(a: Seq<char>, b: Seq<char>, share: Share, stage: nat, all: Seq<Seq<char>>, told: Told) -> NextView {
    match told {
        Told::Began => plainly(0, all, ActView::HashTree(a, first_half(share))),
        Told::Done => if stage == 0 {
            plainly(1, all, ActView::HashTree(b, second_half(share)))
        } else {
            plainly(2, all, ActView::Compare)
        },
        Told::Compared(x, y, u, s) => NextView {
            stage,
            lines: all,
            note: Some((share.end(), Some(compared_text(x as nat, y as nat, u as nat, s as nat)))),
            act: ActView::Finish,
        },
        Told::Failed(e) => plainly(stage, all, ActView::Fail(e@)),
        _ => plainly(stage, all, ActView::Wait),
    }
}

/// Texts in order.
pub open spec fn sorted(all: Seq<Seq<char>>) -> Seq<Seq<char>> {
    let o = order(all, all.len());
    Seq::new(o.len(), |i: int| all[o[i]])
}

/// A renaming: the folder's files in order, each with the next number.
pub open spec fn rename_next(dir: Seq<char>, start: nat, share: Share, stage: nat, all: Seq<Seq<char>>, told: Told) -> NextView {
    match told {
        Told::Began => plainly(0, all, ActView::List(dir)),
        Told::Failed(e) => plainly(stage, all, ActView::Fail("read dir "@ + dir + ": "@ + e@)),
        Told::Listed(names) => {
            let s = sorted(views(names@));
            plainly(0, s, if s.len() == 0 { ActView::Finish } else { ActView::Rename(s[0], start) })
        },
        Told::Done => if stage < all.len() {
            NextView {
                stage: stage + 1,
                lines: all,
                note: Some((share.at(part(stage + 1, all.len())), None)),
                act: if stage + 1 == all.len() {
                    ActView::Finish
                } else {
                    ActView::Rename(all[stage as int + 1], start + stage + 1)
                },
            }
        } else {
            plainly(stage, all, ActView::Wait)
        },
        _ => plainly(stage, all, ActView::Wait),
    }
}

/// What is said of clips that cannot be put together as they are.
pub const UNLIKE: &'static str = "merge copies streams rather than re-encoding them, and these files do not match — convert them first";

/// A merge: every clip is read, all must be made alike, then they are put
/// together.
pub open spec fn merge_next(inputs: Seq<String>, stage: nat, all: Seq<Seq<char>>, told: Told) -> NextView {
    let n = inputs.len();
    match told {
        Told::Began => plainly(0, all, if n == 0 { ActView::Match } else { ActView::Probe(inputs[0]@) }),
        Told::Answer(yes) => if stage < n {
            if !yes {
                plainly(stage, all, ActView::Fail("could not read "@ + inputs[stage as int]@))
            } else if stage + 1 < n {
                plainly(stage + 1, all, ActView::Probe(inputs[stage as int + 1]@))
            } else {
                plainly(stage + 1, all, ActView::Match)
            }
        } else if stage == n {
            plainly(stage, all, if yes { ActView::Concat } else { ActView::Fail(UNLIKE@) })
        } else {
            plainly(stage, all, ActView::Wait)
        },
        Told::NotStarted(e) => plainly(stage, all, not_found("ffmpeg not found"@, e@)),
        Told::Ran(ok, said) => plainly(stage, all, if ok { ActView::Finish } else { failed("merge failed: "@, said@) }),
        Told::Failed(e) => plainly(stage, all, ActView::Fail(e@)),
        _ => plainly(stage, all, ActView::Wait),
    }
}

/// What is said where the model of speech is missing.
pub const NO_MODEL: &'static str = "whisper model (ggml-tiny-1.0.bin) not found — run `just fetch`, or drop it in the Tools directory set in Settings";

/// What is said where the program that transcribes is missing.
pub const NO_WHISPER: &'static str = "whisper.cpp CLI not found — install whisper.cpp (provides `whisper-cli`), or drop the binary in the Tools directory set in Settings";

/// How the sound of a file is extracted.
pub open spec fn sound_args(input: Seq<char>, sound: Seq<char>) -> Seq<Seq<char>> {
    seq!["-y"@, "-i"@, input, "-ar"@, "16000"@, "-ac"@, "1"@, "-c:a"@, "pcm_s16le"@, sound]
}

/// One fifth.
pub open spec fn fifth() -> Double {
    Double { neg: false, m: 0x1999_9999_9999_9au64, e: -55i32 }
}

/// A transcription: the sound is extracted, then model and program are looked
/// for, then the program runs.
pub open spec fn transcribe_next(
    input: Seq<char>,
    output: Seq<char>,
    sound: Seq<char>,
    share: Share,
    stage: nat,
    all: Seq<Seq<char>>,
    told: Told,
) -> NextView {
    match told {
        Told::Began => plainly(0, all, ActView::Run("ffmpeg"@, sound_args(input, sound))),
        Told::NotStarted(e) => plainly(
            stage,
            all,
            not_found(if stage == 0 { "ffmpeg not found"@ } else { "whisper failed to start"@ }, e@),
        ),
        Told::Ran(ok, said) => if stage == 0 {
            if ok {
                NextView {
                    stage: 1,
                    lines: all,
                    note: Some((Double::joined(share.base, crate::double::product(share.span, fifth())), None)),
                    act: ActView::FindModel,
                }
            } else {
                plainly(stage, all, failed("audio extract failed: "@, said@))
            }
        } else {
            plainly(stage, all, if ok { ActView::Finish } else { failed("whisper failed: "@, said@) })
        },
        Told::Answer(found) => if stage == 1 {
            if found {
                plainly(2, all, ActView::FindWhisper)
            } else {
                plainly(stage, all, ActView::Fail(NO_MODEL@))
            }
        } else if stage == 2 {
            if found {
                plainly(3, all, ActView::Whisper(without_tail(output, ".srt"@)))
            } else {
                plainly(stage, all, ActView::Fail(NO_WHISPER@))
            }
        } else {
            plainly(stage, all, ActView::Wait)
        },
        _ => plainly(stage, all, ActView::Wait),
    }
}

/// How a file is probed for its report.
pub open spec fn probe_args(input: Seq<char>) -> Seq<Seq<char>> {
    seq!["-v"@, "quiet"@, "-print_format"@, "default"@, "-show_format"@, "-show_streams"@, input]
}

/// What the first line of a report that begins with `key` has behind its first
/// equals sign, up to the next.
pub open spec fn entry(ls: Seq<Seq<char>>, key: Seq<char>) -> Seq<char>
    decreases ls.len(),
{
    if ls.len() == 0 {
        Seq::empty()
    } else if begins(trim_start(ls[0]), key) {
        let p = pieces(ls[0], '=');
        if p.len() > 1 { p[1] } else { Seq::empty() }
    } else {
        entry(ls.skip(1), key)
    }
}

/// A report in a line.
pub open spec fn report_line(report: Seq<char>, output: Seq<char>) -> Seq<char> {
    entry(lines(report), "codec_name="@) + " · "@ + entry(lines(report), "duration="@) + "s → "@ + output
}

/// A media report: the file is probed, the report written and summed up.
pub open spec fn report_next(
    input: Seq<char>,
    output: Seq<char>,
    share: Share,
    stage: nat,
    all: Seq<Seq<char>>,
    told: Told,
) -> NextView {
    match told {
        Told::Began => plainly(0, all, ActView::Run("ffprobe"@, probe_args(input))),
        Told::NotStarted(e) => plainly(stage, all, not_found("ffprobe not found"@, e@)),
        Told::Ran(ok, said) => if ok {
            plainly(stage, seq![said@], ActView::Write(output, said@))
        } else {
            plainly(stage, all, failed("ffprobe failed: "@, said@))
        },
        Told::Failed(e) => plainly(stage, all, ActView::Fail("write "@ + output + ": "@ + e@)),
        Told::Done => NextView {
            stage,
            lines: all,
            note: Some(
                (
                    share.end(),
                    Some(report_line(if all.len() == 0 { Seq::empty() } else { all[0] }, output)),
                ),
            ),
            act: ActView::Finish,
        },
        _ => plainly(stage, all, ActView::Wait),
    }
}

/// How a contact sheet is drawn.
pub open spec fn sheet_args(input: Seq<char>, filter: Seq<char>, output: Seq<char>) -> Seq<Seq<char>> {
    seq!["-y"@, "-i"@, input, "-vf"@, filter, "-frames:v"@, "1"@, output]
}

/// A contact sheet: its filter is worked out, then it is drawn.
pub open spec fn sheet_next(input: Seq<char>, output: Seq<char>, stage: nat, all: Seq<Seq<char>>, told: Told) -> NextView {
    match told {
        Told::Began => plainly(0, all, ActView::Filter(input)),
        Told::Line(filter) => plainly(stage, all, ActView::Run("ffmpeg"@, sheet_args(input, filter@, output))),
        Told::NotStarted(e) => plainly(stage, all, not_found("ffmpeg not found"@, e@)),
        Told::Ran(ok, said) => plainly(
            stage,
            all,
            if ok { ActView::Finish } else { failed("contact sheet failed: "@, said@) },
        ),
        _ => plainly(stage, all, ActView::Wait),
    }
}

/// What clearing the cache came to.
pub open spec fn cleared_text(count: nat, bytes: nat) -> Seq<char> {
    "cleared "@ + dec(count) + " cached files · "@ + over(of_nat(bytes), 20).text(1) + " MB freed"@
}

/// A clearing of the cache.
pub open spec fn clean_next(share: Share, stage: nat, all: Seq<Seq<char>>, told: Told) -> NextView {
    match told {
        Told::Began => plainly(0, all, ActView::Sweep),
        Told::Swept(bytes, count) => NextView {
            stage,
            lines: all,
            note: Some((share.end(), Some(cleared_text(count as nat, bytes as nat)))),
            act: ActView::Finish,
        },
        _ => plainly(stage, all, ActView::Wait),
    }
}

/// What a job does next. A job that is told to stop fails as stopped, whatever it
/// was at.
pub open spec fn native_next(run: NativeRun, told: Told) -> NextView {
    let (share, stage, all) = (run.share, run.stage as nat, views(run.lines@));
    match told {
        Told::Stopped => plainly(stage, all, ActView::Fail("stopped"@)),
        _ => match run.job {
            Native::Hash { files, manifest } => hash_next(files@, manifest, share, stage, all, told),
            Native::FolderDiff { a, b } => diff_next(a@, b@, share, stage, all, told),
            Native::Rename { dir, start } => rename_next(dir@, start as nat, share, stage, all, told),
            Native::Merge { inputs } => merge_next(inputs@, stage, all, told),
            Native::Transcribe { input, output, sound } => transcribe_next(
                input@,
                output@,
                sound@,
                share,
                stage,
                all,
                told,
            ),
            Native::MediaInfo { input, output } => report_next(input@, output@, share, stage, all, told),
            Native::ContactSheet { input, output } => sheet_next(input@, output@, stage, all, told),
            Native::CacheClean => clean_next(share, stage, all, told),
            Native::Other => plainly(
                stage,
                all,
                ActView::Fail("this operation is not available in this build"@),
            ),
        },
    }
}

impl NativeRun {
    /// The counters fit the job.
    pub open spec fn wf(&self) -> bool {
        &&& self.share.wf()
        &&& match self.job {
            Native::Hash { files, .. } => self.stage <= files@.len(),
            Native::Rename { start, .. } => self.stage <= self.lines@.len() && start + self.lines@.len() <= u64::MAX,
            Native::Merge { inputs } => self.stage <= inputs@.len(),
            _ => self.stage <= 3,
        }
    }

    /// A job before it begins.
    pub fn new(job: Native, share: Share) -> (r: NativeRun)
        requires
            share.wf(),
        ensures
            r.wf(),
            r.job == job,
            r.share == share,
            r.stage == 0,
            r.lines@ == Seq::<String>::empty(),
    {
        NativeRun { job, share, stage: 0, lines: Vec::new() }
    }
}

fn fail(head: &str, middle: &str, rest: &str, tail: &str) -> (r: Act)
    ensures
        r@ == ActView::Fail(head@ + middle@ + rest@ + tail@),
{
    let mut s = head.to_owned();
    s.append(middle);
    s.append(rest);
    s.append(tail);
    Act::Fail(s)
}

fn fail_missing(what: &str, e: &str) -> (r: Act)
    ensures
        r@ == not_found(what@, e@),
{
    fail(what, " (", e, ")")
}

fn fail_said(what: &str, said: &str) -> (r: Act)
    ensures
        r@ == failed(what@, said@),
{
    let mut s = what.to_owned();
    let t = truncate_msg(said);
    s.append(t.as_str());
    Act::Fail(s)
}

fn silent(act: Act) -> (r: Reply)
    ensures
        r.act == act,
        r.note is None,
{
    Reply { note: None, act }
}

fn end_of_hash(manifest: &Option<String>, share: &Share, n: u64, all: &Vec<String>) -> (r: Reply)
    requires
        share.wf(),
    ensures
        (NextView { stage: n as nat, lines: views(all@), note: note_view(r.note), act: r.act@ }) == hash_end(
            *manifest,
            *share,
            n as nat,
            views(all@),
        ),
{
    match manifest {
        Some(m) => {
            let note = if n == 0 { None } else { Some((share.reached(&part_of(n, n)), None)) };
            Reply { note, act: Act::Write(m.clone(), join_strings(all, "\n")) }
        },
        None => Reply { note: Some((share.done(), Some(join_strings(all, " · ")))), act: Act::Finish },
    }
}

fn halve(d: &Double) -> (r: Double)
    requires
        crate::tools::progress::moderate(*d),
    ensures
        r == over(*d, 1),
        r.wf(),
        !r.neg,
        -401 <= r.e <= 100,
{
    if d.m == 0 {
        *d
    } else {
        Double { neg: d.neg, m: d.m, e: d.e - 1 }
    }
}

fn compared(only_a: u64, only_b: u64, unlike: u64, alike: u64) -> (r: String)
    ensures
        r@ == compared_text(only_a as nat, only_b as nat, unlike as nat, alike as nat),
{
    let mut s = "only-in-A ".to_owned();
    push_dec(&mut s, only_a);
    s.append(" · only-in-B ");
    push_dec(&mut s, only_b);
    s.append(" · modified ");
    push_dec(&mut s, unlike);
    s.append(" · same ");
    push_dec(&mut s, alike);
    s
}

fn sort_texts(v: &Vec<String>) -> (r: Vec<String>)
    ensures
        views(r@) == sorted(views(v@)),
        r@.len() == v@.len(),
{
    let o = order_of(v);
    let ghost all = views(v@);
    let mut out: Vec<String> = Vec::new();
    let mut i: usize = 0;
    while i < o.len()
        invariant
            i <= o@.len(),
            o@.len() == v@.len(),
            out@.len() == i,
            forall|j: int| 0 <= j < o@.len() ==> #[trigger] o@[j] < v@.len(),
            forall|j: int| 0 <= j < i ==> (#[trigger] out@[j])@ == v@[o@[j] as int]@,
        decreases o@.len() - i,
    {
        out.push(v[o[i]].clone());
        i = i + 1;
    }
    proof {
        let places = crate::order::places(o@);
        assert(places == order(all, all.len()));
        assert forall|j: int| 0 <= j < o@.len() implies views(out@)[j] == all[places[j]] by {
            assert(out@[j]@ == v@[o@[j] as int]@);
            assert(places[j] == o@[j]);
        }
        assert(views(out@) =~= sorted(all));
    }
    out
}

fn entry_of(ls: &Vec<String>, key: &str) -> (r: String)
    ensures
        r@ == entry(views(ls@), key@),
{
    let ghost all = views(ls@);
    let mut i: usize = 0;
    assert(all.skip(0) =~= all);
    let none = String::new();
    assert(none@ =~= Seq::<char>::empty());
    while i < ls.len()
        invariant
            i <= ls@.len(),
            all == views(ls@),
            none@ == Seq::<char>::empty(),
            entry(all, key@) == entry(all.skip(i as int), key@),
        decreases ls@.len() - i,
    {
        assert(all.skip(i as int)[0] == ls@[i as int]@);
        assert(all.skip(i as int).skip(1) =~= all.skip(i + 1));
        let t = lead_trimmed(ls[i].as_str());
        if starts_with(t.as_str(), key) {
            let p = split_on(ls[i].as_str(), '=');
            assert(views(p@) == pieces(ls@[i as int]@, '='));
            if p.len() > 1 {
                assert(views(p@)[1] == p@[1]@);
                return p[1].clone();
            }
            return none;
        }
        i = i + 1;
    }
    none
}

fn lead_trimmed(s: &str) -> (r: String)
    ensures
        r@ == trim_start(s@),
{
    let v = crate::text::chars_of(s);
    let n: usize = v.len();
    let mut i: usize = 0;
    assert(v@.skip(0) =~= v@);
    while i < n && crate::text::space(v[i])
        invariant
            n == v@.len(),
            i <= n,
            trim_start(v@) == trim_start(v@.skip(i as int)),
        decreases n - i,
    {
        assert(v@.skip(i as int)[0] == v@[i as int]);
        assert(v@.skip(i as int).skip(1) =~= v@.skip(i + 1));
        i = i + 1;
    }
    if i < n {
        assert(v@.skip(i as int)[0] == v@[i as int]);
    }
    assert(v@.subrange(i as int, n as int) =~= v@.skip(i as int));
    crate::text::slice_of(&v, i, n)
}

fn line_of_report(report: &str, output: &str) -> (r: String)
    ensures
        r@ == report_line(report@, output@),
{
    let ls = lines_of(report);
    let mut s = entry_of(&ls, "codec_name=");
    s.append(" · ");
    let d = entry_of(&ls, "duration=");
    s.append(d.as_str());
    s.append("s → ");
    s.append(output);
    s
}

fn cleared(count: u64, bytes: u64) -> (r: String)
    ensures
        r@ == cleared_text(count as nat, bytes as nat),
{
    let mut s = "cleared ".to_owned();
    push_dec(&mut s, count);
    s.append(" cached files · ");
    let x = Double::from_u64(bytes);
    let y = if x.m == 0 { x } else { Double { neg: x.neg, m: x.m, e: x.e - 20 } };
    y.push_text(&mut s, 1);
    s.append(" MB freed");
    s
}

fn call_extract(input: &str, sound: &str) -> (r: Act)
    ensures
        r@ == ActView::Run("ffmpeg"@, sound_args(input@, sound@)),
{
    let args = vec![
        "-y".to_owned(),
        "-i".to_owned(),
        input.to_owned(),
        "-ar".to_owned(),
        "16000".to_owned(),
        "-ac".to_owned(),
        "1".to_owned(),
        "-c:a".to_owned(),
        "pcm_s16le".to_owned(),
        sound.to_owned(),
    ];
    assert(views(args@) =~= sound_args(input@, sound@));
    Act::Run("ffmpeg", args)
}

fn call_probe(input: &str) -> (r: Act)
    ensures
        r@ == ActView::Run("ffprobe"@, probe_args(input@)),
{
    let args = vec![
        "-v".to_owned(),
        "quiet".to_owned(),
        "-print_format".to_owned(),
        "default".to_owned(),
        "-show_format".to_owned(),
        "-show_streams".to_owned(),
        input.to_owned(),
    ];
    assert(views(args@) =~= probe_args(input@));
    Act::Run("ffprobe", args)
}

fn call_sheet(input: &str, filter: &str, output: &str) -> (r: Act)
    ensures
        r@ == ActView::Run("ffmpeg"@, sheet_args(input@, filter@, output@)),
{
    let args = vec![
        "-y".to_owned(),
        "-i".to_owned(),
        input.to_owned(),
        "-vf".to_owned(),
        filter.to_owned(),
        "-frames:v".to_owned(),
        "1".to_owned(),
        output.to_owned(),
    ];
    assert(views(args@) =~= sheet_args(input@, filter@, output@));
    Act::Run("ffmpeg", args)
}

/// What a job's counters and reply come to.
pub open spec fn outcome(run: NativeRun, r: Reply) -> NextView {
    NextView { stage: run.stage as nat, lines: views(run.lines@), note: note_view(r.note), act: r.act@ }
}

impl NativeRun {
    #[verifier::rlimit(30)]
    #[verifier::spinoff_prover]
    fn hash_step(&mut self, told: Told) -> (r: Reply)
        requires
            old(self).wf(),
            old(self).job is Hash,
            !(told is Stopped),
        ensures
            final(self).wf(),
            final(self).job == old(self).job,
            final(self).share == old(self).share,
            outcome(*final(self), r) == native_next(*old(self), told),
    {
        let share = self.share;
        let ghost all = views(self.lines@);
        match &self.job {
            Native::Hash { files, manifest } => {
                let n: usize = files.len();
                match told {
                    Told::Began => {
                        if n == 0 {
                            self.stage = 0;
                            end_of_hash(manifest, &share, 0, &self.lines)
                        } else {
                            silent(Act::Hash(files[0].clone()))
                        }
                    },
                    Told::Line(l) => {
                        if self.stage < n as u64 {
                            let i: usize = self.stage as usize + 1;
                            let ghost line = l@;
                            self.lines.push(l);
                            assert(views(self.lines@) =~= all.push(line));
                            self.stage = i as u64;
                            if i == n {
                                end_of_hash(manifest, &share, i as u64, &self.lines)
                            } else {
                                Reply {
                                    note: Some((share.reached(&part_of(i as u64, n as u64)), None)),
                                    act: Act::Hash(files[i].clone()),
                                }
                            }
                        } else {
                            silent(Act::Wait)
                        }
                    },
                    Told::Done => {
                        if self.stage == n as u64 {
                            silent(Act::Finish)
                        } else {
                            silent(Act::Wait)
                        }
                    },
                    Told::Failed(e) => {
                        if self.stage < n as u64 {
                            silent(fail("read ", files[self.stage as usize].as_str(), ": ", e.as_str()))
                        } else {
                            silent(Act::Fail(e))
                        }
                    },
                    _ => silent(Act::Wait),
                }
            },
            _ => silent(Act::Wait),
        }
    }

    #[verifier::rlimit(30)]
    #[verifier::spinoff_prover]
    fn diff_step(&mut self, told: Told) -> (r: Reply)
        requires
            old(self).wf(),
            old(self).job is FolderDiff,
            !(told is Stopped),
        ensures
            final(self).wf(),
            final(self).job == old(self).job,
            final(self).share == old(self).share,
            outcome(*final(self), r) == native_next(*old(self), told),
    {
        let share = self.share;
        match &self.job {
            Native::FolderDiff { a, b } => match told {
                Told::Began => {
                    self.stage = 0;
                    silent(Act::HashTree(a.clone(), Share { base: share.base, span: halve(&share.span) }))
                },
                Told::Done => {
                    if self.stage == 0 {
                        self.stage = 1;
                        let h = halve(&share.span);
                        silent(Act::HashTree(b.clone(), Share { base: share.base.join(&h), span: h }))
                    } else {
                        self.stage = 2;
                        silent(Act::Compare)
                    }
                },
                Told::Compared(x, y, u, s) => {
                    Reply { note: Some((share.done(), Some(compared(x, y, u, s)))), act: Act::Finish }
                },
                Told::Failed(e) => silent(Act::Fail(e)),
                _ => silent(Act::Wait),
            },
            _ => silent(Act::Wait),
        }
    }

    #[verifier::rlimit(30)]
    #[verifier::spinoff_prover]
    fn rename_step(&mut self, told: Told) -> (r: Reply)
        requires
            old(self).wf(),
            old(self).job is Rename,
            !(told is Stopped),
            told matches Told::Listed(names) ==> old(self).job->start + names@.len() <= u64::MAX,
        ensures
            final(self).wf(),
            final(self).job == old(self).job,
            final(self).share == old(self).share,
            outcome(*final(self), r) == native_next(*old(self), told),
    {
        let share = self.share;
        match &self.job {
            Native::Rename { dir, start } => match told {
                Told::Began => {
                    self.stage = 0;
                    silent(Act::List(dir.clone()))
                },
                Told::Failed(e) => silent(fail("read dir ", dir.as_str(), ": ", e.as_str())),
                Told::Listed(names) => {
                    let s = sort_texts(&names);
                    let act = if s.len() == 0 {
                        Act::Finish
                    } else {
                        assert(views(s@)[0] == s@[0]@);
                        Act::Rename(s[0].clone(), *start)
                    };
                    self.lines = s;
                    self.stage = 0;
                    silent(act)
                },
                Told::Done => {
                    let n: usize = self.lines.len();
                    if self.stage < n as u64 {
                        let i: usize = self.stage as usize + 1;
                        self.stage = i as u64;
                        let act = if i == n {
                            Act::Finish
                        } else {
                            assert(views(self.lines@)[i as int] == self.lines@[i as int]@);
                            Act::Rename(self.lines[i].clone(), *start + i as u64)
                        };
                        Reply { note: Some((share.reached(&part_of(i as u64, n as u64)), None)), act }
                    } else {
                        silent(Act::Wait)
                    }
                },
                _ => silent(Act::Wait),
            },
            _ => silent(Act::Wait),
        }
    }

    #[verifier::rlimit(30)]
    #[verifier::spinoff_prover]
    fn merge_step(&mut self, told: Told) -> (r: Reply)
        requires
            old(self).wf(),
            old(self).job is Merge,
            !(told is Stopped),
        ensures
            final(self).wf(),
            final(self).job == old(self).job,
            final(self).share == old(self).share,
            outcome(*final(self), r) == native_next(*old(self), told),
    {
        match &self.job {
            Native::Merge { inputs } => {
                let n: usize = inputs.len();
                match told {
                    Told::Began => {
                        self.stage = 0;
                        if n == 0 {
                            silent(Act::Match)
                        } else {
                            silent(Act::Probe(inputs[0].clone()))
                        }
                    },
                    Told::Answer(yes) => {
                        if self.stage < n as u64 {
                            let i: usize = self.stage as usize;
                            if !yes {
                                let mut s = "could not read ".to_owned();
                                s.append(inputs[i].as_str());
                                silent(Act::Fail(s))
                            } else {
                                self.stage = i as u64 + 1;
                                if i + 1 < n {
                                    silent(Act::Probe(inputs[i + 1].clone()))
                                } else {
                                    silent(Act::Match)
                                }
                            }
                        } else if yes {
                            silent(Act::Concat)
                        } else {
                            silent(Act::Fail(UNLIKE.to_owned()))
                        }
                    },
                    Told::NotStarted(e) => silent(fail_missing("ffmpeg not found", e.as_str())),
                    Told::Ran(ok, said) => {
                        if ok {
                            silent(Act::Finish)
                        } else {
                            silent(fail_said("merge failed: ", said.as_str()))
                        }
                    },
                    Told::Failed(e) => silent(Act::Fail(e)),
                    _ => silent(Act::Wait),
                }
            },
            _ => silent(Act::Wait),
        }
    }

    #[verifier::rlimit(30)]
    #[verifier::spinoff_prover]
    fn transcribe_step(&mut self, told: Told) -> (r: Reply)
        requires
            old(self).wf(),
            old(self).job is Transcribe,
            !(told is Stopped),
        ensures
            final(self).wf(),
            final(self).job == old(self).job,
            final(self).share == old(self).share,
            outcome(*final(self), r) == native_next(*old(self), told),
    {
        let share = self.share;
        match &self.job {
            Native::Transcribe { input, output, sound } => match told {
                Told::Began => {
                    self.stage = 0;
                    silent(call_extract(input.as_str(), sound.as_str()))
                },
                Told::NotStarted(e) => {
                    if self.stage == 0 {
                        silent(fail_missing("ffmpeg not found", e.as_str()))
                    } else {
                        silent(fail_missing("whisper failed to start", e.as_str()))
                    }
                },
                Told::Ran(ok, said) => {
                    if self.stage == 0 {
                        if ok {
                            self.stage = 1;
                            let fifth = Double { neg: false, m: 0x1999_9999_9999_9a, e: -55 };
                            let x = share.span.mul(&fifth);
                            Reply { note: Some((share.base.join(&x), None)), act: Act::FindModel }
                        } else {
                            silent(fail_said("audio extract failed: ", said.as_str()))
                        }
                    } else if ok {
                        silent(Act::Finish)
                    } else {
                        silent(fail_said("whisper failed: ", said.as_str()))
                    }
                },
                Told::Answer(found) => {
                    if self.stage == 1 {
                        if found {
                            self.stage = 2;
                            silent(Act::FindWhisper)
                        } else {
                            silent(Act::Fail(NO_MODEL.to_owned()))
                        }
                    } else if self.stage == 2 {
                        if found {
                            self.stage = 3;
                            silent(Act::Whisper(strip_tail(output.as_str(), ".srt")))
                        } else {
                            silent(Act::Fail(NO_WHISPER.to_owned()))
                        }
                    } else {
                        silent(Act::Wait)
                    }
                },
                _ => silent(Act::Wait),
            },
            _ => silent(Act::Wait),
        }
    }

    #[verifier::rlimit(30)]
    #[verifier::spinoff_prover]
    fn report_step(&mut self, told: Told) -> (r: Reply)
        requires
            old(self).wf(),
            old(self).job is MediaInfo,
            !(told is Stopped),
        ensures
            final(self).wf(),
            final(self).job == old(self).job,
            final(self).share == old(self).share,
            outcome(*final(self), r) == native_next(*old(self), told),
    {
        let share = self.share;
        let ghost all = views(self.lines@);
        match &self.job {
            Native::MediaInfo { input, output } => match told {
                Told::Began => {
                    self.stage = 0;
                    silent(call_probe(input.as_str()))
                },
                Told::NotStarted(e) => silent(fail_missing("ffprobe not found", e.as_str())),
                Told::Ran(ok, said) => {
                    if ok {
                        let act = Act::Write(output.clone(), said.clone());
                        let ghost text = said@;
                        let lines = vec![said];
                        assert(views(lines@) =~= seq![text]);
                        self.lines = lines;
                        silent(act)
                    } else {
                        silent(fail_said("ffprobe failed: ", said.as_str()))
                    }
                },
                Told::Failed(e) => silent(fail("write ", output.as_str(), ": ", e.as_str())),
                Told::Done => {
                    let none = String::new();
                    assert(none@ =~= Seq::<char>::empty());
                    let line = if self.lines.len() == 0 {
                        line_of_report(none.as_str(), output.as_str())
                    } else {
                        assert(all[0] == self.lines@[0]@);
                        line_of_report(self.lines[0].as_str(), output.as_str())
                    };
                    Reply { note: Some((share.done(), Some(line))), act: Act::Finish }
                },
                _ => silent(Act::Wait),
            },
            _ => silent(Act::Wait),
        }
    }

    #[verifier::rlimit(30)]
    #[verifier::spinoff_prover]
    fn sheet_step(&mut self, told: Told) -> (r: Reply)
        requires
            old(self).wf(),
            old(self).job is ContactSheet,
            !(told is Stopped),
        ensures
            final(self).wf(),
            final(self).job == old(self).job,
            final(self).share == old(self).share,
            outcome(*final(self), r) == native_next(*old(self), told),
    {
        match &self.job {
            Native::ContactSheet { input, output } => match told {
                Told::Began => {
                    self.stage = 0;
                    silent(Act::Filter(input.clone()))
                },
                Told::Line(filter) => {
                    silent(call_sheet(input.as_str(), filter.as_str(), output.as_str()))
                },
                Told::NotStarted(e) => silent(fail_missing("ffmpeg not found", e.as_str())),
                Told::Ran(ok, said) => {
                    if ok {
                        silent(Act::Finish)
                    } else {
                        silent(fail_said("contact sheet failed: ", said.as_str()))
                    }
                },
                _ => silent(Act::Wait),
            },
            _ => silent(Act::Wait),
        }
    }

    /// Takes in what happened and says what to report and what to do next.
    pub fn tools_run_native(&mut self, told: Told) -> (r: Reply)
        requires
            old(self).wf(),
            old(self).job matches Native::Rename { start, .. } ==> (told matches Told::Listed(names) ==> start
                + names@.len() <= u64::MAX),
        ensures
            final(self).wf(),
            final(self).job == old(self).job,
            final(self).share == old(self).share,
            outcome(*final(self), r) == native_next(*old(self), told),
    {
        if let Told::Stopped = told {
            return silent(Act::Fail("stopped".to_owned()));
        }
        let share = self.share;
        match &self.job {
            Native::Hash { .. } => self.hash_step(told),
            Native::FolderDiff { .. } => self.diff_step(told),
            Native::Rename { .. } => self.rename_step(told),
            Native::Merge { .. } => self.merge_step(told),
            Native::Transcribe { .. } => self.transcribe_step(told),
            Native::MediaInfo { .. } => self.report_step(told),
            Native::ContactSheet { .. } => self.sheet_step(told),
            Native::CacheClean => match told {
                Told::Began => {
                    self.stage = 0;
                    silent(Act::Sweep)
                },
                Told::Swept(bytes, count) => {
                    Reply { note: Some((share.done(), Some(cleared(count, bytes)))), act: Act::Finish }
                },
                _ => silent(Act::Wait),
            },
            Native::Other => silent(Act::Fail("this operation is not available in this build".to_owned())),
        }
    }
}

/// A job that is told to stop fails as stopped, whatever it is and whatever it
/// was at, and keeps what it had counted.
pub proof fn law_a_stop_always_stops(run: NativeRun)
    ensures
        native_next(run, Told::Stopped).act == ActView::Fail("stopped"@),
        native_next(run, Told::Stopped).stage == run.stage,
        native_next(run, Told::Stopped).lines == views(run.lines@),
{
}

/// The files of a renaming are taken in the order of their names, none left out
/// and none taken twice.
pub proof fn law_renaming_takes_each_file_once(names: Seq<Seq<char>>)
    ensures
        sorted(names).len() == names.len(),
        crate::order::all_places(order(names, names.len()), names.len()),
        forall|i: int, j: int|
            0 <= i < j < names.len() ==> !crate::order::precedes(#[trigger] sorted(names)[j], #[trigger] sorted(names)[i]),
{
    crate::order::law_order_sorts(names, names.len());
    let o = order(names, names.len());
    assert forall|i: int, j: int| 0 <= i < j < names.len() implies !crate::order::precedes(
        #[trigger] sorted(names)[j],
        #[trigger] sorted(names)[i],
    ) by {
        assert(!crate::order::precedes(names[o[j]], names[o[i]]));
    }
}

/// Whether a file may take a new name: never over a file that is there already.
pub fn may_rename(unchanged: bool, taken: bool) -> (r: bool)
    ensures
        r == (!unchanged && !taken),
{
    !unchanged && !taken
}

/// A file that differs between two folders: how, where it is in its folder, and
/// where it is on the disk.
#[derive(Debug)]
pub struct DiffRow {
    pub kind: &'static str,
    pub rel: String,
    pub full: String,
}

/// What a row of a comparison reads.
pub type DiffView = (Seq<char>, Seq<char>, Seq<char>);

impl View for DiffRow {
    type V = DiffView;

    open spec fn view(&self) -> DiffView {
        (self.kind@, self.rel@, self.full@)
    }
}

/// The rows as they read.
pub open spec fn diffs_view(v: Seq<DiffRow>) -> Seq<DiffView> {
    Seq::new(v.len(), |i: int| v[i]@)
}

/// The rows of one sort, 120 at most.
pub open spec fn rows_of_kind(kind: Seq<char>, rels: Seq<Seq<char>>, root: Seq<char>, sep: char) -> Seq<DiffView> {
    Seq::new(
        if rels.len() < 120 { rels.len() } else { 120 },
        |i: int| (kind, rels[i], inside(root, sep, rels[i])),
    )
}

/// How two folders differ, file by file: what the second has more, what is
/// unlike, what the first has more.
pub open spec fn diff_view(
    only_a: Seq<Seq<char>>,
    only_b: Seq<Seq<char>>,
    unlike: Seq<Seq<char>>,
    a: Seq<char>,
    b: Seq<char>,
    sep: char,
) -> Seq<DiffView> {
    rows_of_kind("only-b"@, only_b, b, sep) + rows_of_kind("modified"@, unlike, b, sep) + rows_of_kind(
        "only-a"@,
        only_a,
        a,
        sep,
    )
}

fn push_kind(out: &mut Vec<DiffRow>, kind: &'static str, rels: &Vec<String>, root: &str, sep: char)
    ensures
        diffs_view(final(out)@) == diffs_view(old(out)@) + rows_of_kind(kind@, views(rels@), root@, sep),
{
    let ghost base = diffs_view(out@);
    let ghost all = rows_of_kind(kind@, views(rels@), root@, sep);
    let mut i: usize = 0;
    assert(base + all.take(0) =~= base);
    while i < rels.len() && i < 120
        invariant
            i <= rels@.len(),
            i <= 120,
            all == rows_of_kind(kind@, views(rels@), root@, sep),
            diffs_view(out@) == base + all.take(i as int),
        decreases rels@.len() - i,
    {
        let ghost was = diffs_view(out@);
        let row = DiffRow { kind, rel: rels[i].clone(), full: join_path(root, sep, rels[i].as_str()) };
        assert(views(rels@)[i as int] == rels@[i as int]@);
        assert(row@ == all[i as int]);
        out.push(row);
        assert(diffs_view(out@) =~= was.push(all[i as int]));
        assert(diffs_view(out@) =~= base + all.take(i + 1));
        i = i + 1;
    }
    assert(all.take(i as int) =~= all);
}

/// See [`diff_view`].
pub fn folderdiff_rows(
    only_a: &Vec<String>,
    only_b: &Vec<String>,
    unlike: &Vec<String>,
    a: &str,
    b: &str,
    sep: char,
) -> (r: Vec<DiffRow>)
    ensures
        diffs_view(r@) == diff_view(views(only_a@), views(only_b@), views(unlike@), a@, b@, sep),
        r@.len() <= 360,
{
    let mut out: Vec<DiffRow> = Vec::new();
    assert(diffs_view(out@) =~= Seq::<DiffView>::empty());
    push_kind(&mut out, "only-b", only_b, b, sep);
    push_kind(&mut out, "modified", unlike, b, sep);
    push_kind(&mut out, "only-a", only_a, a, sep);
    assert(diffs_view(out@) =~= diff_view(views(only_a@), views(only_b@), views(unlike@), a@, b@, sep));
    assert(diffs_view(out@).len() == out@.len());
    out
}

/// The title of a comparison's rows.
pub fn diff_title(rows: usize) -> (r: String)
    ensures
        r@ == "Folder diff · "@ + dec(rows as nat) + " changes"@,
{
    let mut s = "Folder diff · ".to_owned();
    push_dec(&mut s, rows as u64);
    s.append(" changes");
    s
}

/// A hash job takes file after file: each line goes behind those before it, and the next
/// file is taken, until all are done; then the lines go to the manifest, one to a line, or
/// into the message.
pub proof fn law_every_file_is_hashed_in_turn(
    files: Seq<String>,
    manifest: Option<String>,
    share: Share,
    stage: nat,
    all: Seq<Seq<char>>,
    line: String,
    told: Told,
)
    requires
        stage < files.len(),
    ensures
        hash_next(files, manifest, share, 0, all, Told::Began).act == ActView::Hash(files[0]@),
        ({
            let n = hash_next(files, manifest, share, stage, all, Told::Line(line));
            &&& n.stage == stage + 1
            &&& n.lines == all.push(line@)
            &&& stage + 1 < files.len() ==> n.act == ActView::Hash(files[stage as int + 1]@) && n.note == Some((share.at(part(stage + 1, files.len())), None::<Seq<char>>))
            &&& stage + 1 == files.len() ==> match manifest {
                Some(m) => n.act == ActView::Write(m@, join(all.push(line@), "\n"@)),
                None => n.act == ActView::Finish && n.note == Some((share.end(), Some(join(all.push(line@), " · "@)))),
            }
        }),
        told matches Told::Failed(e) ==> hash_next(files, manifest, share, stage, all, told).act == ActView::Fail(
            "read "@ + files[stage as int]@ + ": "@ + e@,
        ),
        hash_next(files, manifest, share, files.len(), all, Told::Done).act == ActView::Finish,
{
}

/// Two folders are compared once both are hashed, the first before the second, each in one
/// half of the job; the message counts what only one has, what differs and what is alike.
pub proof fn law_both_folders_are_hashed_before_they_are_compared(
    a: Seq<char>,
    b: Seq<char>,
    share: Share,
    stage: nat,
    all: Seq<Seq<char>>,
    x: u64,
    y: u64,
    u: u64,
    s: u64,
)
    ensures
        diff_next(a, b, share, stage, all, Told::Began).act == ActView::HashTree(a, first_half(share)),
        diff_next(a, b, share, 0, all, Told::Done).act == ActView::HashTree(b, second_half(share)),
        diff_next(a, b, share, 0, all, Told::Done).stage == 1,
        diff_next(a, b, share, 1, all, Told::Done).act == ActView::Compare,
        diff_next(a, b, share, stage, all, Told::Compared(x, y, u, s)).act == ActView::Finish,
        diff_next(a, b, share, stage, all, Told::Compared(x, y, u, s)).note == Some(
            (
                share.end(),
                Some(
                    "only-in-A "@ + dec(x as nat) + " · only-in-B "@ + dec(y as nat) + " · modified "@ + dec(u as nat) + " · same "@
                        + dec(s as nat),
                ),
            ),
        ),
        first_half(share).base == share.base,
        first_half(share).span == second_half(share).span,
        second_half(share).base == first_half(share).end(),
{
}

/// Clips are put together only once each of them could be read, in order, and all were found
/// to be alike.
pub proof fn law_clips_are_read_and_alike_before_they_are_merged(
    inputs: Seq<String>,
    stage: nat,
    all: Seq<Seq<char>>,
    told: Told,
)
    requires
        inputs.len() > 0,
    ensures
        merge_next(inputs, stage, all, Told::Began).act == ActView::Probe(inputs[0]@),
        stage < inputs.len() ==> merge_next(inputs, stage, all, Told::Answer(false)).act == ActView::Fail(
            "could not read "@ + inputs[stage as int]@,
        ),
        stage < inputs.len() ==> merge_next(inputs, stage, all, Told::Answer(true)).stage == stage + 1,
        stage + 1 < inputs.len() ==> merge_next(inputs, stage, all, Told::Answer(true)).act == ActView::Probe(inputs[stage as int + 1]@),
        stage + 1 == inputs.len() ==> merge_next(inputs, stage, all, Told::Answer(true)).act == ActView::Match,
        merge_next(inputs, stage, all, told).act == ActView::Concat ==> stage == inputs.len() && told == Told::Answer(true),
        merge_next(inputs, inputs.len(), all, Told::Answer(false)).act is Fail,
        merge_next(inputs, stage, all, told).act == ActView::Finish ==> (told matches Told::Ran(ok, _) && ok),
{
}

/// A transcription extracts the sound, looks for a model and then for the program, and runs
/// it; it goes on only where each was there, and ends well only where the program did.
pub proof fn law_a_transcription_takes_its_steps_in_order(
    input: Seq<char>,
    output: Seq<char>,
    sound: Seq<char>,
    share: Share,
    stage: nat,
    all: Seq<Seq<char>>,
    said: String,
)
    ensures
        ({
            let next = |stage: nat, told: Told| transcribe_next(input, output, sound, share, stage, all, told);
            &&& next(0, Told::Began).act == ActView::Run(
                "ffmpeg"@,
                seq!["-y"@, "-i"@, input, "-ar"@, "16000"@, "-ac"@, "1"@, "-c:a"@, "pcm_s16le"@, sound],
            )
            &&& next(0, Told::Ran(true, said)).stage == 1 && next(0, Told::Ran(true, said)).act == ActView::FindModel
            &&& next(0, Told::Ran(false, said)).act == ActView::Fail("audio extract failed: "@ + short_message(said@))
            &&& next(1, Told::Answer(true)).stage == 2 && next(1, Told::Answer(true)).act == ActView::FindWhisper
            &&& next(1, Told::Answer(false)).act is Fail
            &&& next(2, Told::Answer(true)).stage == 3 && next(2, Told::Answer(true)).act == ActView::Whisper(
                without_tail(output, ".srt"@),
            )
            &&& next(2, Told::Answer(false)).act is Fail
            &&& next(3, Told::Ran(true, said)).act == ActView::Finish
            &&& next(3, Told::Ran(false, said)).act == ActView::Fail("whisper failed: "@ + short_message(said@))
        }),
{
}

/// A report is probed, written where it was asked for, and summed up by its codec and its
/// length.
pub proof fn law_a_report_is_written_and_summed_up(
    input: Seq<char>,
    output: Seq<char>,
    share: Share,
    stage: nat,
    all: Seq<Seq<char>>,
    said: String,
)
    ensures
        report_next(input, output, share, stage, all, Told::Began).act == ActView::Run(
            "ffprobe"@,
            seq!["-v"@, "quiet"@, "-print_format"@, "default"@, "-show_format"@, "-show_streams"@, input],
        ),
        report_next(input, output, share, stage, all, Told::Ran(true, said)).act == ActView::Write(output, said@),
        report_next(input, output, share, stage, all, Told::Ran(true, said)).lines == seq![said@],
        report_next(input, output, share, stage, all, Told::Ran(false, said)).act == ActView::Fail(
            "ffprobe failed: "@ + short_message(said@),
        ),
        report_next(input, output, share, stage, seq![said@], Told::Done).note == Some(
            (
                share.end(),
                Some(entry(lines(said@), "codec_name="@) + " · "@ + entry(lines(said@), "duration="@) + "s → "@ + output),
            ),
        ),
        report_next(input, output, share, stage, all, Told::Done).act == ActView::Finish,
{
}

/// What a report says under a key stands behind the equals sign of the first line that
/// begins with the key.
pub proof fn law_a_report_is_read_by_its_key(before: Seq<Seq<char>>, key: Seq<char>, value: Seq<char>, after: Seq<Seq<char>>)
    requires
        key.len() > 0 && !crate::text::is_space(key[0]) && !key.contains('='),
        !value.contains('='),
        forall|i: int| 0 <= i < before.len() ==> !begins(trim_start(#[trigger] before[i]), key.push('=')),
    ensures
        entry(before + seq![key.push('=') + value] + after, key.push('=')) == value,
        entry(before, key.push('=')).len() == 0,
    decreases before.len(),
{
    let line = key.push('=') + value;
    let all = before + seq![line] + after;
    if before.len() == 0 {
        assert(all[0] == line);
        assert(line[0] == key[0]);
        reveal_with_fuel(trim_start, 2);
        assert(line.take(key.len() as int + 1) =~= key.push('='));
        lemma_two_pieces(key, value, '=');
    } else {
        let rest = before.skip(1);
        assert(all[0] == before[0]);
        assert(all.skip(1) =~= rest + seq![line] + after);
        assert forall|i: int| 0 <= i < rest.len() implies !begins(trim_start(#[trigger] rest[i]), key.push('=')) by {
            assert(rest[i] == before[i + 1]);
        }
        law_a_report_is_read_by_its_key(rest, key, value, after);
    }
}

proof fn lemma_two_pieces(a: Seq<char>, b: Seq<char>, c: char)
    requires
        !a.contains(c),
        !b.contains(c),
    ensures
        pieces(a.push(c) + b, c) == seq![a, b],
    decreases b.len(),
{
    let s = a.push(c) + b;
    if b.len() == 0 {
        assert(s.drop_last() =~= a);
        lemma_one_piece(a, c);
        assert(b =~= Seq::<char>::empty());
        assert(pieces(s, c) =~= seq![a, b]);
    } else {
        let t = b.drop_last();
        assert(s.drop_last() =~= a.push(c) + t);
        assert(s.last() == b.last());
        assert(b[b.len() - 1] != c);
        assert forall|i: int| 0 <= i < t.len() implies t[i] != c by {
            assert(b[i] != c);
        }
        lemma_two_pieces(a, t, c);
        assert(t.push(b.last()) =~= b);
        assert(pieces(s, c) =~= seq![a, b]);
    }
}

proof fn lemma_one_piece(a: Seq<char>, c: char)
    requires
        !a.contains(c),
    ensures
        pieces(a, c) == seq![a],
    decreases a.len(),
{
    if a.len() > 0 {
        let t = a.drop_last();
        assert(a[a.len() - 1] != c);
        assert forall|i: int| 0 <= i < t.len() implies t[i] != c by {
            assert(a[i] != c);
        }
        lemma_one_piece(t, c);
        assert(t.push(a.last()) =~= a);
        assert(pieces(a, c) =~= seq![a]);
    } else {
        assert(a =~= Seq::<char>::empty());
    }
}

/// A contact sheet is drawn with the filter that was worked out for it.
pub proof fn law_a_sheet_is_drawn_with_its_filter(input: Seq<char>, output: Seq<char>, stage: nat, all: Seq<Seq<char>>, filter: String, said: String)
    ensures
        sheet_next(input, output, stage, all, Told::Began).act == ActView::Filter(input),
        sheet_next(input, output, stage, all, Told::Line(filter)).act == ActView::Run(
            "ffmpeg"@,
            seq!["-y"@, "-i"@, input, "-vf"@, filter@, "-frames:v"@, "1"@, output],
        ),
        sheet_next(input, output, stage, all, Told::Ran(true, said)).act == ActView::Finish,
        sheet_next(input, output, stage, all, Told::Ran(false, said)).act == ActView::Fail(
            "contact sheet failed: "@ + short_message(said@),
        ),
{
}

/// A clearing says how many files went and what they took.
pub proof fn law_a_clearing_says_what_went(share: Share, stage: nat, all: Seq<Seq<char>>, bytes: u64, count: u64)
    ensures
        clean_next(share, stage, all, Told::Began).act == ActView::Sweep,
        clean_next(share, stage, all, Told::Swept(bytes, count)).act == ActView::Finish,
        clean_next(share, stage, all, Told::Swept(bytes, count)).note == Some(
            (share.end(), Some("cleared "@ + dec(count as nat) + " cached files · "@ + over(of_nat(bytes as nat), 20).text(1) + " MB freed"@)),
        ),
{
}

/// A renaming lists the folder first; then each file in turn takes the next number, counted
/// from the first, and the job ends behind the last.
pub proof fn law_each_file_takes_the_next_number(dir: Seq<char>, start: nat, share: Share, k: nat, all: Seq<Seq<char>>, names: Vec<String>)
    requires
        k < all.len(),
    ensures
        rename_next(dir, start, share, 0, all, Told::Began).act == ActView::List(dir),
        rename_next(dir, start, share, 0, all, Told::Listed(names)).lines == sorted(views(names@)),
        names@.len() == 0 ==> rename_next(dir, start, share, 0, all, Told::Listed(names)).act == ActView::Finish,
        names@.len() > 0 ==> rename_next(dir, start, share, 0, all, Told::Listed(names)).act == ActView::Rename(sorted(views(names@))[0], start),
        rename_next(dir, start, share, k, all, Told::Done).stage == k + 1,
        k + 1 < all.len() ==> rename_next(dir, start, share, k, all, Told::Done).act == ActView::Rename(all[k as int + 1], start + k + 1),
        k + 1 == all.len() ==> rename_next(dir, start, share, k, all, Told::Done).act == ActView::Finish,
        rename_next(dir, start, share, k, all, Told::Done).note == Some((share.at(part(k + 1, all.len())), None::<Seq<char>>)),
{
    law_renaming_takes_each_file_once(views(names@));
}

/// How two folders differ is told file by file: first what only the second has, then what
/// is unlike, then what only the first has; of each at most a hundred and twenty, each with
/// its path in the folder that has it.
pub proof fn law_differences_are_told_file_by_file(
    only_a: Seq<Seq<char>>,
    only_b: Seq<Seq<char>>,
    unlike: Seq<Seq<char>>,
    a: Seq<char>,
    b: Seq<char>,
    sep: char,
)
    requires
        only_a.len() <= 120 && only_b.len() <= 120 && unlike.len() <= 120,
    ensures
        ({
            let v = diff_view(only_a, only_b, unlike, a, b, sep);
            let (x, y) = (only_b.len() as int, (only_b.len() + unlike.len()) as int);
            &&& v.len() == only_a.len() + only_b.len() + unlike.len()
            &&& forall|i: int| 0 <= i < x ==> #[trigger] v[i] == ("only-b"@, only_b[i], inside(b, sep, only_b[i]))
            &&& forall|i: int| x <= i < y ==> #[trigger] v[i] == ("modified"@, unlike[i - x], inside(b, sep, unlike[i - x]))
            &&& forall|i: int| y <= i < v.len() ==> #[trigger] v[i] == ("only-a"@, only_a[i - y], inside(a, sep, only_a[i - y]))
        }),
        rows_of_kind("only-a"@, only_a + only_b, a, sep).len() <= 120,
{
}

/// A hash job of no files ends at once: with an empty manifest, or with nothing to say.
pub proof fn law_no_files_are_hashed_at_once(manifest: Option<String>, share: Share, all: Seq<Seq<char>>, n: nat)
    ensures
        hash_next(Seq::empty(), manifest, share, 0, all, Told::Began).act == (match manifest {
            Some(m) => ActView::Write(m@, join(all, "\n"@)),
            None => ActView::Finish,
        }),
        manifest is Some ==> hash_next(Seq::empty(), manifest, share, 0, all, Told::Began).note is None,
        manifest is Some && n > 0 ==> hash_end(manifest, share, n, all).note == Some((share.at(part(n, n)), None::<Seq<char>>)),
        manifest is None ==> hash_end(manifest, share, n, all).note == Some((share.end(), Some(join(all, " · "@)))),
        hash_end(manifest, share, n, all).stage == n && hash_end(manifest, share, n, all).lines == all,
{
}

/// A program that could not be started is named with why, and one that failed with the end of
/// what it said.
pub proof fn law_a_failure_is_told_with_its_reason(what: Seq<char>, e: Seq<char>)
    ensures
        not_found(what, e) == ActView::Fail(what + " ("@ + e + ")"@),
        failed(what, e) == ActView::Fail(what + short_message(e)),
{
}

} // verus!
