//! One step of a job that another program does: how the program is called, what
//! is made of its end, and how a failure reads.

use vstd::prelude::*;
use crate::double::Double;
use crate::find::{first_line, first_line_of};
use crate::text::views;
use crate::tools::native::Told;
use crate::tools::progress::Share;
use crate::tools::queue::{short_message, truncate_msg};

verus! {

/// A step that another program does.
#[derive(Debug)]
pub enum Step {
    /// `source` is the file whose length the progress is measured by, where the
    /// length is not known beforehand.
    Ffmpeg { args: Vec<String>, known: bool, source: Option<String> },
    /// `ffmpeg` is the folder of a bundled encoder; the link comes last in `args`.
    YtDlp { args: Vec<String>, common: Vec<String>, ffmpeg: Option<String> },
    /// A program that does not come with the app.
    Tool { bin: String },
}

/// A step under way.
#[derive(Debug)]
pub struct StepRun {
    pub step: Step,
    pub share: Share,
    pub titled: bool,
    pub title: String,
}

/// What is to be done next.
#[derive(Debug)]
pub enum StepAct {
    /// Measure a recording.
    Measure(String),
    /// Ask for a video's title.
    Title(Vec<String>),
    /// Run a program, following what it says.
    Run(&'static str, Vec<String>),
    /// Register the files that were written, then finish.
    Record,
    /// The step is done.
    Finish,
    /// The step failed, and why.
    Fail(String),
    /// Nothing: what happened was not waited for.
    Wait,
}

/// What is to be done next, in the language of contracts.
pub enum StepActView {
    Measure(Seq<char>),
    Title(Seq<Seq<char>>),
    Run(Seq<char>, Seq<Seq<char>>),
    Record,
    Finish,
    Fail(Seq<char>),
    Wait,
}

impl View for StepAct {
    type V = StepActView;

    open spec fn view(&self) -> StepActView {
        match *self {
            StepAct::Measure(f) => StepActView::Measure(f@),
            StepAct::Title(a) => StepActView::Title(views(a@)),
            StepAct::Run(p, a) => StepActView::Run(p@, views(a@)),
            StepAct::Record => StepActView::Record,
            StepAct::Finish => StepActView::Finish,
            StepAct::Fail(e) => StepActView::Fail(e@),
            StepAct::Wait => StepActView::Wait,
        }
    }
}

/// What to report and what to do: how far the job is, and its new message.
#[derive(Debug)]
pub struct StepReply {
    pub progress: Option<Double>,
    pub message: Option<String>,
    pub act: StepAct,
}

/// A reply and what is known of the title after it.
pub struct StepNext {
    pub titled: bool,
    pub title: Seq<char>,
    pub progress: Option<Double>,
    pub message: Option<Seq<char>>,
    pub act: StepActView,
}

/// How the encoder is called: it overwrites, asks nothing and reports as it goes.
pub open spec fn ffmpeg_args(args: Seq<Seq<char>>) -> Seq<Seq<char>> {
    seq!["-y"@, "-nostdin"@] + args + seq!["-progress"@, "pipe:1"@, "-nostats"@]
}

/// How the downloader is asked for a title.
pub open spec fn title_args(common: Seq<Seq<char>>, url: Seq<char>) -> Seq<Seq<char>> {
    seq![
        "--no-warnings"@,
        "--skip-download"@,
        "--playlist-items"@,
        "1"@,
        "--print"@,
        "%(title)s"@,
    ] + common + seq![url]
}

/// How the downloader is called: a line for each report, and the encoder's folder
/// where it is a bundled one.
pub open spec fn ytdlp_args(ffmpeg: Option<Seq<char>>, args: Seq<Seq<char>>) -> Seq<Seq<char>> {
    match ffmpeg {
        Some(dir) => seq!["--newline"@, "--ffmpeg-location"@, dir] + args,
        None => seq!["--newline"@] + args,
    }
}

/// A program that was not found.
pub open spec fn absent(what: Seq<char>, e: Seq<char>) -> StepActView {
    StepActView::Fail(what + " not found ("@ + e + ") — set Tools directory in Settings"@)
}

/// A reply that only acts.
pub open spec fn acting(titled: bool, title: Seq<char>, act: StepActView) -> StepNext {
    StepNext { titled, title, progress: None, message: None, act }
}

/// The title that the downloader gave, none where it gave none.
pub open spec fn title_text(told: Told) -> Seq<char> {
    match told {
        Told::Ran(ok, said) => if ok { first_line(said@) } else { Seq::empty() },
        _ => Seq::empty(),
    }
}

/// A download: its title is asked for first, so that the queue names the video.
pub open spec fn ytdlp_next(
    args: Seq<Seq<char>>,
    common: Seq<Seq<char>>,
    ffmpeg: Option<Seq<char>>,
    share: Share,
    titled: bool,
    title: Seq<char>,
    told: Told,
) -> StepNext {
    let run = StepActView::Run("yt-dlp"@, ytdlp_args(ffmpeg, args));
    match told {
        Told::Began => if args.len() > 0 {
            acting(false, title, StepActView::Title(title_args(common, args.last())))
        } else {
            acting(true, title, run)
        },
        Told::Ran(ok, said) => if !titled {
            let t = title_text(told);
            StepNext {
                titled: true,
                title: t,
                progress: None,
                message: if t.len() > 0 { Some(t) } else { None },
                act: run,
            }
        } else if ok {
            StepNext {
                titled,
                title,
                progress: Some(share.end()),
                message: if title.len() > 0 { Some(title) } else { None },
                act: StepActView::Record,
            }
        } else {
            acting(titled, title, StepActView::Fail("yt-dlp failed: "@ + short_message(said@)))
        },
        Told::NotStarted(e) => if !titled {
            acting(true, Seq::empty(), run)
        } else {
            acting(titled, title, absent("yt-dlp"@, e@))
        },
        _ => acting(titled, title, StepActView::Wait),
    }
}

/// An encoding: where its length is not known, the source is measured first.
pub open spec fn ffmpeg_next(
    args: Seq<Seq<char>>,
    known: bool,
    source: Option<Seq<char>>,
    share: Share,
    titled: bool,
    title: Seq<char>,
    told: Told,
) -> StepNext {
    let run = StepActView::Run("ffmpeg"@, ffmpeg_args(args));
    match told {
        Told::Began => match source {
            Some(f) => acting(titled, title, if known { run } else { StepActView::Measure(f) }),
            None => acting(titled, title, run),
        },
        Told::Done => acting(titled, title, run),
        Told::NotStarted(e) => acting(titled, title, absent("ffmpeg"@, e@)),
        Told::Ran(ok, said) => if ok {
            StepNext { titled, title, progress: Some(share.end()), message: None, act: StepActView::Finish }
        } else {
            acting(titled, title, StepActView::Fail("ffmpeg failed: "@ + short_message(said@)))
        },
        _ => acting(titled, title, StepActView::Wait),
    }
}

/// What a step does next. A step that is told to stop fails as stopped.
pub open spec fn step_next(run: StepRun, told: Told) -> StepNext {
    match told {
        Told::Stopped => acting(run.titled, run.title@, StepActView::Fail("stopped"@)),
        _ => match run.step {
            Step::Ffmpeg { args, known, source } => ffmpeg_next(
                views(args@),
                known,
                crate::status::figures::opt_string(source),
                run.share,
                run.titled,
                run.title@,
                told,
            ),
            Step::YtDlp { args, common, ffmpeg } => ytdlp_next(
                views(args@),
                views(common@),
                crate::status::figures::opt_string(ffmpeg),
                run.share,
                run.titled,
                run.title@,
                told,
            ),
            Step::Tool { bin } => acting(
                run.titled,
                run.title@,
                StepActView::Fail(bin@ + " is not bundled with this build"@),
            ),
        },
    }
}

/// What a step's title and reply come to.
pub open spec fn step_outcome(run: StepRun, r: StepReply) -> StepNext {
    StepNext {
        titled: run.titled,
        title: run.title@,
        progress: r.progress,
        message: crate::status::figures::opt_string(r.message),
        act: r.act@,
    }
}

fn push_all(out: &mut Vec<String>, more: &Vec<String>)
    ensures
        views(final(out)@) == views(old(out)@) + views(more@),
{
    let ghost base = views(out@);
    let ghost all = views(more@);
    let mut i: usize = 0;
    assert(base + all.take(0) =~= base);
    while i < more.len()
        invariant
            i <= more@.len(),
            all == views(more@),
            views(out@) == base + all.take(i as int),
        decreases more@.len() - i,
    {
        let ghost was = views(out@);
        out.push(more[i].clone());
        assert(views(out@) =~= was.push(more@[i as int]@));
        assert(views(out@) =~= base + all.take(i + 1));
        i = i + 1;
    }
    assert(all.take(i as int) =~= all);
}

fn call_ffmpeg(args: &Vec<String>) -> (r: StepAct)
    ensures
        r@ == StepActView::Run("ffmpeg"@, ffmpeg_args(views(args@))),
{
    let mut v = vec!["-y".to_owned(), "-nostdin".to_owned()];
    assert(views(v@) =~= seq!["-y"@, "-nostdin"@]);
    push_all(&mut v, args);
    let tail = vec!["-progress".to_owned(), "pipe:1".to_owned(), "-nostats".to_owned()];
    assert(views(tail@) =~= seq!["-progress"@, "pipe:1"@, "-nostats"@]);
    push_all(&mut v, &tail);
    StepAct::Run("ffmpeg", v)
}

fn call_ytdlp(ffmpeg: &Option<String>, args: &Vec<String>) -> (r: StepAct)
    ensures
        r@ == StepActView::Run(
            "yt-dlp"@,
            ytdlp_args(crate::status::figures::opt_string(*ffmpeg), views(args@)),
        ),
{
    let mut v: Vec<String> = Vec::new();
    match ffmpeg {
        Some(dir) => {
            v = vec!["--newline".to_owned(), "--ffmpeg-location".to_owned(), dir.clone()];
            assert(views(v@) =~= seq!["--newline"@, "--ffmpeg-location"@, dir@]);
        },
        None => {
            v = vec!["--newline".to_owned()];
            assert(views(v@) =~= seq!["--newline"@]);
        },
    }
    push_all(&mut v, args);
    StepAct::Run("yt-dlp", v)
}

fn ask_title(common: &Vec<String>, url: &str) -> (r: StepAct)
    ensures
        r@ == StepActView::Title(title_args(views(common@), url@)),
{
    let mut v = vec![
        "--no-warnings".to_owned(),
        "--skip-download".to_owned(),
        "--playlist-items".to_owned(),
        "1".to_owned(),
        "--print".to_owned(),
        "%(title)s".to_owned(),
    ];
    assert(views(v@) =~= seq![
        "--no-warnings"@,
        "--skip-download"@,
        "--playlist-items"@,
        "1"@,
        "--print"@,
        "%(title)s"@,
    ]);
    push_all(&mut v, common);
    let tail = vec![url.to_owned()];
    assert(views(tail@) =~= seq![url@]);
    push_all(&mut v, &tail);
    StepAct::Title(v)
}

fn fail_absent(what: &str, e: &str) -> (r: StepAct)
    ensures
        r@ == absent(what@, e@),
{
    let mut s = what.to_owned();
    s.append(" not found (");
    s.append(e);
    s.append(") — set Tools directory in Settings");
    StepAct::Fail(s)
}

fn fail_short(what: &str, said: &str) -> (r: StepAct)
    ensures
        r@ == StepActView::Fail(what@ + short_message(said@)),
{
    let mut s = what.to_owned();
    let t = truncate_msg(said);
    s.append(t.as_str());
    StepAct::Fail(s)
}

fn only(act: StepAct) -> (r: StepReply)
    ensures
        r.act == act,
        r.progress is None,
        r.message is None,
{
    StepReply { progress: None, message: None, act }
}

fn if_any(s: &String) -> (r: Option<String>)
    ensures
        crate::status::figures::opt_string(r) == (if s@.len() > 0 { Some(s@) } else { None }),
{
    if s.as_str().is_empty() {
        None
    } else {
        Some(s.clone())
    }
}

impl StepRun {
    /// A step before it begins.
    pub fn new(step: Step, share: Share) -> (r: StepRun)
        ensures
            r.step == step,
            r.share == share,
            !r.titled,
            r.title@.len() == 0,
    {
        StepRun { step, share, titled: false, title: String::new() }
    }

    fn ytdlp_step(&mut self, told: Told) -> (r: StepReply)
        requires
            old(self).share.wf(),
            old(self).step is YtDlp,
            !(told is Stopped),
        ensures
            final(self).step == old(self).step,
            final(self).share == old(self).share,
            step_outcome(*final(self), r) == step_next(*old(self), told),
    {
        let share = self.share;
        match &self.step {
            Step::YtDlp { args, common, ffmpeg } => match told {
                Told::Began => {
                    let n: usize = args.len();
                    if n > 0 {
                        self.titled = false;
                        assert(views(args@).last() == args@[n - 1]@);
                        only(ask_title(common, args[n - 1].as_str()))
                    } else {
                        self.titled = true;
                        only(call_ytdlp(ffmpeg, args))
                    }
                },
                Told::Ran(ok, said) => {
                    if !self.titled {
                        let none = String::new();
                        assert(none@ =~= Seq::<char>::empty());
                        let t = if ok { first_line_of(said.as_str()) } else { none };
                        let message = if_any(&t);
                        let act = call_ytdlp(ffmpeg, args);
                        self.titled = true;
                        self.title = t;
                        StepReply { progress: None, message, act }
                    } else if ok {
                        StepReply { progress: Some(share.done()), message: if_any(&self.title), act: StepAct::Record }
                    } else {
                        only(fail_short("yt-dlp failed: ", said.as_str()))
                    }
                },
                Told::NotStarted(e) => {
                    if !self.titled {
                        let none = String::new();
                        assert(none@ =~= Seq::<char>::empty());
                        let act = call_ytdlp(ffmpeg, args);
                        self.titled = true;
                        self.title = none;
                        only(act)
                    } else {
                        only(fail_absent("yt-dlp", e.as_str()))
                    }
                },
                _ => only(StepAct::Wait),
            },
            _ => only(StepAct::Wait),
        }
    }

    /// Takes in what happened and says what to report and what to do next.
    pub fn tools_run_step(&mut self, told: Told) -> (r: StepReply)
        requires
            old(self).share.wf(),
        ensures
            final(self).step == old(self).step,
            final(self).share == old(self).share,
            step_outcome(*final(self), r) == step_next(*old(self), told),
    {
        if let Told::Stopped = told {
            return only(StepAct::Fail("stopped".to_owned()));
        }
        let share = self.share;
        match &self.step {
            Step::Ffmpeg { args, known, source } => match told {
                Told::Began => match source {
                    Some(f) => if *known {
                        only(call_ffmpeg(args))
                    } else {
                        only(StepAct::Measure(f.clone()))
                    },
                    None => only(call_ffmpeg(args)),
                },
                Told::Done => only(call_ffmpeg(args)),
                Told::NotStarted(e) => only(fail_absent("ffmpeg", e.as_str())),
                Told::Ran(ok, said) => if ok {
                    StepReply { progress: Some(share.done()), message: None, act: StepAct::Finish }
                } else {
                    only(fail_short("ffmpeg failed: ", said.as_str()))
                },
                _ => only(StepAct::Wait),
            },
            Step::YtDlp { .. } => self.ytdlp_step(told),
            Step::Tool { bin } => {
                let mut s = bin.clone();
                s.append(" is not bundled with this build");
                only(StepAct::Fail(s))
            },
        }
    }
}

/// A download asks for its title first, then downloads, and ends well only where the
/// downloader did; without a title it downloads all the same.
pub proof fn law_a_download_asks_for_its_title_first(
    args: Seq<Seq<char>>,
    common: Seq<Seq<char>>,
    ffmpeg: Option<Seq<char>>,
    share: Share,
    title: Seq<char>,
    said: String,
)
    requires
        args.len() > 0,
    ensures
        ({
            let next = |titled: bool, told: Told| ytdlp_next(args, common, ffmpeg, share, titled, title, told);
            let how = match ffmpeg {
                Some(dir) => seq!["--newline"@, "--ffmpeg-location"@, dir] + args,
                None => seq!["--newline"@] + args,
            };
            &&& next(false, Told::Began).act is Title
            &&& !next(false, Told::Began).titled
            &&& next(false, Told::Ran(true, said)).act == StepActView::Run("yt-dlp"@, how)
            &&& next(false, Told::Ran(true, said)).titled && next(false, Told::Ran(true, said)).title == first_line(said@)
            &&& next(false, Told::Ran(false, said)).act == StepActView::Run("yt-dlp"@, how)
            &&& next(false, Told::Ran(false, said)).titled && next(false, Told::Ran(false, said)).title.len() == 0
            &&& next(false, Told::NotStarted(said)).act == StepActView::Run("yt-dlp"@, how)
            &&& next(true, Told::Ran(true, said)).act == StepActView::Record && next(true, Told::Ran(true, said)).progress == Some(share.end())
            &&& next(true, Told::Ran(false, said)).act == StepActView::Fail("yt-dlp failed: "@ + short_message(said@))
            &&& next(true, Told::NotStarted(said)).act is Fail
        }),
{
}

/// The title of a download is asked of the page that it downloads, one item only and without
/// downloading.
pub proof fn law_a_title_is_asked_without_downloading(common: Seq<Seq<char>>, url: Seq<char>)
    ensures
        title_args(common, url).len() == common.len() + 7,
        title_args(common, url).last() == url,
        title_args(common, url)[1] == "--skip-download"@,
        title_args(common, url)[2] == "--playlist-items"@ && title_args(common, url)[3] == "1"@,
        title_args(common, url)[4] == "--print"@ && title_args(common, url)[5] == "%(title)s"@,
        title_args(common, url).subrange(6, 6 + common.len() as int) == common,
{
    assert(title_args(common, url).subrange(6, 6 + common.len() as int) =~= common);
}

/// An encoding measures its source first where its length is not known, then encodes with
/// its own options between those that make it report, and ends well only where the encoder
/// did.
pub proof fn law_an_encoding_measures_an_unknown_source_first(
    args: Seq<Seq<char>>,
    source: Option<Seq<char>>,
    share: Share,
    titled: bool,
    title: Seq<char>,
    said: String,
)
    ensures
        ({
            let next = |known: bool, told: Told| ffmpeg_next(args, known, source, share, titled, title, told);
            let run = StepActView::Run("ffmpeg"@, seq!["-y"@, "-nostdin"@] + args + seq!["-progress"@, "pipe:1"@, "-nostats"@]);
            &&& source matches Some(f) ==> next(false, Told::Began).act == StepActView::Measure(f)
            &&& next(true, Told::Began).act == run
            &&& source is None ==> next(false, Told::Began).act == run
            &&& next(false, Told::Done).act == run
            &&& next(true, Told::Ran(true, said)).act == StepActView::Finish && next(true, Told::Ran(true, said)).progress == Some(share.end())
            &&& next(true, Told::Ran(false, said)).act == StepActView::Fail("ffmpeg failed: "@ + short_message(said@))
            &&& next(true, Told::NotStarted(said)).act is Fail
        }),
{
}

/// A step that is stopped fails as stopped.
pub proof fn law_a_stopped_step_fails(run: StepRun)
    ensures
        step_next(run, Told::Stopped).act == StepActView::Fail("stopped"@),
        step_next(run, Told::Stopped).progress is None,
{
}

} // verus!
