//! What the workbench does for each of its buttons.

use vstd::prelude::*;
use crate::double::Double;
use crate::outside::{name_fits, parent_fits, path_name};
use crate::status::figures::opt_string;
use crate::text::{same, trim, views};
use crate::tools::form::{default_of, field_picker, fields_of, picker_of, Form, Picker};
use crate::tools::job::{downloads, source_of, spec_of, stands, Place, Spec};
use crate::tools::paths::{beside_text, ext_text};
use crate::tools::programs::{folders, folders_to_try};
use crate::tools::queue::{act_of, queue_action, QueueAct};
use crate::tools::run::{
    first_error, keeps_sources, overwrites, refusal_fits, run_form, slashes_only, submission, Run, CLASH, DUPLICATE,
};
use crate::tools::trim::{
    drawn_status, joined_status, joined_text, trim_editor, trim_output, Segments, DRAWING, PICK_FIRST, UNREADABLE,
};

verus! {

/// What a button asks for, or what came back, with what is known at that moment.
#[derive(Debug)]
pub enum Ask {
    SetCategory(String),
    Search,
    /// Open a tool, put its form back to the defaults, or close it.
    Open(String),
    Reset,
    Close,
    /// An answer was typed; a field's dialog is asked for; something was picked.
    FieldSet(String, String),
    FieldPick(String),
    Picked(String, String),
    /// Run the form. Of its paths these are missing; downloads go to this folder.
    Run { missing: Vec<String>, home: String },
    /// Whether the queue has the job already, where it could be asked.
    Looked { kind: String, spec: Spec, twin: Option<bool> },
    UpdateTool(String),
    ListDownloads,
    OpenDownload(String),
    RemoveDownload(String),
    OpenFolder,
    QueueAction(i64, String),
    SetWorkers(i64),
    ClearConsole,
    /// The result of a job of this kind, with the paths that its specification has.
    Result { id: i64, kind: String, input: String, left: String, right: String },
    ResultShown,
    ResultClose,
    TrimEditor,
    TrimDrawn(Double),
    TrimAdd(Double, Double),
    TrimDel(i64),
    TrimClose,
    TrimJoin,
    TrimJoined { output: String, error: Option<String> },
}

/// One thing that is done.
#[derive(Debug)]
pub enum Do {
    /// List the tools of the category, or those that the search finds.
    List,
    ProbePrograms,
    ReadQueue,
    PaintForm,
    Pick(Picker, String),
    /// Look whether the queue has this job.
    Look(String, Spec),
    Submit(String, Spec),
    UpdateDownloader,
    ReadDownloads,
    OpenFile(String),
    RemoveFile(String),
    /// Open the first of these that is a folder, else the downloads.
    OpenFolder(Vec<String>),
    /// Change a job, and then stop its process where that is asked for.
    Change { act: QueueAct, id: i64, stop: bool },
    SetSlots(i64),
    ClearConsole,
    /// Probe a file and show what was found under this title.
    Probe(String, String),
    Compare(i64, String, String),
    /// Draw the timeline of a file.
    Draw(String),
    PaintSegments,
    /// Join the segments of a file into another.
    Join(String, String),
}

/// The workbench between two clicks.
#[derive(Debug)]
pub struct Bench {
    pub category: String,
    pub active: String,
    pub form: Form,
    pub error: String,
    pub segments: Segments,
    pub trim_open: bool,
    pub trim_path: String,
    pub trim_status: String,
    pub result_open: bool,
}

/// A form as it opens.
pub open spec fn fresh(form: Form, kind: Seq<char>) -> bool {
    &&& form.wf()
    &&& form.kind@ == kind
    &&& forall|k: Seq<char>| #[trigger] form.look(k) == default_of(fields_of(kind), k)
}

/// A form with one more answer.
pub open spec fn answered(before: Form, after: Form, key: Seq<char>, value: Seq<char>) -> bool {
    &&& after.wf()
    &&& after.kind@ == before.kind@
    &&& forall|k: Seq<char>| #[trigger] after.look(k) == (if k == key { Some(value) } else { before.look(k) })
}

/// What pressing Run leads to: a form that is not in order, or whose job writes over its
/// own source, is told so; any other's job is looked up in the queue. See
/// [`refusal_fits`].
pub open spec fn ran(b: Bench, after: Bench, missing: Seq<Seq<char>>, home: Seq<char>, dos: Seq<Do>) -> bool {
    &&& after == (Bench { error: after.error, ..b })
    &&& if b.form.kind@.len() == 0 {
        after.error@ == b.error@ && dos.len() == 0
    } else {
        match first_error(fields_of(b.form.kind@), b.form, missing) {
            Some(e) => after.error@ == e && dos.len() == 0,
            None => exists|p: Place|
                {
                    &&& refusal_fits(#[trigger] spec_of(b.form, p, home), dos.len() == 0)
                    &&& stands(p, source_of(b.form))
                    &&& if dos.len() == 0 {
                        after.error@ == CLASH@
                    } else {
                        &&& after.error@ == ""@
                        &&& dos.len() == 1
                        &&& dos[0] matches Do::Look(kind, spec) && {
                            &&& kind@ == b.form.kind@
                            &&& spec.wf()
                            &&& spec.map() == spec_of(b.form, p, home)
                        }
                    }
                },
        }
    }
}

/// The folders that "Open folder" tries.
pub open spec fn tries(form: Form, dos: Seq<Do>) -> bool {
    &&& dos.len() == 1
    &&& dos[0] matches Do::OpenFolder(fs) && exists|parent: Option<Seq<char>>| {
        &&& views(fs@) == #[trigger] folders(form, parent)
        &&& match form.look("input"@) {
            Some(v) => parent_fits(trim(v), parent),
            None => parent is None,
        }
    }
}

/// The editor opened on the form's source: with nothing kept so far and the timeline
/// to be drawn; without a source it only says so.
pub open spec fn edits(b: Bench, after: Bench, dos: Seq<Do>) -> bool {
    let source = source_of(b.form);
    &&& after == (Bench {
        trim_open: true,
        trim_path: after.trim_path,
        trim_status: after.trim_status,
        segments: after.segments,
        ..b
    })
    &&& after.trim_path@ == source
    &&& if source.len() == 0 {
        &&& after.trim_status@ == PICK_FIRST@
        &&& after.segments.list@ == b.segments.list@
        &&& dos.len() == 0
    } else {
        &&& after.trim_status@ == DRAWING@
        &&& after.segments.list@.len() == 0
        &&& dos.len() == 2
        &&& dos[0] == Do::PaintSegments
        &&& dos[1] matches Do::Draw(path) && path@ == source
    }
}

/// The segments joined into a file beside the source; nothing without a source or
/// without a segment.
pub open spec fn joins(b: Bench, after: Bench, dos: Seq<Do>) -> bool {
    let source = source_of(b.form);
    &&& after == (Bench { trim_status: after.trim_status, ..b })
    &&& if source.len() > 0 && b.segments.list@.len() > 0 {
        &&& after.trim_status@ == "Joining…"@
        &&& dos.len() == 1
        &&& dos[0] matches Do::Join(from, to) && {
            &&& from@ == source
            &&& exists|parent: Option<Seq<char>>, name: Option<Seq<char>>, own: Option<Seq<char>>, sep: char|
                {
                    &&& to@ == #[trigger] beside_text(parent, name, sep, "trimmed"@, #[trigger] ext_text(own))
                    &&& parent_fits(source, parent)
                    &&& name_fits(source, name)
                    &&& name_fits(source, own)
                    &&& sep == '/' || sep == '\\'
                }
        }
    } else {
        after.trim_status@ == b.trim_status@ && dos.len() == 0
    }
}

/// How a result is shown: a probed file under its name, two folders side by side;
/// of other kinds nothing.
pub open spec fn shows(id: i64, kind: Seq<char>, input: Seq<char>, left: Seq<char>, right: Seq<char>, dos: Seq<Do>) -> bool {
    if kind == "mediainfo"@ {
        &&& dos.len() == 1
        &&& dos[0] matches Do::Probe(path, title) && {
            &&& path@ == input
            &&& exists|name: Option<Seq<char>>| #[trigger] name_fits(input, name) && title@ == (match name {
                Some(n) => n,
                None => "Media info"@,
            })
        }
    } else if kind == "folder_diff"@ {
        dos.len() == 1 && (dos[0] matches Do::Compare(n, a, b) && n == id && a@ == left && b@ == right)
    } else {
        dos.len() == 0
    }
}

/// What a click changes, and what is done for it in order.
pub open spec fn wired(b: Bench, ask: Ask, after: Bench, dos: Seq<Do>) -> bool {
    match ask {
        Ask::SetCategory(c) => {
            &&& after == (Bench { category: c, ..b })
            &&& dos == (if c@ == "settings"@ { seq![Do::List, Do::ProbePrograms] } else { seq![Do::List] })
        },
        Ask::Search => after == b && dos == seq![Do::List],
        Ask::Open(kind) => {
            &&& after == (Bench { active: kind, form: after.form, error: after.error, ..b })
            &&& fresh(after.form, kind@)
            &&& after.error@ == ""@
            &&& dos == seq![Do::PaintForm, Do::ReadQueue]
        },
        Ask::Reset => {
            &&& after == (Bench { form: after.form, error: after.error, ..b })
            &&& fresh(after.form, b.active@)
            &&& after.error@ == ""@
            &&& dos == seq![Do::PaintForm]
        },
        Ask::Close => {
            &&& after == (Bench { active: after.active, ..b })
            &&& after.active@ == ""@
            &&& dos == seq![Do::ReadQueue]
        },
        Ask::FieldSet(key, value) => {
            &&& after == (Bench { form: after.form, ..b })
            &&& answered(b.form, after.form, key@, value@)
            &&& dos.len() == 0
        },
        Ask::FieldPick(key) => {
            &&& after == b
            &&& dos.len() == 1
            &&& dos[0] matches Do::Pick(p, k) && p == picker_of(b.active@, key@) && k@ == key@
        },
        Ask::Picked(key, value) => {
            &&& after == (Bench { form: after.form, ..b })
            &&& answered(b.form, after.form, key@, value@)
            &&& dos == seq![Do::PaintForm]
        },
        Ask::Run { missing, home } => ran(b, after, views(missing@), home@, dos),
        Ask::Looked { kind, spec, twin } => {
            &&& after == (Bench { error: after.error, ..b })
            &&& if twin == Some(true) {
                after.error@ == DUPLICATE@ && dos.len() == 0
            } else {
                after.error@ == b.error@ && dos == seq![Do::Submit(kind, spec), Do::ReadQueue]
            }
        },
        Ask::UpdateTool(name) => after == b && dos == (if name@ == "yt-dlp"@ {
            seq![Do::UpdateDownloader, Do::ProbePrograms]
        } else {
            seq![Do::ProbePrograms]
        }),
        Ask::ListDownloads => after == b && dos == seq![Do::ReadDownloads],
        Ask::OpenDownload(path) => after == b && dos == seq![Do::OpenFile(path)],
        Ask::RemoveDownload(path) => after == b && dos == seq![Do::RemoveFile(path), Do::ReadDownloads],
        Ask::OpenFolder => after == b && tries(b.form, dos),
        Ask::QueueAction(id, act) => {
            let a = act_of(act@);
            &&& after == b
            &&& dos == seq![
                Do::Change { act: a, id, stop: a == QueueAct::Pause || a == QueueAct::Cancel },
                Do::ReadQueue,
            ]
        },
        Ask::SetWorkers(n) => after == b && dos == seq![Do::SetSlots(n)],
        Ask::ClearConsole => after == b && dos == seq![Do::ClearConsole],
        Ask::Result { id, kind, input, left, right } => after == b && shows(id, kind@, input@, left@, right@, dos),
        Ask::ResultShown => after == (Bench { result_open: true, ..b }) && dos.len() == 0,
        Ask::ResultClose => after == (Bench { result_open: false, ..b }) && dos.len() == 0,
        Ask::TrimEditor => edits(b, after, dos),
        Ask::TrimDrawn(length) => {
            &&& after == (Bench { trim_status: after.trim_status, ..b })
            &&& after.trim_status@ == (if !length.neg && length.m > 0 { ""@ } else { UNREADABLE@ })
            &&& dos.len() == 0
        },
        Ask::TrimAdd(from, to) => {
            &&& after == (Bench { segments: after.segments, ..b })
            &&& after.segments.list@ == b.segments.list@.push((from, to))
            &&& dos == seq![Do::PaintSegments]
        },
        Ask::TrimDel(i) => {
            &&& after == (Bench { segments: after.segments, ..b })
            &&& after.segments.list@ == (if 0 <= i < b.segments.list@.len() {
                b.segments.list@.remove(i as int)
            } else {
                b.segments.list@
            })
            &&& dos == seq![Do::PaintSegments]
        },
        Ask::TrimClose => after == (Bench { trim_open: false, ..b }) && dos.len() == 0,
        Ask::TrimJoin => joins(b, after, dos),
        Ask::TrimJoined { output, error } => {
            &&& after == (Bench { trim_status: after.trim_status, ..b })
            &&& after.trim_status@ == joined_text(output@, opt_string(error))
            &&& dos.len() == 0
        },
    }
}

fn one(a: Do) -> (r: Vec<Do>)
    ensures
        r@ == seq![a],
{
    let mut v: Vec<Do> = Vec::new();
    v.push(a);
    assert(v@ =~= seq![a]);
    v
}

fn two(a: Do, b: Do) -> (r: Vec<Do>)
    ensures
        r@ == seq![a, b],
{
    let mut v: Vec<Do> = Vec::new();
    v.push(a);
    v.push(b);
    assert(v@ =~= seq![a, b]);
    v
}

impl Bench {
    /// No answer stands in the form twice.
    pub open spec fn wf(&self) -> bool {
        self.form.wf()
    }

    /// The workbench as it opens on a category, with no tool in use.
    pub fn new(category: &str) -> (r: Bench)
        ensures
            r.wf(),
            r.category@ == category@,
            r.active@ == ""@,
            r.form.kind@.len() == 0,
            r.error@ == ""@,
            r.segments.list@.len() == 0,
            !r.trim_open,
            r.trim_path@ == ""@,
            r.trim_status@ == ""@,
            !r.result_open,
    {
        Bench {
            category: category.to_owned(),
            active: "".to_owned(),
            form: Form::none(),
            error: "".to_owned(),
            segments: Segments::new(),
            trim_open: false,
            trim_path: "".to_owned(),
            trim_status: "".to_owned(),
            result_open: false,
        }
    }

    /// The form's source, empty where it has none.
    fn source(&self) -> (r: String)
        requires
            self.wf(),
        ensures
            r@ == source_of(self.form),
    {
        match self.form.get("input") {
            Some(v) => v.clone(),
            None => {
                let none = String::new();
                assert(none@ =~= Seq::<char>::empty());
                none
            },
        }
    }

    fn run(&mut self, missing: &Vec<String>, home: &str) -> (r: Vec<Do>)
        requires
            old(self).wf(),
        ensures
            final(self).wf(),
            ran(*old(self), *final(self), views(missing@), home@, r@),
    {
        match run_form(&self.form, missing, home) {
            Run::Nothing => Vec::new(),
            Run::Refused(e) => {
                self.error = e;
                Vec::new()
            },
            Run::Ready(spec) => {
                self.error = "".to_owned();
                one(Do::Look(self.form.kind.clone(), spec))
            },
        }
    }

    fn edit(&mut self) -> (r: Vec<Do>)
        requires
            old(self).wf(),
        ensures
            final(self).wf(),
            edits(*old(self), *final(self), r@),
    {
        let source = self.source();
        let (drawn, says) = trim_editor(source.as_str());
        self.trim_open = true;
        self.trim_path = source.clone();
        self.trim_status = says.to_owned();
        if !drawn {
            return Vec::new();
        }
        self.segments.clear();
        two(Do::PaintSegments, Do::Draw(source))
    }

    fn join(&mut self) -> (r: Vec<Do>)
        requires
            old(self).wf(),
        ensures
            final(self).wf(),
            joins(*old(self), *final(self), r@),
    {
        let source = self.source();
        match trim_output(source.as_str(), self.segments.list.len()) {
            Some(to) => {
                self.trim_status = "Joining…".to_owned();
                one(Do::Join(source, to))
            },
            None => Vec::new(),
        }
    }

    fn show(id: i64, kind: &str, input: String, left: String, right: String) -> (r: Vec<Do>)
        ensures
            shows(id, kind@, input@, left@, right@, r@),
    {
        if same(kind, "mediainfo") {
            let name = path_name(input.as_str());
            assert(name_fits(input@, opt_string(name)));
            let title = match name {
                Some(n) => n,
                None => "Media info".to_owned(),
            };
            one(Do::Probe(input, title))
        } else if same(kind, "folder_diff") {
            one(Do::Compare(id, left, right))
        } else {
            Vec::new()
        }
    }

    /// What a click changes and what is done for it.
    #[verifier::rlimit(50)]
    pub fn wire(&mut self, ask: Ask) -> (r: Vec<Do>)
        requires
            old(self).wf(),
            ask matches Ask::TrimDrawn(length) ==> length.wf(),
        ensures
            final(self).wf(),
            wired(*old(self), ask, *final(self), r@),
    {
        match ask {
            Ask::SetCategory(c) => {
                let settings = same(c.as_str(), "settings");
                self.category = c;
                if settings {
                    two(Do::List, Do::ProbePrograms)
                } else {
                    one(Do::List)
                }
            },
            Ask::Search => one(Do::List),
            Ask::Open(kind) => {
                self.form = Form::seeded(kind.as_str());
                self.active = kind;
                self.error = "".to_owned();
                two(Do::PaintForm, Do::ReadQueue)
            },
            Ask::Reset => {
                self.form = Form::seeded(self.active.as_str());
                self.error = "".to_owned();
                one(Do::PaintForm)
            },
            Ask::Close => {
                self.active = "".to_owned();
                one(Do::ReadQueue)
            },
            Ask::FieldSet(key, value) => {
                self.form.set(key.as_str(), value.as_str());
                Vec::new()
            },
            Ask::FieldPick(key) => one(Do::Pick(field_picker(self.active.as_str(), key.as_str()), key)),
            Ask::Picked(key, value) => {
                self.form.set(key.as_str(), value.as_str());
                one(Do::PaintForm)
            },
            Ask::Run { missing, home } => self.run(&missing, home.as_str()),
            Ask::Looked { kind, spec, twin } => match submission(twin) {
                Some(says) => {
                    self.error = says.to_owned();
                    Vec::new()
                },
                None => two(Do::Submit(kind, spec), Do::ReadQueue),
            },
            Ask::UpdateTool(name) => {
                if same(name.as_str(), "yt-dlp") {
                    two(Do::UpdateDownloader, Do::ProbePrograms)
                } else {
                    one(Do::ProbePrograms)
                }
            },
            Ask::ListDownloads => one(Do::ReadDownloads),
            Ask::OpenDownload(path) => one(Do::OpenFile(path)),
            Ask::RemoveDownload(path) => two(Do::RemoveFile(path), Do::ReadDownloads),
            Ask::OpenFolder => one(Do::OpenFolder(folders_to_try(&self.form))),
            Ask::QueueAction(id, act) => {
                let (act, stop) = queue_action(act.as_str());
                two(Do::Change { act, id, stop }, Do::ReadQueue)
            },
            Ask::SetWorkers(n) => one(Do::SetSlots(n)),
            Ask::ClearConsole => one(Do::ClearConsole),
            Ask::Result { id, kind, input, left, right } => Bench::show(id, kind.as_str(), input, left, right),
            Ask::ResultShown => {
                self.result_open = true;
                Vec::new()
            },
            Ask::ResultClose => {
                self.result_open = false;
                Vec::new()
            },
            Ask::TrimEditor => self.edit(),
            Ask::TrimDrawn(length) => {
                self.trim_status = drawn_status(&length).to_owned();
                Vec::new()
            },
            Ask::TrimAdd(from, to) => {
                self.segments.push(from, to);
                one(Do::PaintSegments)
            },
            Ask::TrimDel(i) => {
                self.segments.remove(i);
                one(Do::PaintSegments)
            },
            Ask::TrimClose => {
                self.trim_open = false;
                Vec::new()
            },
            Ask::TrimJoin => self.join(),
            Ask::TrimJoined { output, error } => {
                self.trim_status = joined_status(output.as_str(), &error);
                Vec::new()
            },
        }
    }
}

/// A job is submitted only once the queue was looked at and did not hold it.
pub proof fn law_no_job_is_submitted_twice(b: Bench, ask: Ask, after: Bench, dos: Seq<Do>, i: int)
    requires
        wired(b, ask, after, dos),
        0 <= i < dos.len(),
        dos[i] is Submit,
    ensures
        ask matches Ask::Looked { twin, .. } && twin != Some(true),
{
}

/// The job that Run hands on never writes to a path that it reads; where only the slash
/// separates, under no spelling of it.
pub proof fn law_a_run_keeps_its_sources(b: Bench, ask: Ask, after: Bench, dos: Seq<Do>, i: int)
    requires
        wired(b, ask, after, dos),
        0 <= i < dos.len(),
        dos[i] is Look,
    ensures
        dos[i] matches Do::Look(_, spec) && keeps_sources(spec.map()) && (slashes_only(spec.map()) ==> !overwrites(
            spec.map(),
        )),
{
}

/// What a click leaves alone: looking, searching, listing and the buttons of the queue change
/// nothing of the bench; closing a tool keeps its form; and no click but on Run and what it
/// leads to hands in a job.
pub proof fn law_clicks_leave_the_rest_alone(b: Bench, ask: Ask, after: Bench, dos: Seq<Do>)
    requires
        wired(b, ask, after, dos),
    ensures
        ask is Search || ask is FieldPick || ask is ListDownloads || ask is OpenFolder || ask is QueueAction || ask is SetWorkers || ask is ClearConsole ==> after == b,
        ask is Close ==> after.form == b.form && after.active@.len() == 0,
        ask is TrimClose || ask is ResultClose || ask is TrimAdd || ask is TrimDel ==> after.form == b.form,
        (exists|i: int| 0 <= i < dos.len() && (#[trigger] dos[i]) is Submit) ==> ask is Looked,
        (exists|i: int| 0 <= i < dos.len() && (#[trigger] dos[i]) is Look) ==> ask is Run,
{
    reveal_strlit("");
}

/// An answer that is given is the one that the form holds, and no other answer changes.
pub proof fn law_an_answer_given_is_kept(b: Bench, key: String, value: String, after: Bench, dos: Seq<Do>, other: Seq<char>)
    requires
        wired(b, Ask::FieldSet(key, value), after, dos) || wired(b, Ask::Picked(key, value), after, dos),
        other != key@,
    ensures
        after.form.look(key@) == Some(value@),
        after.form.look(other) == b.form.look(other),
        after.form.kind@ == b.form.kind@,
{
}

/// The buttons of the queue hand on what they say, and only Pause and Cancel stop a job.
pub proof fn law_only_pausing_and_cancelling_stop(b: Bench, id: i64, act: String, after: Bench, dos: Seq<Do>)
    requires
        wired(b, Ask::QueueAction(id, act), after, dos),
    ensures
        dos.len() == 2,
        dos[1] == Do::ReadQueue,
        dos[0] matches Do::Change { act: a, id: n, stop } && n == id && stop == (act@ == "pause"@ || act@ == "cancel"@) && (act@
            == "pause"@ ==> a is Pause) && (act@ == "cancel"@ ==> a is Cancel) && (act@ == "resume"@ ==> a is Resume) && (act@
            == "retry"@ ==> a is Retry) && (act@ == "remove"@ ==> a is Remove) && (act@ == "clear"@ ==> a is Clear) && (act@ == "up"@
            ==> a is Up) && (act@ == "down"@ ==> a is Down) && (act@ == "open"@ ==> a is Open),
{
    reveal_strlit("pause");
    reveal_strlit("resume");
    reveal_strlit("cancel");
    reveal_strlit("retry");
    reveal_strlit("remove");
    reveal_strlit("clear");
    reveal_strlit("up");
    reveal_strlit("down");
    reveal_strlit("open");
    assert("pause"@.len() == 5 && "resume"@.len() == 6 && "cancel"@.len() == 6 && "retry"@.len() == 5 && "remove"@.len() == 6 && "clear"@.len() == 5 && "up"@.len() == 2 && "down"@.len() == 4 && "open"@.len() == 4);
    assert("pause"@[0] == 'p' && "retry"@[0] == 'r' && "clear"@[0] == 'c' && "resume"@[0] == 'r' && "cancel"@[0] == 'c' && "resume"@[2] == 's' && "remove"@[2] == 'm' && "remove"@[0] == 'r' && "down"@[0] == 'd' && "open"@[0] == 'o');
}

/// A segment is added behind the others and taken out at its place.
pub proof fn law_segments_come_and_go_at_their_place(b: Bench, from: Double, to: Double, i: i64, after: Bench, dos: Seq<Do>)
    ensures
        wired(b, Ask::TrimAdd(from, to), after, dos) ==> after.segments.list@.len() == b.segments.list@.len() + 1 && after.segments.list@.last() == (from, to) && after.segments.list@.drop_last() == b.segments.list@,
        wired(b, Ask::TrimDel(i), after, dos) && 0 <= i < b.segments.list@.len() ==> after.segments.list@ == b.segments.list@.take(i as int) + b.segments.list@.skip(i + 1),
        wired(b, Ask::TrimDel(i), after, dos) && !(0 <= i < b.segments.list@.len()) ==> after.segments.list@ == b.segments.list@,
{
    if wired(b, Ask::TrimAdd(from, to), after, dos) {
        assert(after.segments.list@.drop_last() =~= b.segments.list@);
    }
    if wired(b, Ask::TrimDel(i), after, dos) && 0 <= i < b.segments.list@.len() {
        assert(after.segments.list@ =~= b.segments.list@.take(i as int) + b.segments.list@.skip(i + 1));
    }
}

/// A job that is in the queue already is not handed in again; any other is, as it was asked.
pub proof fn law_a_twin_is_not_handed_in(b: Bench, kind: String, spec: Spec, twin: Option<bool>, after: Bench, dos: Seq<Do>)
    requires
        wired(b, (Ask::Looked { kind, spec, twin }), after, dos),
    ensures
        twin == Some(true) ==> dos.len() == 0 && after.error@ == DUPLICATE@,
        twin != Some(true) ==> dos.len() == 2 && dos[0] == Do::Submit(kind, spec) && dos[1] == Do::ReadQueue && after.error@ == b.error@,
{
}

/// A result is shown as its kind asks: a probed file under its name, two folders side by side,
/// nothing of any other kind.
pub proof fn law_a_result_is_shown_as_its_kind_asks(b: Bench, after: Bench, id: i64, kind: String, input: String, left: String, right: String, dos: Seq<Do>)
    requires
        wired(b, (Ask::Result { id, kind, input, left, right }), after, dos),
    ensures
        kind@ == "mediainfo"@ ==> dos.len() == 1 && (dos[0] matches Do::Probe(path, _) && path@ == input@),
        kind@ == "folder_diff"@ ==> dos.len() == 1 && (dos[0] matches Do::Compare(n, x, y) && n == id && x@ == left@ && y@ == right@),
        kind@ != "mediainfo"@ && kind@ != "folder_diff"@ ==> dos.len() == 0,
        after == b,
{
    reveal_strlit("mediainfo");
    reveal_strlit("folder_diff");
    assert("mediainfo"@.len() == 9 && "folder_diff"@.len() == 11);
}

/// A tool that is opened shows its form at the defaults, without an error; so does one that is
/// reset, and the settings look for the programs.
pub proof fn law_an_opened_tool_shows_its_form(b: Bench, after: Bench, kind: String, dos: Seq<Do>, k: Seq<char>)
    ensures
        wired(b, Ask::Open(kind), after, dos) ==> after.active == kind && after.form.kind@ == kind@ && after.error@ == ""@ && after.form.look(k) == default_of(fields_of(kind@), k)
            && dos == seq![Do::PaintForm, Do::ReadQueue],
        wired(b, Ask::Reset, after, dos) ==> after.active == b.active && after.form.kind@ == b.active@ && after.error@ == ""@ && after.form.look(k) == default_of(
            fields_of(b.active@),
            k,
        ) && dos == seq![Do::PaintForm],
        wired(b, Ask::SetCategory(kind), after, dos) && kind@ == "settings"@ ==> dos == seq![Do::List, Do::ProbePrograms],
        wired(b, Ask::SetCategory(kind), after, dos) && kind@ != "settings"@ ==> dos == seq![Do::List],
        wired(b, Ask::UpdateTool(kind), after, dos) && kind@ == "yt-dlp"@ ==> dos == seq![Do::UpdateDownloader, Do::ProbePrograms],
        wired(b, Ask::UpdateTool(kind), after, dos) && kind@ != "yt-dlp"@ ==> dos == seq![Do::ProbePrograms],
        wired(b, Ask::RemoveDownload(kind), after, dos) ==> dos == seq![Do::RemoveFile(kind), Do::ReadDownloads],
        wired(b, Ask::OpenDownload(kind), after, dos) ==> dos == seq![Do::OpenFile(kind)],
{
}

/// The editor opens on the form's source with nothing kept and draws it, and says so where
/// there is none; segments are joined only where there are a source and a segment.
pub proof fn law_the_editor_needs_a_source(b: Bench, after: Bench, dos: Seq<Do>)
    ensures
        wired(b, Ask::TrimEditor, after, dos) ==> after.trim_open && after.trim_path@ == source_of(b.form) && (source_of(b.form).len() == 0 ==> dos.len() == 0 && after.trim_status@
            == PICK_FIRST@) && (source_of(b.form).len() > 0 ==> after.segments.list@.len() == 0 && dos.len() == 2 && dos[0] == Do::PaintSegments && (dos[1] matches Do::Draw(p) && p@
            == source_of(b.form))),
        wired(b, Ask::TrimJoin, after, dos) ==> (dos.len() > 0) == (source_of(b.form).len() > 0 && b.segments.list@.len() > 0) && (dos.len() > 0 ==> (dos[0] matches Do::Join(from, _) && from@
            == source_of(b.form)) && after.trim_status@ == "Joining…"@),
        wired(b, Ask::TrimJoin, after, dos) && dos.len() == 0 ==> after.trim_status@ == b.trim_status@,
{
}

/// A form that is not in order is told so and hands in nothing.
pub proof fn law_a_form_out_of_order_is_told_so(b: Bench, after: Bench, missing: Vec<String>, home: String, dos: Seq<Do>)
    requires
        wired(b, (Ask::Run { missing, home }), after, dos),
        b.form.kind@.len() > 0,
    ensures
        first_error(fields_of(b.form.kind@), b.form, views(missing@)) matches Some(e) ==> after.error@ == e && dos.len() == 0,
        dos.len() > 0 ==> first_error(fields_of(b.form.kind@), b.form, views(missing@)) is None && after.error@ == ""@ && (dos[0] matches Do::Look(kind, _) && kind@ == b.form.kind@),
        after.form == b.form,
{
}

/// The folders that are tried are those of the form as it stands, and nothing else is done.
pub proof fn law_a_folder_of_the_form_is_opened(b: Bench, after: Bench, dos: Seq<Do>)
    requires
        wired(b, Ask::OpenFolder, after, dos),
    ensures
        after == b,
        dos.len() == 1,
        dos[0] matches Do::OpenFolder(fs) && exists|parent: Option<Seq<char>>| views(fs@) == #[trigger] folders(b.form, parent) && (b.form.look("input"@) is None ==> parent is None),
{
}

} // verus!
