//! The programs that the tools lean on: where each comes from, what is said of it,
//! and the files and folders that the downloads page shows.

use vstd::prelude::*;
use crate::find::{at_most, first_chars, first_line, first_line_of};
use crate::outside::{parent_fits, path_parent};
use crate::status::figures::opt_string;
use crate::text::{same, trim, trimmed, views};
use crate::tools::form::Form;
use crate::tools::job::{downloads, is_download};
use crate::tools::media::{human_bytes, human_text};

verus! {

/// Where a program comes from: the user's own folder of tools goes before a
/// bundled copy, that before the search path.
pub open spec fn source_text(in_tools_dir: bool, bundled: bool, on_path: bool) -> Seq<char> {
    if in_tools_dir {
        "Tools dir"@
    } else if bundled {
        "Bundled"@
    } else if on_path {
        "System PATH"@
    } else {
        "Missing"@
    }
}

/// See [`source_text`].
pub fn tool_source(in_tools_dir: bool, bundled: bool, on_path: bool) -> (r: &'static str)
    ensures
        r@ == source_text(in_tools_dir, bundled, on_path),
{
    if in_tools_dir {
        "Tools dir"
    } else if bundled {
        "Bundled"
    } else if on_path {
        "System PATH"
    } else {
        "Missing"
    }
}

/// What the settings say of a program.
#[derive(Debug)]
pub struct ToolStatus {
    pub name: String,
    pub source: String,
    pub detail: String,
    pub available: bool,
    pub updatable: bool,
}

/// What the settings read.
#[verifier::ext_equal]
pub struct StatusView {
    pub name: Seq<char>,
    pub source: Seq<char>,
    pub detail: Seq<char>,
    pub available: bool,
    pub updatable: bool,
}

impl View for ToolStatus {
    type V = StatusView;

    open spec fn view(&self) -> StatusView {
        StatusView {
            name: self.name@,
            source: self.source@,
            detail: self.detail@,
            available: self.available,
            updatable: self.updatable,
        }
    }
}

/// A program that the tools use, and what for.
pub struct Needed {
    pub name: &'static str,
    pub role: &'static str,
}

/// The programs, by name and use.
pub open spec fn needed_view() -> Seq<(Seq<char>, Seq<char>)> {
    seq![
        ("ffmpeg"@, "transcode · compress · convert"@),
        ("ffprobe"@, "media inspection"@),
        ("yt-dlp"@, "URL downloads"@),
        ("whisper-cli"@, "transcription"@),
        ("mpv"@, "playback"@),
        ("rclone"@, "cloud sync"@),
        ("exiftool"@, "EXIF metadata"@),
    ]
}

/// See [`needed_view`].
pub fn needed() -> (r: Vec<Needed>)
    ensures
        Seq::new(r@.len(), |i: int| (r@[i].name@, r@[i].role@)) == needed_view(),
{
    let r = vec![
        Needed { name: "ffmpeg", role: "transcode · compress · convert" },
        Needed { name: "ffprobe", role: "media inspection" },
        Needed { name: "yt-dlp", role: "URL downloads" },
        Needed { name: "whisper-cli", role: "transcription" },
        Needed { name: "mpv", role: "playback" },
        Needed { name: "rclone", role: "cloud sync" },
        Needed { name: "exiftool", role: "EXIF metadata" },
    ];
    assert(Seq::new(r@.len(), |i: int| (r@[i].name@, r@[i].role@)) =~= needed_view());
    r
}

/// What the settings say of a program: its version where it is there and told
/// one, else what it is for. Only the downloader can update itself.
pub open spec fn status_view(name: Seq<char>, role: Seq<char>, source: Seq<char>, version: Seq<char>) -> StatusView {
    let there = source != "Missing"@;
    StatusView {
        name,
        source,
        detail: if there && version.len() > 0 { version } else { role },
        available: there,
        updatable: name == "yt-dlp"@ && there,
    }
}

/// See [`status_view`].
pub fn tool_status(name: &str, role: &str, source: &str, version: &str) -> (r: ToolStatus)
    ensures
        r@ == status_view(name@, role@, source@, version@),
{
    let there = !same(source, "Missing");
    ToolStatus {
        name: name.to_owned(),
        source: source.to_owned(),
        detail: if there && !version.is_empty() { version.to_owned() } else { role.to_owned() },
        available: there,
        updatable: same(name, "yt-dlp") && there,
    }
}

/// What the settings say of the model of speech.
pub fn model_status(there: bool) -> (r: ToolStatus)
    ensures
        r@ == (StatusView {
            name: "ggml-tiny (whisper model)"@,
            source: if there { "Bundled"@ } else { "Missing"@ },
            detail: if there { "75 MB · transcription model"@ } else { "transcription model"@ },
            available: there,
            updatable: false,
        }),
{
    ToolStatus {
        name: "ggml-tiny (whisper model)".to_owned(),
        source: if there { "Bundled".to_owned() } else { "Missing".to_owned() },
        detail: if there { "75 MB · transcription model".to_owned() } else { "transcription model".to_owned() },
        available: there,
        updatable: false,
    }
}

/// The version that a program told: the first line of the first answer that has
/// one, 64 characters at most. An answer is missing where the program failed.
pub open spec fn version_text(answers: Seq<Option<Seq<char>>>) -> Seq<char>
    decreases answers.len(),
{
    if answers.len() == 0 {
        Seq::empty()
    } else {
        match answers[0] {
            Some(a) => if first_line(a).len() > 0 {
                at_most(first_line(a), 64)
            } else {
                version_text(answers.skip(1))
            },
            None => version_text(answers.skip(1)),
        }
    }
}

/// The answers as they read.
pub open spec fn answers_view(v: Seq<Option<String>>) -> Seq<Option<Seq<char>>> {
    Seq::new(v.len(), |i: int| opt_string(v[i]))
}

/// See [`version_text`].
pub fn tool_version(answers: &Vec<Option<String>>) -> (r: String)
    ensures
        r@ == version_text(answers_view(answers@)),
{
    let ghost all = answers_view(answers@);
    let mut i: usize = 0;
    assert(all.skip(0) =~= all);
    while i < answers.len()
        invariant
            i <= answers@.len(),
            all == answers_view(answers@),
            version_text(all) == version_text(all.skip(i as int)),
        decreases answers@.len() - i,
    {
        assert(all.skip(i as int)[0] == opt_string(answers@[i as int]));
        assert(all.skip(i as int).skip(1) =~= all.skip(i + 1));
        match &answers[i] {
            Some(a) => {
                let line = first_line_of(a.as_str());
                if !line.as_str().is_empty() {
                    return first_chars(line.as_str(), 64);
                }
            },
            None => {},
        }
        i = i + 1;
    }
    let r = String::new();
    assert(r@ =~= Seq::<char>::empty());
    r
}

/// A name under which a program may be installed: its resolved path, whether that
/// is a full path to a file that is there, and whether the name is on the search
/// path.
#[derive(Debug)]
pub struct Candidate {
    pub name: String,
    pub path: String,
    pub there: bool,
    pub on_path: bool,
}

/// What to run: the first candidate that is there, by its full path before its
/// bare name.
pub open spec fn chosen(c: Seq<Candidate>) -> Option<Seq<char>>
    decreases c.len(),
{
    if c.len() == 0 {
        None
    } else if c[0].there {
        Some(c[0].path@)
    } else if c[0].on_path {
        Some(c[0].name@)
    } else {
        chosen(c.skip(1))
    }
}

/// See [`chosen`].
pub fn whisper_bin(c: &Vec<Candidate>) -> (r: Option<String>)
    ensures
        opt_string(r) == chosen(c@),
{
    let mut i: usize = 0;
    assert(c@.skip(0) =~= c@);
    while i < c.len()
        invariant
            i <= c@.len(),
            chosen(c@) == chosen(c@.skip(i as int)),
        decreases c@.len() - i,
    {
        assert(c@.skip(i as int).skip(1) =~= c@.skip(i + 1));
        if c[i].there {
            return Some(c[i].path.clone());
        }
        if c[i].on_path {
            return Some(c[i].name.clone());
        }
        i = i + 1;
    }
    None
}

/// A file that a download wrote: where, its own name if the path has one, and its
/// size where it is still there.
#[derive(Debug)]
pub struct Written {
    pub path: String,
    pub name: Option<String>,
    pub size: Option<u64>,
}

/// A line of the list of downloads.
#[derive(Debug)]
pub struct DownloadItem {
    pub name: String,
    pub path: String,
    pub meta: String,
}

impl View for DownloadItem {
    type V = (Seq<char>, Seq<char>, Seq<char>);

    open spec fn view(&self) -> Self::V {
        (self.name@, self.path@, self.meta@)
    }
}

/// The lines as they read.
pub open spec fn items_view(v: Seq<DownloadItem>) -> Seq<(Seq<char>, Seq<char>, Seq<char>)> {
    Seq::new(v.len(), |i: int| v[i]@)
}

/// What the list says of the files that are still there.
pub open spec fn still_there(files: Seq<Written>) -> Seq<(Seq<char>, Seq<char>, Seq<char>)>
    decreases files.len(),
{
    if files.len() == 0 {
        Seq::empty()
    } else {
        let f = files.last();
        let rest = still_there(files.drop_last());
        match f.size {
            Some(n) => rest.push(
                (
                    match f.name {
                        Some(s) => s@,
                        None => f.path@,
                    },
                    f.path@,
                    human_text(n as nat),
                ),
            ),
            None => rest,
        }
    }
}

/// The paths of the files that are gone.
pub open spec fn gone(files: Seq<Written>) -> Seq<Seq<char>>
    decreases files.len(),
{
    if files.len() == 0 {
        Seq::empty()
    } else {
        let rest = gone(files.drop_last());
        if files.last().size is None { rest.push(files.last().path@) } else { rest }
    }
}

/// The list of downloads, and the paths to forget because their files are gone.
pub fn list_downloaded(files: &Vec<Written>) -> (r: (Vec<DownloadItem>, Vec<String>))
    ensures
        items_view(r.0@) == still_there(files@),
        views(r.1@) == gone(files@),
{
    let mut items: Vec<DownloadItem> = Vec::new();
    let mut forget: Vec<String> = Vec::new();
    let mut i: usize = 0;
    assert(files@.take(0) =~= Seq::<Written>::empty());
    assert(items_view(items@) =~= Seq::<(Seq<char>, Seq<char>, Seq<char>)>::empty());
    assert(views(forget@) =~= Seq::<Seq<char>>::empty());
    while i < files.len()
        invariant
            i <= files@.len(),
            items_view(items@) == still_there(files@.take(i as int)),
            views(forget@) == gone(files@.take(i as int)),
        decreases files@.len() - i,
    {
        assert(files@.take(i + 1).drop_last() =~= files@.take(i as int));
        assert(files@.take(i + 1).last() == files@[i as int]);
        let f = &files[i];
        let ghost (was, were) = (items_view(items@), views(forget@));
        match f.size {
            Some(n) => {
                let name = match &f.name {
                    Some(s) => s.clone(),
                    None => f.path.clone(),
                };
                let item = DownloadItem { name, path: f.path.clone(), meta: human_bytes(n) };
                let ghost v = item@;
                items.push(item);
                assert(items_view(items@) =~= was.push(v));
            },
            None => {
                forget.push(f.path.clone());
                assert(views(forget@) =~= were.push(f.path@));
            },
        }
        i = i + 1;
    }
    assert(files@.take(i as int) =~= files@);
    (items, forget)
}

/// The folders that "Open folder" tries, in order: the one typed in, then the
/// source's own where the tool does not download.
pub open spec fn folders(form: Form, parent: Option<Seq<char>>) -> Seq<Seq<char>> {
    let typed = match form.look("output"@) {
        Some(v) => trim(v),
        None => Seq::empty(),
    };
    let first = if typed.len() > 0 { seq![typed] } else { Seq::<Seq<char>>::empty() };
    match parent {
        Some(p) => if downloads(form.kind@) { first } else { first.push(p) },
        None => first,
    }
}

/// The folders that "Open folder" tries, in order, `parent` being the folder that the
/// source lies in.
pub fn folders_beside(form: &Form, parent: &Option<String>) -> (r: Vec<String>)
    requires
        form.wf(),
    ensures
        views(r@) == folders(*form, opt_string(*parent)),
{
    let mut out: Vec<String> = Vec::new();
    assert(views(out@) =~= Seq::<Seq<char>>::empty());
    match form.get("output") {
        Some(v) => {
            let t = trimmed(v.as_str());
            if !t.as_str().is_empty() {
                let ghost text = t@;
                out.push(t);
                assert(views(out@) =~= seq![text]);
            }
        },
        None => {},
    }
    let ghost first = views(out@);
    if !is_download(form.kind.as_str()) {
        match parent {
            Some(p) => {
                out.push(p.clone());
                assert(views(out@) =~= first.push(p@));
            },
            None => {},
        }
    }
    out
}

/// The folders that "Open folder" tries, in order; where none of them is a folder
/// the downloads are opened. Which folder the source lies in is the platform's to
/// say.
pub fn folders_to_try(form: &Form) -> (r: Vec<String>)
    requires
        form.wf(),
    ensures
        exists|parent: Option<Seq<char>>| {
            &&& views(r@) == #[trigger] folders(*form, parent)
            &&& match form.look("input"@) {
                Some(v) => parent_fits(trim(v), parent),
                None => parent is None,
            }
        },
{
    let parent = match form.get("input") {
        Some(v) => path_parent(trimmed(v.as_str()).as_str()),
        None => None,
    };
    let r = folders_beside(form, &parent);
    assert(views(r@) == folders(*form, opt_string(parent)));
    r
}

/// The version of a program is the first line of the first answer that has one, held to a
/// length; there is none where no answer has one.
pub proof fn law_the_first_answer_with_a_line_is_the_version(answers: Seq<Option<Seq<char>>>)
    ensures
        (exists|i: int|
            0 <= i < answers.len() && ((#[trigger] answers[i]) is Some && first_line((#[trigger] answers[i])->0).len() > 0) && version_text(answers) == at_most(first_line(answers[i]->0), 64) && forall|j: int|
                0 <= j < i ==> !(((#[trigger] answers[j]) is Some && first_line((#[trigger] answers[j])->0).len() > 0))) || ((forall|i: int| 0 <= i < answers.len() ==> !(((#[trigger] answers[i]) is Some && first_line((#[trigger] answers[i])->0).len() > 0))) && version_text(answers) == Seq::<char>::empty()),
    decreases answers.len(),
{
    if answers.len() > 0 {
        if (answers[0] is Some && first_line(answers[0]->0).len() > 0) {
            assert((answers[0] is Some && first_line(answers[0]->0).len() > 0) && version_text(answers) == at_most(first_line(answers[0]->0), 64));
        } else {
            let rest = answers.skip(1);
            law_the_first_answer_with_a_line_is_the_version(rest);
            assert forall|i: int| 0 <= i < rest.len() implies (#[trigger] rest[i]) == answers[i + 1] by {}
            if exists|i: int|
            0 <= i < rest.len() && ((#[trigger] rest[i]) is Some && first_line((#[trigger] rest[i])->0).len() > 0) && version_text(rest) == at_most(first_line(rest[i]->0), 64) && forall|j: int|
                0 <= j < i ==> !(((#[trigger] rest[j]) is Some && first_line((#[trigger] rest[j])->0).len() > 0)) {
                let i = choose|i: int|
                    0 <= i < rest.len() && ((#[trigger] rest[i]) is Some && first_line((#[trigger] rest[i])->0).len() > 0) && version_text(rest) == at_most(first_line(rest[i]->0), 64) && forall|j: int|
                        0 <= j < i ==> !(((#[trigger] rest[j]) is Some && first_line((#[trigger] rest[j])->0).len() > 0));
                assert((answers[i + 1] is Some && first_line(answers[i + 1]->0).len() > 0) && version_text(answers) == at_most(first_line(answers[i + 1]->0), 64));
                assert forall|j: int| 0 <= j < i + 1 implies !(((#[trigger] answers[j]) is Some && first_line((#[trigger] answers[j])->0).len() > 0)) by {
                    if j > 0 {
                        assert(!((rest[j - 1] is Some && first_line(rest[j - 1]->0).len() > 0)));
                    }
                }
            } else {
                assert forall|i: int| 0 <= i < answers.len() implies !(((#[trigger] answers[i]) is Some && first_line((#[trigger] answers[i])->0).len() > 0)) by {
                    if i > 0 {
                        assert(!((rest[i - 1] is Some && first_line(rest[i - 1]->0).len() > 0)));
                    }
                }
            }
        }
    }
}

/// What is run is the first candidate that is there, by its path where the file is there
/// and else by its name; nothing where none is.
pub proof fn law_the_first_candidate_there_is_run(c: Seq<Candidate>)
    ensures
        (exists|i: int|
            0 <= i < c.len() && ((#[trigger] c[i]).there || (#[trigger] c[i]).on_path) && chosen(c) == Some(if c[i].there { c[i].path@ } else { c[i].name@ }) && forall|j: int|
                0 <= j < i ==> !(((#[trigger] c[j]).there || (#[trigger] c[j]).on_path))) || ((forall|i: int| 0 <= i < c.len() ==> !(((#[trigger] c[i]).there || (#[trigger] c[i]).on_path))) && chosen(c) is None),
    decreases c.len(),
{
    if c.len() > 0 {
        if (c[0].there || c[0].on_path) {
            assert((c[0].there || c[0].on_path) && chosen(c) == Some(if c[0].there { c[0].path@ } else { c[0].name@ }));
        } else {
            let rest = c.skip(1);
            law_the_first_candidate_there_is_run(rest);
            assert forall|i: int| 0 <= i < rest.len() implies (#[trigger] rest[i]) == c[i + 1] by {}
            if exists|i: int|
            0 <= i < rest.len() && ((#[trigger] rest[i]).there || (#[trigger] rest[i]).on_path) && chosen(rest) == Some(if rest[i].there { rest[i].path@ } else { rest[i].name@ }) && forall|j: int|
                0 <= j < i ==> !(((#[trigger] rest[j]).there || (#[trigger] rest[j]).on_path)) {
                let i = choose|i: int|
                    0 <= i < rest.len() && ((#[trigger] rest[i]).there || (#[trigger] rest[i]).on_path) && chosen(rest) == Some(if rest[i].there { rest[i].path@ } else { rest[i].name@ }) && forall|j: int|
                        0 <= j < i ==> !(((#[trigger] rest[j]).there || (#[trigger] rest[j]).on_path));
                assert((c[i + 1].there || c[i + 1].on_path) && chosen(c) == Some(if c[i + 1].there { c[i + 1].path@ } else { c[i + 1].name@ }));
                assert forall|j: int| 0 <= j < i + 1 implies !(((#[trigger] c[j]).there || (#[trigger] c[j]).on_path)) by {
                    if j > 0 {
                        assert(!((rest[j - 1].there || rest[j - 1].on_path)));
                    }
                }
            } else {
                assert forall|i: int| 0 <= i < c.len() implies !(((#[trigger] c[i]).there || (#[trigger] c[i]).on_path)) by {
                    if i > 0 {
                        assert(!((rest[i - 1].there || rest[i - 1].on_path)));
                    }
                }
            }
        }
    }
}

/// The list of downloads shows the files that are still there, in order: name, path and
/// size.
pub proof fn law_files_that_are_there_are_listed(files: Seq<Written>)
    ensures
        still_there(files) == files.filter(|x: Written| x.size is Some).map_values(|x: Written| (match x.name { Some(s) => s@, None => x.path@ }, x.path@, human_text(x.size->0 as nat))),
    decreases files.len(),
{
    reveal(Seq::filter);
    let p = |x: Written| x.size is Some;
    let wanted = files.filter(|x: Written| x.size is Some).map_values(|x: Written| (match x.name { Some(s) => s@, None => x.path@ }, x.path@, human_text(x.size->0 as nat)));
    if files.len() > 0 {
        let front = files.drop_last();
        law_files_that_are_there_are_listed(front);
        let kept = front.filter(p);
        assert(files.filter(p) == (if p(files.last()) { kept.push(files.last()) } else { kept }));
        assert(front.filter(|x: Written| x.size is Some).map_values(|x: Written| (match x.name { Some(s) => s@, None => x.path@ }, x.path@, human_text(x.size->0 as nat))) == still_there(front));
    }
    assert(still_there(files) =~= wanted);
}

/// The files that are forgotten are exactly those that are gone.
pub proof fn law_files_that_are_gone_are_forgotten(files: Seq<Written>)
    ensures
        gone(files) == files.filter(|x: Written| x.size is None).map_values(|x: Written| x.path@),
    decreases files.len(),
{
    reveal(Seq::filter);
    let p = |x: Written| x.size is None;
    let wanted = files.filter(|x: Written| x.size is None).map_values(|x: Written| x.path@);
    if files.len() > 0 {
        let front = files.drop_last();
        law_files_that_are_gone_are_forgotten(front);
        let kept = front.filter(p);
        assert(files.filter(p) == (if p(files.last()) { kept.push(files.last()) } else { kept }));
        assert(front.filter(|x: Written| x.size is None).map_values(|x: Written| x.path@) == gone(front));
    }
    assert(gone(files) =~= wanted);
}


/// A program is available exactly where it comes from somewhere, the user's own folder
/// before the bundle and the bundle before the search path; it is updated only where it is
/// the downloader.
pub proof fn law_a_program_is_available_where_it_is_found(
    name: Seq<char>,
    role: Seq<char>,
    version: Seq<char>,
    in_tools_dir: bool,
    bundled: bool,
    on_path: bool,
)
    ensures
        ({
            let v = status_view(name, role, source_text(in_tools_dir, bundled, on_path), version);
            &&& v.name == name
            &&& v.available == (in_tools_dir || bundled || on_path)
            &&& v.updatable == (v.available && name == "yt-dlp"@)
            &&& in_tools_dir ==> v.source == "Tools dir"@
            &&& !in_tools_dir && bundled ==> v.source == "Bundled"@
            &&& !in_tools_dir && !bundled && on_path ==> v.source == "System PATH"@
            &&& v.available && version.len() > 0 ==> v.detail == version
            &&& !v.available || version.len() == 0 ==> v.detail == role
        }),
{
    reveal_strlit("Tools dir");
    reveal_strlit("Bundled");
    reveal_strlit("System PATH");
    reveal_strlit("Missing");
    assert("Tools dir"@.len() == 9 && "Bundled"@.len() == 7 && "System PATH"@.len() == 11 && "Missing"@.len() == 7);
    assert("Bundled"@[0] == 'B' && "Missing"@[0] == 'M');
}

/// The folder that was typed in is tried first, then that of the source, unless the tool
/// downloads; nothing else is.
pub proof fn law_the_folder_typed_in_is_tried_first(form: Form, parent: Option<Seq<char>>)
    ensures
        ({
            let typed = match form.look("output"@) {
                Some(v) => trim(v),
                None => Seq::empty(),
            };
            let own = parent is Some && form.kind@ != "download"@ && form.kind@ != "download_playlist"@ && form.kind@ != "download_live"@;
            &&& folders(form, parent).len() == (if typed.len() > 0 { 1int } else { 0 }) + (if own { 1int } else { 0 })
            &&& typed.len() > 0 ==> folders(form, parent)[0] == typed
            &&& own ==> folders(form, parent).last() == parent->0
        }),
{
}

} // verus!
