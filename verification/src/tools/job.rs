//! The job that a filled-in form makes: whether the form may run, what the job's
//! specification says, and that it does not write over its own source.

use vstd::prelude::*;
use crate::ascii::{is_number, reads_as_number};
use crate::order::{lemma_rising_push, rising};
use crate::outside::{json_string, json_text, name_fits, parent_fits, path_name, path_parent, separator};
use crate::status::figures::opt_string;
use crate::text::{pieces, same, split_on, trim, trimmed, views};
use crate::tools::form::{fields_of, fields_view, law_no_form_asks_twice, told_apart, tool_fields, FieldView, Form};
use crate::tools::paths::{
    beside, beside_text, ext_named, ext_text, file_stem, inside, join_path, stem,
};

verus! {

/// One value of a job's specification. A number is kept as it was typed, without
/// the white space around it.
#[derive(Debug)]
pub enum SpecValue {
    Files(Vec<String>),
    Number(String),
    Flag(bool),
    Text(String),
}

/// What a value says.
pub enum SpecView {
    Files(Seq<Seq<char>>),
    Number(Seq<char>),
    Flag(bool),
    Text(Seq<char>),
}

impl View for SpecValue {
    type V = SpecView;

    open spec fn view(&self) -> SpecView {
        match *self {
            SpecValue::Files(v) => SpecView::Files(views(v@)),
            SpecValue::Number(s) => SpecView::Number(s@),
            SpecValue::Flag(b) => SpecView::Flag(b),
            SpecValue::Text(s) => SpecView::Text(s@),
        }
    }
}

/// The values as they are.
pub open spec fn values_view(v: Seq<SpecValue>) -> Seq<SpecView> {
    Seq::new(v.len(), |i: int| v[i]@)
}

/// A job's specification: a value under each key. No key stands in it twice.
#[derive(Debug)]
pub struct Spec {
    pub keys: Vec<String>,
    pub values: Vec<SpecValue>,
}

/// The first `n` values under their keys.
pub open spec fn gathered(keys: Seq<Seq<char>>, values: Seq<SpecView>, n: nat) -> Map<Seq<char>, SpecView>
    decreases n,
{
    if n == 0 {
        Map::empty()
    } else {
        gathered(keys, values, (n - 1) as nat).insert(keys[n - 1], values[n - 1])
    }
}

proof fn lemma_gathered(keys: Seq<Seq<char>>, values: Seq<SpecView>, n: nat)
    requires
        n <= keys.len(),
        keys.no_duplicates(),
    ensures
        forall|i: int| 0 <= i < n ==> #[trigger] gathered(keys, values, n).dom().contains(keys[i]) && gathered(
            keys,
            values,
            n,
        )[keys[i]] == values[i],
        forall|k: Seq<char>| #[trigger]
            gathered(keys, values, n).dom().contains(k) ==> exists|i: int| 0 <= i < n && keys[i] == k,
    decreases n,
{
    if n > 0 {
        let m = (n - 1) as nat;
        lemma_gathered(keys, values, m);
        let g = gathered(keys, values, n);
        assert forall|i: int| 0 <= i < n implies #[trigger] g.dom().contains(keys[i]) && g[keys[i]] == values[i] by {
            if i < m {
                assert(gathered(keys, values, m).dom().contains(keys[i]));
                assert(keys[i] != keys[n - 1]);
            }
        }
        assert forall|k: Seq<char>| #[trigger] g.dom().contains(k) implies exists|i: int| 0 <= i < n && keys[i] == k by {
            if k == keys[n - 1] {
                assert(keys[n - 1] == k);
            } else {
                assert(gathered(keys, values, m).dom().contains(k));
            }
        }
    }
}

proof fn lemma_gathered_same(
    keys: Seq<Seq<char>>,
    more: Seq<Seq<char>>,
    a: Seq<SpecView>,
    b: Seq<SpecView>,
    n: nat,
)
    requires
        forall|i: int| 0 <= i < n ==> keys[i] == more[i] && a[i] == b[i],
    ensures
        gathered(keys, a, n) == gathered(more, b, n),
    decreases n,
{
    if n > 0 {
        lemma_gathered_same(keys, more, a, b, (n - 1) as nat);
    }
}

impl Spec {
    /// No key stands in the specification twice.
    pub open spec fn wf(&self) -> bool {
        &&& self.keys@.len() == self.values@.len()
        &&& views(self.keys@).no_duplicates()
    }

    /// The value under each key.
    pub open spec fn map(&self) -> Map<Seq<char>, SpecView> {
        gathered(views(self.keys@), values_view(self.values@), self.keys@.len())
    }

    fn empty() -> (r: Spec)
        ensures
            r.wf(),
            r.map() == Map::<Seq<char>, SpecView>::empty(),
    {
        let r = Spec { keys: Vec::new(), values: Vec::new() };
        assert(views(r.keys@) =~= Seq::<Seq<char>>::empty());
        r
    }

    fn place(&self, key: &str) -> (r: usize)
        requires
            self.wf(),
        ensures
            r <= self.keys@.len(),
            r < self.keys@.len() ==> self.keys@[r as int]@ == key@,
            r == self.keys@.len() ==> !self.map().dom().contains(key@) && !views(self.keys@).contains(key@),
    {
        let mut i: usize = 0;
        while i < self.keys.len()
            invariant
                i <= self.keys@.len(),
                forall|j: int| 0 <= j < i ==> (#[trigger] self.keys@[j])@ != key@,
            decreases self.keys@.len() - i,
        {
            if same(self.keys[i].as_str(), key) {
                return i;
            }
            i = i + 1;
        }
        proof {
            lemma_gathered(views(self.keys@), values_view(self.values@), self.keys@.len());
            assert forall|j: int| 0 <= j < self.keys@.len() implies views(self.keys@)[j] != key@ by {
                assert(self.keys@[j]@ != key@);
            }
        }
        i
    }

    /// The value under a key.
    pub fn get(&self, key: &str) -> (r: Option<&SpecValue>)
        requires
            self.wf(),
        ensures
            match r {
                Some(v) => self.map().dom().contains(key@) && self.map()[key@] == v@,
                None => !self.map().dom().contains(key@),
            },
    {
        let i = self.place(key);
        if i < self.keys.len() {
            proof {
                lemma_gathered(views(self.keys@), values_view(self.values@), self.keys@.len());
                assert(views(self.keys@)[i as int] == key@);
            }
            Some(&self.values[i])
        } else {
            None
        }
    }

    fn insert(&mut self, key: &str, value: SpecValue)
        requires
            old(self).wf(),
        ensures
            final(self).wf(),
            final(self).map() == old(self).map().insert(key@, value@),
    {
        let i = self.place(key);
        let ghost (ks, vs) = (views(self.keys@), values_view(self.values@));
        let ghost v = value@;
        let n: usize = self.keys.len();
        if i < n {
            self.values.set(i, value);
            proof {
                let now = values_view(self.values@);
                assert(now =~= vs.update(i as int, v));
                lemma_gathered(ks, vs, n as nat);
                lemma_gathered(ks, now, n as nat);
                let (a, b) = (gathered(ks, now, n as nat), gathered(ks, vs, n as nat).insert(key@, v));
                assert(ks[i as int] == key@);
                assert forall|k: Seq<char>| #[trigger] a.dom().contains(k) <==> b.dom().contains(k) by {
                    if a.dom().contains(k) {
                        let j = choose|j: int| 0 <= j < n && ks[j] == k;
                        assert(gathered(ks, vs, n as nat).dom().contains(ks[j]));
                    }
                    if b.dom().contains(k) {
                        if k == key@ {
                            assert(a.dom().contains(ks[i as int]));
                        } else {
                            let j = choose|j: int| 0 <= j < n && ks[j] == k;
                            assert(a.dom().contains(ks[j]));
                        }
                    }
                }
                assert forall|k: Seq<char>| #[trigger] a.dom().contains(k) implies a[k] == b[k] by {
                    let j = choose|j: int| 0 <= j < n && ks[j] == k;
                    assert(a.dom().contains(ks[j]));
                    assert(gathered(ks, vs, n as nat).dom().contains(ks[j]));
                    if j != i {
                        assert(ks[j] != ks[i as int]);
                    }
                }
                assert(a =~= b);
            }
        } else {
            self.keys.push(key.to_owned());
            self.values.push(value);
            proof {
                let (nk, nv) = (views(self.keys@), values_view(self.values@));
                assert(nk =~= ks.push(key@));
                assert(nv =~= vs.push(v));
                assert(nk.no_duplicates()) by {
                    assert forall|a: int, b: int| 0 <= a < nk.len() && 0 <= b < nk.len() && a != b implies nk[a] != nk[b] by {
                        if a < ks.len() && b < ks.len() {
                            assert(ks[a] != ks[b]);
                        } else if a < ks.len() {
                            assert(ks.contains(ks[a]));
                        } else {
                            assert(ks.contains(ks[b]));
                        }
                    }
                }
                lemma_gathered_same(ks, nk, vs, nv, n as nat);
            }
        }
    }
}

/// The lines of a list of files that are not blank, each without the white space
/// around it.
pub open spec fn filled(lines: Seq<Seq<char>>) -> Seq<Seq<char>>
    decreases lines.len(),
{
    if lines.len() == 0 {
        Seq::empty()
    } else {
        let rest = filled(lines.drop_last());
        if trim(lines.last()).len() == 0 { rest } else { rest.push(trim(lines.last())) }
    }
}

/// The files that an answer lists, one to a line.
pub open spec fn listed(answer: Seq<char>) -> Seq<Seq<char>> {
    filled(pieces(answer, '\n'))
}

/// See [`listed`].
pub fn listed_files(answer: &str) -> (r: Vec<String>)
    ensures
        views(r@) == listed(answer@),
{
    let lines = split_on(answer, '\n');
    let ghost all = views(lines@);
    let mut out: Vec<String> = Vec::new();
    let mut i: usize = 0;
    assert(all.take(0) =~= Seq::<Seq<char>>::empty());
    assert(views(out@) =~= Seq::<Seq<char>>::empty());
    while i < lines.len()
        invariant
            i <= lines@.len(),
            all == views(lines@),
            views(out@) == filled(all.take(i as int)),
        decreases lines@.len() - i,
    {
        assert(all.take(i + 1).drop_last() =~= all.take(i as int));
        assert(all.take(i + 1).last() == lines@[i as int]@);
        let t = trimmed(lines[i].as_str());
        if !t.as_str().is_empty() {
            let ghost was = views(out@);
            let ghost text = t@;
            out.push(t);
            assert(views(out@) =~= was.push(text));
        }
        i = i + 1;
    }
    assert(all.take(i as int) =~= all);
    out
}

/// What the answer to a field of some kind becomes in the specification.
pub open spec fn value_of(kind: Seq<char>, answer: Seq<char>) -> SpecView {
    if kind == "files"@ {
        SpecView::Files(listed(answer))
    } else if kind == "number"@ || kind == "slider"@ {
        if is_number(trim(answer)) {
            SpecView::Number(trim(answer))
        } else {
            SpecView::Text(answer)
        }
    } else if kind == "toggle"@ {
        SpecView::Flag(answer == "true"@)
    } else {
        SpecView::Text(answer)
    }
}

fn typed_value(kind: &str, answer: &str) -> (r: SpecValue)
    ensures
        r@ == value_of(kind@, answer@),
{
    if same(kind, "files") {
        SpecValue::Files(listed_files(answer))
    } else if same(kind, "number") || same(kind, "slider") {
        let t = trimmed(answer);
        if reads_as_number(t.as_str()) {
            SpecValue::Number(t)
        } else {
            SpecValue::Text(answer.to_owned())
        }
    } else if same(kind, "toggle") {
        SpecValue::Flag(same(answer, "true"))
    } else {
        SpecValue::Text(answer.to_owned())
    }
}

/// The answer to a field: what was typed, else its default.
pub open spec fn answered(f: FieldView, form: Form) -> Seq<char> {
    match form.look(f.key) {
        Some(v) => v,
        None => f.value,
    }
}

/// The specification that the fields make.
pub open spec fn typed(fields: Seq<FieldView>, form: Form) -> Map<Seq<char>, SpecView>
    decreases fields.len(),
{
    if fields.len() == 0 {
        Map::empty()
    } else {
        let f = fields.last();
        typed(fields.drop_last(), form).insert(f.key, value_of(f.kind, answered(f, form)))
    }
}

fn typed_spec(form: &Form) -> (r: Spec)
    requires
        form.wf(),
    ensures
        r.wf(),
        r.map() == typed(fields_of(form.kind@), *form),
{
    let fields = tool_fields(form.kind.as_str());
    let ghost all = fields_view(fields@);
    let mut r = Spec::empty();
    let mut i: usize = 0;
    assert(all.take(0) =~= Seq::<FieldView>::empty());
    while i < fields.len()
        invariant
            i <= fields@.len(),
            form.wf(),
            all == fields_view(fields@),
            r.wf(),
            r.map() == typed(all.take(i as int), *form),
        decreases fields@.len() - i,
    {
        assert(all.take(i + 1).drop_last() =~= all.take(i as int));
        assert(all.take(i + 1).last() == fields@[i as int]@);
        let f = &fields[i];
        let value = match form.get(f.key) {
            Some(v) => typed_value(f.kind, v.as_str()),
            None => typed_value(f.kind, f.value.as_str()),
        };
        r.insert(f.key, value);
        i = i + 1;
    }
    assert(all.take(i as int) =~= all);
    r
}

/// Whether a kind of job downloads.
pub open spec fn downloads(kind: Seq<char>) -> bool {
    kind == "download"@ || kind == "download_playlist"@ || kind == "download_live"@
}

/// See [`downloads`].
pub fn is_download(kind: &str) -> (r: bool)
    ensures
        r == downloads(kind@),
{
    same(kind, "download") || same(kind, "download_playlist") || same(kind, "download_live")
}

/// The extension of recompressed audio.
pub open spec fn audio_ext(codec: Option<Seq<char>>) -> Seq<char> {
    if codec == Some("aac"@) {
        "m4a"@
    } else if codec == Some("opus"@) {
        "opus"@
    } else if codec == Some("vorbis"@) {
        "ogg"@
    } else {
        "mp3"@
    }
}

/// The extension of a recompressed photo.
pub open spec fn photo_ext(format: Option<Seq<char>>) -> Seq<char> {
    if format == Some("webp"@) {
        "webp"@
    } else if format == Some("avif"@) {
        "avif"@
    } else {
        "jpg"@
    }
}

/// Where the source stands: its folder, its file name, and the separator between.
pub struct Place {
    pub parent: Option<Seq<char>>,
    pub name: Option<Seq<char>>,
    pub sep: char,
}

/// Whether a place fits a source, as far as every platform agrees.
pub open spec fn stands(p: Place, source: Seq<char>) -> bool {
    &&& parent_fits(source, p.parent)
    &&& name_fits(source, p.name)
    &&& p.sep == '/' || p.sep == '\\'
}

/// A result beside its source.
pub open spec fn at(p: Place, suffix: Seq<char>, ext: Seq<char>) -> Seq<char> {
    beside_text(p.parent, p.name, p.sep, suffix, ext)
}

/// The numbered parts of a split source.
pub open spec fn parts_text(p: Place) -> Seq<char> {
    inside(
        match p.parent {
            Some(d) => d,
            None => "."@,
        },
        p.sep,
        (match p.name {
            Some(n) => stem(n),
            None => "clip"@,
        }) + "_%03d."@ + ext_text(p.name),
    )
}

/// The output of a job that was given none: beside the source, with a suffix and
/// an extension of the kind's own.
pub open spec fn default_output(form: Form, p: Place) -> Option<Seq<char>> {
    let kind = form.kind@;
    if kind == "compress_video"@ || kind == "trim"@ || kind == "normalize"@ || kind == "watermark"@ || kind
        == "burn_subs"@ {
        Some(at(p, "tulipix"@, ext_text(p.name)))
    } else if kind == "compress_audio"@ {
        Some(at(p, "tulipix"@, audio_ext(form.look("codec"@))))
    } else if kind == "compress_photo"@ {
        Some(at(p, "tulipix"@, photo_ext(form.look("format"@))))
    } else if kind == "convert"@ {
        Some(
            at(
                p,
                "tulipix"@,
                match form.look("target_ext"@) {
                    Some(e) => e,
                    None => "mp4"@,
                },
            ),
        )
    } else if kind == "resize"@ {
        Some(at(p, "resized"@, ext_text(p.name)))
    } else if kind == "thumbnail"@ {
        Some(at(p, "thumb"@, "jpg"@))
    } else if kind == "mediainfo"@ {
        Some(at(p, "info"@, "txt"@))
    } else if kind == "contact_sheet"@ {
        Some(at(p, "sheet"@, "jpg"@))
    } else if kind == "extract"@ {
        Some(at(p, "track"@, if form.look("stream"@) == Some("subtitle"@) { "srt"@ } else { "mka"@ }))
    } else if kind == "transcribe"@ {
        Some(at(p, ""@, "srt"@))
    } else if kind == "split"@ {
        Some(parts_text(p))
    } else {
        None
    }
}

fn is_answer(form: &Form, key: &str, value: &str) -> (r: bool)
    requires
        form.wf(),
    ensures
        r == (form.look(key@) == Some(value@)),
{
    match form.get(key) {
        Some(v) => same(v.as_str(), value),
        None => false,
    }
}

/// The place of a source in machine values.
pub open spec fn place_of(parent: Option<String>, name: Option<String>, sep: char) -> Place {
    Place { parent: opt_string(parent), name: opt_string(name), sep }
}

fn output_for(form: &Form, parent: &Option<String>, name: &Option<String>, sep: char) -> (r: Option<String>)
    requires
        form.wf(),
    ensures
        opt_string(r) == default_output(*form, place_of(*parent, *name, sep)),
{
    let kind = form.kind.as_str();
    let own = ext_named(name);
    if same(kind, "compress_video") || same(kind, "trim") || same(kind, "normalize") || same(kind, "watermark")
        || same(kind, "burn_subs") {
        Some(beside(parent, name, sep, "tulipix", own.as_str()))
    } else if same(kind, "compress_audio") {
        let ext = if is_answer(form, "codec", "aac") {
            "m4a"
        } else if is_answer(form, "codec", "opus") {
            "opus"
        } else if is_answer(form, "codec", "vorbis") {
            "ogg"
        } else {
            "mp3"
        };
        Some(beside(parent, name, sep, "tulipix", ext))
    } else if same(kind, "compress_photo") {
        let ext = if is_answer(form, "format", "webp") {
            "webp"
        } else if is_answer(form, "format", "avif") {
            "avif"
        } else {
            "jpg"
        };
        Some(beside(parent, name, sep, "tulipix", ext))
    } else if same(kind, "convert") {
        let ext = match form.get("target_ext") {
            Some(e) => e.as_str(),
            None => "mp4",
        };
        Some(beside(parent, name, sep, "tulipix", ext))
    } else if same(kind, "resize") {
        Some(beside(parent, name, sep, "resized", own.as_str()))
    } else if same(kind, "thumbnail") {
        Some(beside(parent, name, sep, "thumb", "jpg"))
    } else if same(kind, "mediainfo") {
        Some(beside(parent, name, sep, "info", "txt"))
    } else if same(kind, "contact_sheet") {
        Some(beside(parent, name, sep, "sheet", "jpg"))
    } else if same(kind, "extract") {
        let ext = if is_answer(form, "stream", "subtitle") { "srt" } else { "mka" };
        Some(beside(parent, name, sep, "track", ext))
    } else if same(kind, "transcribe") {
        Some(beside(parent, name, sep, "", "srt"))
    } else if same(kind, "split") {
        let mut file = match name {
            Some(n) => file_stem(n.as_str()),
            None => "clip".to_owned(),
        };
        file.append("_%03d.");
        file.append(own.as_str());
        let folder = match parent {
            Some(d) => d.as_str(),
            None => ".",
        };
        Some(join_path(folder, sep, file.as_str()))
    } else {
        None
    }
}

/// The text that a specification holds under a key.
pub open spec fn text_at(m: Map<Seq<char>, SpecView>, key: Seq<char>) -> Option<Seq<char>> {
    if m.dom().contains(key) {
        match m[key] {
            SpecView::Text(t) => Some(t),
            _ => None,
        }
    } else {
        None
    }
}

/// A form's source, empty where it has none.
pub open spec fn source_of(form: Form) -> Seq<char> {
    match form.look("input"@) {
        Some(v) => v,
        None => Seq::empty(),
    }
}

/// A specification with the output filled in where the user left it blank.
pub open spec fn with_output(m: Map<Seq<char>, SpecView>, form: Form, p: Place) -> Map<Seq<char>, SpecView> {
    let blank = match text_at(m, "output"@) {
        Some(t) => trim(t).len() == 0,
        None => true,
    };
    match default_output(form, p) {
        Some(path) => if blank && source_of(form).len() > 0 {
            m.insert("output"@, SpecView::Text(path))
        } else {
            m
        },
        None => m,
    }
}

/// Where a download is saved and how its files are named: into the folder that
/// was asked for, else the user's downloads; a playlist gets a folder of its own.
pub open spec fn with_template(
    m: Map<Seq<char>, SpecView>,
    kind: Seq<char>,
    home: Seq<char>,
    sep: char,
) -> Map<Seq<char>, SpecView> {
    if downloads(kind) {
        let asked = match text_at(m, "output"@) {
            Some(t) => trim(t),
            None => Seq::empty(),
        };
        let folder = if asked.len() == 0 { home } else { asked };
        let template = if kind == "download_playlist"@ {
            inside(inside(folder, sep, "%(playlist_title)s"@), sep, "%(title)s.%(ext)s"@)
        } else {
            inside(folder, sep, "%(title)s.%(ext)s"@)
        };
        m.insert("output"@, SpecView::Text(folder)).insert("out_template"@, SpecView::Text(template))
    } else {
        m
    }
}

/// The whole specification of a form's job.
pub open spec fn spec_of(form: Form, p: Place, home: Seq<char>) -> Map<Seq<char>, SpecView> {
    with_template(with_output(typed(fields_of(form.kind@), form), form, p), form.kind@, home, p.sep)
}

fn text_under(s: &Spec, key: &str) -> (r: Option<String>)
    requires
        s.wf(),
    ensures
        opt_string(r) == text_at(s.map(), key@),
{
    match s.get(key) {
        Some(SpecValue::Text(t)) => Some(t.clone()),
        _ => None,
    }
}

/// The specification of a form's job, the source's place given.
pub fn build_spec_at(form: &Form, parent: &Option<String>, name: &Option<String>, sep: char, home: &str) -> (r: Spec)
    requires
        form.wf(),
    ensures
        r.wf(),
        r.map() == spec_of(*form, place_of(*parent, *name, sep), home@),
{
    let ghost p = place_of(*parent, *name, sep);
    let mut r = typed_spec(form);
    let blank = match text_under(&r, "output") {
        Some(t) => trimmed(t.as_str()).as_str().is_empty(),
        None => true,
    };
    let has_source = match form.get("input") {
        Some(v) => !v.as_str().is_empty(),
        None => false,
    };
    assert(has_source == (source_of(*form).len() > 0));
    if blank && has_source {
        match output_for(form, parent, name, sep) {
            Some(path) => {
                r.insert("output", SpecValue::Text(path));
            },
            None => {},
        }
    }
    assert(r.map() == with_output(typed(fields_of(form.kind@), *form), *form, p));
    if is_download(form.kind.as_str()) {
        let asked = match text_under(&r, "output") {
            Some(t) => trimmed(t.as_str()),
            None => String::new(),
        };
        let folder = if asked.as_str().is_empty() { home } else { asked.as_str() };
        let template = if same(form.kind.as_str(), "download_playlist") {
            join_path(join_path(folder, sep, "%(playlist_title)s").as_str(), sep, "%(title)s.%(ext)s")
        } else {
            join_path(folder, sep, "%(title)s.%(ext)s")
        };
        let folder = folder.to_owned();
        r.insert("output", SpecValue::Text(folder));
        r.insert("out_template", SpecValue::Text(template));
    }
    r
}

/// A form as a typed specification, the output filled in beside the source where
/// the user left it blank; `home` is the user's folder of downloads.
pub fn tools_build_spec(form: &Form, home: &str) -> (r: Spec)
    requires
        form.wf(),
    ensures
        r.wf(),
        exists|p: Place| r.map() == #[trigger] spec_of(*form, p, home@) && stands(p, source_of(*form)),
{
    let input = match form.get("input") {
        Some(v) => v.as_str(),
        None => "",
    };
    let parent = path_parent(input);
    let name = path_name(input);
    let sep = separator();
    let r = build_spec_at(form, &parent, &name, sep, home);
    proof {
        reveal_strlit("");
        assert(source_of(*form) =~= input@);
    }
    assert(r.map() == spec_of(*form, place_of(parent, name, sep), home@));
    r
}

/// The text that a kept specification has under a key; nothing where it has none.
pub open spec fn kept_text(spec: Seq<char>, key: Seq<char>) -> Seq<char> {
    match json_text(spec, key) {
        Some(t) => t,
        None => Seq::empty(),
    }
}

/// See [`kept_text`]. Where the specification is no JSON it has no texts.
pub fn spec_text(spec: &str, key: &str) -> (r: String)
    ensures
        r@ == kept_text(spec@, key@),
{
    match json_string(spec, key) {
        Some(t) => t,
        None => String::new(),
    }
}

proof fn lemma_typed(fields: Seq<FieldView>, form: Form, i: int)
    requires
        0 <= i < fields.len(),
        told_apart(fields),
    ensures
        typed(fields, form).dom().contains(fields[i].key),
        typed(fields, form)[fields[i].key] == value_of(fields[i].kind, answered(fields[i], form)),
    decreases fields.len(),
{
    let front = fields.drop_last();
    if i < front.len() {
        assert(fields[i].key != fields[fields.len() - 1].key);
        assert forall|a: int, b: int| 0 <= a < b < front.len() implies (#[trigger] front[a]).key != (#[trigger] front[b]).key by {
            assert(fields[a].key != fields[b].key);
        }
        assert forall|a: int| 0 <= a < front.len() implies (#[trigger] front[a]) == fields[a] by {}
        lemma_typed(front, form, i);
    }
}

/// A switch is on in the specification exactly when its answer, what was typed or else the
/// default, is the text "true".
pub proof fn law_a_switch_is_on_when_it_says_so(form: Form, p: Place, home: Seq<char>, i: int)
    requires
        0 <= i < fields_of(form.kind@).len(),
        fields_of(form.kind@)[i].kind == "toggle"@,
    ensures
        ({
            let f = fields_of(form.kind@)[i];
            &&& spec_of(form, p, home).dom().contains(f.key)
            &&& spec_of(form, p, home)[f.key] matches SpecView::Flag(on) && match form.look(f.key) {
                Some(v) => on == (v == "true"@),
                None => on == (f.value == "true"@),
            }
        }),
{
    reveal_strlit("toggle");
    reveal_strlit("files");
    reveal_strlit("number");
    reveal_strlit("slider");
    assert("toggle"@.len() == 6 && "files"@.len() == 5 && "number"@.len() == 6 && "slider"@.len() == 6);
    assert("toggle"@[0] == 't' && "number"@[0] == 'n' && "slider"@[0] == 's');
    law_no_form_asks_twice(form.kind@);
    lemma_typed(fields_of(form.kind@), form, i);
}

/// A field that is neither a switch, a number nor a list of files is in the specification
/// letter for letter as it was answered; where the result goes is another matter.
pub proof fn law_a_text_is_taken_as_typed(form: Form, p: Place, home: Seq<char>, i: int)
    requires
        0 <= i < fields_of(form.kind@).len(),
        fields_of(form.kind@)[i].key != "output"@,
        ({
            let k = fields_of(form.kind@)[i].kind;
            k != "toggle"@ && k != "files"@ && k != "number"@ && k != "slider"@
        }),
    ensures
        ({
            let f = fields_of(form.kind@)[i];
            &&& spec_of(form, p, home).dom().contains(f.key)
            &&& spec_of(form, p, home)[f.key] matches SpecView::Text(t) && match form.look(f.key) {
                Some(v) => t == v,
                None => t == f.value,
            }
        }),
{
    law_no_form_asks_twice(form.kind@);
    lemma_typed(fields_of(form.kind@), form, i);
}

/// A number is in the specification as a number where it reads as one, without the white
/// space around it, and else letter for letter as it was answered.
pub proof fn law_a_number_is_one_where_it_reads_so(form: Form, p: Place, home: Seq<char>, i: int)
    requires
        0 <= i < fields_of(form.kind@).len(),
        fields_of(form.kind@)[i].kind == "number"@ || fields_of(form.kind@)[i].kind == "slider"@,
    ensures
        ({
            let f = fields_of(form.kind@)[i];
            let a = match form.look(f.key) {
                Some(v) => v,
                None => f.value,
            };
            &&& spec_of(form, p, home).dom().contains(f.key)
            &&& is_number(trim(a)) ==> spec_of(form, p, home)[f.key] == SpecView::Number(trim(a))
            &&& !is_number(trim(a)) ==> spec_of(form, p, home)[f.key] == SpecView::Text(a)
        }),
{
    reveal_strlit("toggle");
    reveal_strlit("files");
    reveal_strlit("number");
    reveal_strlit("slider");
    assert("toggle"@.len() == 6 && "files"@.len() == 5 && "number"@.len() == 6 && "slider"@.len() == 6);
    assert("toggle"@[0] == 't' && "number"@[0] == 'n' && "slider"@[0] == 's');
    law_no_form_asks_twice(form.kind@);
    lemma_typed(fields_of(form.kind@), form, i);
}

proof fn lemma_filled(lines: Seq<Seq<char>>) -> (idx: Seq<int>)
    ensures
        rising(idx),
        forall|i: int| #[trigger] idx.contains(i) <==> 0 <= i < lines.len() && trim(lines[i]).len() > 0,
        filled(lines).len() == idx.len(),
        forall|k: int| 0 <= k < idx.len() ==> #[trigger] filled(lines)[k] == trim(lines[idx[k]]),
    decreases lines.len(),
{
    if lines.len() == 0 {
        Seq::empty()
    } else {
        let front = lines.drop_last();
        let n = front.len() as int;
        let before = lemma_filled(front);
        assert forall|k: int| 0 <= k < before.len() implies 0 <= #[trigger] before[k] < n by {
            assert(before.contains(before[k]));
        }
        lemma_rising_push(before, n);
        let idx = if trim(lines.last()).len() > 0 { before.push(n) } else { before };
        assert forall|i: int| #[trigger] idx.contains(i) <==> 0 <= i < lines.len() && trim(lines[i]).len() > 0 by {
            if idx.contains(i) {
                let k = choose|k: int| 0 <= k < idx.len() && idx[k] == i;
                if k < before.len() {
                    assert(before.contains(before[k]));
                    assert(front[i] == lines[i]);
                }
            }
            if 0 <= i < n {
                assert(front[i] == lines[i]);
                if before.contains(i) {
                    let k = choose|k: int| 0 <= k < before.len() && before[k] == i;
                    assert(idx[k] == i);
                }
            }
            if i == n && trim(lines[i]).len() > 0 {
                assert(idx[before.len() as int] == n);
            }
        }
        assert forall|k: int| 0 <= k < idx.len() implies #[trigger] filled(lines)[k] == trim(lines[idx[k]]) by {
            if k < before.len() {
                assert(front[before[k]] == lines[before[k]]);
            }
        }
        idx
    }
}

/// The files of a list are those of its lines that are not blank, in their order, each
/// without the white space around it.
pub proof fn law_a_file_for_each_line(form: Form, p: Place, home: Seq<char>, i: int) -> (idx: Seq<int>)
    requires
        0 <= i < fields_of(form.kind@).len(),
        fields_of(form.kind@)[i].kind == "files"@,
    ensures
        rising(idx),
        ({
            let f = fields_of(form.kind@)[i];
            let lines = pieces(
                match form.look(f.key) {
                    Some(v) => v,
                    None => f.value,
                },
                '\n',
            );
            &&& forall|j: int| #[trigger] idx.contains(j) <==> 0 <= j < lines.len() && trim(lines[j]).len() > 0
            &&& spec_of(form, p, home).dom().contains(f.key)
            &&& spec_of(form, p, home)[f.key] matches SpecView::Files(v) && v.len() == idx.len() && forall|k: int|
                0 <= k < idx.len() ==> #[trigger] v[k] == trim(lines[idx[k]])
        }),
{
    reveal_strlit("toggle");
    reveal_strlit("files");
    reveal_strlit("number");
    reveal_strlit("slider");
    assert("toggle"@.len() == 6 && "files"@.len() == 5 && "number"@.len() == 6 && "slider"@.len() == 6);
    assert("toggle"@[0] == 't' && "number"@[0] == 'n' && "slider"@[0] == 's');
    law_no_form_asks_twice(form.kind@);
    lemma_typed(fields_of(form.kind@), form, i);
    let f = fields_of(form.kind@)[i];
    lemma_filled(pieces(answered(f, form), '\n'))
}

/// Nothing is in a specification that its form does not ask for, but for where the result
/// goes and how a download names its files.
pub proof fn law_a_spec_holds_its_form_alone(form: Form, p: Place, home: Seq<char>, key: Seq<char>)
    requires
        spec_of(form, p, home).dom().contains(key),
        key != "output"@,
        key != "out_template"@,
    ensures
        exists|i: int| 0 <= i < fields_of(form.kind@).len() && (#[trigger] fields_of(form.kind@)[i]).key == key,
{
    lemma_typed_holds(fields_of(form.kind@), form, key);
}

proof fn lemma_typed_holds(fields: Seq<FieldView>, form: Form, key: Seq<char>)
    requires
        typed(fields, form).dom().contains(key),
    ensures
        exists|i: int| 0 <= i < fields.len() && (#[trigger] fields[i]).key == key,
    decreases fields.len(),
{
    if fields.len() > 0 {
        if fields.last().key == key {
            assert(fields[fields.len() - 1].key == key);
        } else {
            lemma_typed_holds(fields.drop_last(), form, key);
            let i = choose|i: int| 0 <= i < fields.drop_last().len() && (#[trigger] fields.drop_last()[i]).key == key;
            assert(fields[i].key == key);
        }
    }
}

/// Where the user says where the result goes, it goes there, if the job is no download.
pub proof fn law_a_named_output_stays(form: Form, p: Place, home: Seq<char>, i: int)
    requires
        0 <= i < fields_of(form.kind@).len(),
        fields_of(form.kind@)[i].key == "output"@,
        form.look("output"@) matches Some(v) && trim(v).len() > 0,
        form.kind@ != "download"@,
        form.kind@ != "download_playlist"@,
        form.kind@ != "download_live"@,
    ensures
        spec_of(form, p, home).dom().contains("output"@),
        spec_of(form, p, home)["output"@] == SpecView::Text(form.look("output"@)->0),
{
    law_no_form_asks_twice(form.kind@);
    lemma_typed(fields_of(form.kind@), form, i);
}

/// Where the user leaves open where the result goes, it goes beside the source: a job that
/// keeps the format keeps the extension, any other has one of its own.
pub proof fn law_a_blank_output_goes_beside_the_source(form: Form, p: Place, home: Seq<char>, i: int)
    requires
        0 <= i < fields_of(form.kind@).len(),
        fields_of(form.kind@)[i].key == "output"@,
        match form.look("output"@) {
            Some(v) => trim(v).len() == 0,
            None => trim(fields_of(form.kind@)[i].value).len() == 0,
        },
        form.look("input"@) matches Some(v) && v.len() > 0,
    ensures
        ({
            let (kind, to) = (form.kind@, spec_of(form, p, home)["output"@]);
            let own = ext_text(p.name);
            let at = |suffix: Seq<char>, ext: Seq<char>| SpecView::Text(beside_text(p.parent, p.name, p.sep, suffix, ext));
            &&& kind == "compress_video"@ || kind == "trim"@ || kind == "normalize"@ || kind == "watermark"@ || kind
                == "burn_subs"@ ==> to == at("tulipix"@, own)
            &&& kind == "resize"@ ==> to == at("resized"@, own)
            &&& kind == "thumbnail"@ ==> to == at("thumb"@, "jpg"@)
            &&& kind == "mediainfo"@ ==> to == at("info"@, "txt"@)
            &&& kind == "contact_sheet"@ ==> to == at("sheet"@, "jpg"@)
            &&& kind == "transcribe"@ ==> to == at(""@, "srt"@)
            &&& kind == "extract"@ ==> to == at("track"@, if form.look("stream"@) == Some("subtitle"@) { "srt"@ } else { "mka"@ })
            &&& kind == "compress_audio"@ ==> to == at(
                "tulipix"@,
                match form.look("codec"@) {
                    Some(c) => if c == "aac"@ {
                        "m4a"@
                    } else if c == "opus"@ {
                        "opus"@
                    } else if c == "vorbis"@ {
                        "ogg"@
                    } else {
                        "mp3"@
                    },
                    None => "mp3"@,
                },
            )
            &&& kind == "compress_photo"@ ==> to == at(
                "tulipix"@,
                match form.look("format"@) {
                    Some(c) => if c == "webp"@ || c == "avif"@ {
                        c
                    } else {
                        "jpg"@
                    },
                    None => "jpg"@,
                },
            )
            &&& kind == "convert"@ ==> to == at(
                "tulipix"@,
                match form.look("target_ext"@) {
                    Some(e) => e,
                    None => "mp4"@,
                },
            )
        }),
{
    reveal_strlit("compress_video");
    reveal_strlit("compress_audio");
    reveal_strlit("compress_photo");
    reveal_strlit("trim");
    reveal_strlit("normalize");
    reveal_strlit("watermark");
    reveal_strlit("burn_subs");
    reveal_strlit("resize");
    reveal_strlit("thumbnail");
    reveal_strlit("mediainfo");
    reveal_strlit("contact_sheet");
    reveal_strlit("transcribe");
    reveal_strlit("extract");
    reveal_strlit("convert");
    reveal_strlit("split");
    reveal_strlit("download");
    reveal_strlit("download_playlist");
    reveal_strlit("download_live");
    reveal_strlit("webp");
    reveal_strlit("avif");
    assert("compress_video"@.len() == 14 && "compress_audio"@.len() == 14 && "compress_photo"@.len() == 14 && "trim"@.len() == 4 && "normalize"@.len() == 9 && "watermark"@.len() == 9 && "burn_subs"@.len() == 9 && "resize"@.len() == 6 && "thumbnail"@.len() == 9 && "mediainfo"@.len() == 9 && "contact_sheet"@.len() == 13 && "transcribe"@.len() == 10 && "extract"@.len() == 7 && "convert"@.len() == 7 && "split"@.len() == 5 && "download"@.len() == 8 && "download_playlist"@.len() == 17 && "download_live"@.len() == 13 && "webp"@.len() == 4 && "avif"@.len() == 4);
    assert("compress_video"@[9] == 'v' && "compress_audio"@[9] == 'a' && "compress_photo"@[9] == 'p' && "trim"@[0] == 't' && "webp"@[0] == 'w' && "avif"@[0] == 'a' && "normalize"@[0] == 'n' && "watermark"@[0] == 'w' && "burn_subs"@[0] == 'b' && "thumbnail"@[0] == 't' && "mediainfo"@[0] == 'm' && "contact_sheet"@[0] == 'c' && "download_live"@[0] == 'd' && "extract"@[0] == 'e' && "convert"@[0] == 'c');
    law_no_form_asks_twice(form.kind@);
    lemma_typed(fields_of(form.kind@), form, i);
}

/// A download is saved into the folder that was asked for, else into the user's downloads,
/// and its files are named inside that folder, a playlist's one folder further in.
pub proof fn law_a_download_goes_where_it_is_asked_to(form: Form, p: Place, home: Seq<char>, i: int)
    requires
        0 <= i < fields_of(form.kind@).len(),
        fields_of(form.kind@)[i].key == "output"@,
        form.kind@ == "download"@ || form.kind@ == "download_playlist"@ || form.kind@ == "download_live"@,
    ensures
        ({
            let m = spec_of(form, p, home);
            let a = match form.look("output"@) {
                Some(v) => v,
                None => fields_of(form.kind@)[i].value,
            };
            let folder = if trim(a).len() > 0 { trim(a) } else { home };
            &&& m["output"@] == SpecView::Text(folder)
            &&& form.kind@ != "download_playlist"@ ==> m["out_template"@] == SpecView::Text(
                inside(folder, p.sep, "%(title)s.%(ext)s"@),
            )
            &&& form.kind@ == "download_playlist"@ ==> m["out_template"@] == SpecView::Text(
                inside(inside(folder, p.sep, "%(playlist_title)s"@), p.sep, "%(title)s.%(ext)s"@),
            )
        }),
{
    reveal_strlit("compress_video");
    reveal_strlit("compress_audio");
    reveal_strlit("compress_photo");
    reveal_strlit("trim");
    reveal_strlit("normalize");
    reveal_strlit("watermark");
    reveal_strlit("burn_subs");
    reveal_strlit("resize");
    reveal_strlit("thumbnail");
    reveal_strlit("mediainfo");
    reveal_strlit("contact_sheet");
    reveal_strlit("transcribe");
    reveal_strlit("extract");
    reveal_strlit("convert");
    reveal_strlit("split");
    reveal_strlit("download");
    reveal_strlit("download_playlist");
    reveal_strlit("download_live");
    reveal_strlit("output");
    reveal_strlit("out_template");
    assert("compress_video"@.len() == 14 && "compress_audio"@.len() == 14 && "compress_photo"@.len() == 14 && "trim"@.len() == 4 && "normalize"@.len() == 9 && "watermark"@.len() == 9 && "burn_subs"@.len() == 9 && "resize"@.len() == 6 && "thumbnail"@.len() == 9 && "mediainfo"@.len() == 9 && "contact_sheet"@.len() == 13 && "transcribe"@.len() == 10 && "extract"@.len() == 7 && "convert"@.len() == 7 && "split"@.len() == 5 && "download"@.len() == 8 && "download_playlist"@.len() == 17 && "download_live"@.len() == 13 && "output"@.len() == 6 && "out_template"@.len() == 12);
    assert("compress_video"@[9] == 'v' && "compress_audio"@[9] == 'a' && "compress_photo"@[9] == 'p' && "normalize"@[0] == 'n' && "watermark"@[0] == 'w' && "burn_subs"@[0] == 'b' && "thumbnail"@[0] == 't' && "mediainfo"@[0] == 'm' && "resize"@[0] == 'r' && "output"@[0] == 'o' && "contact_sheet"@[0] == 'c' && "download_live"@[0] == 'd' && "extract"@[0] == 'e' && "convert"@[0] == 'c');
    law_no_form_asks_twice(form.kind@);
    lemma_typed(fields_of(form.kind@), form, i);
}

} // verus!
