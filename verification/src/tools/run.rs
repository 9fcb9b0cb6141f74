//! Pressing Run: the form is looked over first, and a job that would write over
//! its own source is refused.

use vstd::prelude::*;
use crate::ascii::{is_number, reads_as_number};
use crate::outside::{same_path, same_place, slash_only, surely_other, surely_same};
use crate::text::{same, trim, trimmed, views};
use crate::tools::form::{fields_of, fields_view, tool_fields, FieldView, Form};
use crate::tools::job::{listed, listed_files, source_of, spec_of, stands, text_at, tools_build_spec, Place, Spec, SpecValue, SpecView};

verus! {

/// What was typed into a field, without the white space around it.
pub open spec fn typed_in(f: FieldView, form: Form) -> Seq<char> {
    match form.look(f.key) {
        Some(v) => trim(v),
        None => Seq::empty(),
    }
}

/// The first of some paths that is missing.
pub open spec fn first_missing(paths: Seq<Seq<char>>, missing: Seq<Seq<char>>) -> Option<Seq<char>>
    decreases paths.len(),
{
    if paths.len() == 0 {
        None
    } else if missing.contains(paths[0]) {
        Some(paths[0])
    } else {
        first_missing(paths.skip(1), missing)
    }
}

/// The paths that a field names.
pub open spec fn named(f: FieldView, form: Form) -> Seq<Seq<char>> {
    let v = typed_in(f, form);
    if v.len() == 0 {
        Seq::empty()
    } else if f.kind == "file"@ || f.kind == "folder"@ {
        seq![v]
    } else if f.kind == "files"@ {
        listed(v)
    } else {
        Seq::empty()
    }
}

/// What is wrong with a field, the paths that do not exist given.
pub open spec fn field_error(f: FieldView, form: Form, missing: Seq<Seq<char>>) -> Option<Seq<char>> {
    let v = typed_in(f, form);
    if v.len() == 0 {
        if f.required { Some(f.label + " is required"@) } else { None }
    } else if f.kind == "number"@ || f.kind == "slider"@ {
        if is_number(v) { None } else { Some(f.label + " must be a number"@) }
    } else if f.kind == "file"@ || f.kind == "folder"@ {
        if missing.contains(v) { Some(f.label + ": not found — "@ + v) } else { None }
    } else if f.kind == "files"@ {
        match first_missing(listed(v), missing) {
            Some(path) => Some("File not found — "@ + path),
            None => None,
        }
    } else {
        None
    }
}

/// What is wrong with the first field that has something wrong.
pub open spec fn first_error(fields: Seq<FieldView>, form: Form, missing: Seq<Seq<char>>) -> Option<Seq<char>>
    decreases fields.len(),
{
    if fields.len() == 0 {
        None
    } else {
        match field_error(fields[0], form, missing) {
            Some(e) => Some(e),
            None => first_error(fields.skip(1), form, missing),
        }
    }
}

/// Every path that some fields name, field by field.
pub open spec fn all_named(fields: Seq<FieldView>, form: Form) -> Seq<Seq<char>>
    decreases fields.len(),
{
    if fields.len() == 0 {
        Seq::empty()
    } else {
        all_named(fields.drop_last(), form) + named(fields.last(), form)
    }
}

fn is_among(v: &Vec<String>, s: &str) -> (r: bool)
    ensures
        r == views(v@).contains(s@),
{
    let mut i: usize = 0;
    while i < v.len()
        invariant
            i <= v@.len(),
            forall|j: int| 0 <= j < i ==> (#[trigger] v@[j])@ != s@,
        decreases v@.len() - i,
    {
        if same(v[i].as_str(), s) {
            assert(views(v@)[i as int] == s@);
            return true;
        }
        i = i + 1;
    }
    assert forall|j: int| 0 <= j < views(v@).len() implies views(v@)[j] != s@ by {
        assert(v@[j]@ != s@);
    }
    false
}

fn missing_file(paths: &Vec<String>, missing: &Vec<String>) -> (r: Option<usize>)
    ensures
        match r {
            Some(i) => i < paths@.len() && first_missing(views(paths@), views(missing@)) == Some(paths@[i as int]@),
            None => first_missing(views(paths@), views(missing@)) is None,
        },
{
    let ghost all = views(paths@);
    let mut i: usize = 0;
    assert(all.skip(0) =~= all);
    while i < paths.len()
        invariant
            i <= paths@.len(),
            all == views(paths@),
            first_missing(all, views(missing@)) == first_missing(all.skip(i as int), views(missing@)),
        decreases paths@.len() - i,
    {
        assert(all.skip(i as int)[0] == paths@[i as int]@);
        assert(all.skip(i as int).skip(1) =~= all.skip(i + 1));
        if is_among(missing, paths[i].as_str()) {
            return Some(i);
        }
        i = i + 1;
    }
    None
}

fn told(head: &str, middle: &str, tail: &str) -> (r: Option<String>)
    ensures
        r matches Some(s) && s@ == head@ + middle@ + tail@,
{
    let mut s = head.to_owned();
    s.append(middle);
    s.append(tail);
    Some(s)
}

fn typed_text(form: &Form, key: &str) -> (r: String)
    requires
        form.wf(),
    ensures
        r@ == (match form.look(key@) {
            Some(v) => trim(v),
            None => Seq::empty(),
        }),
{
    match form.get(key) {
        Some(v) => trimmed(v.as_str()),
        None => {
            let s = String::new();
            assert(s@ =~= Seq::<char>::empty());
            s
        },
    }
}

/// Every path that a form names, so that they can be looked for.
pub fn named_paths(form: &Form) -> (r: Vec<String>)
    requires
        form.wf(),
    ensures
        views(r@) == all_named(fields_of(form.kind@), *form),
{
    let fields = tool_fields(form.kind.as_str());
    let ghost all = fields_view(fields@);
    let mut out: Vec<String> = Vec::new();
    let mut i: usize = 0;
    assert(all.take(0) =~= Seq::<FieldView>::empty());
    assert(views(out@) =~= Seq::<Seq<char>>::empty());
    while i < fields.len()
        invariant
            i <= fields@.len(),
            form.wf(),
            all == fields_view(fields@),
            views(out@) == all_named(all.take(i as int), *form),
        decreases fields@.len() - i,
    {
        assert(all.take(i + 1).drop_last() =~= all.take(i as int));
        assert(all.take(i + 1).last() == fields@[i as int]@);
        let ghost was = views(out@);
        let ghost more = named(all[i as int], *form);
        let f = &fields[i];
        let v = typed_text(form, f.key);
        if !v.as_str().is_empty() {
            if same(f.kind, "file") || same(f.kind, "folder") {
                out.push(v);
                assert(views(out@) =~= was + more);
            } else if same(f.kind, "files") {
                let mut files = listed_files(v.as_str());
                let ghost fs = views(files@);
                out.append(&mut files);
                assert(views(out@) =~= was + fs);
            } else {
                assert(was + more =~= was);
            }
        } else {
            assert(was + more =~= was);
        }
        i = i + 1;
    }
    assert(all.take(i as int) =~= all);
    out
}

/// Looks a form over: nothing where it may run, else what is wrong with the first
/// field that has something wrong. `missing` lists the paths that do not exist.
pub fn validate(form: &Form, missing: &Vec<String>) -> (r: Option<String>)
    requires
        form.wf(),
    ensures
        crate::status::figures::opt_string(r) == first_error(fields_of(form.kind@), *form, views(missing@)),
{
    let fields = tool_fields(form.kind.as_str());
    let ghost all = fields_view(fields@);
    let mut i: usize = 0;
    assert(all.skip(0) =~= all);
    while i < fields.len()
        invariant
            i <= fields@.len(),
            form.wf(),
            all == fields_view(fields@),
            all == fields_of(form.kind@),
            first_error(all, *form, views(missing@)) == first_error(all.skip(i as int), *form, views(missing@)),
        decreases fields@.len() - i,
    {
        assert(all.skip(i as int)[0] == fields@[i as int]@);
        assert(all.skip(i as int).skip(1) =~= all.skip(i + 1));
        let f = &fields[i];
        let v = typed_text(form, f.key);
        if v.as_str().is_empty() {
            if f.required {
                let mut s = f.label.to_owned();
                s.append(" is required");
                return Some(s);
            }
        } else if same(f.kind, "number") || same(f.kind, "slider") {
            if !reads_as_number(v.as_str()) {
                let mut s = f.label.to_owned();
                s.append(" must be a number");
                return Some(s);
            }
        } else if same(f.kind, "file") || same(f.kind, "folder") {
            if is_among(missing, v.as_str()) {
                return told(f.label, ": not found — ", v.as_str());
            }
        } else if same(f.kind, "files") {
            let files = listed_files(v.as_str());
            match missing_file(&files, missing) {
                Some(k) => {
                    let mut s = "File not found — ".to_owned();
                    s.append(files[k].as_str());
                    return Some(s);
                },
                None => {},
            }
        }
        i = i + 1;
    }
    None
}

/// An optional text as a list of none or one.
pub open spec fn listed_once(t: Option<Seq<char>>) -> Seq<Seq<char>> {
    match t {
        Some(t) => seq![t],
        None => Seq::empty(),
    }
}

/// The files that a job reads, as it names them.
pub open spec fn sources_of(m: Map<Seq<char>, SpecView>) -> Seq<Seq<char>> {
    listed_once(text_at(m, "input"@)) + listed_once(text_at(m, "sub"@)) + (if m.dom().contains("inputs"@) {
        match m["inputs"@] {
            SpecView::Files(fs) => fs,
            _ => Seq::empty(),
        }
    } else {
        Seq::empty()
    })
}

/// A file that a job reads.
pub open spec fn reads(m: Map<Seq<char>, SpecView>, s: Seq<char>) -> bool {
    s.len() > 0 && sources_of(m).contains(s)
}

/// A job writes over one of its sources, `same` telling of each whether it is the file
/// that the job writes.
pub open spec fn written_over(m: Map<Seq<char>, SpecView>, same: Seq<bool>) -> bool {
    &&& text_at(m, "output"@) is Some
    &&& exists|i: int| 0 <= i < sources_of(m).len() && (#[trigger] sources_of(m)[i]).len() > 0 && same[i]
}

/// No file that a job reads is surely the file that it writes.
pub open spec fn keeps_sources(m: Map<Seq<char>, SpecView>) -> bool {
    forall|s: Seq<char>| #[trigger] reads(m, s) ==> !(text_at(m, "output"@) matches Some(out) && surely_same(s, out))
}

/// A file that a job reads and that may be the one that it writes.
pub open spec fn at_risk(m: Map<Seq<char>, SpecView>, s: Seq<char>) -> bool {
    reads(m, s) && (text_at(m, "output"@) matches Some(out) && !surely_other(s, out))
}

/// A job reads the place that it writes to.
pub open spec fn overwrites(m: Map<Seq<char>, SpecView>) -> bool {
    exists|s: Seq<char>| #[trigger] reads(m, s) && (text_at(m, "output"@) matches Some(out) && same_place(s, out))
}

/// In every path of a job only the slash separates, so that no platform decides.
pub open spec fn slashes_only(m: Map<Seq<char>, SpecView>) -> bool {
    &&& text_at(m, "output"@) matches Some(out) ==> slash_only(out)
    &&& forall|s: Seq<char>| #[trigger] reads(m, s) ==> slash_only(s)
}

/// What is known of whether a job is refused for what it writes over: exactly those are
/// that read the place they write to, where only the slash separates. Elsewhere one that
/// is refused has a source at risk, and one that is not keeps its sources.
pub open spec fn refusal_fits(m: Map<Seq<char>, SpecView>, refused: bool) -> bool {
    &&& slashes_only(m) ==> refused == overwrites(m)
    &&& refused ==> exists|s: Seq<char>| #[trigger] at_risk(m, s)
    &&& !refused ==> keeps_sources(m)
}

/// The files that a job reads, as it names them.
pub fn sources(spec: &Spec) -> (r: Vec<String>)
    requires
        spec.wf(),
    ensures
        views(r@) == sources_of(spec.map()),
{
    let ghost m = spec.map();
    let mut out: Vec<String> = Vec::new();
    assert(views(out@) =~= Seq::<Seq<char>>::empty());
    match spec.get("input") {
        Some(SpecValue::Text(t)) => {
            out.push(t.clone());
        },
        _ => {},
    }
    assert(views(out@) =~= listed_once(text_at(m, "input"@)));
    match spec.get("sub") {
        Some(SpecValue::Text(t)) => {
            out.push(t.clone());
        },
        _ => {},
    }
    let ghost both = listed_once(text_at(m, "input"@)) + listed_once(text_at(m, "sub"@));
    assert(views(out@) =~= both);
    match spec.get("inputs") {
        Some(SpecValue::Files(fs)) => {
            let mut i: usize = 0;
            assert(views(fs@).take(0) =~= Seq::<Seq<char>>::empty());
            while i < fs.len()
                invariant
                    i <= fs@.len(),
                    views(out@) == both + views(fs@).take(i as int),
                decreases fs@.len() - i,
            {
                let ghost was = views(out@);
                out.push(fs[i].clone());
                assert(views(out@) =~= was.push(fs@[i as int]@));
                assert(views(out@) =~= both + views(fs@).take(i + 1));
                i = i + 1;
            }
            assert(views(fs@).take(i as int) =~= views(fs@));
        },
        _ => {},
    }
    assert(views(out@) =~= sources_of(m));
    out
}

/// See [`written_over`].
pub fn writes_over(spec: &Spec, same: &Vec<bool>) -> (r: bool)
    requires
        spec.wf(),
        same@.len() == sources_of(spec.map()).len(),
    ensures
        r == written_over(spec.map(), same@),
{
    match spec.get("output") {
        Some(SpecValue::Text(_)) => {},
        _ => {
            return false;
        },
    }
    let from = sources(spec);
    let ghost all = sources_of(spec.map());
    let mut i: usize = 0;
    while i < from.len()
        invariant
            i <= from@.len(),
            all == sources_of(spec.map()),
            views(from@) == all,
            same@.len() == all.len(),
            text_at(spec.map(), "output"@) is Some,
            forall|j: int| 0 <= j < i ==> !((#[trigger] all[j]).len() > 0 && same@[j]),
        decreases from@.len() - i,
    {
        assert(all[i as int] == from@[i as int]@);
        if !from[i].as_str().is_empty() && same[i] {
            return true;
        }
        i = i + 1;
    }
    false
}

/// What is known of the answers to which of some files is the one that is written.
pub open spec fn answers_fit(from: Seq<Seq<char>>, out: Option<Seq<char>>, same: Seq<bool>) -> bool {
    &&& same.len() == from.len()
    &&& out matches Some(o) ==> forall|i: int|
        0 <= i < from.len() ==> {
            &&& surely_same(#[trigger] from[i], o) ==> same[i]
            &&& surely_other(from[i], o) ==> !same[i]
        }
}

fn answers(spec: &Spec) -> (r: Vec<bool>)
    requires
        spec.wf(),
    ensures
        answers_fit(sources_of(spec.map()), text_at(spec.map(), "output"@), r@),
{
    let from = sources(spec);
    let out = match spec.get("output") {
        Some(SpecValue::Text(t)) => t.as_str(),
        _ => "",
    };
    let mut r: Vec<bool> = Vec::new();
    let mut i: usize = 0;
    while i < from.len()
        invariant
            i <= from@.len(),
            r@.len() == i,
            views(from@) == sources_of(spec.map()),
            forall|j: int|
                0 <= j < i ==> {
                    &&& surely_same(#[trigger] views(from@)[j], out@) ==> r@[j]
                    &&& surely_other(views(from@)[j], out@) ==> !r@[j]
                },
        decreases from@.len() - i,
    {
        assert(views(from@)[i as int] == from@[i as int]@);
        r.push(same_path(from[i].as_str(), out));
        i = i + 1;
    }
    r
}

proof fn lemma_answers_decide(m: Map<Seq<char>, SpecView>, same: Seq<bool>)
    requires
        answers_fit(sources_of(m), text_at(m, "output"@), same),
    ensures
        refusal_fits(m, written_over(m, same)),
{
    let from = sources_of(m);
    if written_over(m, same) {
        let out = text_at(m, "output"@)->0;
        let i = choose|i: int| 0 <= i < from.len() && (#[trigger] from[i]).len() > 0 && same[i];
        assert(at_risk(m, from[i]));
        assert(reads(m, from[i]));
    } else {
        assert forall|s: Seq<char>| #[trigger] reads(m, s) implies !(text_at(m, "output"@) matches Some(out) && surely_same(
            s,
            out,
        )) by {
            let i = choose|i: int| 0 <= i < from.len() && from[i] == s;
            assert(from[i].len() > 0);
        }
    }
}

/// Whether a job writes to one of the files that it reads. That two spellings name one
/// file is the platform's to say where not only the slash separates.
pub fn clashes(spec: &Spec) -> (r: bool)
    requires
        spec.wf(),
    ensures
        refusal_fits(spec.map(), r),
        exists|same: Seq<bool>|
            answers_fit(sources_of(spec.map()), text_at(spec.map(), "output"@), same) && r == #[trigger] written_over(
                spec.map(),
                same,
            ),
{
    let same = answers(spec);
    proof {
        lemma_answers_decide(spec.map(), same@);
    }
    writes_over(spec, &same)
}

/// What pressing Run leads to.
#[derive(Debug)]
pub enum Run {
    /// No tool is open.
    Nothing,
    /// The form cannot run; this is why.
    Refused(String),
    /// The job to submit.
    Ready(Spec),
}

/// What is said of a job that would write over its source.
pub const CLASH: &'static str = "Output path equals the source — pick a different output.";

/// What is said of a job that is queued or runs already.
pub const DUPLICATE: &'static str = "This exact job is already queued or running.";

/// Pressing Run once the job is built, `same` telling of each of its sources whether it
/// is the file that the job writes. `missing` lists the paths of the form that do not
/// exist.
pub fn run_with(form: &Form, missing: &Vec<String>, spec: Spec, same: &Vec<bool>) -> (r: Run)
    requires
        form.wf(),
        spec.wf(),
        same@.len() == sources_of(spec.map()).len(),
    ensures
        if form.kind@.len() == 0 {
            r is Nothing
        } else {
            match first_error(fields_of(form.kind@), *form, views(missing@)) {
                Some(e) => r matches Run::Refused(s) && s@ == e,
                None => if written_over(spec.map(), same@) {
                    r matches Run::Refused(s) && s@ == CLASH@
                } else {
                    r == Run::Ready(spec)
                },
            }
        },
{
    if form.kind.as_str().is_empty() {
        return Run::Nothing;
    }
    match validate(form, missing) {
        Some(e) => {
            return Run::Refused(e);
        },
        None => {},
    }
    if writes_over(&spec, same) {
        return Run::Refused(CLASH.to_owned());
    }
    Run::Ready(spec)
}

/// Pressing Run. `missing` lists the paths of the form that do not exist, `home`
/// is the user's folder of downloads. A job that is ready keeps every file that it
/// reads; see [`refusal_fits`].
pub fn run_form(form: &Form, missing: &Vec<String>, home: &str) -> (r: Run)
    requires
        form.wf(),
    ensures
        r is Nothing <==> form.kind@.len() == 0,
        form.kind@.len() > 0 ==> match first_error(fields_of(form.kind@), *form, views(missing@)) {
            Some(e) => r matches Run::Refused(s) && s@ == e,
            None => exists|p: Place|
                {
                    &&& refusal_fits(#[trigger] spec_of(*form, p, home@), r is Refused)
                    &&& stands(p, source_of(*form))
                    &&& match r {
                        Run::Refused(s) => s@ == CLASH@,
                        Run::Ready(s) => s.wf() && s.map() == spec_of(*form, p, home@),
                        Run::Nothing => false,
                    }
                },
        },
{
    let spec = tools_build_spec(form, home);
    let same = answers(&spec);
    proof {
        lemma_answers_decide(spec.map(), same@);
        let p = choose|p: Place| spec.map() == #[trigger] spec_of(*form, p, home@) && stands(p, source_of(*form));
        assert(spec_of(*form, p, home@) == spec.map());
    }
    run_with(form, missing, spec, &same)
}

/// What a job that is ready meets in the queue: a twin of it that waits or runs
/// keeps it out. Where the queue could not be asked, it goes in.
pub fn submission(duplicate: Option<bool>) -> (r: Option<&'static str>)
    ensures
        match r {
            Some(s) => duplicate == Some(true) && s@ == DUPLICATE@,
            None => duplicate != Some(true),
        },
{
    match duplicate {
        Some(true) => Some(DUPLICATE),
        _ => None,
    }
}

/// Of the paths of a list the first that is missing is named, and none where none is.
pub proof fn law_the_first_missing_path_is_named(paths: Seq<Seq<char>>, missing: Seq<Seq<char>>)
    ensures
        (exists|i: int|
            0 <= i < paths.len() && missing.contains((#[trigger] paths[i])) && first_missing(paths, missing) == Some(paths[i]) && forall|j: int|
                0 <= j < i ==> !(missing.contains((#[trigger] paths[j])))) || ((forall|i: int| 0 <= i < paths.len() ==> !(missing.contains((#[trigger] paths[i])))) && first_missing(paths, missing) is None),
    decreases paths.len(),
{
    if paths.len() > 0 {
        if missing.contains(paths[0]) {
            assert(missing.contains(paths[0]) && first_missing(paths, missing) == Some(paths[0]));
        } else {
            let rest = paths.skip(1);
            law_the_first_missing_path_is_named(rest, missing);
            assert forall|i: int| 0 <= i < rest.len() implies (#[trigger] rest[i]) == paths[i + 1] by {}
            if exists|i: int|
            0 <= i < rest.len() && missing.contains((#[trigger] rest[i])) && first_missing(rest, missing) == Some(rest[i]) && forall|j: int|
                0 <= j < i ==> !(missing.contains((#[trigger] rest[j]))) {
                let i = choose|i: int|
                    0 <= i < rest.len() && missing.contains((#[trigger] rest[i])) && first_missing(rest, missing) == Some(rest[i]) && forall|j: int|
                        0 <= j < i ==> !(missing.contains((#[trigger] rest[j])));
                assert(missing.contains(paths[i + 1]) && first_missing(paths, missing) == Some(paths[i + 1]));
                assert forall|j: int| 0 <= j < i + 1 implies !(missing.contains((#[trigger] paths[j]))) by {
                    if j > 0 {
                        assert(!(missing.contains(rest[j - 1])));
                    }
                }
            } else {
                assert forall|i: int| 0 <= i < paths.len() implies !(missing.contains((#[trigger] paths[i]))) by {
                    if i > 0 {
                        assert(!(missing.contains(rest[i - 1])));
                    }
                }
            }
        }
    }
}

/// A form is faulted for the first of its fields that has something wrong, and passes where
/// none has.
pub proof fn law_the_first_fault_is_named(fields: Seq<FieldView>, form: Form, missing: Seq<Seq<char>>)
    ensures
        (exists|i: int|
            0 <= i < fields.len() && (field_error((#[trigger] fields[i]), form, missing) is Some) && first_error(fields, form, missing) == field_error(fields[i], form, missing) && forall|j: int|
                0 <= j < i ==> !((field_error((#[trigger] fields[j]), form, missing) is Some))) || ((forall|i: int| 0 <= i < fields.len() ==> !((field_error((#[trigger] fields[i]), form, missing) is Some))) && first_error(fields, form, missing) is None),
    decreases fields.len(),
{
    if fields.len() > 0 {
        if (field_error(fields[0], form, missing) is Some) {
            assert((field_error(fields[0], form, missing) is Some) && first_error(fields, form, missing) == field_error(fields[0], form, missing));
        } else {
            let rest = fields.skip(1);
            law_the_first_fault_is_named(rest, form, missing);
            assert forall|i: int| 0 <= i < rest.len() implies (#[trigger] rest[i]) == fields[i + 1] by {}
            if exists|i: int|
            0 <= i < rest.len() && (field_error((#[trigger] rest[i]), form, missing) is Some) && first_error(rest, form, missing) == field_error(rest[i], form, missing) && forall|j: int|
                0 <= j < i ==> !((field_error((#[trigger] rest[j]), form, missing) is Some)) {
                let i = choose|i: int|
                    0 <= i < rest.len() && (field_error((#[trigger] rest[i]), form, missing) is Some) && first_error(rest, form, missing) == field_error(rest[i], form, missing) && forall|j: int|
                        0 <= j < i ==> !((field_error((#[trigger] rest[j]), form, missing) is Some));
                assert((field_error(fields[i + 1], form, missing) is Some) && first_error(fields, form, missing) == field_error(fields[i + 1], form, missing));
                assert forall|j: int| 0 <= j < i + 1 implies !((field_error((#[trigger] fields[j]), form, missing) is Some)) by {
                    if j > 0 {
                        assert(!((field_error(rest[j - 1], form, missing) is Some)));
                    }
                }
            } else {
                assert forall|i: int| 0 <= i < fields.len() implies !((field_error((#[trigger] fields[i]), form, missing) is Some)) by {
                    if i > 0 {
                        assert(!((field_error(rest[i - 1], form, missing) is Some)));
                    }
                }
            }
        }
    }
}


/// A field is faulted where it is required and blank; where it asks for a number and has none;
/// where it asks for a file or a folder that is not there; and for nothing else.
pub proof fn law_a_field_is_faulted_for_what_it_asks(f: FieldView, form: Form, missing: Seq<Seq<char>>, v: Seq<char>)
    requires
        v == (match form.look(f.key) {
            Some(t) => trim(t),
            None => Seq::empty(),
        }),
    ensures
        ({
            let e = field_error(f, form, missing);
            &&& v.len() == 0 && f.required ==> e == Some(f.label + " is required"@)
            &&& v.len() == 0 && !f.required ==> e is None
            &&& v.len() > 0 && (f.kind == "number"@ || f.kind == "slider"@) && !is_number(v) ==> e == Some(f.label + " must be a number"@)
            &&& v.len() > 0 && (f.kind == "number"@ || f.kind == "slider"@) && is_number(v) ==> e is None
            &&& v.len() > 0 && (f.kind == "file"@ || f.kind == "folder"@) && missing.contains(v) ==> e == Some(
                f.label + ": not found — "@ + v,
            )
            &&& v.len() > 0 && (f.kind == "file"@ || f.kind == "folder"@) && !missing.contains(v) ==> e is None
            &&& v.len() > 0 && f.kind == "files"@ ==> (e is None) == (forall|i: int|
                0 <= i < listed(v).len() ==> !missing.contains(#[trigger] listed(v)[i]))
            &&& v.len() > 0 && (f.kind == "text"@ || f.kind == "dropdown"@ || f.kind == "toggle"@) ==> e is None
        }),
{
    reveal_strlit("number");
    reveal_strlit("slider");
    reveal_strlit("file");
    reveal_strlit("folder");
    reveal_strlit("files");
    reveal_strlit("text");
    reveal_strlit("dropdown");
    reveal_strlit("toggle");
    assert("number"@.len() == 6 && "slider"@.len() == 6 && "file"@.len() == 4 && "folder"@.len() == 6 && "files"@.len() == 5 && "text"@.len() == 4 && "dropdown"@.len() == 8 && "toggle"@.len() == 6);
    assert("number"@[0] == 'n' && "slider"@[0] == 's' && "folder"@[0] == 'f' && "toggle"@[0] == 't' && "file"@[0] == 'f' && "text"@[0] == 't');
    let all = listed(v);
    law_the_first_missing_path_is_named(all, missing);
    if first_missing(all, missing) is Some {
        let i = choose|i: int| 0 <= i < all.len() && missing.contains(#[trigger] all[i]);
        assert(missing.contains(listed(v)[i]));
    }
}

/// The paths that are looked for are those that some field names, and no other.
pub proof fn law_every_named_path_is_looked_for(fields: Seq<FieldView>, form: Form, path: Seq<char>)
    ensures
        all_named(fields, form).contains(path) <==> exists|i: int| 0 <= i < fields.len() && named(#[trigger] fields[i], form).contains(path),
    decreases fields.len(),
{
    let all = all_named(fields, form);
    if fields.len() > 0 {
        let front = fields.drop_last();
        let (a, b) = (all_named(front, form), named(fields.last(), form));
        law_every_named_path_is_looked_for(front, form, path);
        if all.contains(path) {
            let k = choose|k: int| 0 <= k < all.len() && all[k] == path;
            if k < a.len() {
                assert(a[k] == path);
                let i = choose|i: int| 0 <= i < front.len() && named(#[trigger] front[i], form).contains(path);
                assert(fields[i] == front[i]);
            } else {
                assert(b[k - a.len()] == path);
                assert(named(fields[fields.len() - 1], form).contains(path));
            }
        }
        if exists|i: int| 0 <= i < fields.len() && named(#[trigger] fields[i], form).contains(path) {
            let i = choose|i: int| 0 <= i < fields.len() && named(#[trigger] fields[i], form).contains(path);
            if i < front.len() {
                assert(front[i] == fields[i]);
                let k = choose|k: int| 0 <= k < a.len() && a[k] == path;
                assert(all[k] == path);
            } else {
                let k = choose|k: int| 0 <= k < b.len() && b[k] == path;
                assert(all[a.len() + k] == path);
            }
        }
    }
}

/// A field for files names every file of its list, one for a file or a folder what was
/// typed, and any other nothing.
pub proof fn law_a_field_names_its_paths(f: FieldView, form: Form)
    ensures
        ({
            let v = match form.look(f.key) {
                Some(t) => trim(t),
                None => Seq::empty(),
            };
            &&& v.len() == 0 ==> named(f, form).len() == 0
            &&& v.len() > 0 && (f.kind == "file"@ || f.kind == "folder"@) ==> named(f, form) == seq![v]
            &&& v.len() > 0 && f.kind == "files"@ ==> named(f, form) == listed(v)
            &&& f.kind != "file"@ && f.kind != "folder"@ && f.kind != "files"@ ==> named(f, form).len() == 0
        }),
{
    reveal_strlit("file");
    reveal_strlit("folder");
    reveal_strlit("files");
    assert("file"@.len() == 4 && "folder"@.len() == 6 && "files"@.len() == 5);
}

/// A job reads its input, its subtitles and its list of inputs, and nothing else.
pub proof fn law_a_job_reads_what_it_names(m: Map<Seq<char>, SpecView>, s: Seq<char>)
    ensures
        reads(m, s) <==> s.len() > 0 && ({
            ||| m.dom().contains("input"@) && m["input"@] == SpecView::Text(s)
            ||| m.dom().contains("sub"@) && m["sub"@] == SpecView::Text(s)
            ||| m.dom().contains("inputs"@) && (m["inputs"@] matches SpecView::Files(fs) && fs.contains(s))
        }),
{
    let a = listed_once(text_at(m, "input"@));
    let b = listed_once(text_at(m, "sub"@));
    let c = if m.dom().contains("inputs"@) {
        match m["inputs"@] {
            SpecView::Files(fs) => fs,
            _ => Seq::empty(),
        }
    } else {
        Seq::empty()
    };
    let all = sources_of(m);
    assert(all =~= a + b + c);
    if all.contains(s) {
        let k = choose|k: int| 0 <= k < all.len() && all[k] == s;
        if k < a.len() {
            assert(a[k] == s);
        } else if k < a.len() + b.len() {
            assert(b[k - a.len()] == s);
        } else {
            assert(c[k - a.len() - b.len()] == s);
        }
    }
    if a.contains(s) {
        let k = choose|k: int| 0 <= k < a.len() && a[k] == s;
        assert(all[k] == s);
    }
    if b.contains(s) {
        let k = choose|k: int| 0 <= k < b.len() && b[k] == s;
        assert(all[a.len() + k] == s);
    }
    if c.contains(s) {
        let k = choose|k: int| 0 <= k < c.len() && c[k] == s;
        assert(all[a.len() + b.len() + k] == s);
    }
    if m.dom().contains("input"@) && m["input"@] == SpecView::Text(s) {
        assert(a[0] == s);
    }
    if m.dom().contains("sub"@) && m["sub"@] == SpecView::Text(s) {
        assert(b[0] == s);
    }
}

} // verus!
