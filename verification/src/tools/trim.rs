//! The timeline editor: the segments to keep, how they are cut and joined, and
//! what the editor says.

use vstd::prelude::*;
use crate::double::{below, of_nat, ordinary, quotient, Double};
use crate::text::{dec, join, join_strings, push_dec, views};
use crate::outside::{name_fits, parent_fits};
use crate::tools::paths::{beside_source, beside_text, ext_of, ext_text};

verus! {

/// The segments to keep, each by its two ends in seconds.
#[derive(Debug)]
pub struct Segments {
    pub list: Vec<(Double, Double)>,
}

impl Segments {
    /// No segment.
    pub fn new() -> (r: Segments)
        ensures
            r.list@ == Seq::<(Double, Double)>::empty(),
    {
        Segments { list: Vec::new() }
    }

    /// Forgets every segment.
    pub fn clear(&mut self)
        ensures
            final(self).list@ == Seq::<(Double, Double)>::empty(),
    {
        self.list = Vec::new();
    }

    /// Puts a segment behind the others.
    pub fn push(&mut self, from: Double, to: Double)
        ensures
            final(self).list@ == old(self).list@.push((from, to)),
    {
        self.list.push((from, to));
    }

    /// Takes a segment out; a number that no segment has changes nothing.
    pub fn remove(&mut self, i: i64)
        ensures
            final(self).list@ == (if 0 <= i < old(self).list@.len() {
                old(self).list@.remove(i as int)
            } else {
                old(self).list@
            }),
    {
        if 0 <= i && (i as u64) < self.list.len() as u64 {
            self.list.remove(i as usize);
        }
    }
}

/// What the editor says while it is opened without a source.
pub const PICK_FIRST: &'static str = "Pick a source video first (use Choose… above), then Open timeline editor.";

/// What the editor says while the timeline is drawn.
pub const DRAWING: &'static str = "Generating timeline… (decoding video + audio)";

/// What the editor says of a file that it cannot read.
pub const UNREADABLE: &'static str = "Could not read this file (is it a valid video?)";

/// What the editor opens with: whether a timeline is drawn, and what it says.
pub fn trim_editor(input: &str) -> (r: (bool, &'static str))
    ensures
        r.0 == (input@.len() > 0),
        r.1@ == (if input@.len() > 0 { DRAWING@ } else { PICK_FIRST@ }),
{
    if input.is_empty() {
        (false, PICK_FIRST)
    } else {
        (true, DRAWING)
    }
}

/// What the editor says once the timeline is drawn: nothing where the file has a
/// length.
pub fn drawn_status(length: &Double) -> (r: &'static str)
    requires
        length.wf(),
    ensures
        r@ == (if !length.neg && length.m > 0 { ""@ } else { UNREADABLE@ }),
{
    if !length.neg && length.m > 0 {
        ""
    } else {
        UNREADABLE
    }
}

/// How often a frame is taken so that twenty go over the whole: one a second
/// where the file is no longer than a second.
pub open spec fn strip_filter(length: Double) -> Seq<char> {
    "fps="@ + (if !length.neg && below(of_nat(1), length) {
        quotient(of_nat(20), length).text(5)
    } else {
        "1"@
    }) + ",scale=-1:104,tile=20x1"@
}

/// See [`strip_filter`].
pub fn filmstrip_filter(length: &Double) -> (r: String)
    requires
        ordinary(*length),
    ensures
        r@ == strip_filter(*length),
{
    let mut s = "fps=".to_owned();
    let one = Double::from_u64(1);
    if !length.neg && one.is_below(length) {
        assert(length.m > 0) by {
            if length.m == 0 {
                let d = crate::double::down(one.e - length.e);
                assert(0 * d == 0) by (nonlinear_arith);
            }
        }
        Double::from_u64(20).div(length).push_text(&mut s, 5);
    } else {
        s.append("1");
    }
    s.append(",scale=-1:104,tile=20x1");
    s
}

/// How a segment is cut out. The two ends are given as texts.
pub open spec fn cut_args(input: Seq<char>, from: Seq<char>, to: Seq<char>, part: Seq<char>) -> Seq<Seq<char>> {
    seq![
        "-y"@,
        "-ss"@,
        from,
        "-to"@,
        to,
        "-i"@,
        input,
        "-c:v"@,
        "libx264"@,
        "-preset"@,
        "veryfast"@,
        "-c:a"@,
        "aac"@,
        part,
    ]
}

/// See [`cut_args`].
pub fn cut_call(input: &str, from: &str, to: &str, part: &str) -> (r: Vec<String>)
    ensures
        views(r@) == cut_args(input@, from@, to@, part@),
{
    let r = vec![
        "-y".to_owned(),
        "-ss".to_owned(),
        from.to_owned(),
        "-to".to_owned(),
        to.to_owned(),
        "-i".to_owned(),
        input.to_owned(),
        "-c:v".to_owned(),
        "libx264".to_owned(),
        "-preset".to_owned(),
        "veryfast".to_owned(),
        "-c:a".to_owned(),
        "aac".to_owned(),
        part.to_owned(),
    ];
    assert(views(r@) =~= cut_args(input@, from@, to@, part@));
    r
}

/// How the parts on a list are joined.
pub open spec fn concat_args(list: Seq<char>, output: Seq<char>) -> Seq<Seq<char>> {
    seq!["-y"@, "-f"@, "concat"@, "-safe"@, "0"@, "-i"@, list, "-c"@, "copy"@, output]
}

/// See [`concat_args`].
pub fn concat_call(list: &str, output: &str) -> (r: Vec<String>)
    ensures
        views(r@) == concat_args(list@, output@),
{
    let r = vec![
        "-y".to_owned(),
        "-f".to_owned(),
        "concat".to_owned(),
        "-safe".to_owned(),
        "0".to_owned(),
        "-i".to_owned(),
        list.to_owned(),
        "-c".to_owned(),
        "copy".to_owned(),
        output.to_owned(),
    ];
    assert(views(r@) =~= concat_args(list@, output@));
    r
}

/// The lines of the list of parts.
pub open spec fn part_lines(parts: Seq<Seq<char>>) -> Seq<Seq<char>> {
    Seq::new(parts.len(), |i: int| "file '"@ + parts[i] + "'"@)
}

/// The list of parts that the joining reads.
pub fn concat_body(parts: &Vec<String>) -> (r: String)
    ensures
        r@ == join(part_lines(views(parts@)), "\n"@),
{
    let mut lines: Vec<String> = Vec::new();
    let mut i: usize = 0;
    while i < parts.len()
        invariant
            i <= parts@.len(),
            lines@.len() == i,
            forall|j: int| 0 <= j < i ==> (#[trigger] lines@[j])@ == "file '"@ + parts@[j]@ + "'"@,
        decreases parts@.len() - i,
    {
        let mut s = "file '".to_owned();
        s.append(parts[i].as_str());
        s.append("'");
        lines.push(s);
        i = i + 1;
    }
    assert(views(lines@) =~= part_lines(views(parts@)));
    join_strings(&lines, "\n")
}

/// What failed when segment `i`, counted from nothing, could not be cut.
pub fn cut_failure(i: u32) -> (r: String)
    ensures
        r@ == "cut "@ + dec((i + 1) as nat) + " failed"@,
{
    let mut s = "cut ".to_owned();
    push_dec(&mut s, i as u64 + 1);
    s.append(" failed");
    s
}

/// Where the joined segments go, nothing where there is no source or no segment.
pub fn trim_output(input: &str, segments: usize) -> (r: Option<String>)
    ensures
        r is Some <==> input@.len() > 0 && segments > 0,
        r matches Some(s) ==> exists|parent: Option<Seq<char>>, name: Option<Seq<char>>, own: Option<Seq<char>>, sep: char|
            {
                &&& s@ == #[trigger] beside_text(parent, name, sep, "trimmed"@, #[trigger] ext_text(own))
                &&& parent_fits(input@, parent)
                &&& name_fits(input@, name)
                &&& name_fits(input@, own)
                &&& sep == '/' || sep == '\\'
            },
{
    if input.is_empty() || segments == 0 {
        return None;
    }
    let ext = ext_of(input);
    let r = beside_source(input, "trimmed", ext.as_str());
    proof {
        let own = choose|own: Option<Seq<char>>| ext@ == #[trigger] ext_text(own) && name_fits(input@, own);
        let (parent, name, sep) = choose|parent: Option<Seq<char>>, name: Option<Seq<char>>, sep: char|
            {
                &&& r@ == #[trigger] beside_text(parent, name, sep, "trimmed"@, ext@)
                &&& parent_fits(input@, parent)
                &&& name_fits(input@, name)
                &&& sep == '/' || sep == '\\'
            };
        assert(r@ == beside_text(parent, name, sep, "trimmed"@, ext_text(own)));
    }
    Some(r)
}

/// What the editor says when the joining ended.
pub open spec fn joined_text(out: Seq<char>, error: Option<Seq<char>>) -> Seq<char> {
    match error {
        Some(e) => "Failed: "@ + e,
        None => "Saved → "@ + out,
    }
}

/// See [`joined_text`].
pub fn joined_status(out: &str, error: &Option<String>) -> (r: String)
    ensures
        r@ == joined_text(out@, crate::status::figures::opt_string(*error)),
{
    match error {
        Some(e) => {
            let mut s = "Failed: ".to_owned();
            s.append(e.as_str());
            s
        },
        None => {
            let mut s = "Saved → ".to_owned();
            s.append(out);
            s
        },
    }
}

/// A segment is cut out between its two ends and encoded anew.
pub proof fn law_a_segment_is_cut_between_its_ends(input: Seq<char>, from: Seq<char>, to: Seq<char>, part: Seq<char>)
    ensures
        ({
            let a = cut_args(input, from, to, part);
            &&& a.len() == 14
            &&& a[0] == "-y"@ && a[1] == "-ss"@ && a[2] == from && a[3] == "-to"@ && a[4] == to && a[5] == "-i"@ && a[6] == input
            &&& a[7] == "-c:v"@ && a[8] == "libx264"@ && a[9] == "-preset"@ && a[10] == "veryfast"@ && a[11] == "-c:a"@ && a[12] == "aac"@
            &&& a[13] == part
        }),
{
}

/// The parts are joined in the order of their list, each on a line of its own, without
/// encoding them again.
pub proof fn law_parts_are_joined_in_order(parts: Seq<Seq<char>>, list: Seq<char>, output: Seq<char>, i: int)
    requires
        0 <= i < parts.len(),
    ensures
        part_lines(parts).len() == parts.len(),
        part_lines(parts)[i] == "file '"@ + parts[i] + "'"@,
        ({
            let a = concat_args(list, output);
            &&& a.len() == 10
            &&& a[0] == "-y"@ && a[1] == "-f"@ && a[2] == "concat"@ && a[3] == "-safe"@ && a[4] == "0"@ && a[5] == "-i"@ && a[6] == list
            &&& a[7] == "-c"@ && a[8] == "copy"@ && a[9] == output
        }),
{
}

/// Frames are taken so that twenty go over the whole, one a second where it is no longer than
/// a second; the editor says where the result lies or why there is none.
pub proof fn law_twenty_frames_go_over_the_whole(length: Double, out: Seq<char>, e: Seq<char>)
    ensures
        !length.neg && below(of_nat(1), length) ==> strip_filter(length) == "fps="@ + quotient(of_nat(20), length).text(5) + ",scale=-1:104,tile=20x1"@,
        length.neg || !below(of_nat(1), length) ==> strip_filter(length) == "fps="@ + "1"@ + ",scale=-1:104,tile=20x1"@,
        joined_text(out, None) == "Saved → "@ + out,
        joined_text(out, Some(e)) == "Failed: "@ + e,
{
}

} // verus!
