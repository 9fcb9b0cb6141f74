//! How sizes, rates and times of media read, and the rows of a media report.

use vstd::prelude::*;
use crate::double::{of_nat, ordinary, p2, quotient, Double, Number};
use crate::find::{strip_tail, without_tail};
use crate::outside::{json_at, json_count, json_items, json_value};
use crate::text::{
    cut, dec, dec_two, divide, pair_view, push_dec, push_dec_two, same, split_once, trunc_div, views, zero_fill,
};

verus! {

/// `x` over two to the power `k`.
pub open spec fn over(x: Double, k: int) -> Double {
    if x.m == 0 { x } else { Double { neg: x.neg, m: x.m, e: (x.e - k) as i32 } }
}

fn scale_down(x: &Double, k: i32) -> (r: Double)
    requires
        ordinary(*x),
        0 <= k <= 100,
    ensures
        r == over(*x, k as int),
        r.wf(),
{
    if x.m == 0 {
        *x
    } else {
        Double { neg: x.neg, m: x.m, e: x.e - k }
    }
}

/// A byte count, compact: one decimal from a megabyte on.
pub open spec fn human_text(n: nat) -> Seq<char> {
    if n >= 1_073_741_824 {
        over(of_nat(n), 30).text(1) + " GB"@
    } else if n >= 1_048_576 {
        over(of_nat(n), 20).text(1) + " MB"@
    } else if n >= 1024 {
        over(of_nat(n), 10).text(0) + " KB"@
    } else {
        dec(n) + " B"@
    }
}

/// See [`human_text`].
pub fn human_bytes(n: u64) -> (r: String)
    ensures
        r@ == human_text(n as nat),
{
    let mut out = String::new();
    assert(out@ =~= Seq::<char>::empty());
    let x = Double::from_u64(n);
    if n >= 1_073_741_824 {
        let y = scale_down(&x, 30);
        y.push_text(&mut out, 1);
        assert(out@ =~= y.text(1));
        out.append(" GB");
    } else if n >= 1_048_576 {
        let y = scale_down(&x, 20);
        y.push_text(&mut out, 1);
        assert(out@ =~= y.text(1));
        out.append(" MB");
    } else if n >= 1024 {
        let y = scale_down(&x, 10);
        y.push_text(&mut out, 0);
        assert(out@ =~= y.text(0));
        out.append(" KB");
    } else {
        push_dec(&mut out, n);
        assert(out@ =~= dec(n as nat));
        out.append(" B");
    }
    out
}

/// The name of the unit of 1024 to the power `i` bytes.
pub open spec fn unit_name(i: nat) -> Seq<char> {
    if i == 0 {
        " B"@
    } else if i == 1 {
        " KB"@
    } else if i == 2 {
        " MB"@
    } else if i == 3 {
        " GB"@
    } else {
        " TB"@
    }
}

/// A number divided by 1024 until it is below 1024, four times at most, and how
/// often that was.
pub open spec fn stepped(x: Number, i: nat) -> (Number, nat)
    decreases 4 - i,
{
    if i < 4 && x.reaches(1024) {
        stepped(
            match x {
                Number::Finite(d) => Number::Finite(over(d, 10)),
                _ => x,
            },
            i + 1,
        )
    } else {
        (x, i)
    }
}

/// A size as a report states it; nothing where it is no number.
pub open spec fn size_text(x: Option<Number>) -> Seq<char> {
    match x {
        Some(b) => {
            let (y, i) = stepped(b, 0);
            y.text(1) + unit_name(i)
        },
        None => Seq::empty(),
    }
}

/// A size in bytes, as a report states it: binary steps up to a terabyte, one
/// decimal. `x` is what the size reads as a number, nothing where it is none.
pub fn fmt_bytes(x: &Option<Number>) -> (r: String)
    requires
        x matches Some(b) ==> b.wf(),
    ensures
        r@ == size_text(*x),
{
    let mut out = String::new();
    assert(out@ =~= Seq::<char>::empty());
    let b = match x {
        Some(b) => *b,
        None => {
            return out;
        },
    };
    let mut y = b;
    let mut i: usize = 0;
    while i < 4 && y.at_least(1024)
        invariant
            i <= 4,
            y.wf(),
            stepped(b, 0) == stepped(y, i as nat),
            y matches Number::Finite(d) ==> i > 0 ==> d.m == 0 || d.e >= -1130,
        decreases 4 - i,
    {
        let ghost was = y;
        y = match y {
            Number::Finite(d) => {
                proof {
                    if d.m != 0 && d.e < -100 {
                        lemma_small_floor(d);
                    }
                }
                Number::Finite(scale_down(&d, 10))
            },
            Number::Infinite(neg) => Number::Infinite(neg),
            Number::Nan => Number::Nan,
        };
        i = i + 1;
    }
    y.push_text(&mut out, 1);
    assert(out@ =~= y.text(1));
    let unit = match i {
        0 => " B",
        1 => " KB",
        2 => " MB",
        3 => " GB",
        _ => " TB",
    };
    out.append(unit);
    out
}

/// A double with a small exponent is below one.
proof fn lemma_small_floor(d: Double)
    requires
        d.wf(),
        d.e < -100,
    ensures
        d.floor() == 0,
{
    crate::double::lemma_p2_values();
    crate::double::lemma_p2_mono(53, (-d.e) as nat);
    let m = d.m as nat;
    assert(m * 1 == m);
    vstd::arithmetic::div_mod::lemma_basic_div(m as int, crate::double::p2((-d.e) as nat) as int);
}

/// A number over a count.
pub open spec fn per(x: Number, n: nat) -> Number {
    match x {
        Number::Finite(d) => Number::Finite(quotient(d, of_nat(n))),
        _ => x,
    }
}

/// A bitrate as a report states it; nothing where it is no number.
pub open spec fn bitrate_text(x: Option<Number>) -> Seq<char> {
    match x {
        Some(b) => if b.reaches(1_000_000) {
            per(b, 1_000_000).text(1) + " Mbps"@
        } else {
            per(b, 1000).text(0) + " kbps"@
        },
        None => Seq::empty(),
    }
}

fn push_per(out: &mut String, x: &Number, n: u64, k: u32)
    requires
        x.wf(),
        n > 0,
        k <= 5,
    ensures
        final(out)@ == old(out)@ + per(*x, n as nat).text(k as nat),
{
    match x {
        Number::Finite(d) => {
            let q = d.div(&Double::from_u64(n));
            q.push_text(out, k);
        },
        _ => x.push_text(out, k),
    }
}

/// See [`bitrate_text`].
pub fn fmt_bitrate(x: &Option<Number>) -> (r: String)
    requires
        x matches Some(b) ==> b.wf(),
    ensures
        r@ == bitrate_text(*x),
{
    let mut out = String::new();
    assert(out@ =~= Seq::<char>::empty());
    match x {
        Some(b) => {
            if b.at_least(1_000_000) {
                push_per(&mut out, b, 1_000_000, 1);
                assert(out@ =~= per(*b, 1_000_000).text(1));
                out.append(" Mbps");
            } else {
                push_per(&mut out, b, 1000, 0);
                assert(out@ =~= per(*b, 1000).text(0));
                out.append(" kbps");
            }
        },
        None => {},
    }
    out
}

/// What is left of `a` over `b`, with the sign of `a`.
pub open spec fn rest_of(a: int, b: int) -> int {
    a - b * trunc_div(a, b)
}

/// Hours, minutes and seconds, each in at least two places.
pub open spec fn hms(t: int) -> Seq<char> {
    dec_two(trunc_div(t, 3600)) + ":"@ + dec_two(trunc_div(rest_of(t, 3600), 60)) + ":"@ + dec_two(rest_of(t, 60))
}

/// A duration as a report states it; nothing where it is no number.
pub open spec fn duration_text(x: Option<Number>) -> Seq<char> {
    match x {
        Some(s) => hms(s.truncated()),
        None => Seq::empty(),
    }
}

fn remainder(a: i64, b: i64) -> (r: i64)
    requires
        0 < b <= 3600,
    ensures
        r == rest_of(a as int, b as int),
        -b < r < b,
{
    let q = divide(a, b);
    proof {
        let (x, y, z) = (a as int, b as int, q as int);
        if x >= 0 {
            vstd::arithmetic::div_mod::lemma_fundamental_div_mod(x, y);
            assert(y * z == z * y) by (nonlinear_arith);
        } else {
            vstd::arithmetic::div_mod::lemma_fundamental_div_mod(-x, y);
            assert(z == -((-x) / y));
            assert(y * z == -(y * ((-x) / y))) by (nonlinear_arith)
                requires
                    z == -((-x) / y),
            ;
        }
        assert(y * z == z * y) by (nonlinear_arith);
    }
    a - q * b
}

/// See [`duration_text`].
pub fn fmt_duration(x: &Option<Number>) -> (r: String)
    requires
        x matches Some(s) ==> s.wf(),
    ensures
        r@ == duration_text(*x),
{
    let mut out = String::new();
    assert(out@ =~= Seq::<char>::empty());
    match x {
        Some(s) => {
            let t: i64 = s.to_truncated();
            push_dec_two(&mut out, divide(t, 3600));
            assert(out@ =~= dec_two(trunc_div(t as int, 3600)));
            out.append(":");
            push_dec_two(&mut out, divide(remainder(t, 3600), 60));
            out.append(":");
            push_dec_two(&mut out, remainder(t, 60));
        },
        None => {},
    }
    out
}

/// The quotient of a number and a positive number.
pub open spec fn ratio(n: Number, d: Number) -> Number {
    match (n, d) {
        (Number::Nan, _) => Number::Nan,
        (Number::Infinite(neg), Number::Finite(_)) => Number::Infinite(neg),
        (Number::Infinite(_), _) => Number::Nan,
        (Number::Finite(a), Number::Finite(b)) => Number::Finite(quotient(a, b)),
        (Number::Finite(a), _) => Number::Finite(Double { neg: a.neg, m: 0, e: 0 }),
    }
}

/// Above zero.
pub open spec fn positive(d: Number) -> bool {
    match d {
        Number::Finite(x) => !x.neg && x.m > 0,
        Number::Infinite(neg) => !neg,
        Number::Nan => false,
    }
}

/// A frame rate given as a fraction: three decimals, none where all three are
/// zero; nothing where one side is no number or the denominator is not positive.
pub open spec fn fps_text(n: Option<Number>, d: Option<Number>) -> Seq<char> {
    match (n, d) {
        (Some(n), Some(d)) => if positive(d) {
            without_tail(ratio(n, d).text(3), ".000"@) + " fps"@
        } else {
            Seq::empty()
        },
        _ => Seq::empty(),
    }
}

/// See [`fps_text`].
pub fn fmt_fps(n: &Option<Number>, d: &Option<Number>) -> (r: String)
    requires
        n matches Some(x) ==> x.wf(),
        d matches Some(x) ==> x.wf(),
    ensures
        r@ == fps_text(*n, *d),
{
    let none = String::new();
    assert(none@ =~= Seq::<char>::empty());
    let (n, d) = match (n, d) {
        (Some(n), Some(d)) => (n, d),
        _ => {
            return none;
        },
    };
    let mut out = String::new();
    assert(out@ =~= Seq::<char>::empty());
    match (n, d) {
        (_, Number::Nan) => {
            return none;
        },
        (_, Number::Infinite(neg)) => {
            if *neg {
                return none;
            }
            match n {
                Number::Finite(a) => {
                    let z = Double { neg: a.neg, m: 0, e: 0 };
                    z.push_text(&mut out, 3);
                },
                _ => {
                    Number::Nan.push_text(&mut out, 3);
                },
            }
        },
        (_, Number::Finite(b)) => {
            if b.neg || b.m == 0 {
                return none;
            }
            match n {
                Number::Finite(a) => {
                    a.div(b).push_text(&mut out, 3);
                },
                _ => {
                    n.push_text(&mut out, 3);
                },
            }
        },
    }
    assert(out@ =~= ratio(*n, *d).text(3));
    let mut s = strip_tail(out.as_str(), ".000");
    s.append(" fps");
    s
}

/// What a probe says of a file as a whole.
#[derive(Debug)]
pub struct ProbedFormat {
    pub long_name: String,
    pub duration: Option<Number>,
    pub size: Option<Number>,
    pub bit_rate: Option<Number>,
    pub streams: String,
}

/// What a probe says of one stream of a file. The frame rate is a fraction.
#[derive(Debug)]
pub struct ProbedStream {
    pub codec_type: String,
    pub codec_name: String,
    pub width: String,
    pub height: String,
    pub pix_fmt: String,
    pub frames: Option<Number>,
    pub seconds: Option<Number>,
    pub bit_rate: Option<Number>,
    pub channels: String,
    pub sample_rate: String,
    pub language: String,
}

/// What a probe says of a file.
#[derive(Debug)]
pub struct Probe {
    pub format: Option<ProbedFormat>,
    pub streams: Vec<ProbedStream>,
}

/// The text that a probe has at a JSON pointer, a value that is no string as JSON writes
/// it; empty where it has none.
pub open spec fn text_in(data: Seq<u8>, pointer: Seq<char>) -> Seq<char> {
    match json_at(data, pointer) {
        Some((_, t)) => t,
        None => Seq::empty(),
    }
}

/// The string that a probe has at a JSON pointer; empty where it has none.
pub open spec fn word_in(data: Seq<u8>, pointer: Seq<char>) -> Seq<char> {
    match json_at(data, pointer) {
        Some((string, t)) => if string { t } else { Seq::empty() },
        None => Seq::empty(),
    }
}

fn text_of(data: &[u8], pointer: &str) -> (r: String)
    ensures
        r@ == text_in(data@, pointer@),
{
    match json_value(data, pointer) {
        Some((_, t)) => t,
        None => {
            let s = String::new();
            assert(s@ =~= Seq::<char>::empty());
            s
        },
    }
}

fn word_of(data: &[u8], pointer: &str) -> (r: String)
    ensures
        r@ == word_in(data@, pointer@),
{
    match json_value(data, pointer) {
        Some((true, t)) => t,
        _ => {
            let s = String::new();
            assert(s@ =~= Seq::<char>::empty());
            s
        },
    }
}

/// The texts that a probe has of a file as a whole.
#[derive(Debug)]
pub struct FormatTexts {
    pub long_name: String,
    pub duration: String,
    pub size: String,
    pub bit_rate: String,
    pub streams: String,
}

/// The texts that a probe has of one stream of a file; the frame rate is cut into its two
/// sides where it is a fraction.
#[derive(Debug)]
pub struct StreamTexts {
    pub codec_type: String,
    pub codec_name: String,
    pub width: String,
    pub height: String,
    pub pix_fmt: String,
    pub rate: Option<(String, String)>,
    pub bit_rate: String,
    pub channels: String,
    pub sample_rate: String,
    pub language: String,
}

/// The texts that a probe has of a file.
#[derive(Debug)]
pub struct ProbeTexts {
    pub format: Option<FormatTexts>,
    pub streams: Vec<StreamTexts>,
}

/// The texts are those of a probe's `format`.
pub open spec fn format_in(data: Seq<u8>, f: FormatTexts) -> bool {
    &&& f.long_name@ == text_in(data, "/format/format_long_name"@)
    &&& f.duration@ == text_in(data, "/format/duration"@)
    &&& f.size@ == text_in(data, "/format/size"@)
    &&& f.bit_rate@ == text_in(data, "/format/bit_rate"@)
    &&& f.streams@ == text_in(data, "/format/nb_streams"@)
}

/// The pointer to something of a stream.
pub open spec fn stream_pointer(i: nat, key: Seq<char>) -> Seq<char> {
    "/streams/"@ + dec(i) + key
}

/// The texts are those of a probe's stream `i`.
pub open spec fn stream_in(data: Seq<u8>, i: nat, s: StreamTexts) -> bool {
    &&& s.codec_type@ == text_in(data, stream_pointer(i, "/codec_type"@))
    &&& s.codec_name@ == text_in(data, stream_pointer(i, "/codec_name"@))
    &&& s.width@ == text_in(data, stream_pointer(i, "/width"@))
    &&& s.height@ == text_in(data, stream_pointer(i, "/height"@))
    &&& s.pix_fmt@ == text_in(data, stream_pointer(i, "/pix_fmt"@))
    &&& pair_view(s.rate) == cut(text_in(data, stream_pointer(i, "/r_frame_rate"@)), '/')
    &&& s.bit_rate@ == text_in(data, stream_pointer(i, "/bit_rate"@))
    &&& s.channels@ == text_in(data, stream_pointer(i, "/channels"@))
    &&& s.sample_rate@ == text_in(data, stream_pointer(i, "/sample_rate"@))
    &&& s.language@ == word_in(data, stream_pointer(i, "/tags/language"@))
}

fn pointer_to(i: u64, key: &str) -> (r: String)
    ensures
        r@ == stream_pointer(i as nat, key@),
{
    let mut s = "/streams/".to_owned();
    push_dec(&mut s, i);
    s.append(key);
    s
}

fn stream_texts(data: &[u8], i: u64) -> (r: StreamTexts)
    ensures
        stream_in(data@, i as nat, r),
{
    let rate = text_of(data, pointer_to(i, "/r_frame_rate").as_str());
    StreamTexts {
        codec_type: text_of(data, pointer_to(i, "/codec_type").as_str()),
        codec_name: text_of(data, pointer_to(i, "/codec_name").as_str()),
        width: text_of(data, pointer_to(i, "/width").as_str()),
        height: text_of(data, pointer_to(i, "/height").as_str()),
        pix_fmt: text_of(data, pointer_to(i, "/pix_fmt").as_str()),
        rate: split_once(rate.as_str(), '/'),
        bit_rate: text_of(data, pointer_to(i, "/bit_rate").as_str()),
        channels: text_of(data, pointer_to(i, "/channels").as_str()),
        sample_rate: text_of(data, pointer_to(i, "/sample_rate").as_str()),
        language: word_of(data, pointer_to(i, "/tags/language").as_str()),
    }
}

/// The texts of a report out of the bytes that the probe printed; nothing where they are
/// no JSON.
pub fn probe_texts(data: &[u8]) -> (r: Option<ProbeTexts>)
    ensures
        r is Some <==> json_at(data@, ""@) is Some,
        r matches Some(p) ==> {
            &&& p.format is Some <==> json_at(data@, "/format"@) is Some
            &&& p.format matches Some(f) ==> format_in(data@, f)
            &&& p.streams@.len() == (match json_count(data@, "/streams"@) {
                Some(n) => n,
                None => 0,
            })
            &&& forall|i: int| 0 <= i < p.streams@.len() ==> stream_in(data@, i as nat, #[trigger] p.streams@[i])
        },
{
    if json_value(data, "").is_none() {
        return None;
    }
    let format = if json_value(data, "/format").is_some() {
        Some(
            FormatTexts {
                long_name: text_of(data, "/format/format_long_name"),
                duration: text_of(data, "/format/duration"),
                size: text_of(data, "/format/size"),
                bit_rate: text_of(data, "/format/bit_rate"),
                streams: text_of(data, "/format/nb_streams"),
            },
        )
    } else {
        None
    };
    let count: usize = match json_items(data, "/streams") {
        Some(n) => n,
        None => 0,
    };
    let mut streams: Vec<StreamTexts> = Vec::new();
    let mut i: usize = 0;
    while i < count
        invariant
            i <= count,
            streams@.len() == i,
            forall|j: int| 0 <= j < i ==> stream_in(data@, j as nat, #[trigger] streams@[j]),
        decreases count - i,
    {
        streams.push(stream_texts(data, i as u64));
        i = i + 1;
    }
    Some(ProbeTexts { format, streams })
}

/// A number that was read is well formed.
pub open spec fn number_ok(x: Option<Number>) -> bool {
    x matches Some(n) ==> n.wf()
}

impl ProbedStream {
    /// The numbers of the stream are well formed.
    pub open spec fn wf(&self) -> bool {
        number_ok(self.frames) && number_ok(self.seconds) && number_ok(self.bit_rate)
    }
}

impl Probe {
    /// The numbers of the probe are well formed.
    pub open spec fn wf(&self) -> bool {
        &&& self.format matches Some(f) ==> number_ok(f.duration) && number_ok(f.size) && number_ok(f.bit_rate)
        &&& forall|i: int| 0 <= i < self.streams@.len() ==> (#[trigger] self.streams@[i]).wf()
    }
}

/// How many of a probe's texts stand for figures of the file as a whole.
pub open spec fn format_figures(t: ProbeTexts) -> int {
    if t.format is Some { 3 } else { 0 }
}

/// The sides of a frame rate, empty where it is no fraction.
pub open spec fn sides(rate: Option<(String, String)>) -> (Seq<char>, Seq<char>) {
    match pair_view(rate) {
        Some(p) => p,
        None => (Seq::empty(), Seq::empty()),
    }
}

/// The texts of a probe that are figures: length, size and bitrate of the file, then of
/// each stream the two sides of its frame rate and its bitrate.
pub open spec fn are_figures(t: ProbeTexts, v: Seq<Seq<char>>) -> bool {
    let base = format_figures(t);
    &&& v.len() == base + 3 * t.streams@.len()
    &&& t.format matches Some(f) ==> v[0] == f.duration@ && v[1] == f.size@ && v[2] == f.bit_rate@
    &&& forall|i: int|
        0 <= i < t.streams@.len() ==> {
            let s = #[trigger] t.streams@[i];
            &&& v[base + 3 * i] == sides(s.rate).0
            &&& v[base + 3 * i + 1] == sides(s.rate).1
            &&& v[base + 3 * i + 2] == s.bit_rate@
        }
}

/// See [`are_figures`].
pub fn figures(t: &ProbeTexts) -> (r: Vec<String>)
    ensures
        are_figures(*t, views(r@)),
{
    let mut out: Vec<String> = Vec::new();
    match &t.format {
        Some(f) => {
            out.push(f.duration.clone());
            out.push(f.size.clone());
            out.push(f.bit_rate.clone());
        },
        None => {},
    }
    let ghost base = format_figures(*t);
    let mut i: usize = 0;
    while i < t.streams.len()
        invariant
            i <= t.streams@.len(),
            base == format_figures(*t),
            out@.len() == base + 3 * i,
            t.format matches Some(f) ==> out@[0]@ == f.duration@ && out@[1]@ == f.size@ && out@[2]@ == f.bit_rate@,
            forall|j: int|
                0 <= j < i ==> {
                    let s = #[trigger] t.streams@[j];
                    &&& out@[base + 3 * j]@ == sides(s.rate).0
                    &&& out@[base + 3 * j + 1]@ == sides(s.rate).1
                    &&& out@[base + 3 * j + 2]@ == s.bit_rate@
                },
        decreases t.streams@.len() - i,
    {
        let s = &t.streams[i];
        match &s.rate {
            Some((n, d)) => {
                out.push(n.clone());
                out.push(d.clone());
            },
            None => {
                let (n, d) = (String::new(), String::new());
                assert(n@ =~= Seq::<char>::empty());
                assert(d@ =~= Seq::<char>::empty());
                out.push(n);
                out.push(d);
            },
        }
        out.push(s.bit_rate.clone());
        i = i + 1;
    }
    out
}

/// A probe is made of texts and of what their figures read as numbers.
pub open spec fn made_of(p: Probe, t: ProbeTexts, read: Seq<Option<Number>>) -> bool {
    let base = format_figures(t);
    &&& p.format is Some <==> t.format is Some
    &&& p.format matches Some(g) ==> {
        let f = t.format->0;
        &&& g.long_name == f.long_name
        &&& g.duration == read[0]
        &&& g.size == read[1]
        &&& g.bit_rate == read[2]
        &&& g.streams == f.streams
    }
    &&& p.streams@.len() == t.streams@.len()
    &&& forall|i: int|
        0 <= i < t.streams@.len() ==> {
            let (q, s) = (#[trigger] p.streams@[i], t.streams@[i]);
            &&& q.codec_type@ == s.codec_type@
            &&& q.codec_name@ == s.codec_name@
            &&& q.width@ == s.width@
            &&& q.height@ == s.height@
            &&& q.pix_fmt@ == s.pix_fmt@
            &&& q.frames == read[base + 3 * i]
            &&& q.seconds == read[base + 3 * i + 1]
            &&& q.bit_rate == read[base + 3 * i + 2]
            &&& q.channels@ == s.channels@
            &&& q.sample_rate@ == s.sample_rate@
            &&& q.language@ == s.language@
        }
}

/// The probe of some texts, `read` being what their figures read as numbers.
pub fn probe_of(t: ProbeTexts, read: &Vec<Option<Number>>) -> (r: Probe)
    requires
        read@.len() == format_figures(t) + 3 * t.streams@.len(),
        forall|i: int| 0 <= i < read@.len() ==> number_ok(#[trigger] read@[i]),
    ensures
        made_of(r, t, read@),
        r.wf(),
{
    let ghost was = t;
    let ghost base = format_figures(t);
    let (format, mut at): (Option<ProbedFormat>, usize) = match t.format {
        Some(f) => (
            Some(
                ProbedFormat {
                    long_name: f.long_name,
                    duration: read[0],
                    size: read[1],
                    bit_rate: read[2],
                    streams: f.streams,
                },
            ),
            3,
        ),
        None => (None, 0),
    };
    let from = t.streams;
    let count: usize = read.len();
    let mut streams: Vec<ProbedStream> = Vec::new();
    let mut i: usize = 0;
    while i < from.len()
        invariant
            i <= from@.len(),
            from == was.streams,
            base == format_figures(was),
            at == base + 3 * i,
            count == read@.len(),
            read@.len() == base + 3 * from@.len(),
            forall|j: int| 0 <= j < read@.len() ==> number_ok(#[trigger] read@[j]),
            streams@.len() == i,
            forall|j: int|
                0 <= j < i ==> {
                    let (q, s) = (#[trigger] streams@[j], from@[j]);
                    &&& q.codec_type@ == s.codec_type@
                    &&& q.codec_name@ == s.codec_name@
                    &&& q.width@ == s.width@
                    &&& q.height@ == s.height@
                    &&& q.pix_fmt@ == s.pix_fmt@
                    &&& q.frames == read@[base + 3 * j]
                    &&& q.seconds == read@[base + 3 * j + 1]
                    &&& q.bit_rate == read@[base + 3 * j + 2]
                    &&& q.channels@ == s.channels@
                    &&& q.sample_rate@ == s.sample_rate@
                    &&& q.language@ == s.language@
                    &&& q.wf()
                },
        decreases from@.len() - i,
    {
        let s = &from[i];
        assert(number_ok(read@[at as int]) && number_ok(read@[at + 1]) && number_ok(read@[at + 2]));
        streams.push(
            ProbedStream {
                codec_type: s.codec_type.clone(),
                codec_name: s.codec_name.clone(),
                width: s.width.clone(),
                height: s.height.clone(),
                pix_fmt: s.pix_fmt.clone(),
                frames: read[at],
                seconds: read[at + 1],
                bit_rate: read[at + 2],
                channels: s.channels.clone(),
                sample_rate: s.sample_rate.clone(),
                language: s.language.clone(),
            },
        );
        at = at + 3;
        i = i + 1;
    }
    Probe { format, streams }
}

/// One row of a media report: section, key and value.
#[derive(Debug)]
pub struct InfoRow {
    pub section: String,
    pub key: String,
    pub value: String,
}

/// What a row of a media report reads.
pub type InfoView = (Seq<char>, Seq<char>, Seq<char>);

impl View for InfoRow {
    type V = InfoView;

    open spec fn view(&self) -> InfoView {
        (self.section@, self.key@, self.value@)
    }
}

/// The rows as they read.
pub open spec fn info_view(v: Seq<InfoRow>) -> Seq<InfoView> {
    Seq::new(v.len(), |i: int| v[i]@)
}

/// The rows of a file as a whole.
pub open spec fn general_rows(f: ProbedFormat) -> Seq<InfoView> {
    seq![
        ("General"@, "Format"@, f.long_name@),
        ("General"@, "Duration"@, duration_text(f.duration)),
        ("General"@, "Size"@, size_text(f.size)),
        ("General"@, "Bitrate"@, bitrate_text(f.bit_rate)),
        ("General"@, "Streams"@, f.streams@),
    ]
}

/// The rows of the `n`-th stream of its type.
pub open spec fn stream_rows(s: ProbedStream, n: nat) -> Seq<InfoView> {
    if s.codec_type@ == "video"@ {
        let sec = "Video "@ + dec(n);
        seq![
            (sec, "Codec"@, s.codec_name@),
            (
                sec,
                "Resolution"@,
                if s.width@.len() == 0 { Seq::empty() } else { s.width@ + "×"@ + s.height@ },
            ),
            (sec, "Pixel format"@, s.pix_fmt@),
            (sec, "Frame rate"@, fps_text(s.frames, s.seconds)),
            (sec, "Bitrate"@, bitrate_text(s.bit_rate)),
        ]
    } else if s.codec_type@ == "audio"@ {
        let sec = "Audio "@ + dec(n);
        seq![
            (sec, "Codec"@, s.codec_name@),
            (sec, "Channels"@, s.channels@),
            (
                sec,
                "Sample rate"@,
                if s.sample_rate@.len() == 0 { Seq::empty() } else { s.sample_rate@ + " Hz"@ },
            ),
            (sec, "Bitrate"@, bitrate_text(s.bit_rate)),
            (sec, "Language"@, s.language@),
        ]
    } else if s.codec_type@ == "subtitle"@ {
        let sec = "Subtitle "@ + dec(n);
        seq![(sec, "Codec"@, s.codec_name@), (sec, "Language"@, s.language@)]
    } else {
        Seq::empty()
    }
}

/// How many of some streams are of a type.
pub open spec fn of_type(streams: Seq<ProbedStream>, t: Seq<char>) -> nat
    decreases streams.len(),
{
    if streams.len() == 0 {
        0
    } else {
        of_type(streams.drop_last(), t) + (if streams.last().codec_type@ == t { 1nat } else { 0nat })
    }
}

/// The rows of some streams, those of each type numbered from one.
pub open spec fn streams_rows(streams: Seq<ProbedStream>) -> Seq<InfoView>
    decreases streams.len(),
{
    if streams.len() == 0 {
        Seq::empty()
    } else {
        streams_rows(streams.drop_last()) + stream_rows(
            streams.last(),
            of_type(streams, streams.last().codec_type@),
        )
    }
}

/// The rows that say something.
pub open spec fn telling(rows: Seq<InfoView>) -> Seq<InfoView>
    decreases rows.len(),
{
    if rows.len() == 0 {
        Seq::empty()
    } else {
        let rest = telling(rows.drop_last());
        if rows.last().2.len() == 0 { rest } else { rest.push(rows.last()) }
    }
}

/// The report of a probe, row by row; rows without a value are left out.
pub open spec fn report_rows(p: Probe) -> Seq<InfoView> {
    telling(
        (match p.format {
            Some(f) => general_rows(f),
            None => Seq::empty(),
        }) + streams_rows(p.streams@),
    )
}

fn info(section: &str, key: &str, value: String) -> (r: InfoRow)
    ensures
        r@ == (section@, key@, value@),
{
    InfoRow { section: section.to_owned(), key: key.to_owned(), value }
}

fn numbered(word: &str, n: u64) -> (r: String)
    ensures
        r@ == word@ + dec(n as nat),
{
    let mut s = word.to_owned();
    push_dec(&mut s, n);
    s
}

fn joined(a: &str, b: &str, c: &str) -> (r: String)
    ensures
        r@ == (if a@.len() == 0 { Seq::empty() } else { a@ + b@ + c@ }),
{
    let mut s = String::new();
    assert(s@ =~= Seq::<char>::empty());
    if !a.is_empty() {
        s.append(a);
        assert(s@ =~= a@);
        s.append(b);
        s.append(c);
    }
    s
}

fn rows_of_stream(s: &ProbedStream, n: u64) -> (r: Vec<InfoRow>)
    requires
        s.wf(),
    ensures
        info_view(r@) == stream_rows(*s, n as nat),
{
    let kind = s.codec_type.as_str();
    if same(kind, "video") {
        let sec = numbered("Video ", n);
        let r = vec![
            info(sec.as_str(), "Codec", s.codec_name.clone()),
            info(sec.as_str(), "Resolution", joined(s.width.as_str(), "×", s.height.as_str())),
            info(sec.as_str(), "Pixel format", s.pix_fmt.clone()),
            info(sec.as_str(), "Frame rate", fmt_fps(&s.frames, &s.seconds)),
            info(sec.as_str(), "Bitrate", fmt_bitrate(&s.bit_rate)),
        ];
        assert(info_view(r@) =~= stream_rows(*s, n as nat));
        r
    } else if same(kind, "audio") {
        let sec = numbered("Audio ", n);
        let rate = joined(s.sample_rate.as_str(), " Hz", "");
        assert(s.sample_rate@ + " Hz"@ + ""@ =~= s.sample_rate@ + " Hz"@) by {
            reveal_strlit("");
        }
        let r = vec![
            info(sec.as_str(), "Codec", s.codec_name.clone()),
            info(sec.as_str(), "Channels", s.channels.clone()),
            info(sec.as_str(), "Sample rate", rate),
            info(sec.as_str(), "Bitrate", fmt_bitrate(&s.bit_rate)),
            info(sec.as_str(), "Language", s.language.clone()),
        ];
        assert(info_view(r@) =~= stream_rows(*s, n as nat));
        r
    } else if same(kind, "subtitle") {
        let sec = numbered("Subtitle ", n);
        let r = vec![
            info(sec.as_str(), "Codec", s.codec_name.clone()),
            info(sec.as_str(), "Language", s.language.clone()),
        ];
        assert(info_view(r@) =~= stream_rows(*s, n as nat));
        r
    } else {
        let r: Vec<InfoRow> = Vec::new();
        assert(info_view(r@) =~= stream_rows(*s, n as nat));
        r
    }
}

fn keep_telling(rows: Vec<InfoRow>) -> (r: Vec<InfoRow>)
    ensures
        info_view(r@) == telling(info_view(rows@)),
{
    let ghost all = info_view(rows@);
    let mut out: Vec<InfoRow> = Vec::new();
    let mut i: usize = 0;
    assert(all.take(0) =~= Seq::<InfoView>::empty());
    assert(info_view(out@) =~= Seq::<InfoView>::empty());
    while i < rows.len()
        invariant
            i <= rows@.len(),
            all == info_view(rows@),
            info_view(out@) == telling(all.take(i as int)),
        decreases rows@.len() - i,
    {
        assert(all.take(i + 1).drop_last() =~= all.take(i as int));
        assert(all.take(i + 1).last() == rows@[i as int]@);
        if !rows[i].value.as_str().is_empty() {
            let ghost was = info_view(out@);
            out.push(info(rows[i].section.as_str(), rows[i].key.as_str(), rows[i].value.clone()));
            assert(info_view(out@) =~= was.push(rows@[i as int]@));
        }
        i = i + 1;
    }
    assert(all.take(i as int) =~= all);
    out
}

/// See [`report_rows`].
pub fn mediainfo_rows(p: &Probe) -> (r: Vec<InfoRow>)
    requires
        p.wf(),
    ensures
        info_view(r@) == report_rows(*p),
{
    let mut rows: Vec<InfoRow> = Vec::new();
    match &p.format {
        Some(f) => {
            rows = vec![
                info("General", "Format", f.long_name.clone()),
                info("General", "Duration", fmt_duration(&f.duration)),
                info("General", "Size", fmt_bytes(&f.size)),
                info("General", "Bitrate", fmt_bitrate(&f.bit_rate)),
                info("General", "Streams", f.streams.clone()),
            ];
            assert(info_view(rows@) =~= general_rows(*f));
        },
        None => {
            assert(info_view(rows@) =~= Seq::<InfoView>::empty());
        },
    }
    let ghost base = info_view(rows@);
    let ghost all = p.streams@;
    let (mut videos, mut audios, mut subs): (u64, u64, u64) = (0, 0, 0);
    let mut i: usize = 0;
    assert(all.take(0) =~= Seq::<ProbedStream>::empty());
    assert(base + streams_rows(all.take(0)) =~= base);
    let count: usize = p.streams.len();
    while i < count
        invariant
            i <= p.streams@.len(),
            count == p.streams@.len(),
            p.wf(),
            all == p.streams@,
            videos == of_type(all.take(i as int), "video"@),
            audios == of_type(all.take(i as int), "audio"@),
            subs == of_type(all.take(i as int), "subtitle"@),
            videos <= i,
            audios <= i,
            subs <= i,
            info_view(rows@) == base + streams_rows(all.take(i as int)),
        decreases p.streams@.len() - i,
    {
        let ghost next = all.take(i + 1);
        assert(next.drop_last() =~= all.take(i as int));
        assert(next.last() == all[i as int]);
        let ghost was = info_view(rows@);
        let s = &p.streams[i];
        let kind = s.codec_type.as_str();
        let mut n: u64 = 0;
        proof {
            reveal_strlit("video");
            reveal_strlit("audio");
            reveal_strlit("subtitle");
            assert("video"@[0] != "audio"@[0]);
            assert("video"@.len() != "subtitle"@.len());
            assert("audio"@.len() != "subtitle"@.len());
        }
        if same(kind, "video") {
            videos = videos + 1;
            n = videos;
        } else if same(kind, "audio") {
            audios = audios + 1;
            n = audios;
        } else if same(kind, "subtitle") {
            subs = subs + 1;
            n = subs;
        }
        let mut more = rows_of_stream(s, n);
        let ghost added = info_view(more@);
        assert(added == stream_rows(*s, of_type(next, s.codec_type@)));
        rows.append(&mut more);
        assert(info_view(rows@) =~= was + added);
        assert(info_view(rows@) =~= base + streams_rows(next));
        i = i + 1;
    }
    assert(all.take(i as int) =~= all);
    keep_telling(rows)
}

/// As many streams are counted of a type as are of it.
pub proof fn law_streams_are_counted_by_type(streams: Seq<ProbedStream>, t: Seq<char>)
    ensures
        of_type(streams, t) == streams.filter(|x: ProbedStream| x.codec_type@ == t).len(),
    decreases streams.len(),
{
    reveal(Seq::filter);
    let p = |x: ProbedStream| x.codec_type@ == t;
    if streams.len() > 0 {
        let front = streams.drop_last();
        law_streams_are_counted_by_type(front, t);
        let kept = front.filter(p);
        assert(streams.filter(p) == (if p(streams.last()) { kept.push(streams.last()) } else { kept }));
    }
}

/// The report has the rows that say something, all of them, in order.
pub proof fn law_a_report_leaves_out_what_says_nothing(rows: Seq<InfoView>)
    ensures
        telling(rows) == rows.filter(|x: InfoView| x.2.len() > 0),
    decreases rows.len(),
{
    reveal(Seq::filter);
    let p = |x: InfoView| x.2.len() > 0;
    let wanted = rows.filter(|x: InfoView| x.2.len() > 0);
    if rows.len() > 0 {
        let front = rows.drop_last();
        law_a_report_leaves_out_what_says_nothing(front);
        let kept = front.filter(p);
        assert(rows.filter(p) == (if p(rows.last()) { kept.push(rows.last()) } else { kept }));
        assert(front.filter(|x: InfoView| x.2.len() > 0) == telling(front));
    }
    assert(telling(rows) =~= wanted);
}


/// The rows of a stream stand behind those of the streams before it, and the stream is
/// numbered among those of its type, from one.
pub proof fn law_streams_are_numbered_within_their_type(a: Seq<ProbedStream>, s: ProbedStream)
    ensures
        streams_rows(a.push(s)) == streams_rows(a) + stream_rows(s, a.filter(|x: ProbedStream| x.codec_type@ == s.codec_type@).len() + 1),
        streams_rows(Seq::empty()) == Seq::<InfoView>::empty(),
{
    assert(a.push(s).drop_last() =~= a);
    let t = s.codec_type@;
    law_streams_are_counted_by_type(a, t);
    assert((|x: ProbedStream| x.codec_type@ == t) =~= (|x: ProbedStream| x.codec_type@ == s.codec_type@));
}

/// What a report says of a picture: codec, width and height, pixel format, frame rate and
/// bitrate; of sound: codec, channels, sample rate, bitrate and language; of subtitles:
/// codec and language. Of anything else it says nothing.
pub proof fn law_a_report_says_what_a_stream_is(s: ProbedStream, n: nat)
    ensures
        s.codec_type@ == "video"@ ==> ({
            let r = stream_rows(s, n);
            &&& r.len() == 5
            &&& forall|i: int| 0 <= i < 5 ==> (#[trigger] r[i]).0 == "Video "@ + dec(n)
            &&& r[0].1 == "Codec"@ && r[0].2 == s.codec_name@
            &&& r[1].1 == "Resolution"@ && (s.width@.len() > 0 ==> r[1].2 == s.width@ + "×"@ + s.height@)
            &&& r[2].1 == "Pixel format"@ && r[2].2 == s.pix_fmt@
            &&& r[3].1 == "Frame rate"@ && r[3].2 == fps_text(s.frames, s.seconds)
            &&& r[4].1 == "Bitrate"@ && r[4].2 == bitrate_text(s.bit_rate)
        }),
        s.codec_type@ == "audio"@ ==> ({
            let r = stream_rows(s, n);
            &&& r.len() == 5
            &&& forall|i: int| 0 <= i < 5 ==> (#[trigger] r[i]).0 == "Audio "@ + dec(n)
            &&& r[0].1 == "Codec"@ && r[0].2 == s.codec_name@
            &&& r[1].1 == "Channels"@ && r[1].2 == s.channels@
            &&& r[2].1 == "Sample rate"@ && (s.sample_rate@.len() > 0 ==> r[2].2 == s.sample_rate@ + " Hz"@)
            &&& r[3].1 == "Bitrate"@ && r[3].2 == bitrate_text(s.bit_rate)
            &&& r[4].1 == "Language"@ && r[4].2 == s.language@
        }),
        s.codec_type@ == "subtitle"@ ==> ({
            let r = stream_rows(s, n);
            &&& r.len() == 2
            &&& forall|i: int| 0 <= i < 2 ==> (#[trigger] r[i]).0 == "Subtitle "@ + dec(n)
            &&& r[0].1 == "Codec"@ && r[0].2 == s.codec_name@
            &&& r[1].1 == "Language"@ && r[1].2 == s.language@
        }),
        s.codec_type@ != "video"@ && s.codec_type@ != "audio"@ && s.codec_type@ != "subtitle"@ ==> stream_rows(s, n).len() == 0,
{
    reveal_strlit("video");
    reveal_strlit("audio");
    reveal_strlit("subtitle");
    assert("video"@.len() == 5 && "audio"@.len() == 5 && "subtitle"@.len() == 8);
    assert("video"@[0] == 'v' && "audio"@[0] == 'a');
}

/// A duration is its hours, minutes and seconds, each in two places.
pub proof fn law_a_duration_is_said_in_full(hours: nat, minutes: nat, seconds: nat)
    requires
        minutes < 60,
        seconds < 60,
    ensures
        hms(hours as int * 3600 + minutes * 60 + seconds) == zero_fill(dec(hours), 2) + ":"@ + zero_fill(dec(minutes), 2) + ":"@
            + zero_fill(dec(seconds), 2),
{
    let t = hours as int * 3600 + minutes * 60 + seconds;
    assert(t / 3600 == hours);
    assert(rest_of(t, 3600) == minutes * 60 + seconds);
    assert((minutes * 60 + seconds) / 60 == minutes);
    assert(t / 60 == hours * 60 + minutes);
    assert(rest_of(t, 60) == seconds);
}

/// A count of bytes is said in the largest unit that does not exceed it, and in exactly so
/// many of that unit before it is rounded.
pub proof fn law_a_size_is_said_in_its_unit(n: nat) -> (x: Double)
    requires
        n < 0x20_0000_0000_0000,
    ensures
        n < 0x400 ==> human_text(n) == dec(n) + " B"@,
        0x400 <= n < 0x10_0000 ==> human_text(n) == x.text(0) + " KB"@ && x.m * 0x400 == n * p2((-x.e) as nat),
        0x10_0000 <= n < 0x4000_0000 ==> human_text(n) == x.text(1) + " MB"@ && x.m * 0x10_0000 == n * p2((-x.e) as nat),
        0x4000_0000 <= n ==> human_text(n) == x.text(1) + " GB"@ && x.m * 0x4000_0000 == n * p2((-x.e) as nat),
        x.e <= 0,
{
    let d = of_nat(n);
    crate::double::law_small_integers_are_exact(n);
    let (m, e) = crate::double::nearest(n, 1, 0);
    assert(d.m == m && d.e == e);
    assert(crate::double::up(e) == 1) by {
        reveal_with_fuel(p2, 2);
    }
    assert(crate::double::down(e) == p2((-e) as nat)) by {
        reveal_with_fuel(p2, 2);
    }
    let g = p2((-e) as nat);
    assert(m * 1 == m);
    assert(m == n * g);
    if n >= 0x400 {
        let k: nat = if n >= 0x4000_0000 {
            30
        } else if n >= 0x10_0000 {
            20
        } else {
            10
        };
        crate::double::lemma_p2_pos((-e) as nat);
        assert(m > 0) by (nonlinear_arith)
            requires
                m == n * g,
                n > 0,
                g > 0,
        ;
        crate::double::lemma_p2_sum((-e) as nat, k);
        assert(p2(10) == 0x400 && p2(20) == 0x10_0000 && p2(30) == 0x4000_0000) by {
            reveal_with_fuel(p2, 31);
        }
        let u = p2(k);
        assert(m * u == n * (g * u)) by (nonlinear_arith)
            requires
                m == n * g,
        ;
        over(d, k as int)
    } else {
        Double { neg: false, m: 0, e: 0 }
    }
}

/// A bitrate from a million on is said in megabits to one decimal, a lower one in kilobits.
pub proof fn law_a_bitrate_is_said_in_its_unit(b: Number)
    ensures
        b.reaches(1_000_000) ==> bitrate_text(Some(b)) == per(b, 1_000_000).text(1) + " Mbps"@,
        !b.reaches(1_000_000) ==> bitrate_text(Some(b)) == per(b, 1000).text(0) + " kbps"@,
        bitrate_text(None).len() == 0,
        duration_text(None).len() == 0,
        size_text(None).len() == 0,
{
}

/// A frame rate is said only of a fraction whose lower side is above zero, and loses its
/// decimals where all are zero.
pub proof fn law_a_frame_rate_is_a_fraction(n: Number, d: Number, whole: Seq<char>)
    ensures
        fps_text(None, Some(d)).len() == 0 && fps_text(Some(n), None).len() == 0,
        !positive(d) ==> fps_text(Some(n), Some(d)).len() == 0,
        positive(d) && ratio(n, d).text(3) == whole + ".000"@ ==> fps_text(Some(n), Some(d)) == whole + " fps"@,
        positive(d) && !crate::find::ends(ratio(n, d).text(3), ".000"@) ==> fps_text(Some(n), Some(d)) == ratio(n, d).text(3) + " fps"@,
{
    crate::find::law_a_tail_comes_off_once(whole, ".000"@);
}

/// A report begins with the file as a whole: its format, duration, size, bitrate and streams,
/// each where it is known; the rows of the streams follow.
pub proof fn law_a_report_begins_with_the_file(p: Probe, f: ProbedFormat)
    requires
        p.format == Some(f),
    ensures
        report_rows(p) == (seq![
            ("General"@, "Format"@, f.long_name@),
            ("General"@, "Duration"@, duration_text(f.duration)),
            ("General"@, "Size"@, size_text(f.size)),
            ("General"@, "Bitrate"@, bitrate_text(f.bit_rate)),
            ("General"@, "Streams"@, f.streams@),
        ] + streams_rows(p.streams@)).filter(|x: InfoView| x.2.len() > 0),
{
    law_a_report_leaves_out_what_says_nothing(general_rows(f) + streams_rows(p.streams@));
}

/// What a probe has at a place is taken as it is; only where a word is asked for must it be a
/// string, and what is missing is empty. A stream is found by its number.
pub proof fn law_a_probe_is_read_by_its_places(data: Seq<u8>, pointer: Seq<char>, i: nat)
    ensures
        json_at(data, pointer) matches Some((string, t)) ==> text_in(data, pointer) == t && (string ==> word_in(data, pointer) == t) && (!string ==> word_in(data, pointer).len() == 0),
        json_at(data, pointer) is None ==> text_in(data, pointer).len() == 0 && word_in(data, pointer).len() == 0,
        stream_pointer(i, pointer) == "/streams/"@ + dec(i) + pointer,
{
}

/// The texts of a stream are what the probe has of it, each under its own name.
pub proof fn law_a_stream_is_read_by_its_names(data: Seq<u8>, i: nat, s: StreamTexts, f: FormatTexts)
    ensures
        stream_in(data, i, s) ==> ({
            let at = |key: Seq<char>| text_in(data, "/streams/"@ + dec(i) + key);
            &&& s.codec_type@ == at("/codec_type"@) && s.codec_name@ == at("/codec_name"@) && s.width@ == at("/width"@) && s.height@ == at("/height"@)
            &&& s.pix_fmt@ == at("/pix_fmt"@) && s.bit_rate@ == at("/bit_rate"@) && s.channels@ == at("/channels"@) && s.sample_rate@ == at("/sample_rate"@)
            &&& pair_view(s.rate) == cut(at("/r_frame_rate"@), '/')
            &&& s.language@ == word_in(data, "/streams/"@ + dec(i) + "/tags/language"@)
        }),
        format_in(data, f) ==> f.long_name@ == text_in(data, "/format/format_long_name"@) && f.duration@ == text_in(data, "/format/duration"@) && f.size@ == text_in(
            data,
            "/format/size"@,
        ) && f.bit_rate@ == text_in(data, "/format/bit_rate"@) && f.streams@ == text_in(data, "/format/nb_streams"@),
{
}

/// Each figure of a probe is what its own text reads as.
pub proof fn law_a_figure_is_what_its_text_reads_as(p: Probe, t: ProbeTexts, read: Seq<Option<Number>>, texts: Seq<Seq<char>>, i: int)
    requires
        made_of(p, t, read),
        are_figures(t, texts),
        0 <= i < t.streams@.len(),
    ensures
        ({
            let base = if t.format is Some { 3int } else { 0 };
            let (q, s) = (p.streams@[i], t.streams@[i]);
            &&& p.streams@.len() == t.streams@.len()
            &&& q.frames == read[base + 3 * i] && q.seconds == read[base + 3 * i + 1] && q.bit_rate == read[base + 3 * i + 2]
            &&& texts[base + 3 * i + 2] == s.bit_rate@
            &&& pair_view(s.rate) matches Some((a, b)) ==> texts[base + 3 * i] == a && texts[base + 3 * i + 1] == b
            &&& q.codec_name@ == s.codec_name@ && q.codec_type@ == s.codec_type@ && q.width@ == s.width@ && q.height@ == s.height@ && q.channels@ == s.channels@
            &&& q.pix_fmt@ == s.pix_fmt@ && q.sample_rate@ == s.sample_rate@ && q.language@ == s.language@
            &&& t.format matches Some(f) ==> (p.format matches Some(g) && g.duration == read[0] && g.size == read[1] && g.bit_rate == read[2] && g.long_name == f.long_name
                && texts[0] == f.duration@ && texts[1] == f.size@ && texts[2] == f.bit_rate@)
        }),
{
    let (q, s) = (p.streams@[i], t.streams@[i]);
    assert(q.frames == read[format_figures(t) + 3 * i]);
    assert(texts[format_figures(t) + 3 * i + 2] == s.bit_rate@);
}

} // verus!
